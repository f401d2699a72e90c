//! The collection of recorded solves for one board extent, with the best
//! one kept at hand. Reading and writing the store on disk is file work
//! and lives with the caller.

use vstd::prelude::*;
use crate::stat::{stat_eq, Stat};

verus! {

/// All recorded solves, newest first, and the fastest among them.
#[derive(Debug)]
pub struct Stats {
    pub solves: Vec<Stat>,
    pub best: Option<Stat>,
}

impl Default for Stats {
    fn default() -> (s: Self)
        ensures
            s.solves@.len() == 0,
            s.best is None,
    {
        Stats { solves: Vec::new(), best: None }
    }
}

impl Stats {
    /// Gets the recorded solves, newest first.
    pub fn solves(&self) -> (r: &Vec<Stat>)
        ensures
            r@ == self.solves@,
    {
        &self.solves
    }

    /// Gets the fastest recorded solve, if any.
    pub fn best(&self) -> (r: &Option<Stat>)
        ensures
            *r == self.best,
    {
        &self.best
    }

    /// Records a solve: it goes to the front of the list, and becomes the
    /// best exactly when it is strictly faster than the current best (or
    /// there is none yet).
    pub fn add(&mut self, stat: Stat)
        ensures
            final(self).solves@.len() == old(self).solves@.len() + 1,
            final(self).solves@[0] == stat,
            forall|k: int|
                0 <= k < old(self).solves@.len() ==> final(self).solves@[k + 1]
                    == #[trigger] old(self).solves@[k],
            ({
                let took = match old(self).best {
                    Some(b) => stat.time_ms < b.time_ms,
                    None => true,
                };
                if took {
                    final(self).best matches Some(b) && stat_eq(b, stat)
                } else {
                    final(self).best == old(self).best
                }
            }),
    {
        let replace = match &self.best {
            Some(b) => stat.time_ms < b.time_ms,
            None => true,
        };
        if replace {
            self.best = Some(stat.clone());
        }
        self.solves.insert(0, stat);
    }
}

} // verus!
