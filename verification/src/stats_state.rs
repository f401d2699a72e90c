//! The browsing state of the statistics screen: which solve is selected,
//! how far the list is scrolled, and how far the replay preview has
//! stepped through the selected solve's moves.

use vstd::prelude::*;

verus! {

/// List offset, selected solve, and replay offset of the stats screen.
#[derive(Debug, PartialEq, Eq, Structural)]
pub struct StatsState {
    pub offset: usize,
    pub selected: usize,
    pub move_offset: usize,
}

impl Default for StatsState {
    fn default() -> (s: Self)
        ensures
            s.offset == 0,
            s.selected == 0,
            s.move_offset == 0,
    {
        StatsState { offset: 0, selected: 0, move_offset: 0 }
    }
}

impl StatsState {
    /// Selects the next of `count` solves if one follows, and rewinds the
    /// replay preview.
    pub fn select_next(&mut self, count: usize)
        requires
            old(self).selected < usize::MAX,
        ensures
            final(self).move_offset == 0,
            final(self).offset == old(self).offset,
            final(self).selected == if old(self).selected + 1 < count {
                old(self).selected + 1
            } else {
                old(self).selected as int
            },
    {
        self.move_offset = 0;
        if self.selected + 1 < count {
            self.selected = self.selected + 1;
        }
    }

    /// Selects the previous solve if one exists, and rewinds the replay
    /// preview.
    pub fn select_prev(&mut self)
        ensures
            final(self).move_offset == 0,
            final(self).offset == old(self).offset,
            final(self).selected == if old(self).selected > 0 {
                old(self).selected - 1
            } else {
                0
            },
    {
        self.move_offset = 0;
        if self.selected > 0 {
            self.selected = self.selected - 1;
        }
    }

    /// Keeps the selected solve within the visible window of `height`
    /// rows: scrolls one row up when the selection nears the top, one row
    /// down when it nears the bottom, never past the end of the list.
    pub fn auto_scroll(&mut self, height: usize, count: usize)
        requires
            old(self).selected + 3 <= usize::MAX,
            old(self).offset + 3 <= usize::MAX,
            old(self).offset + height <= usize::MAX,
        ensures
            final(self).selected == old(self).selected,
            final(self).move_offset == old(self).move_offset,
            final(self).offset == ({
                let tail = if count >= height { count - height } else { 0 };
                if old(self).selected < old(self).offset + 3 {
                    if old(self).offset > 0 { old(self).offset - 1 } else { 0 }
                } else if old(self).selected + 3 >= old(self).offset + height {
                    if old(self).offset + 1 <= tail { old(self).offset + 1 } else { tail }
                } else {
                    old(self).offset as int
                }
            }),
    {
        if self.selected < self.offset + 3 {
            if self.offset > 0 {
                self.offset = self.offset - 1;
            }
        } else if self.selected + 3 >= self.offset + height {
            let tail = if count >= height { count - height } else { 0 };
            let next = self.offset + 1;
            self.offset = if next <= tail { next } else { tail };
        }
    }
}

} // verus!
