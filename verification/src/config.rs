//! The persistent configuration, as plain values. Loading and saving it
//! is file work and lives with the caller.

use vstd::prelude::*;
use crate::size::Size;

verus! {

/// Everything the configuration file can set.
#[derive(Debug, Copy, Clone, PartialEq, Eq, Structural)]
pub struct Config {
    pub default_size: Size,
}

impl Default for Config {
    /// Without a configuration file the game opens a 3 x 3 board.
    fn default() -> (c: Self)
        ensures
            c.default_size.width == 3,
            c.default_size.height == 3,
    {
        Config { default_size: Size { width: 3, height: 3 } }
    }
}

} // verus!
