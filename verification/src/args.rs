//! Command-line options as plain values, and the checks behind them.

use vstd::prelude::*;
use vstd::string::StrSliceExecFns;
use crate::digits::{all_digits, digits_value, parse_usize};
use crate::error::Error;
use crate::size::Size;

verus! {

/// What the program was asked to do.
#[derive(Debug, Clone, PartialEq, Eq, Structural)]
pub enum Action {
    Play,
    Config,
    Help,
}

impl Default for Action {
    fn default() -> (a: Self)
        ensures
            a is Play,
    {
        Action::Play
    }
}

/// The parsed options: an optional board extent and the action to take.
#[derive(Debug)]
pub struct Args {
    pub size: Option<Size>,
    pub action: Action,
}

impl Default for Args {
    fn default() -> (a: Self)
        ensures
            a.size is None,
            a.action is Play,
    {
        Args { size: None, action: Action::Play }
    }
}

impl Args {
    /// Reads the board extent from the two parameters following a size
    /// option. Each must be present and a decimal number, and both
    /// dimensions must be at least 2; anything else is rejected with
    /// [`Error::ConfigError`] and leaves the options untouched.
    pub fn parse_size(&mut self, width_arg: Option<&str>, height_arg: Option<&str>) -> (r:
        Result<(), Error>)
        ensures
            r is Ok <==> arg_is_num(width_arg) && arg_is_num(height_arg)
                && arg_num(width_arg) >= 2 && arg_num(height_arg) >= 2,
            r is Ok ==> final(self).size == Some(Size {
                width: arg_num(width_arg) as usize,
                height: arg_num(height_arg) as usize,
            }),
            r is Ok ==> final(self).action == old(self).action,
            r is Err ==> *final(self) == *old(self) && r->Err_0 == Error::ConfigError,
    {
        let width = match Self::get_num(width_arg) {
            Ok(n) => n,
            Err(e) => {
                return Err(e);
            }
        };
        let height = match Self::get_num(height_arg) {
            Ok(n) => n,
            Err(e) => {
                return Err(e);
            }
        };
        if width < 2 || height < 2 {
            return Err(Error::ConfigError);
        }
        self.size = Some(Size { width, height });
        Ok(())
    }

    /// Reads one numeric parameter. Succeeds exactly on a present,
    /// non-empty, all-digit argument whose value fits the machine word;
    /// everything else is [`Error::ConfigError`].
    pub fn get_num(arg: Option<&str>) -> (r: Result<usize, Error>)
        ensures
            r is Ok <==> arg_is_num(arg),
            r is Ok ==> r->Ok_0 == arg_num(arg),
            r is Err ==> r->Err_0 == Error::ConfigError,
    {
        match arg {
            None => Err(Error::ConfigError),
            Some(s) => match parse_usize(s) {
                Some(n) => Ok(n),
                None => Err(Error::ConfigError),
            },
        }
    }
}

/// Whether an optional argument is a parseable number.
pub open spec fn arg_is_num(arg: Option<&str>) -> bool {
    &&& arg is Some
    &&& arg->0@.len() > 0
    &&& all_digits(arg->0@)
    &&& digits_value(arg->0@) <= usize::MAX
}

/// The value of a numeric argument.
pub open spec fn arg_num(arg: Option<&str>) -> int {
    digits_value(arg->0@)
}

/// Compares two strings character by character.
pub fn str_eq(a: &str, b: &str) -> (r: bool)
    ensures
        r == (a@ == b@),
{
    let na = a.unicode_len();
    let nb = b.unicode_len();
    if na != nb {
        return false;
    }
    let mut i: usize = 0;
    while i < na
        invariant
            i <= na,
            na == a@.len(),
            na == b@.len(),
            forall|k: int| 0 <= k < i ==> a@[k] == b@[k],
        decreases na - i,
    {
        if a.get_char(i) != b.get_char(i) {
            return false;
        }
        i = i + 1;
    }
    proof {
        assert(a@ =~= b@);
    }
    true
}

} // verus!
