//! One recorded solve: its duration, when it happened, and the move log
//! that, together with the end cursor, rebuilds its scramble.

use vstd::prelude::*;
use crate::digits::{dec_digits, digit_char, digit_str, usize_to_string};
use crate::vec2::Vec2;
use vstd::string::StringExecFns;

verus! {

/// A finished solve. The scramble itself is never stored: it is derived
/// from the move log and the end cursor by replaying the moves backwards.
#[derive(Debug)]
pub struct Stat {
    /// Duration of the solve in milliseconds.
    pub time_ms: usize,
    /// When the solve finished, in milliseconds since the Unix epoch.
    pub date_ms: i64,
    /// Number of moves played.
    pub moves_cnt: usize,
    /// The move log, tokens separated by spaces.
    pub moves: String,
    /// Cursor column when the solve ended.
    pub end_x: usize,
    /// Cursor row when the solve ended.
    pub end_y: usize,
}

/// The two records hold the same solve.
pub open spec fn stat_eq(a: Stat, b: Stat) -> bool {
    &&& a.time_ms == b.time_ms
    &&& a.date_ms == b.date_ms
    &&& a.moves_cnt == b.moves_cnt
    &&& a.moves@ == b.moves@
    &&& a.end_x == b.end_x
    &&& a.end_y == b.end_y
}

impl Clone for Stat {
    fn clone(&self) -> (r: Self)
        ensures
            stat_eq(r, *self),
    {
        Stat {
            time_ms: self.time_ms,
            date_ms: self.date_ms,
            moves_cnt: self.moves_cnt,
            moves: self.moves.clone(),
            end_x: self.end_x,
            end_y: self.end_y,
        }
    }
}

impl Stat {
    /// Creates a new [`Stat`] for a solve that just finished, stamped with
    /// the current time.
    pub fn new(time_ms: usize, moves_cnt: usize, moves: String, end: Vec2) -> (s: Self)
        ensures
            s.time_ms == time_ms,
            s.moves_cnt == moves_cnt,
            s.moves@ == moves@,
            s.end_x == end.x,
            s.end_y == end.y,
    {
        Stat { time_ms, date_ms: now_millis(), moves_cnt, moves, end_x: end.x, end_y: end.y }
    }

    /// Gets the duration of the solve in milliseconds.
    pub fn time(&self) -> (r: usize)
        ensures
            r == self.time_ms,
    {
        self.time_ms
    }

    /// Gets the move count.
    pub fn moves_cnt(&self) -> (r: usize)
        ensures
            r == self.moves_cnt,
    {
        self.moves_cnt
    }

    /// Gets the move log of the solve.
    pub fn moves(&self) -> (r: &String)
        ensures
            r@ == self.moves@,
    {
        &self.moves
    }

    /// Gets the cursor position the solve ended at.
    pub fn end(&self) -> (r: Vec2)
        ensures
            r.x == self.end_x,
            r.y == self.end_y,
    {
        Vec2::new(self.end_x, self.end_y)
    }

    /// Gets the timestamp of the solve, in milliseconds since the epoch.
    pub fn date(&self) -> (r: i64)
        ensures
            r == self.date_ms,
    {
        self.date_ms
    }

    /// The duration as text: minutes (when any), seconds padded to two
    /// digits, and milliseconds padded to three.
    pub fn format_time(&self) -> (r: String)
        ensures
            r@ == spec_format_time(self.time_ms as int),
    {
        let total = self.time_ms;
        let mins = total / 60000;
        let secs = (total / 1000) % 60;
        let millis = total % 1000;

        let mut r = String::new();
        if mins > 0 {
            let m = usize_to_string(mins);
            r.append(m.as_str());
            r.append(":");
        }
        let s2 = two_digits(secs);
        r.append(s2.as_str());
        r.append(".");
        let m3 = three_digits(millis);
        r.append(m3.as_str());
        proof {
            assert(r@ =~= spec_format_time(self.time_ms as int));
        }
        r
    }
}

/// The formatted duration: `m:ss.mmm`, or `ss.mmm` below one minute.
pub open spec fn spec_format_time(ms: int) -> Seq<char> {
    let mins = ms / 60000;
    let secs = (ms / 1000) % 60;
    let millis = ms % 1000;
    if mins > 0 {
        dec_digits(mins) + ":"@ + two_digit_seq(secs) + "."@ + three_digit_seq(millis)
    } else {
        two_digit_seq(secs) + "."@ + three_digit_seq(millis)
    }
}

/// A value below 100 as exactly two digits.
pub open spec fn two_digit_seq(n: int) -> Seq<char> {
    seq![digit_char(n / 10), digit_char(n % 10)]
}

/// A value below 1000 as exactly three digits.
pub open spec fn three_digit_seq(n: int) -> Seq<char> {
    seq![digit_char(n / 100), digit_char((n / 10) % 10), digit_char(n % 10)]
}

/// A number below 100, zero-padded to two digits.
fn two_digits(n: usize) -> (r: String)
    requires
        n < 100,
    ensures
        r@ == two_digit_seq(n as int),
{
    let mut r = String::new();
    r.append(digit_str(n / 10));
    r.append(digit_str(n % 10));
    proof {
        assert(r@ =~= two_digit_seq(n as int));
    }
    r
}

/// A number below 1000, zero-padded to three digits.
fn three_digits(n: usize) -> (r: String)
    requires
        n < 1000,
    ensures
        r@ == three_digit_seq(n as int),
{
    let mut r = String::new();
    r.append(digit_str(n / 100));
    r.append(digit_str((n / 10) % 10));
    r.append(digit_str(n % 10));
    proof {
        assert(r@ =~= three_digit_seq(n as int));
    }
    r
}

/// Relies on chrono's `Utc::now`: the current moment, as milliseconds
/// since the Unix epoch. The clock decides the value, so nothing is
/// assumed of it.
#[verifier::external_body]
fn now_millis() -> i64 {
    chrono::Utc::now().timestamp_millis()
}

} // verus!
