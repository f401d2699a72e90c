//! The coarse states of a game session, and the recording of moves as the
//! session plays them. The surrounding front end polls the keyboard and
//! drives the timer; every decision about the move log is made here.

use vstd::prelude::*;
use vstd::string::{StrSliceExecFns, StringExecFns};

verus! {

/// Which screen is showing.
#[derive(Debug, Copy, Clone, PartialEq, Eq, Structural)]
pub enum Screen {
    Game,
    Stats,
}

/// Where the session stands: freshly scrambled, mid-solve, or waiting.
#[derive(Debug, Copy, Clone, PartialEq, Eq, Structural)]
pub enum State {
    Scrambled,
    Playing,
    Idle,
}

/// The four cursor keys, as the lowercase move tokens they record.
pub open spec fn is_key_token(c: char) -> bool {
    c == 'u' || c == 'd' || c == 'l' || c == 'r'
}

/// The uppercase token recorded when a key comes with a rotation.
pub open spec fn upper_token(c: char) -> char {
    if c == 'u' {
        'U'
    } else if c == 'd' {
        'D'
    } else if c == 'l' {
        'L'
    } else if c == 'r' {
        'R'
    } else {
        c
    }
}

/// Records one keypress in the move log. A rotation on a freshly
/// scrambled board opens a new log with its uppercase token, counts it as
/// the first move, and begins the solve (the result is `true` exactly
/// then). A rotation mid-solve appends its uppercase token; a bare cursor
/// move mid-solve appends its lowercase token without counting as a move.
/// Outside a solve nothing is recorded.
pub fn record_move(state: State, moves: &mut String, moves_cnt: &mut usize, c: char,
    rotated: bool) -> (started: bool)
    requires
        is_key_token(c),
        *old(moves_cnt) < usize::MAX,
    ensures
        started == (rotated && state is Scrambled),
        rotated && state is Scrambled ==> final(moves)@ == seq![upper_token(c)]
            && *final(moves_cnt) == 1,
        rotated && state is Playing ==> final(moves)@ == old(moves)@ + seq![' ', upper_token(c)]
            && *final(moves_cnt) == *old(moves_cnt) + 1,
        !rotated && state is Playing ==> final(moves)@ == old(moves)@ + seq![' ', c]
            && *final(moves_cnt) == *old(moves_cnt),
        (state is Idle || (!rotated && !(state is Playing))) ==> final(moves)@ == old(moves)@
            && *final(moves_cnt) == *old(moves_cnt),
{
    proof {
        reveal_strlit(" ");
        reveal_strlit("U");
        reveal_strlit("D");
        reveal_strlit("L");
        reveal_strlit("R");
        reveal_strlit("u");
        reveal_strlit("d");
        reveal_strlit("l");
        reveal_strlit("r");
    }
    if rotated {
        let up: &str = match c {
            'u' => "U",
            'd' => "D",
            'l' => "L",
            _ => "R",
        };
        proof {
            assert(up@ =~= seq![upper_token(c)]);
        }
        match state {
            State::Scrambled => {
                *moves = up.to_owned();
                *moves_cnt = 1;
                proof {
                    assert(moves@ =~= seq![upper_token(c)]);
                }
                return true;
            }
            State::Playing => {
                moves.append(" ");
                moves.append(up);
                *moves_cnt = *moves_cnt + 1;
                proof {
                    assert(moves@ =~= old(moves)@ + seq![' ', upper_token(c)]);
                }
            }
            State::Idle => {}
        }
    } else if matches!(state, State::Playing) {
        let low: &str = match c {
            'u' => "u",
            'd' => "d",
            'l' => "l",
            _ => "r",
        };
        proof {
            assert(low@ =~= seq![c]);
        }
        moves.append(" ");
        moves.append(low);
        proof {
            assert(moves@ =~= old(moves)@ + seq![' ', c]);
        }
    }
    false
}

} // verus!
