//! The text glyphs the terminal renderer draws for each tile.

use vstd::prelude::*;
use vstd::string::StrSliceExecFns;
use vstd::string::StringExecFns;
use crate::digits::{dec_digits, space_seq, spaces, usize_to_string};

verus! {

/// The glyph text for each tile number; empty outside `1..=9`.
pub open spec fn spec_cell_art(num: int) -> Seq<char> {
    if num == 1 {
        "               ▄█          █          █                "@
    } else if num == 2 {
        "              ▄▀▀▀▄        ▄▀       ▄█▄▄▄              "@
    } else if num == 3 {
        "              ▄▀▀▀▄         ▀▄      ▀▄▄▄▀              "@
    } else if num == 4 {
        "               █          █▄█▄         █               "@
    } else if num == 5 {
        "              █▀▀▀▀      ▀▀▀▀▄      ▀▄▄▄▀              "@
    } else if num == 6 {
        "               ▄▀▀        █▀▀▄       ▀▄▄▀              "@
    } else if num == 7 {
        "              ▀▀▀▀█         █         █                "@
    } else if num == 8 {
        "              ▄▀▀▀▄      ▄▀▀▀▄      ▀▄▄▄▀              "@
    } else if num == 9 {
        "               ▄▀▀▄       ▀▄▄█        ▄▄▀              "@
    } else {
        ""@
    }
}

/// The glyph text for each tile number; empty outside `1..=9`.
pub open spec fn spec_sel_cell_art(num: int) -> Seq<char> {
    if num == 1 {
        "█▀▀▀▀▀▀▀▀▀██   ▄█    ██    █    ██    █    ██▄▄▄▄▄▄▄▄▄█"@
    } else if num == 2 {
        "█▀▀▀▀▀▀▀▀▀██  ▄▀▀▀▄  ██    ▄▀   ██  ▄█▄▄▄  ██▄▄▄▄▄▄▄▄▄█"@
    } else if num == 3 {
        "█▀▀▀▀▀▀▀▀▀██  ▄▀▀▀▄  ██     ▀▄  ██  ▀▄▄▄▀  ██▄▄▄▄▄▄▄▄▄█"@
    } else if num == 4 {
        "█▀▀▀▀▀▀▀▀▀██   █     ██   █▄█▄  ██     █   ██▄▄▄▄▄▄▄▄▄█"@
    } else if num == 5 {
        "█▀▀▀▀▀▀▀▀▀██  █▀▀▀▀  ██  ▀▀▀▀▄  ██  ▀▄▄▄▀  ██▄▄▄▄▄▄▄▄▄█"@
    } else if num == 6 {
        "█▀▀▀▀▀▀▀▀▀██   ▄▀▀   ██   █▀▀▄  ██   ▀▄▄▀  ██▄▄▄▄▄▄▄▄▄█"@
    } else if num == 7 {
        "█▀▀▀▀▀▀▀▀▀██  ▀▀▀▀█  ██     █   ██    █    ██▄▄▄▄▄▄▄▄▄█"@
    } else if num == 8 {
        "█▀▀▀▀▀▀▀▀▀██  ▄▀▀▀▄  ██  ▄▀▀▀▄  ██  ▀▄▄▄▀  ██▄▄▄▄▄▄▄▄▄█"@
    } else if num == 9 {
        "█▀▀▀▀▀▀▀▀▀██   ▄▀▀▄  ██   ▀▄▄█  ██    ▄▄▀  ██▄▄▄▄▄▄▄▄▄█"@
    } else {
        ""@
    }
}

/// Gets the large glyph for the tile with the given number.
pub fn get_cell(num: usize) -> (r: String)
    ensures
        r@ == spec_cell_art(num as int),
{
    let s: &str = match num {
        1 => "               ▄█          █          █                ",
        2 => "              ▄▀▀▀▄        ▄▀       ▄█▄▄▄              ",
        3 => "              ▄▀▀▀▄         ▀▄      ▀▄▄▄▀              ",
        4 => "               █          █▄█▄         █               ",
        5 => "              █▀▀▀▀      ▀▀▀▀▄      ▀▄▄▄▀              ",
        6 => "               ▄▀▀        █▀▀▄       ▀▄▄▀              ",
        7 => "              ▀▀▀▀█         █         █                ",
        8 => "              ▄▀▀▀▄      ▄▀▀▀▄      ▀▄▄▄▀              ",
        9 => "               ▄▀▀▄       ▀▄▄█        ▄▄▀              ",
        _ => "",
    };
    s.to_owned()
}

/// Gets the large glyph for the selected tile with the given number.
pub fn get_sel_cell(num: usize) -> (r: String)
    ensures
        r@ == spec_sel_cell_art(num as int),
{
    let s: &str = match num {
        1 => "█▀▀▀▀▀▀▀▀▀██   ▄█    ██    █    ██    █    ██▄▄▄▄▄▄▄▄▄█",
        2 => "█▀▀▀▀▀▀▀▀▀██  ▄▀▀▀▄  ██    ▄▀   ██  ▄█▄▄▄  ██▄▄▄▄▄▄▄▄▄█",
        3 => "█▀▀▀▀▀▀▀▀▀██  ▄▀▀▀▄  ██     ▀▄  ██  ▀▄▄▄▀  ██▄▄▄▄▄▄▄▄▄█",
        4 => "█▀▀▀▀▀▀▀▀▀██   █     ██   █▄█▄  ██     █   ██▄▄▄▄▄▄▄▄▄█",
        5 => "█▀▀▀▀▀▀▀▀▀██  █▀▀▀▀  ██  ▀▀▀▀▄  ██  ▀▄▄▄▀  ██▄▄▄▄▄▄▄▄▄█",
        6 => "█▀▀▀▀▀▀▀▀▀██   ▄▀▀   ██   █▀▀▄  ██   ▀▄▄▀  ██▄▄▄▄▄▄▄▄▄█",
        7 => "█▀▀▀▀▀▀▀▀▀██  ▀▀▀▀█  ██     █   ██    █    ██▄▄▄▄▄▄▄▄▄█",
        8 => "█▀▀▀▀▀▀▀▀▀██  ▄▀▀▀▄  ██  ▄▀▀▀▄  ██  ▀▄▄▄▀  ██▄▄▄▄▄▄▄▄▄█",
        9 => "█▀▀▀▀▀▀▀▀▀██   ▄▀▀▄  ██   ▀▄▄█  ██    ▄▄▀  ██▄▄▄▄▄▄▄▄▄█",
        _ => "",
    };
    s.to_owned()
}

/// The compact glyph: the decimal number centred in a field of five,
/// with eight spaces on either side.
pub open spec fn spec_min_cell(num: int) -> Seq<char> {
    let digits = dec_digits(num);
    let padding = if digits.len() <= 5 { 5 - digits.len() } else { 0 };
    let left = padding / 2;
    let right = padding - left;
    space_seq(left + 8) + digits + space_seq(right + 8)
}

/// The compact glyph for the selected tile: the centred number between
/// border strokes.
pub open spec fn spec_min_sel_cell(num: int) -> Seq<char> {
    let digits = dec_digits(num);
    let padding = if digits.len() <= 5 { 5 - digits.len() } else { 0 };
    let left = padding / 2;
    let right = padding - left;
    "█▀▀▀▀▀██"@ + space_seq(left) + digits + space_seq(right) + "██▄▄▄▄▄█"@
}

/// Gets the compact glyph for the tile with the given number.
pub fn get_min_cell(num: usize) -> (r: String)
    ensures
        r@ == spec_min_cell(num as int),
{
    let snum = usize_to_string(num);
    let len = snum.as_str().unicode_len();
    let padding = if len <= 5 { 5 - len } else { 0 };
    let left = padding / 2;
    let right = padding - left;
    let mut r = spaces(left + 8);
    r.append(snum.as_str());
    let tail = spaces(right + 8);
    r.append(tail.as_str());
    proof {
        assert(r@ =~= spec_min_cell(num as int));
    }
    r
}

/// Gets the compact glyph for the selected tile with the given number.
pub fn get_min_sel_cell(num: usize) -> (r: String)
    ensures
        r@ == spec_min_sel_cell(num as int),
{
    let snum = usize_to_string(num);
    let len = snum.as_str().unicode_len();
    let padding = if len <= 5 { 5 - len } else { 0 };
    let left = padding / 2;
    let right = padding - left;
    let mut r = String::from_str("█▀▀▀▀▀██");
    let pad = spaces(left);
    r.append(pad.as_str());
    r.append(snum.as_str());
    let pad2 = spaces(right);
    r.append(pad2.as_str());
    r.append("██▄▄▄▄▄█");
    proof {
        assert(r@ =~= spec_min_sel_cell(num as int));
    }
    r
}

} // verus!
