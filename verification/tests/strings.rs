use loopover::asci::{get_cell, get_min_cell, get_min_sel_cell, get_sel_cell};
use loopover::digits::{parse_usize, spaces, usize_to_string};
use loopover::stat::Stat;
use loopover::vec2::Vec2;

#[test]
fn large_glyphs_match_their_art() {
    assert_eq!(
        get_cell(1),
        "               ▄█          █          █                "
    );
    assert_eq!(
        get_sel_cell(9),
        "█▀▀▀▀▀▀▀▀▀██   ▄▀▀▄  ██   ▀▄▄█  ██    ▄▄▀  ██▄▄▄▄▄▄▄▄▄█"
    );
}

#[test]
fn glyphs_outside_range_are_empty() {
    assert_eq!(get_cell(0), "");
    assert_eq!(get_cell(10), "");
    assert_eq!(get_sel_cell(42), "");
}

#[test]
fn min_cell_centres_the_number() {
    // one digit: padding 4, split 2 + 2, plus 8 spaces on either side
    assert_eq!(get_min_cell(5), format!("{}5{}", " ".repeat(10), " ".repeat(10)));
    // two digits: padding 3, split 1 + 2
    assert_eq!(get_min_cell(42), format!("{}42{}", " ".repeat(9), " ".repeat(10)));
    // six digits: no padding left, only the fixed margins
    assert_eq!(get_min_cell(123456), format!("{}123456{}", " ".repeat(8), " ".repeat(8)));
}

#[test]
fn min_sel_cell_draws_borders() {
    assert_eq!(get_min_sel_cell(7), "█▀▀▀▀▀██  7  ██▄▄▄▄▄█");
    assert_eq!(get_min_sel_cell(12), "█▀▀▀▀▀██ 12  ██▄▄▄▄▄█");
}

#[test]
fn numbers_print_in_decimal() {
    assert_eq!(usize_to_string(0), "0");
    assert_eq!(usize_to_string(7), "7");
    assert_eq!(usize_to_string(10), "10");
    assert_eq!(usize_to_string(987654), "987654");
}

#[test]
fn spaces_repeat() {
    assert_eq!(spaces(0), "");
    assert_eq!(spaces(3), "   ");
}

#[test]
fn numbers_parse_back() {
    assert_eq!(parse_usize("0"), Some(0));
    assert_eq!(parse_usize("42"), Some(42));
    assert_eq!(parse_usize("007"), Some(7));
    assert_eq!(parse_usize(""), None);
    assert_eq!(parse_usize("4x2"), None);
    assert_eq!(parse_usize("-3"), None);
    assert_eq!(parse_usize("99999999999999999999999999"), None);
}

#[test]
fn format_time_with_minutes() {
    let s = Stat::new(61234, 10, String::from("U D"), Vec2::new(0, 0));
    assert_eq!(s.format_time(), "1:01.234");
}

#[test]
fn format_time_below_a_minute() {
    let s = Stat::new(5034, 3, String::new(), Vec2::new(1, 1));
    assert_eq!(s.format_time(), "05.034");
    let s = Stat::new(0, 0, String::new(), Vec2::new(0, 0));
    assert_eq!(s.format_time(), "00.000");
}
