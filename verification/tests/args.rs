use loopover::app::{record_move, State};
use loopover::args::{str_eq, Action, Args};
use loopover::error::Error;
use loopover::size::Size;

#[test]
fn defaults_play_with_no_size() {
    let a = Args::default();
    assert!(a.size.is_none());
    assert_eq!(a.action, Action::Play);
}

#[test]
fn too_small_size_is_a_config_error() {
    let mut a = Args::default();
    assert!(matches!(a.parse_size(Some("1"), Some("2")), Err(Error::ConfigError)));
    assert!(matches!(a.parse_size(Some("2"), Some("1")), Err(Error::ConfigError)));
    assert!(a.size.is_none());
}

#[test]
fn valid_size_is_accepted() {
    let mut a = Args::default();
    a.parse_size(Some("3"), Some("4")).unwrap();
    assert_eq!(a.size, Some(Size::new(3, 4)));
    assert_eq!(a.action, Action::Play);
}

#[test]
fn missing_or_malformed_size_parameters_fail() {
    let mut a = Args::default();
    assert!(a.parse_size(None, Some("3")).is_err());
    assert!(a.parse_size(Some("3"), None).is_err());
    assert!(a.parse_size(Some("three"), Some("3")).is_err());
    assert!(a.parse_size(Some(""), Some("3")).is_err());
}

#[test]
fn get_num_reads_decimal_arguments() {
    assert_eq!(Args::get_num(Some("17")).unwrap(), 17);
    assert!(matches!(Args::get_num(None), Err(Error::ConfigError)));
    assert!(matches!(Args::get_num(Some("x")), Err(Error::ConfigError)));
}

#[test]
fn str_eq_compares_contents() {
    assert!(str_eq("", ""));
    assert!(str_eq("--size", "--size"));
    assert!(!str_eq("-s", "-h"));
    assert!(!str_eq("config", "configs"));
}

#[test]
fn recording_starts_a_solve_with_its_first_rotation() {
    let mut moves = String::from("stale");
    let mut cnt: usize = 7;
    let started = record_move(State::Scrambled, &mut moves, &mut cnt, 'u', true);
    assert!(started);
    assert_eq!(moves, "U");
    assert_eq!(cnt, 1);
}

#[test]
fn recording_appends_tokens_mid_solve() {
    let mut moves = String::from("U");
    let mut cnt: usize = 1;
    assert!(!record_move(State::Playing, &mut moves, &mut cnt, 'r', true));
    assert_eq!(moves, "U R");
    assert_eq!(cnt, 2);
    assert!(!record_move(State::Playing, &mut moves, &mut cnt, 'd', false));
    assert_eq!(moves, "U R d");
    assert_eq!(cnt, 2);
}

#[test]
fn recording_is_silent_outside_a_solve() {
    let mut moves = String::new();
    let mut cnt: usize = 0;
    assert!(!record_move(State::Idle, &mut moves, &mut cnt, 'l', true));
    assert!(!record_move(State::Scrambled, &mut moves, &mut cnt, 'l', false));
    assert_eq!(moves, "");
    assert_eq!(cnt, 0);
}

#[test]
fn error_messages_name_the_problem() {
    assert_eq!(Error::InvalidToken.msg(), "invalid character in solution");
    assert_eq!(Error::ConfigError.msg(), "minimum supported size is 2");
}
