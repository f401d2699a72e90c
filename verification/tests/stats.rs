use loopover::config::Config;
use loopover::size::Size;
use loopover::stat::Stat;
use loopover::stats::Stats;
use loopover::stats_state::StatsState;
use loopover::vec2::Vec2;

fn stat(ms: usize) -> Stat {
    Stat::new(ms, 5, String::from("U D L R"), Vec2::new(1, 0))
}

#[test]
fn first_solve_becomes_best() {
    let mut s = Stats::default();
    s.add(stat(9000));
    assert_eq!(s.solves().len(), 1);
    assert_eq!(s.best().as_ref().unwrap().time(), 9000);
}

#[test]
fn faster_solve_replaces_best() {
    let mut s = Stats::default();
    s.add(stat(9000));
    s.add(stat(4000));
    assert_eq!(s.best().as_ref().unwrap().time(), 4000);
}

#[test]
fn slower_solve_keeps_best() {
    let mut s = Stats::default();
    s.add(stat(4000));
    s.add(stat(9000));
    assert_eq!(s.best().as_ref().unwrap().time(), 4000);
}

#[test]
fn newest_solve_comes_first() {
    let mut s = Stats::default();
    s.add(stat(1000));
    s.add(stat(2000));
    s.add(stat(3000));
    let times: Vec<usize> = s.solves().iter().map(|st| st.time()).collect();
    assert_eq!(times, vec![3000, 2000, 1000]);
}

#[test]
fn stat_keeps_its_record() {
    let s = Stat::new(1234, 7, String::from("U u D"), Vec2::new(2, 1));
    assert_eq!(s.time(), 1234);
    assert_eq!(s.moves_cnt(), 7);
    assert_eq!(s.moves(), "U u D");
    assert_eq!(s.end(), Vec2::new(2, 1));
    // stamped by the clock: after the start of 2020
    assert!(s.date() > 1_577_836_800_000);
}

#[test]
fn selection_moves_within_bounds() {
    let mut st = StatsState::default();
    st.select_next(3);
    st.select_next(3);
    assert_eq!(st.selected, 2);
    st.select_next(3);
    assert_eq!(st.selected, 2);
    st.select_prev();
    assert_eq!(st.selected, 1);
    st.select_prev();
    st.select_prev();
    assert_eq!(st.selected, 0);
}

#[test]
fn selection_rewinds_the_replay_offset() {
    let mut st = StatsState::default();
    st.move_offset = 9;
    st.select_next(5);
    assert_eq!(st.move_offset, 0);
    st.move_offset = 4;
    st.select_prev();
    assert_eq!(st.move_offset, 0);
}

#[test]
fn auto_scroll_follows_the_selection() {
    let mut st = StatsState::default();
    st.selected = 9;
    st.offset = 2;
    st.auto_scroll(8, 20);
    assert_eq!(st.offset, 3);
    st.selected = 3;
    st.auto_scroll(8, 20);
    assert_eq!(st.offset, 2);
    // never scrolls past the end of the list
    st.selected = 19;
    st.offset = 12;
    st.auto_scroll(8, 20);
    assert_eq!(st.offset, 12);
}

#[test]
fn size_arithmetic() {
    let s = Size::new(5, 3);
    assert_eq!(s.saturating_sub(Size::new(2, 7)), Size::new(3, 0));
    assert_eq!(s.checked_sub(Size::new(2, 1)), Some(Size::new(3, 2)));
    assert_eq!(s.checked_sub(Size::new(6, 1)), None);
    assert_eq!(s.inverse(), Size::new(3, 5));
    let mut t = s;
    t.transpone();
    assert_eq!(t, Size::new(3, 5));
    assert_eq!(Size::default(), Size::new(3, 3));
    assert_eq!(Size::from((4, 2)), Size::new(4, 2));
}

#[test]
fn config_defaults_to_three_by_three() {
    let c = Config::default();
    assert_eq!(c.default_size, Size::new(3, 3));
}
