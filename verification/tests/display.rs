use tsq::display::{pattern_row, step_indicator};
use tsq::pattern::Pattern;

#[test]
fn pattern_row_shows_the_kick_track() {
    let p = Pattern::default();
    assert_eq!(pattern_row(&p.kick), "[x] [ ] [ ] [ ] [x] [ ] [ ] [ ]");
    assert_eq!(pattern_row(&p.hihat_closed), "[x] [x] [x] [x] [x] [x] [x] [x]");
}

#[test]
fn step_indicator_marks_the_current_step() {
    assert_eq!(step_indicator(0), "[x] [ ] [ ] [ ] [ ] [ ] [ ] [ ]");
    assert_eq!(step_indicator(5), "[ ] [ ] [ ] [ ] [ ] [x] [ ] [ ]");
    assert_eq!(step_indicator(8), "[ ] [ ] [ ] [ ] [ ] [ ] [ ] [ ]");
}
