use ktop::gauge::{bar_fill, core_tone, dir_fill, dir_tone, load_tone, row_emphasis, shown, BarFill, Emphasis, Tone};

#[test]
fn bar_fill_scales_and_caps() {
    assert!(bar_fill(50, 20) == BarFill { percent: 50, filled: 10, empty: 10 });
    assert!(bar_fill(33, 10) == BarFill { percent: 33, filled: 3, empty: 7 });
    assert!(bar_fill(250, 10) == BarFill { percent: 100, filled: 10, empty: 0 });
    assert!(bar_fill(0, 10) == BarFill { percent: 0, filled: 0, empty: 10 });
    assert!(bar_fill(70, 0) == BarFill { percent: 70, filled: 0, empty: 0 });
    assert!(bar_fill(0, usize::MAX) == BarFill { percent: 0, filled: 0, empty: usize::MAX });
    assert!(bar_fill(1, usize::MAX / 2) == BarFill { percent: 1, filled: usize::MAX / 200, empty: usize::MAX / 2 - usize::MAX / 200 });
}

#[test]
fn load_tone_goes_yellow_then_red() {
    assert!(load_tone(0, Tone::Accent) == Tone::Accent);
    assert!(load_tone(59, Tone::Green) == Tone::Green);
    assert!(load_tone(60, Tone::Green) == Tone::Yellow);
    assert!(load_tone(84, Tone::Purple) == Tone::Yellow);
    assert!(load_tone(85, Tone::Purple) == Tone::Red);
    assert!(load_tone(100, Tone::Accent) == Tone::Red);
}

#[test]
fn dir_fill_is_capped_at_bar() {
    assert_eq!(dir_fill(0, 20), (0, 20));
    assert_eq!(dir_fill(50, 20), (10, 10));
    assert_eq!(dir_fill(300, 20), (20, 0));
}

#[test]
fn tones_alternate() {
    assert!(core_tone(0) == Tone::Accent);
    assert!(core_tone(1) == Tone::Purple);
    assert!(core_tone(6) == Tone::Accent);
    assert!(dir_tone(0) == Tone::Green);
    assert!(dir_tone(1) == Tone::Accent);
    assert!(dir_tone(2) == Tone::Purple);
    assert!(dir_tone(3) == Tone::Green);
}

#[test]
fn row_emphasis_prefers_selection() {
    assert!(row_emphasis(0, Some(0)) == Emphasis::Selected);
    assert!(row_emphasis(0, None) == Emphasis::Top);
    assert!(row_emphasis(0, Some(3)) == Emphasis::Top);
    assert!(row_emphasis(3, Some(3)) == Emphasis::Selected);
    assert!(row_emphasis(2, Some(3)) == Emphasis::Plain);
}

#[test]
fn shown_caps_count() {
    assert_eq!(shown(3, 8), 3);
    assert_eq!(shown(16, 8), 8);
    assert_eq!(shown(8, 8), 8);
}
