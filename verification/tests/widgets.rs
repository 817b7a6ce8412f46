use palcalc::interface::{
    dec_u64, duration_format, format_percent, num_digits_u32, spaces, Label, OverflowCut,
    ProgressBar, RightCounter, StatusCalculating, StatusImageLoading, Timer,
};

#[test]
fn decimal_rendering() {
    assert_eq!(dec_u64(0), "0");
    assert_eq!(dec_u64(7), "7");
    assert_eq!(dec_u64(1234567890), "1234567890");
    assert_eq!(spaces(3), "   ");
    assert_eq!(num_digits_u32(0), 1);
    assert_eq!(num_digits_u32(999), 3);
    assert_eq!(num_digits_u32(u32::MAX), 10);
}

#[test]
fn duration_formats() {
    assert_eq!(duration_format(45), "45s        ");
    assert_eq!(duration_format(5), "05s        ");
    assert_eq!(duration_format(125), "02m 05s    ");
    assert_eq!(duration_format(3725), " 1h 02m 05s");
    assert_eq!(duration_format(36 * 3600 + 59 * 60 + 59), "36h 59m 59s");
}

#[test]
fn percent_formats() {
    assert_eq!(format_percent(0), "  0.0000");
    assert_eq!(format_percent(palcalc::colors::SCALE as u64), "100.0000");
    assert_eq!(format_percent(11816942), " 70.7106");
}

#[test]
fn label_pads_and_truncates() {
    let mut l = Label::new(1, 2, 8, OverflowCut::Right);
    assert_eq!(l.render(), "        ");
    l.value = "abc".to_string();
    assert_eq!(l.render(), "abc     ");
    l.value = "abcdefghij".to_string();
    assert_eq!(l.render(), "abcde...");
    let mut l = Label::new(1, 2, 8, OverflowCut::Left);
    l.value = "abcdefghij".to_string();
    assert_eq!(l.render(), "...fghij");
}

#[test]
fn counter_renders_right_aligned() {
    let mut c = RightCounter::new(0, 4, 999);
    assert_eq!(c.get_width(), 7);
    c.value = 41;
    assert_eq!(c.render(), " 42/999");
    c.value = 99;
    assert_eq!(c.render(), "100/999");
}

#[test]
fn progress_bar_splits_at_division() {
    let mut b = ProgressBar::new(2, 5, 10, 4);
    b.progress = 1;
    let (left, right) = b.render();
    assert_eq!(left, "   ");
    assert_eq!(right, "25%    ");
    b.progress = 4;
    let (left, right) = b.render();
    assert_eq!(left, "   100%   ");
    assert_eq!(right, "");
}

#[test]
fn timer_throttle_and_projection() {
    let mut t = Timer::new(10);
    t.start(1000);
    assert!(!t.needs_update(1400));
    assert!(t.needs_update(1501));
    t.update(2, 5000);
    assert_eq!(t.get_elapsed(5000), "04s        ");
    // 4 s for 2 of 10 steps: 16 s remain at this pace
    assert_eq!(t.get_remaining(5000), "16s        ");
    let t2 = Timer::new(10);
    assert_eq!(t2.get_remaining(0), "00s        ");
}

#[test]
fn image_loading_block_layout_and_update() {
    let mut b = StatusImageLoading::new(80, 3);
    assert_eq!(b.c_counter.get_width(), 3);
    assert_eq!(b.c_counter.x, 75);
    assert_eq!(b.l_filename.width, 71);
    assert_eq!(b.pbar.width, 76);
    b.timer.start(0);
    b.update("some/file.png", 2, 1000);
    assert_eq!(b.l_filename.value, "some/file.png");
    assert_eq!(b.c_counter.value, 2);
    assert_eq!(b.pbar.progress, 2);
    assert_eq!(b.l_time_elapsed.value, "01s        ");
    // 1 s for 2 of 3 files: half a second remains, rounded down
    assert_eq!(b.l_time_remaining.value, "00s        ");
}

#[test]
fn calculating_block_layout_and_update() {
    let mut b = StatusCalculating::new(80, 5, 1000);
    assert_eq!(b.c_attempts.x, 11);
    assert_eq!(b.c_steps.x, 46);
    assert_eq!(b.l_moved.width, 22);
    assert_eq!(b.pbar.total, 5000);
    b.timer.start(0);
    b.update(1, 7, 42, 11816942, 1007, 2500, 2000);
    assert_eq!(b.c_attempts.value, 1);
    assert_eq!(b.c_steps.value, 7);
    assert_eq!(b.l_moved.value, "42");
    assert_eq!(b.l_distance.value, " 70.7106");
    assert_eq!(b.pbar.progress, 1007);
    assert_eq!(b.pbar.total, 2500);
    assert_eq!(b.timer.total, 2500);
}
