use console_thingy::scrollback::Scrollback;

#[test]
fn push_while_at_newest_keeps_scroll_zero() {
    let mut sb = Scrollback::new();
    sb.set_columns(10);
    sb.push("hello".to_string());
    sb.push("world".to_string());
    assert_eq!(sb.scroll, 0);
    assert_eq!(sb.events.len(), 2);
    // newest entry sits at the front
    assert_eq!(sb.events[0].as_text().as_str(), "world");
}

#[test]
fn push_while_scrolled_grows_scroll_by_line_count() {
    let mut sb = Scrollback::new();
    sb.set_columns(10);
    for _ in 0..5 {
        sb.push("x".to_string());
    }
    // five single-line entries, one row left for scrollback
    sb.recompute_bounds(2, 1);
    assert_eq!(sb.maximum_scroll, 4);
    sb.scroll_by(2);
    assert_eq!(sb.scroll, 2);
    // 25 characters wrap to three lines at width 10
    sb.push("a".repeat(25));
    assert_eq!(sb.scroll, 5);
    // the bound itself moves only on the next render pass
    assert_eq!(sb.maximum_scroll, 4);
    let needs_redraw = sb.recompute_bounds(2, 1);
    assert!(!needs_redraw);
    assert_eq!(sb.maximum_scroll, 7);
    assert_eq!(sb.scroll, 5);
}

#[test]
fn scroll_by_clamps_at_both_ends() {
    let mut sb = Scrollback::new();
    sb.set_columns(10);
    for _ in 0..5 {
        sb.push("x".to_string());
    }
    sb.recompute_bounds(2, 1);
    assert_eq!(sb.maximum_scroll, 4);
    sb.scroll_by(3);
    assert_eq!(sb.scroll, 3);
    sb.scroll_by(100);
    assert_eq!(sb.scroll, 4);
    sb.scroll_by(isize::MAX);
    assert_eq!(sb.scroll, 4);
    sb.scroll_by(-1);
    assert_eq!(sb.scroll, 3);
    sb.scroll_by(isize::MIN);
    assert_eq!(sb.scroll, 0);
    sb.scroll_by(-100);
    assert_eq!(sb.scroll, 0);
    sb.scroll_by(0);
    assert_eq!(sb.scroll, 0);
}

#[test]
fn recompute_bounds_counts_wrapped_lines_and_clamps() {
    let mut sb = Scrollback::new();
    sb.set_columns(10);
    sb.push("hello world".to_string()); // two lines at width 10
    sb.push("ab\ncd".to_string()); // two lines
    sb.push(String::new()); // one empty line
    sb.scroll = 5;
    let needs_redraw = sb.recompute_bounds(4, 2);
    // five lines in all, two rows left for scrollback
    assert_eq!(sb.maximum_scroll, 3);
    assert!(needs_redraw);
    assert_eq!(sb.scroll, 3);
    let again = sb.recompute_bounds(4, 2);
    assert!(!again);
    assert_eq!(sb.scroll, 3);
}

#[test]
fn recompute_bounds_with_roomy_viewport_needs_no_scroll() {
    let mut sb = Scrollback::new();
    sb.set_columns(80);
    sb.push("one".to_string());
    sb.push("two".to_string());
    let needs_redraw = sb.recompute_bounds(30, 2);
    assert!(!needs_redraw);
    assert_eq!(sb.maximum_scroll, 0);
    assert_eq!(sb.scroll, 0);
}

#[test]
fn clear_drops_entries_and_scroll() {
    let mut sb = Scrollback::new();
    sb.set_columns(10);
    for _ in 0..3 {
        sb.push("entry".to_string());
    }
    sb.recompute_bounds(2, 1);
    sb.scroll_by(1);
    sb.clear();
    assert_eq!(sb.events.len(), 0);
    assert_eq!(sb.scroll, 0);
}

#[test]
fn reset_scroll_keeps_entries() {
    let mut sb = Scrollback::new();
    sb.set_columns(10);
    for _ in 0..3 {
        sb.push("entry".to_string());
    }
    sb.recompute_bounds(2, 1);
    sb.scroll_by(2);
    assert_eq!(sb.scroll, 2);
    sb.reset_scroll();
    assert_eq!(sb.scroll, 0);
    assert_eq!(sb.events.len(), 3);
}
