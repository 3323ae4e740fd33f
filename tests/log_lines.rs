use embassy_visor::log_view::LogView;

#[test]
fn log_view_keeps_newest_lines() {
    let mut v = LogView::new(3);
    for i in 0..5 {
        v.on_new_log_line(format!("line {}", i));
    }
    let lines: Vec<&String> = v.get_lines().iter().collect();
    assert_eq!(lines, vec!["line 2", "line 3", "line 4"]);
}

#[test]
fn log_view_scrolling() {
    let mut v = LogView::new(100);
    for i in 0..10 {
        v.on_new_log_line(format!("line {}", i));
    }
    assert_eq!(v.get_scroll(), 0);
    v.scroll_up();
    assert_eq!(v.get_scroll(), 0);
    for _ in 0..20 {
        v.scroll_down();
    }
    // never past the last three lines
    assert_eq!(v.get_scroll(), 7);
    // at the end, the view follows new lines
    v.on_new_log_line(String::from("line 10"));
    assert_eq!(v.get_scroll(), 8);
    v.scroll_up();
    v.scroll_up();
    v.scroll_up();
    v.scroll_up();
    assert_eq!(v.get_scroll(), 4);
    // scrolled up: new lines do not move the view
    v.on_new_log_line(String::from("line 11"));
    assert_eq!(v.get_scroll(), 4);
}
