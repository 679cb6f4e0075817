use ion_monitor::nav::{Key, Navigation};

#[test]
fn starts_in_view_mode_with_first_row() {
    let nav = Navigation::new();
    assert_eq!(nav.selected(), 0);
    assert!(!nav.nav_mode());
    assert_eq!(nav.highlighted(), Some(0));
}

#[test]
fn q_quits_and_r_refreshes() {
    let mut nav = Navigation::new();
    let out = nav.handle_key(Key::Char('q'), 3);
    assert!(out.quit && !out.refresh && !out.cache_update && !out.selection_effect);
    let out = nav.handle_key(Key::Char('r'), 3);
    assert!(!out.quit && out.refresh);
}

#[test]
fn slash_toggles_navigation() {
    let mut nav = Navigation::new();
    let out = nav.handle_key(Key::Char('/'), 3);
    assert!(nav.nav_mode() && out.selection_effect && out.cache_update);
    assert_eq!(nav.highlighted(), Some(0));
    let out = nav.handle_key(Key::Char('/'), 3);
    assert!(!nav.nav_mode() && !out.selection_effect && out.cache_update);
    assert_eq!(nav.highlighted(), None);
}

#[test]
fn slash_with_no_rows_highlights_nothing() {
    let mut nav = Navigation::new();
    let out = nav.handle_key(Key::Char('/'), 0);
    assert!(nav.nav_mode());
    assert!(!out.selection_effect);
    assert_eq!(nav.highlighted(), None);
}

#[test]
fn arrows_move_and_wrap_in_navigation_mode() {
    let mut nav = Navigation::new();
    nav.handle_key(Key::Char('/'), 3);
    nav.handle_key(Key::Down, 3);
    assert_eq!(nav.selected(), 1);
    nav.handle_key(Key::Char('j'), 3);
    nav.handle_key(Key::Down, 3);
    assert_eq!(nav.selected(), 0);
    let out = nav.handle_key(Key::Up, 3);
    assert!(out.selection_effect);
    assert_eq!(nav.selected(), 2);
    assert_eq!(nav.highlighted(), Some(2));
    nav.handle_key(Key::Char('k'), 3);
    assert_eq!(nav.selected(), 1);
}

#[test]
fn arrows_do_nothing_in_view_mode() {
    let mut nav = Navigation::new();
    let out = nav.handle_key(Key::Down, 3);
    assert!(!out.selection_effect);
    assert_eq!(nav.selected(), 0);
}

#[test]
fn esc_leaves_navigation_mode() {
    let mut nav = Navigation::new();
    nav.handle_key(Key::Char('/'), 3);
    nav.handle_key(Key::Down, 3);
    let out = nav.handle_key(Key::Esc, 3);
    assert!(!nav.nav_mode() && out.cache_update);
    assert_eq!(nav.highlighted(), None);
    assert_eq!(nav.selected(), 1);
}

#[test]
fn other_keys_change_nothing() {
    let mut nav = Navigation::new();
    let out = nav.handle_key(Key::Other, 3);
    assert!(!out.quit && !out.refresh && !out.cache_update && !out.selection_effect);
    let out = nav.handle_key(Key::Char('x'), 3);
    assert!(!out.quit && !out.refresh);
    assert_eq!(nav.highlighted(), Some(0));
}

#[test]
fn next_then_prev_returns() {
    let mut nav = Navigation::new();
    for count in 1..6usize {
        for _ in 0..count {
            let before = nav.selected();
            nav.select_next(count);
            nav.select_prev(count);
            assert_eq!(nav.selected(), before);
            nav.select_next(count);
            assert!(nav.selected() < count);
        }
    }
}

#[test]
fn fresh_data_clamps_the_selection() {
    let mut nav = Navigation::new();
    nav.handle_key(Key::Char('/'), 5);
    nav.select_prev(5);
    assert_eq!(nav.selected(), 4);
    nav.on_data(2);
    assert_eq!(nav.selected(), 1);
    assert_eq!(nav.highlighted(), Some(1));
    nav.on_data(0);
    assert_eq!(nav.selected(), 0);
    assert_eq!(nav.highlighted(), None);
}

#[test]
fn fresh_data_in_view_mode_keeps_highlight() {
    let mut nav = Navigation::new();
    nav.select_prev(5);
    nav.handle_key(Key::Esc, 5);
    nav.on_data(3);
    assert_eq!(nav.selected(), 2);
    assert_eq!(nav.highlighted(), None);
}
