use zerofbuf::daemon::{keymap_typing, poll_sleep_ms, InputTracker, MAX_X11_ERRORS};

/// A keymap with the keys at the given (byte, bit) places down.
fn keymap(down: &[(usize, u8)]) -> Vec<u8> {
    let mut k = vec![0u8; 32];
    for (i, b) in down {
        k[*i] |= 1 << b;
    }
    k
}

/// Shift holds keycode 50, Control 37; the daemon reads byte i bit b as
/// keycode 8 * i + b + 8.
fn groups() -> Vec<Vec<u8>> {
    vec![vec![50], vec![66], vec![37], vec![64], vec![], vec![], vec![133], vec![]]
}

#[test]
fn typing_is_a_non_modifier_key_without_shortcut_modifiers() {
    let g = groups();
    assert!(!keymap_typing(&keymap(&[]), &g));
    // keycode 38 = byte 3 bit 6
    assert!(keymap_typing(&keymap(&[(3, 6)]), &g));
    // Shift (50 = byte 5 bit 2) alone is no typing, Shift plus a letter is
    assert!(!keymap_typing(&keymap(&[(5, 2)]), &g));
    assert!(keymap_typing(&keymap(&[(5, 2), (3, 6)]), &g));
    // Control (37 = byte 3 bit 5) plus a letter is a shortcut
    assert!(!keymap_typing(&keymap(&[(3, 5), (3, 6)]), &g));
    // Super (133 = byte 15 bit 5, group 6) plus a letter is a shortcut
    assert!(!keymap_typing(&keymap(&[(15, 5), (3, 6)]), &g));
}

#[test]
fn mouse_mode_follows_the_readme_thresholds() {
    let start = 100_000;
    let mut t = InputTracker::new(start, Some((10, 10)));
    assert_eq!((t.input.pointer_x, t.input.pointer_y), (10, 10));
    t.update_move_flag(start, 500, 400);
    assert!(!t.input.move_flag);
    assert!(t.observe_pointer(Some((11, 10)), 1, start + 100));
    assert_eq!(t.last_mouse_ms, start - 10_000);
    assert!(t.observe_pointer(Some((20, 10)), 1, start + 200));
    assert_eq!(t.input.pointer_x, 20);
    assert!(t.input.last_mouse_at.is_some());
    assert_eq!(t.last_mouse_ms, start + 200);
    t.update_move_flag(start + 300, 500, 400);
    assert!(t.input.move_flag);
    t.update_move_flag(start + 701, 500, 400);
    assert!(!t.input.move_flag);
    let g = groups();
    let keys = keymap(&[(3, 6)]);
    assert!(t.observe_keymap(Some(&keys), &g, start + 800));
    assert!(t.input.last_key_at.is_some());
    assert!(t.observe_pointer(Some((60, 10)), 1, start + 900));
    t.update_move_flag(start + 900, 500, 400);
    assert!(!t.input.move_flag);
    t.update_move_flag(start + 1201, 500, 400);
    assert!(t.input.move_flag);
}

#[test]
fn ten_errors_in_a_row_stop_the_monitor() {
    let mut t = InputTracker::new(60_000, None);
    for _ in 0..5 {
        assert!(t.observe_pointer(None, 1, 60_000));
    }
    assert!(t.observe_pointer(Some((0, 0)), 1, 60_000));
    assert_eq!(t.x11_error_count, 0);
    let g = groups();
    for i in 1..MAX_X11_ERRORS {
        assert!(t.observe_keymap(None, &g, 60_000));
        assert_eq!(t.x11_error_count, i);
    }
    assert!(!t.observe_pointer(None, 1, 60_000));
}

#[test]
fn schedules() {
    let mut t = InputTracker::new(100_000, None);
    assert!(t.ensure_due(100_000, 800));
    t.record_ensure(100_000);
    assert!(!t.ensure_due(100_799, 800));
    assert!(t.ensure_due(100_800, 800));
    assert!(t.ensure_due(100_050, 0));
    assert!(!t.ensure_due(100_049, 0));
    assert!(t.cleanup_due(100_000));
    t.record_cleanup(100_000);
    assert!(!t.cleanup_due(129_999));
    assert!(t.cleanup_due(130_000));
    assert_eq!(poll_sleep_ms(50), 50);
    assert_eq!(poll_sleep_ms(3), 10);
}

#[test]
fn small_motion_is_ignored() {
    let mut t = InputTracker::new(60_000, Some((100, 100)));
    assert!(t.observe_pointer(Some((101, 99)), 1, 61_000));
    assert_eq!(t.last_mouse_ms, 50_000);
    assert!(t.input.last_mouse_at.is_none());
    assert!(t.observe_pointer(Some((-32768, 100)), 1, 61_000));
    assert_eq!(t.input.pointer_x, -32768);
}

#[test]
fn pools_topped_up_within_an_interval_and_a_round() {
    let mut t = InputTracker::new(60_000, None);
    let mut last_top_up = t.last_ensure_ms;
    let mut now: u64 = 60_000;
    for round in 0..500u64 {
        now += 7 + round % 5;
        if t.ensure_due(now, 100) {
            t.record_ensure(now);
            assert!(now - last_top_up < 100 + 11 || round == 0);
            last_top_up = now;
        }
        assert!(now - t.last_ensure_ms < 100);
    }
}

#[test]
fn reload_is_answered_by_the_next_round_only() {
    let mut t = InputTracker::new(60_000, None);
    assert!(!t.take_reload());
    t.note_config_reload();
    t.note_config_reload();
    let last = t.last_ensure_ms;
    assert!(t.take_reload());
    assert!(!t.take_reload());
    assert_eq!(t.last_ensure_ms, last);
    t.note_config_reload();
    t.record_ensure(70_000);
    assert!(t.take_reload());
}
