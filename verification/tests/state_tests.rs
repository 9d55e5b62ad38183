use zerofbuf::state::{
    cleanup_stale_state, input_path, is_popped, mark_popped, now_rfc3339, record_window,
    state_path, xdg_state_dir, InputState, StateFile, WindowMeta,
};

fn meta(pid: u32) -> WindowMeta {
    WindowMeta { pid, session: Some(format!("s{}", pid)), created_at: "t".to_string(), popped: false }
}

#[test]
fn state_dir_prefers_xdg_state_home() {
    assert_eq!(xdg_state_dir(Some("/x/state"), Some("/home/u")).unwrap().as_str(), "/x/state/0fbuf");
    assert_eq!(xdg_state_dir(None, Some("/home/u")).unwrap().as_str(), "/home/u/.local/state/0fbuf");
    assert!(xdg_state_dir(None, None).is_none());
    assert_eq!(state_path("/d").as_str(), "/d/state.json");
    assert_eq!(input_path("/d").as_str(), "/d/input.json");
}

#[test]
fn cleanup_forgets_vanished_windows_only() {
    let mut st = StateFile::new();
    record_window(&mut st, 1, meta(10));
    record_window(&mut st, 2, meta(20));
    record_window(&mut st, 3, meta(30));
    cleanup_stale_state(&mut st, &[3, 1, 99]);
    let keys: Vec<u32> = st.windows.keys().copied().collect();
    assert_eq!(keys, vec![1, 3]);
    assert_eq!(st.windows[&3].pid, 30);
    cleanup_stale_state(&mut st, &[3, 1, 99]);
    let again: Vec<u32> = st.windows.keys().copied().collect();
    assert_eq!(again, vec![1, 3]);
    cleanup_stale_state(&mut st, &[]);
    assert!(st.windows.is_empty());
}

#[test]
fn mark_popped_sets_flag_of_recorded_window() {
    let mut st = StateFile::new();
    record_window(&mut st, 7, meta(70));
    record_window(&mut st, 8, meta(80));
    assert!(!is_popped(&st, 7));
    mark_popped(&mut st, 7);
    assert!(is_popped(&st, 7));
    assert!(!is_popped(&st, 8));
    assert_eq!(st.windows[&7].pid, 70);
    mark_popped(&mut st, 7);
    assert!(is_popped(&st, 7));
    mark_popped(&mut st, 9);
    assert!(!st.windows.contains_key(&9));
    assert!(!is_popped(&st, 9));
}

#[test]
fn input_state_defaults() {
    let s = InputState::default();
    assert!(!s.move_flag);
    assert_eq!((s.pointer_x, s.pointer_y), (0, 0));
    assert!(s.last_mouse_at.is_none() && s.last_key_at.is_none());
    assert!(StateFile::default().windows.is_empty());
}

#[test]
fn now_is_rfc3339_utc() {
    let t = now_rfc3339();
    assert!(t.len() >= 20, "{}", t);
    assert!(t.ends_with('Z'));
    assert_eq!(&t[4..5], "-");
    assert_eq!(&t[10..11], "T");
    assert!(t.chars().all(|c| c.is_ascii_digit() || "-:T.Z+".contains(c)));
}
