use zerofbuf::config::make_builtin_pool;
use zerofbuf::pools::{
    activation_ops, antiflicker_ops, argv_from_words, count_on_desktop, checked_pool_desktop, count_pool_windows, cycle_plan,
    cycled_message, default_spawn_cmd_line, fill_spawn_template, first_pool_window,
    gen_session_id, hidden_message, hide_ops, last_hidden_message, on_spawn_commands,
    on_spawn_pause_ms, parse_cmd, place_near_pointer, pool_windows, quick_toggle_op, resolve_pool_desktop, session_id, shown_message, spawn_argv,
    spawn_poll_step, spawned_info, spawned_meta, toggle_choice, windows_to_spawn, ArgvPlan,
    CyclePlan, PollStep, PoolError, ToggleChoice, WindowOp, ON_SPAWN_DELAY_MS,
};
use zerofbuf::state::{mark_popped, record_window, InputState, StateFile, WindowMeta};
use zerofbuf::x11util::WinInfo;

fn w(xid: u32, desktop: Option<u32>) -> WinInfo {
    WinInfo { xid, pid: Some(xid * 10), desktop, class: Some("p".to_string()) }
}

fn record(xids: &[u32]) -> StateFile {
    let mut st = StateFile::new();
    for x in xids {
        record_window(
            &mut st,
            *x,
            WindowMeta { pid: *x * 10, session: None, created_at: "t".to_string(), popped: false },
        );
    }
    st
}

#[test]
fn pool_desktop_defaults_to_last_and_is_checked() {
    let mut pool = make_builtin_pool("p", "p", 3, "x");
    assert_eq!(resolve_pool_desktop(&pool, 10), 9);
    assert_eq!(resolve_pool_desktop(&pool, 0), 0);
    assert_eq!(checked_pool_desktop(&pool, 10), Ok(9));
    let e = checked_pool_desktop(&pool, 0).unwrap_err();
    assert_eq!(e, PoolError::DesktopOutOfRange { pool_desktop: 0, desktops: 0 });
    pool.pool_desktop = Some(12);
    let e = checked_pool_desktop(&pool, 4).unwrap_err();
    assert_eq!(e.message().as_str(), "pool_desktop 12 is out of range (only 4 desktops available)");
    assert_eq!(PoolError::EmptySpawnCommand.message().as_str(), "empty spawn cmd");
    assert_eq!(
        PoolError::SpawnTimeout { pid: 42 }.message().as_str(),
        "timeout waiting for window (pid 42)"
    );
}

#[test]
fn popped_windows_do_not_count_toward_the_pool() {
    let pool = make_builtin_pool("p", "p", 3, "x");
    let wins = vec![w(1, Some(9)), w(2, Some(9)), w(3, Some(0)), w(4, None), w(5, Some(9))];
    let mut st = record(&[1, 2, 5]);
    assert_eq!(count_pool_windows(&wins, 9, &st), 3);
    assert_eq!(windows_to_spawn(&pool, 9, &wins, &st), 0);
    mark_popped(&mut st, 1);
    assert_eq!(count_pool_windows(&wins, 9, &st), 2);
    assert_eq!(windows_to_spawn(&pool, 9, &wins, &st), 1);
    let ids: Vec<u32> = pool_windows(&wins, 9, &st).iter().map(|w| w.xid).collect();
    assert_eq!(ids, vec![2, 5]);
    assert_eq!(first_pool_window(&wins, 9, &st), Some(1));
    assert_eq!(first_pool_window(&wins, 7, &st), None);
    assert_eq!(windows_to_spawn(&pool, 7, &wins, &st), 3);
}

#[test]
fn activation_requests_in_order() {
    assert_eq!(
        activation_ops(0x42, 2),
        vec![
            WindowOp::RestoreNormalState { xid: 0x42 },
            WindowOp::MoveToCenter { xid: 0x42 },
            WindowOp::MoveToDesktop { xid: 0x42, desktop: 2 },
            WindowOp::EnsureShown { xid: 0x42 },
            WindowOp::Focus { xid: 0x42 },
        ]
    );
}

#[test]
fn hide_and_toggle() {
    let wins = vec![w(1, Some(0)), w(2, Some(9)), w(3, Some(0))];
    assert_eq!(
        hide_ops(&wins, 0, 9),
        vec![
            WindowOp::MoveToDesktop { xid: 1, desktop: 9 },
            WindowOp::MoveToDesktop { xid: 3, desktop: 9 },
        ]
    );
    assert_eq!(count_on_desktop(&wins, 0), 2);
    assert_eq!(count_on_desktop(&wins, 9), 1);
    assert_eq!(toggle_choice(&wins, 0), ToggleChoice::HideAll);
    assert_eq!(toggle_choice(&wins, 5), ToggleChoice::ShowOne);
    assert!(hide_ops(&wins, 5, 9).is_empty());
    assert_eq!(hidden_message(2).as_str(), "hidden 2 windows");
    assert_eq!(shown_message(0x2e00017).as_str(), "shown window 0x2e00017");
}

#[test]
fn cycle_hides_the_visible_window_and_brings_the_next() {
    let wins = vec![w(1, Some(9)), w(2, Some(0)), w(3, Some(9)), w(4, Some(0))];
    let mut st = record(&[1, 3]);
    assert_eq!(cycle_plan(&wins, 0, 9, &st), CyclePlan::Rotate { hide: 2, next: Some(1) });
    mark_popped(&mut st, 1);
    assert_eq!(cycle_plan(&wins, 0, 9, &st), CyclePlan::Rotate { hide: 2, next: Some(3) });
    mark_popped(&mut st, 3);
    assert_eq!(cycle_plan(&wins, 0, 9, &st), CyclePlan::Rotate { hide: 2, next: None });
    assert_eq!(cycle_plan(&wins, 5, 9, &st), CyclePlan::ShowOne);
    assert_eq!(cycled_message(0xab).as_str(), "cycled to 0xab");
    assert_eq!(last_hidden_message().as_str(), "hidden last window");
}

#[test]
fn antiflicker_strategies() {
    let x = 5;
    let all = vec![
        WindowOp::SetUtilityType { xid: x },
        WindowOp::SetInvisibleStates { xid: x },
        WindowOp::Lower { xid: x },
        WindowOp::MoveOffscreen { xid: x },
    ];
    assert_eq!(antiflicker_ops("none", x), (vec![], true));
    assert_eq!(antiflicker_ops("all", x), (all.clone(), true));
    assert_eq!(antiflicker_ops("unmap", x), (vec![WindowOp::Unmap { xid: x }], true));
    assert_eq!(antiflicker_ops("offscreen", x), (vec![WindowOp::MoveOffscreen { xid: x }], true));
    assert_eq!(antiflicker_ops("utility", x), (vec![WindowOp::SetUtilityType { xid: x }], true));
    assert_eq!(antiflicker_ops("iconic", x), (vec![WindowOp::SetIconic { xid: x }], true));
    assert_eq!(antiflicker_ops("lower", x), (vec![WindowOp::Lower { xid: x }], true));
    assert_eq!(
        antiflicker_ops("combo1", x),
        (vec![WindowOp::Unmap { xid: x }, WindowOp::MoveOffscreen { xid: x }], true)
    );
    assert_eq!(antiflicker_ops("combo2", x), (all[0..3].to_vec(), true));
    assert_eq!(
        antiflicker_ops("combo3", x),
        (vec![WindowOp::SetIconic { xid: x }, WindowOp::MoveOffscreen { xid: x }], true)
    );
    assert_eq!(antiflicker_ops("bogus", x), (all.clone(), false));
}

#[test]
fn session_ids() {
    assert_eq!(
        session_id("2024-01-02T03:04:05Z", "aB3xY9").as_str(),
        "0fbuf-2024-01-02T030405Z-aB3xY9"
    );
    let s = gen_session_id();
    assert!(s.starts_with("0fbuf-"));
    assert!(!s.contains(':'));
    assert!(!s.contains('\'') && !s.contains('"'));
    let suffix = &s[s.len() - 6..];
    assert!(suffix.chars().all(|c| c.is_ascii_alphanumeric()));
    let stamp = &s["0fbuf-".len()..s.len() - 7];
    assert!(stamp == "now" || (stamp.len() >= 17 && &stamp[4..5] == "-" && &stamp[10..11] == "T"));
    assert_eq!(&s[s.len() - 7..s.len() - 6], "-");
}

#[test]
fn spawn_command_lines() {
    assert_eq!(
        default_spawn_cmd_line("c", "s").as_str(),
        "xterm -class c -T c -e tmux new -A -s s"
    );
    assert_eq!(
        fill_spawn_template("kitty --class {class} tmux new -s {session}", "S1", "C1").as_str(),
        "kitty --class C1 tmux new -s S1"
    );
}

fn argv_of(plan: ArgvPlan) -> (Vec<String>, Option<String>) {
    match plan {
        ArgvPlan::Run { argv, warning } => (argv, warning),
        other => panic!("unexpected plan {:?}", other),
    }
}

#[test]
fn spawn_argv_decisions() {
    let mut pool = make_builtin_pool("p", "0fbuf-p", 1, "kitty --class {class} -e 'tmux new -s {session}'");
    let (argv, warning) = argv_of(spawn_argv(&pool, "S"));
    assert!(warning.is_none());
    assert_eq!(argv, vec!["kitty", "--class", "0fbuf-p", "-e", "tmux new -s S"]);

    pool.spawn_cmd = "   ".to_string();
    let (argv, warning) = argv_of(spawn_argv(&pool, "S"));
    assert!(warning.is_none());
    assert_eq!(argv, vec!["xterm", "-class", "0fbuf-p", "-T", "0fbuf-p", "-e", "tmux", "new", "-A", "-s", "S"]);

    pool.spawn_cmd = "kitty 'unbalanced".to_string();
    let (argv, warning) = argv_of(spawn_argv(&pool, "S"));
    assert_eq!(
        warning.as_deref(),
        Some("Warning: Failed to parse spawn command 'kitty 'unbalanced': missing closing quote, using default")
    );
    assert_eq!(argv[0], "xterm");

    pool.spawn_cmd = "# only a comment".to_string();
    assert!(matches!(spawn_argv(&pool, "S"), ArgvPlan::Empty { warning: None }));

    pool.spawn_cmd = "".to_string();
    pool.class = "a'\"".to_string();
    assert!(matches!(spawn_argv(&pool, "S"), ArgvPlan::Unparsable { warning: None }));
    pool.spawn_cmd = "x 'y".to_string();
    assert!(matches!(spawn_argv(&pool, "S"), ArgvPlan::Unparsable { warning: Some(_) }));
}

#[test]
fn parse_cmd_names_the_template() {
    let w = parse_cmd("sh -c {session}", "S1", "C").unwrap();
    assert_eq!(w, vec!["sh", "-c", "S1"]);
    let e = parse_cmd("sh -c 'x {class}", "S1", "C").unwrap_err();
    assert_eq!(e.as_str(), "Failed to parse spawn command 'sh -c 'x {class}': missing closing quote");
}

#[test]
fn on_spawn_pause_and_pointer_placement() {
    assert_eq!(on_spawn_pause_ms(&vec![]), None);
    assert_eq!(on_spawn_pause_ms(&vec!["true".to_string()]), Some(ON_SPAWN_DELAY_MS));
    let mut input = InputState::default();
    input.move_flag = true;
    assert!(place_near_pointer(true, &input));
    assert!(!place_near_pointer(false, &input));
    input.move_flag = false;
    assert!(!place_near_pointer(true, &input));
}

#[test]
fn waiting_for_a_spawned_window() {
    let wins = vec![w(1, Some(9)), w(2, Some(9))];
    assert_eq!(spawn_poll_step(&wins, 20, 0), PollStep::Found { xid: 2 });
    assert_eq!(spawn_poll_step(&wins, 30, 3_000_000_000), PollStep::Wait);
    assert_eq!(spawn_poll_step(&wins, 30, 3_000_000_001), PollStep::TimedOut);
}

#[test]
fn on_spawn_commands_fill_placeholders() {
    let cmds = vec![
        "xdotool type --window {xid} 'cd ~' # {class} {session}".to_string(),
        "echo {session}{session}".to_string(),
    ];
    let out = on_spawn_commands(&cmds, "cls", "sess", 0x2e00017);
    assert_eq!(out[0].as_str(), "xdotool type --window 0x2e00017 'cd ~' # cls sess");
    assert_eq!(out[1].as_str(), "echo sesssess");
    let m = spawned_meta(7, "s".to_string(), "t".to_string());
    assert!(!m.popped);
    assert_eq!(m.session.as_deref(), Some("s"));
    let i = spawned_info(3, 7, 9, "cls");
    assert_eq!((i.xid, i.pid, i.desktop, i.class.as_deref()), (3, Some(7), Some(9), Some("cls")));
}

fn words(w: &[&str]) -> Vec<String> {
    w.iter().map(|s| s.to_string()).collect()
}

#[test]
fn argv_choice_from_given_words() {
    let fallback = Some(words(&["xterm", "-e", "tmux"]));
    let (argv, warning) = argv_of(argv_from_words(Some(Ok(words(&["kitty"]))), fallback.clone()));
    assert_eq!((argv, warning), (words(&["kitty"]), None));
    let (argv, warning) = argv_of(argv_from_words(Some(Err("E".to_string())), fallback.clone()));
    assert_eq!((argv, warning), (words(&["xterm", "-e", "tmux"]), Some("Warning: E, using default".to_string())));
    let (argv, warning) = argv_of(argv_from_words(None, fallback.clone()));
    assert_eq!((argv, warning), (words(&["xterm", "-e", "tmux"]), None));
    assert!(matches!(argv_from_words(Some(Ok(vec![])), fallback.clone()), ArgvPlan::Empty { warning: None }));
    assert!(matches!(argv_from_words(Some(Err("E".to_string())), Some(vec![])), ArgvPlan::Empty { warning: Some(_) }));
    assert!(matches!(argv_from_words(None, None), ArgvPlan::Unparsable { warning: None }));
    assert!(matches!(argv_from_words(Some(Err("E".to_string())), None), ArgvPlan::Unparsable { warning: Some(_) }));
}

#[test]
fn quick_toggle_hides_first_visible_or_shows() {
    let wins = vec![w(1, Some(2)), w(2, Some(0)), w(3, Some(0))];
    assert_eq!(quick_toggle_op(&wins, 0, 9), Some(WindowOp::MoveToDesktop { xid: 2, desktop: 9 }));
    assert_eq!(quick_toggle_op(&wins, 5, 9), None);
}
