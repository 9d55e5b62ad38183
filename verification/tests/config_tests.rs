use zerofbuf::config::{
    config_candidates, default_antiflicker, default_single_config, expand_tilde, get_config_path,
    make_builtin_pool, pick_terminal, seed_pool, str_less, terminal_candidates, InputConfig,
    PoolMap, DEFAULT_CLASS, DEFAULT_MIN,
};

const KITTY: &str = "kitty --class {class} --title {class} tmux new -A -s {session}";

#[test]
fn default_config_has_scratch_then_shell() {
    let cfg = default_single_config(KITTY);
    assert_eq!(cfg.pools.len(), 2);
    assert_eq!(cfg.pools.key_at(0).as_str(), "scratch");
    assert_eq!(cfg.pools.key_at(1).as_str(), "shell");
    let scratch = cfg.pools.get("scratch").unwrap();
    assert_eq!(scratch.class.as_str(), "0fbuf-scratch");
    assert_eq!(scratch.min, 1);
    assert_eq!(scratch.spawn_cmd.as_str(), KITTY);
    assert_eq!(scratch.reset_keys.as_deref(), Some("C-c reset Enter"));
    assert!(scratch.reset_via_tmux);
    assert_eq!(scratch.antiflicker_strategy.as_str(), "all");
    let shell = cfg.pools.get("shell").unwrap();
    assert_eq!(shell.class.as_str(), "0fbuf-shell");
    assert_eq!(shell.min, 3);
    assert!(shell.pool_desktop.is_none());
    assert!(shell.on_spawn.is_empty());
}

#[test]
fn default_input_settings() {
    let c = InputConfig::default();
    assert_eq!(c.mouse_recent_ms, 500);
    assert_eq!(c.key_suppress_ms, 400);
    assert_eq!(c.input_poll_ms, 50);
    assert_eq!(c.ensure_interval_ms, 800);
    assert_eq!(c.motion_eps, 1);
    assert_eq!(default_antiflicker().as_str(), "all");
    assert_eq!(DEFAULT_CLASS, "0fbuf");
    assert_eq!(DEFAULT_MIN, 5);
}

#[test]
fn seed_pool_copies_first_builtin_pool() {
    let p = seed_pool("dev", KITTY);
    assert_eq!(p.name.as_str(), "dev");
    assert_eq!(p.class.as_str(), "0fbuf-scratch");
    assert_eq!(p.min, 1);
}

#[test]
fn pick_terminal_prefers_earlier_entries() {
    assert_eq!(pick_terminal(&vec![true]).as_str(), KITTY);
    assert_eq!(
        pick_terminal(&vec![false, false, false, true]).as_str(),
        "foot --app-id={class} --title={class} tmux new -A -s {session}"
    );
    assert_eq!(
        pick_terminal(&vec![]).as_str(),
        "xterm -class {class} -T {class} -e tmux new -A -s {session}"
    );
    assert_eq!(terminal_candidates().len(), 13);
    assert_eq!(terminal_candidates()[12].0.as_str(), "xterm");
}

#[test]
fn pool_map_keeps_names_sorted_and_reads_back_writes() {
    let mut m = PoolMap::new();
    m.insert("shell".to_string(), make_builtin_pool("shell", "c1", 3, "x"));
    m.insert("browser".to_string(), make_builtin_pool("browser", "c2", 1, "y"));
    m.insert("calc".to_string(), make_builtin_pool("calc", "c3", 1, "z"));
    assert_eq!(m.len(), 3);
    assert_eq!(m.key_at(0).as_str(), "browser");
    assert_eq!(m.key_at(1).as_str(), "calc");
    assert_eq!(m.key_at(2).as_str(), "shell");
    m.insert("calc".to_string(), make_builtin_pool("calc", "c4", 2, "z"));
    assert_eq!(m.len(), 3);
    assert_eq!(m.get("calc").unwrap().class.as_str(), "c4");
    assert!(m.get("missing").is_none());
    assert!(m.contains_key("browser"));
    m.set_all_strategies("offscreen");
    assert_eq!(m.pool_at(2).antiflicker_strategy.as_str(), "offscreen");
    assert_eq!(m.pool_at(0).antiflicker_strategy.as_str(), "offscreen");
}

#[test]
fn string_order_is_by_code_point() {
    assert!(str_less("scratch", "shell"));
    assert!(!str_less("shell", "scratch"));
    assert!(str_less("a", "ab"));
    assert!(!str_less("ab", "ab"));
    assert!(str_less("Z", "a"));
}

#[test]
fn config_path_prefers_given_then_env_then_existing_files() {
    let none: Vec<bool> = vec![];
    assert_eq!(get_config_path(Some("/etc/x.toml"), Some("/e"), Some("/h"), &none).as_str(), "/etc/x.toml");
    assert_eq!(get_config_path(None, Some("~/c.json"), Some("/h"), &none).as_str(), "/h/c.json");
    assert_eq!(
        get_config_path(None, None, Some("/h"), &vec![false, false, true, true]).as_str(),
        "/h/.config/0fbuf/pools.json"
    );
    assert_eq!(
        get_config_path(None, None, Some("/h"), &vec![true, true, false, false]).as_str(),
        "/h/.config/0fbuf/pools.toml"
    );
    assert_eq!(
        get_config_path(None, None, Some("/h"), &vec![false, true, true, true]).as_str(),
        "/h/.config/0fbuf/config.toml"
    );
    assert_eq!(
        get_config_path(None, None, Some("/h"), &vec![false, false, false, false]).as_str(),
        "/h/.config/0fbuf/pools.toml"
    );
    assert_eq!(get_config_path(None, None, None, &none).as_str(), "pools.toml");
    let c = config_candidates("/h");
    assert_eq!(c[3].as_str(), "/h/.config/0fbuf/config.json");
}

#[test]
fn tilde_is_expanded_only_at_the_start() {
    assert_eq!(expand_tilde("~/a/b", Some("/home/u")).as_str(), "/home/u/a/b");
    assert_eq!(expand_tilde("~/a", None).as_str(), "~/a");
    assert_eq!(expand_tilde("/x/~/a", Some("/home/u")).as_str(), "/x/~/a");
    assert_eq!(expand_tilde("~user/a", Some("/home/u")).as_str(), "~user/a");
}
