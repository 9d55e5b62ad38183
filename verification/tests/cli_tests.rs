use zerofbuf::cli::{
    apply_cli_overrides, apply_input_overrides, override_pool_name, select_pool, Cli, CliError,
    Commands, InputOpts, PoolOpts,
};
use zerofbuf::config::{default_single_config, InputConfig};

const TERM: &str = "kitty --class {class} --title {class} tmux new -A -s {session}";

fn cli(pool_opts: PoolOpts, input_opts: InputOpts) -> Cli {
    Cli {
        config: None,
        no_config: false,
        default_pool: "default".to_string(),
        pool_opts,
        input_opts,
        command: Commands::Status,
    }
}

#[test]
fn input_overrides_replace_only_given_values() {
    let mut c = InputConfig::default();
    let opts = InputOpts { mouse_recent_ms: Some(900), motion_eps: Some(3), ..InputOpts::default() };
    apply_input_overrides(&mut c, &opts);
    assert_eq!(c.mouse_recent_ms, 900);
    assert_eq!(c.motion_eps, 3);
    assert_eq!(c.key_suppress_ms, 400);
}

#[test]
fn missing_override_pool_is_seeded_from_scratch_pool() {
    let mut cfg = default_single_config(TERM);
    let c = cli(PoolOpts { min: Some(4), ..PoolOpts::default() }, InputOpts::default());
    assert_eq!(override_pool_name(&c).as_str(), "default");
    apply_cli_overrides(&mut cfg, &c, Some(TERM));
    assert_eq!(cfg.pools.len(), 3);
    assert_eq!(cfg.pools.key_at(0).as_str(), "default");
    let p = cfg.pools.get("default").unwrap();
    assert_eq!(p.name.as_str(), "default");
    assert_eq!(p.class.as_str(), "0fbuf-scratch");
    assert_eq!(p.min, 4);
    assert_eq!(cfg.pools.get("shell").unwrap().min, 3);
}

#[test]
fn named_pool_overrides_and_antiflicker_for_all() {
    let mut cfg = default_single_config(TERM);
    let opts = PoolOpts {
        pool_name: Some("shell".to_string()),
        class: Some("mine".to_string()),
        spawn_cmd: Some("xterm".to_string()),
        pool_desktop: Some(4),
        no_reset: true,
        reset_keys: Some("q".to_string()),
        antiflicker_strategy: Some("combo2".to_string()),
        ..PoolOpts::default()
    };
    let c = cli(opts, InputOpts { ensure_interval_ms: Some(100), ..InputOpts::default() });
    apply_cli_overrides(&mut cfg, &c, None);
    assert_eq!(cfg.pools.len(), 2);
    let shell = cfg.pools.get("shell").unwrap();
    assert_eq!(shell.class.as_str(), "mine");
    assert_eq!(shell.spawn_cmd.as_str(), "xterm");
    assert_eq!(shell.pool_desktop, Some(4));
    assert!(!shell.reset_via_tmux);
    assert_eq!(shell.reset_keys.as_deref(), Some("q"));
    assert_eq!(shell.min, 3);
    assert_eq!(shell.antiflicker_strategy.as_str(), "combo2");
    assert_eq!(cfg.pools.get("scratch").unwrap().antiflicker_strategy.as_str(), "combo2");
    assert_eq!(cfg.pools.get("scratch").unwrap().class.as_str(), "0fbuf-scratch");
    assert_eq!(cfg.input.ensure_interval_ms, 100);
}

#[test]
fn commands_pick_their_pool_or_report_it_missing() {
    let cfg = default_single_config(TERM);
    let p = select_pool(&cfg, &Some("shell".to_string()), &"default".to_string()).unwrap();
    assert_eq!(p.min, 3);
    let p = select_pool(&cfg, &None, &"scratch".to_string()).unwrap();
    assert_eq!(p.min, 1);
    match select_pool(&cfg, &None, &"default".to_string()) {
        Err(e) => {
            assert_eq!(e.message().as_str(), "unknown pool: default");
            let CliError::UnknownPool { name } = e;
            assert_eq!(name.as_str(), "default");
        }
        Ok(_) => panic!("expected an unknown pool"),
    }
}
