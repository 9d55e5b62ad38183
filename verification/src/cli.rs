//! The command line as values, and how its overrides change the
//! configuration.
use vstd::prelude::*;
use crate::config::{
    builtin_entries,
    seed_pool,
    with_strategy,
    Config,
    InputConfig,
    PoolConfig,
    PoolConfigView,
};
use crate::text::{owned, push_str_chars};

verus! {

/// The parsed command line.
#[derive(Debug)]
pub struct Cli {
    /// Path of the configuration file.
    pub config: Option<String>,
    /// Ignore configuration files and use only the defaults and overrides.
    pub no_config: bool,
    /// The pool used when a command names none.
    pub default_pool: String,
    /// Overrides for the default (or named) pool.
    pub pool_opts: PoolOpts,
    /// Overrides for the input heuristics and scheduling.
    pub input_opts: InputOpts,
    pub command: Commands,
}

/// The subcommands.
#[derive(Debug)]
pub enum Commands {
    /// Run the background daemon (pool maintainer and input monitor).
    Daemon,
    /// Activate a ready window from a pool.
    Activate(ActivateArgs),
    /// Legacy toggle behaviour (hide/show).
    Toggle(PoolArg),
    /// Scratchpad-style window management.
    Scratchpad(ScratchpadArgs),
    /// Ensure the pool is topped up.
    Ensure(PoolArg),
    /// List the pool's windows.
    List(PoolArg),
    /// Reset tmux sessions for a pool.
    Reset(PoolArg),
    /// Print the input monitor status.
    Status,
    /// Edit the configuration file.
    Config,
    /// List the anti-flicker strategies.
    Strategies,
}

/// A command's pool argument.
#[derive(Debug)]
pub struct PoolArg {
    pub pool: Option<String>,
}

/// Arguments of `activate`.
#[derive(Debug)]
pub struct ActivateArgs {
    pub pool: Option<String>,
    /// Place the window near the mouse if the daemon reports mouse mode.
    pub mouse: bool,
}

/// Arguments of `scratchpad`.
#[derive(Debug)]
pub struct ScratchpadArgs {
    pub pool: Option<String>,
    pub action: ScratchpadAction,
    /// Place the window near the mouse if the daemon reports mouse mode.
    pub mouse: bool,
}

/// What a scratchpad command does.
#[derive(Debug, Clone, Copy, PartialEq, Eq, Structural)]
pub enum ScratchpadAction {
    Show,
    Hide,
    Toggle,
    Cycle,
}

/// Overrides for one pool.
#[derive(Debug)]
pub struct PoolOpts {
    /// The pool to override (or define); the default pool when unset.
    pub pool_name: Option<String>,
    pub class: Option<String>,
    pub min: Option<usize>,
    pub spawn_cmd: Option<String>,
    pub pool_desktop: Option<u32>,
    /// Turn the tmux reset off.
    pub no_reset: bool,
    pub reset_keys: Option<String>,
    /// Also applied to every pool.
    pub antiflicker_strategy: Option<String>,
}

/// Overrides for the input settings.
#[derive(Debug)]
pub struct InputOpts {
    pub mouse_recent_ms: Option<u64>,
    pub key_suppress_ms: Option<u64>,
    pub input_poll_ms: Option<u64>,
    pub ensure_interval_ms: Option<u64>,
    pub motion_eps: Option<i16>,
}

impl Default for PoolOpts {
    fn default() -> (o: PoolOpts)
        ensures
            o.pool_name is None,
            o.class is None,
            o.min is None,
            o.spawn_cmd is None,
            o.pool_desktop is None,
            !o.no_reset,
            o.reset_keys is None,
            o.antiflicker_strategy is None,
    {
        PoolOpts {
            pool_name: None,
            class: None,
            min: None,
            spawn_cmd: None,
            pool_desktop: None,
            no_reset: false,
            reset_keys: None,
            antiflicker_strategy: None,
        }
    }
}

impl Default for InputOpts {
    fn default() -> (o: InputOpts)
        ensures
            o.mouse_recent_ms is None,
            o.key_suppress_ms is None,
            o.input_poll_ms is None,
            o.ensure_interval_ms is None,
            o.motion_eps is None,
    {
        InputOpts {
            mouse_recent_ms: None,
            key_suppress_ms: None,
            input_poll_ms: None,
            ensure_interval_ms: None,
            motion_eps: None,
        }
    }
}

/// The value given, else the value there was.
pub open spec fn or_keep<T>(given: Option<T>, current: T) -> T {
    match given {
        Some(v) => v,
        None => current,
    }
}

/// The input settings with the given overrides.
pub open spec fn with_input_opts(c: InputConfig, o: InputOpts) -> InputConfig {
    InputConfig {
        mouse_recent_ms: or_keep(o.mouse_recent_ms, c.mouse_recent_ms),
        key_suppress_ms: or_keep(o.key_suppress_ms, c.key_suppress_ms),
        input_poll_ms: or_keep(o.input_poll_ms, c.input_poll_ms),
        ensure_interval_ms: or_keep(o.ensure_interval_ms, c.ensure_interval_ms),
        motion_eps: or_keep(o.motion_eps, c.motion_eps),
    }
}

/// Applies the input overrides.
pub fn apply_input_overrides(input: &mut InputConfig, opts: &InputOpts)
    ensures
        *final(input) == with_input_opts(*old(input), *opts),
{
    if let Some(v) = opts.mouse_recent_ms {
        input.mouse_recent_ms = v;
    }
    if let Some(v) = opts.key_suppress_ms {
        input.key_suppress_ms = v;
    }
    if let Some(v) = opts.input_poll_ms {
        input.input_poll_ms = v;
    }
    if let Some(v) = opts.ensure_interval_ms {
        input.ensure_interval_ms = v;
    }
    if let Some(v) = opts.motion_eps {
        input.motion_eps = v;
    }
}

/// A pool with the given overrides (the anti-flicker override included).
pub open spec fn with_pool_opts(p: PoolConfigView, o: PoolOpts) -> PoolConfigView {
    PoolConfigView {
        class: match o.class {
            Some(c) => c@,
            None => p.class,
        },
        min: match o.min {
            Some(m) => m as nat,
            None => p.min,
        },
        spawn_cmd: match o.spawn_cmd {
            Some(c) => c@,
            None => p.spawn_cmd,
        },
        pool_desktop: match o.pool_desktop {
            Some(d) => Some(d),
            None => p.pool_desktop,
        },
        reset_via_tmux: if o.no_reset {
            false
        } else {
            p.reset_via_tmux
        },
        reset_keys: match o.reset_keys {
            Some(k) => Some(k@),
            None => p.reset_keys,
        },
        antiflicker_strategy: match o.antiflicker_strategy {
            Some(s) => s@,
            None => p.antiflicker_strategy,
        },
        ..p
    }
}

/// Applies the overrides to one pool.
pub fn apply_pool_opts(pool: &mut PoolConfig, opts: &PoolOpts)
    ensures
        final(pool)@ == with_pool_opts(old(pool)@, *opts),
{
    if let Some(v) = &opts.class {
        pool.class = v.clone();
    }
    if let Some(v) = opts.min {
        pool.min = v;
    }
    if let Some(v) = &opts.spawn_cmd {
        pool.spawn_cmd = v.clone();
    }
    if let Some(v) = opts.pool_desktop {
        pool.pool_desktop = Some(v);
    }
    if opts.no_reset {
        pool.reset_via_tmux = false;
    }
    if let Some(v) = &opts.reset_keys {
        pool.reset_keys = Some(v.clone());
    }
    if let Some(v) = &opts.antiflicker_strategy {
        pool.antiflicker_strategy = v.clone();
    }
}

/// The pool the overrides are for: the one named, else the default pool.
pub open spec fn override_name(cli: Cli) -> Seq<char> {
    match cli.pool_opts.pool_name {
        Some(n) => n@,
        None => cli.default_pool@,
    }
}

/// The pool the overrides are for.
pub fn override_pool_name(cli: &Cli) -> (n: String)
    ensures
        n@ == override_name(*cli),
{
    match &cli.pool_opts.pool_name {
        Some(n) => n.clone(),
        None => cli.default_pool.clone(),
    }
}

/// Every pool with strategy `s`.
pub open spec fn all_with_strategy(m: Map<Seq<char>, PoolConfigView>, s: Seq<char>) -> Map<Seq<char>, PoolConfigView> {
    Map::new(|k: Seq<char>| m.dom().contains(k), |k: Seq<char>| with_strategy(m[k], s))
}

/// The pools after the command-line overrides: the overridden pool is
/// created from the first built-in pool when missing (with the detected
/// terminal), then overridden; an anti-flicker override then goes to every
/// pool.
pub open spec fn overridden_pools(
    pools: Map<Seq<char>, PoolConfigView>,
    cli: Cli,
    detected_terminal: Seq<char>,
) -> Map<Seq<char>, PoolConfigView> {
    let name = override_name(cli);
    let seeded = if pools.dom().contains(name) {
        pools
    } else {
        pools.insert(name, PoolConfigView { name, ..builtin_entries(detected_terminal)[0].1 })
    };
    let tuned = seeded.insert(name, with_pool_opts(seeded[name], cli.pool_opts));
    match cli.pool_opts.antiflicker_strategy {
        Some(s) => all_with_strategy(tuned, s@),
        None => tuned,
    }
}

/// Applies the command-line overrides to the configuration. The detected
/// terminal is needed only when the overridden pool does not exist yet.
pub fn apply_cli_overrides(cfg: &mut Config, cli: &Cli, detected_terminal: Option<&str>)
    requires
        old(cfg).pools.wf(),
        !old(cfg).pools.view().dom().contains(override_name(*cli)) ==> detected_terminal is Some,
    ensures
        final(cfg).pools.wf(),
        final(cfg).input == with_input_opts(old(cfg).input, cli.input_opts),
        final(cfg).pools.view() == overridden_pools(
            old(cfg).pools.view(),
            *cli,
            match detected_terminal {
                Some(t) => t@,
                None => Seq::empty(),
            },
        ),
{
    apply_input_overrides(&mut cfg.input, &cli.input_opts);
    let name = override_pool_name(cli);
    if !cfg.pools.contains_key(name.as_str()) {
        let terminal: &str = match detected_terminal {
            Some(t) => t,
            None => "",
        };
        let seed = seed_pool(name.as_str(), terminal);
        cfg.pools.insert(name.clone(), seed);
    }
    let ghost seeded = cfg.pools.view();
    assert(seeded.dom().contains(name@));
    match cfg.pools.position(name.as_str()) {
        Some(i) => {
            let mut pool = cfg.pools.pool_at(i).duplicate();
            apply_pool_opts(&mut pool, &cli.pool_opts);
            let ghost before = cfg.pools;
            cfg.pools.set_pool_at(i, pool);
            proof {
                before.lemma_index_of(i as int);
                assert(before.keys()[i as int] == name@);
                assert(cfg.pools.view() =~= seeded.insert(name@, with_pool_opts(seeded[name@], cli.pool_opts))) by {
                    before.lemma_views_follow_entries(&cfg.pools);
                    assert forall|k: Seq<char>| #[trigger] cfg.pools.view().dom().contains(k) implies cfg.pools.view()[k]
                        == seeded.insert(name@, with_pool_opts(seeded[name@], cli.pool_opts))[k] by {
                        let j = before.keys().index_of(k);
                        before.lemma_index_of(j);
                        cfg.pools.lemma_index_of(j);
                    }
                }
            }
        },
        None => {
            proof {
                assert(false);
            }
        },
    }
    let ghost tuned = cfg.pools.view();
    if let Some(s) = &cli.pool_opts.antiflicker_strategy {
        cfg.pools.set_all_strategies(s.as_str());
        assert(cfg.pools.view() =~= all_with_strategy(tuned, s@));
    }
}

/// Why a command could not run.
#[derive(Debug)]
pub enum CliError {
    /// No pool has the name.
    UnknownPool { name: String },
}

impl CliError {
    /// The message the error is reported with.
    pub fn message(&self) -> (m: String)
        ensures
            match self {
                CliError::UnknownPool { name } => m@ == "unknown pool: "@ + name@,
            },
    {
        match self {
            CliError::UnknownPool { name } => {
                let mut m = owned("unknown pool: ");
                push_str_chars(&mut m, name.as_str());
                m
            },
        }
    }
}

/// The pool a command is about: the one it names, else the default pool.
pub open spec fn chosen_pool_name(arg: Option<String>, default_pool: String) -> Seq<char> {
    match arg {
        Some(n) => n@,
        None => default_pool@,
    }
}

/// The configured pool a command is about, or the error naming the missing
/// pool.
pub fn select_pool<'a>(cfg: &'a Config, arg: &Option<String>, default_pool: &String) -> (r: Result<
    &'a PoolConfig,
    CliError,
>)
    requires
        cfg.pools.wf(),
    ensures
        match r {
            Ok(p) => cfg.pools.view().dom().contains(chosen_pool_name(*arg, *default_pool)) && p@
                == cfg.pools.view()[chosen_pool_name(*arg, *default_pool)],
            Err(CliError::UnknownPool { name }) => !cfg.pools.view().dom().contains(
                chosen_pool_name(*arg, *default_pool),
            ) && name@ == chosen_pool_name(*arg, *default_pool),
        },
{
    let name: &String = match arg {
        Some(n) => n,
        None => default_pool,
    };
    match cfg.pools.get(name.as_str()) {
        Some(p) => Ok(p),
        None => Err(CliError::UnknownPool { name: name.clone() }),
    }
}

} // verus!
