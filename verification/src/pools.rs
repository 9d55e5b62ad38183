//! The decisions behind keeping pools topped up and taking windows out of
//! them: which desktop holds a pool, which windows count as warm, what to
//! spawn, and which window-manager requests an activation, a hide, a toggle
//! or a cycle makes.
use vstd::prelude::*;
use crate::config::{opt_view, PoolConfig, PoolConfigView};
use crate::external::{
    has_quote,
    is_ascii_alphanumeric,
    is_rfc3339_stamp,
    parse_error_text,
    sample_alphanumeric,
    shell_split,
    shell_words_split,
    thread_rng,
};
use crate::state::{
    InputState,
    is_popped,
    is_rfc3339_text,
    now_rfc3339,
    popped_in,
    popped_record,
    StateFile,
    WindowMeta,
};
use crate::text::{
    concat2,
    decimal_string,
    digits,
    hex_string,
    is_blank,
    owned,
    push_str_chars,
    replace_all,
    replace_str,
    str_eq,
    trim_is_empty,
};
use crate::x11util::{copy_win, WinInfo};

verus! {

/// How long a spawned window is waited for.
pub const WINDOW_SPAWN_TIMEOUT_SECS: u64 = 3;

/// How often the window list is polled while waiting for a spawned window.
pub const WINDOW_POLL_INTERVAL_MS: u64 = 30;

/// The pause before the commands run after a spawn.
pub const ON_SPAWN_DELAY_MS: u64 = 100;

/// Why a pool operation failed.
#[derive(Debug, PartialEq, Eq, Structural)]
pub enum PoolError {
    /// The pool's desktop is not one of the desktops there are.
    DesktopOutOfRange { pool_desktop: u32, desktops: u32 },
    /// The spawn command has no words.
    EmptySpawnCommand,
    /// No window of the spawned process appeared in time.
    SpawnTimeout { pid: u32 },
}

/// The text of the out-of-range message.
pub open spec fn out_of_range_text(pool_desktop: u32, desktops: u32) -> Seq<char> {
    "pool_desktop "@ + digits(pool_desktop as nat, 10) + " is out of range (only "@ + digits(
        desktops as nat,
        10,
    ) + " desktops available)"@
}

impl PoolError {
    /// The message the error is reported with.
    pub fn message(&self) -> (m: String)
        ensures
            match self {
                PoolError::DesktopOutOfRange { pool_desktop, desktops } => m@ == out_of_range_text(
                    *pool_desktop,
                    *desktops,
                ),
                PoolError::EmptySpawnCommand => m@ == "empty spawn cmd"@,
                PoolError::SpawnTimeout { pid } => m@ == "timeout waiting for window (pid "@
                    + digits(*pid as nat, 10) + ")"@,
            },
    {
        match self {
            PoolError::DesktopOutOfRange { pool_desktop, desktops } => {
                let mut m = owned("pool_desktop ");
                push_str_chars(&mut m, decimal_string(*pool_desktop as u64).as_str());
                push_str_chars(&mut m, " is out of range (only ");
                push_str_chars(&mut m, decimal_string(*desktops as u64).as_str());
                push_str_chars(&mut m, " desktops available)");
                m
            },
            PoolError::EmptySpawnCommand => owned("empty spawn cmd"),
            PoolError::SpawnTimeout { pid } => {
                let mut m = owned("timeout waiting for window (pid ");
                push_str_chars(&mut m, decimal_string(*pid as u64).as_str());
                push_str_chars(&mut m, ")");
                m
            },
        }
    }
}

/// A window-manager request about one window.
#[derive(Debug, Clone, Copy, PartialEq, Eq, Structural)]
pub enum WindowOp {
    /// Send the window to a desktop.
    MoveToDesktop { xid: u32, desktop: u32 },
    /// Drop the skip-taskbar and skip-pager states.
    RestoreNormalState { xid: u32 },
    /// Centre the window on the screen.
    MoveToCenter { xid: u32 },
    /// Map the window.
    EnsureShown { xid: u32 },
    /// Make the window the active one.
    Focus { xid: u32 },
    /// Mark the window as a utility window.
    SetUtilityType { xid: u32 },
    /// Add the skip-taskbar and skip-pager states.
    SetInvisibleStates { xid: u32 },
    /// Put the window at the bottom of the stack.
    Lower { xid: u32 },
    /// Move the window far off screen.
    MoveOffscreen { xid: u32 },
    /// Unmap the window.
    Unmap { xid: u32 },
    /// Ask for the iconic (minimised) state.
    SetIconic { xid: u32 },
}

// -------------------------------------------------------------- desktop

/// The pool's desktop: the configured one, else the last desktop (0 when
/// there are none).
pub open spec fn pool_desktop_of(pool_desktop: Option<u32>, desktops: u32) -> u32 {
    match pool_desktop {
        Some(d) => d,
        None => if desktops == 0 {
            0
        } else {
            (desktops - 1) as u32
        },
    }
}

/// The desktop that holds the pool.
pub fn resolve_pool_desktop(pool: &PoolConfig, desktops: u32) -> (d: u32)
    ensures
        d == pool_desktop_of(pool.pool_desktop, desktops),
{
    match pool.pool_desktop {
        Some(d) => d,
        None => desktops.saturating_sub(1),
    }
}

/// The desktop that holds the pool, refused when it does not exist.
pub fn checked_pool_desktop(pool: &PoolConfig, desktops: u32) -> (r: Result<u32, PoolError>)
    ensures
        pool_desktop_of(pool.pool_desktop, desktops) < desktops ==> r == Ok::<u32, PoolError>(
            pool_desktop_of(pool.pool_desktop, desktops),
        ),
        pool_desktop_of(pool.pool_desktop, desktops) >= desktops ==> r == Err::<u32, PoolError>(
            PoolError::DesktopOutOfRange {
                pool_desktop: pool_desktop_of(pool.pool_desktop, desktops),
                desktops,
            },
        ),
{
    let d = resolve_pool_desktop(pool, desktops);
    if d >= desktops {
        Err(PoolError::DesktopOutOfRange { pool_desktop: d, desktops })
    } else {
        Ok(d)
    }
}

// ----------------------------------------------------------- pool windows

/// A warm pool window: on the pool's desktop and not taken out of the pool.
pub open spec fn is_pool_window(w: WinInfo, pool_desktop: u32, record: Map<u32, WindowMeta>) -> bool {
    w.desktop == Some(pool_desktop) && !popped_in(record, w.xid)
}

/// The warm pool windows among `wins`, in order.
pub open spec fn pool_windows_of(
    wins: Seq<WinInfo>,
    pool_desktop: u32,
    record: Map<u32, WindowMeta>,
) -> Seq<WinInfo> {
    wins.filter(|w: WinInfo| is_pool_window(w, pool_desktop, record))
}

/// Whether `w` is a warm pool window.
pub fn is_warm(w: &WinInfo, pool_desktop: u32, st: &StateFile) -> (b: bool)
    ensures
        b == is_pool_window(*w, pool_desktop, st.windows@),
{
    w.desktop == Some(pool_desktop) && !is_popped(st, w.xid)
}

/// The warm pool windows among `wins`, in order.
pub fn pool_windows(wins: &Vec<WinInfo>, pool_desktop: u32, st: &StateFile) -> (r: Vec<WinInfo>)
    ensures
        r@ == pool_windows_of(wins@, pool_desktop, st.windows@),
{
    let ghost f = |w: WinInfo| is_pool_window(w, pool_desktop, st.windows@);
    let mut out: Vec<WinInfo> = Vec::new();
    let mut i: usize = 0;
    while i < wins.len()
        invariant
            0 <= i <= wins@.len(),
            f == (|w: WinInfo| is_pool_window(w, pool_desktop, st.windows@)),
            out@ == wins@.take(i as int).filter(f),
        decreases wins@.len() - i,
    {
        if is_warm(&wins[i], pool_desktop, st) {
            out.push(copy_win(&wins[i]));
        }
        proof {
            reveal(Seq::filter);
            assert(wins@.take(i + 1).drop_last() =~= wins@.take(i as int));
        }
        i = i + 1;
    }
    assert(wins@.take(i as int) =~= wins@);
    out
}

/// How many warm pool windows there are.
pub fn count_pool_windows(wins: &Vec<WinInfo>, pool_desktop: u32, st: &StateFile) -> (n: usize)
    ensures
        n == pool_windows_of(wins@, pool_desktop, st.windows@).len(),
{
    let ghost f = |w: WinInfo| is_pool_window(w, pool_desktop, st.windows@);
    let mut n: usize = 0;
    let mut i: usize = 0;
    while i < wins.len()
        invariant
            0 <= i <= wins@.len(),
            f == (|w: WinInfo| is_pool_window(w, pool_desktop, st.windows@)),
            n == wins@.take(i as int).filter(f).len(),
            n <= i,
        decreases wins@.len() - i,
    {
        if is_warm(&wins[i], pool_desktop, st) {
            n = n + 1;
        }
        proof {
            reveal(Seq::filter);
            assert(wins@.take(i + 1).drop_last() =~= wins@.take(i as int));
        }
        i = i + 1;
    }
    assert(wins@.take(i as int) =~= wins@);
    n
}

/// How many windows must be spawned to bring the pool up to its minimum.
pub open spec fn shortfall(min: nat, have: nat) -> nat {
    if have < min {
        (min - have) as nat
    } else {
        0
    }
}

/// How many windows to spawn so that the pool holds at least `pool.min`
/// warm windows.
pub fn windows_to_spawn(pool: &PoolConfig, pool_desktop: u32, wins: &Vec<WinInfo>, st: &StateFile) -> (n:
    usize)
    ensures
        n == shortfall(pool.min as nat, pool_windows_of(wins@, pool_desktop, st.windows@).len()),
{
    let have = count_pool_windows(wins, pool_desktop, st);
    if have < pool.min {
        pool.min - have
    } else {
        0
    }
}

/// The place of the first warm pool window, if any.
pub fn first_pool_window(wins: &Vec<WinInfo>, pool_desktop: u32, st: &StateFile) -> (r: Option<usize>)
    ensures
        match r {
            Some(i) => i < wins@.len() && is_pool_window(wins@[i as int], pool_desktop, st.windows@)
                && forall|j: int| 0 <= j < i ==> !is_pool_window(#[trigger] wins@[j], pool_desktop, st.windows@),
            None => forall|j: int|
                0 <= j < wins@.len() ==> !is_pool_window(#[trigger] wins@[j], pool_desktop, st.windows@),
        },
{
    let mut i: usize = 0;
    while i < wins.len()
        invariant
            0 <= i <= wins@.len(),
            forall|j: int| 0 <= j < i ==> !is_pool_window(#[trigger] wins@[j], pool_desktop, st.windows@),
        decreases wins@.len() - i,
    {
        if is_warm(&wins[i], pool_desktop, st) {
            return Some(i);
        }
        i = i + 1;
    }
    None
}

/// The requests that bring a window out of the pool onto desktop `current`:
/// normal state, centred, moved, mapped, focused.
pub open spec fn activation_ops_of(xid: u32, current: u32) -> Seq<WindowOp> {
    seq![
        WindowOp::RestoreNormalState { xid },
        WindowOp::MoveToCenter { xid },
        WindowOp::MoveToDesktop { xid, desktop: current },
        WindowOp::EnsureShown { xid },
        WindowOp::Focus { xid },
    ]
}

/// The requests that bring window `xid` onto desktop `current`.
pub fn activation_ops(xid: u32, current: u32) -> (ops: Vec<WindowOp>)
    ensures
        ops@ == activation_ops_of(xid, current),
{
    let ops = vec![
        WindowOp::RestoreNormalState { xid },
        WindowOp::MoveToCenter { xid },
        WindowOp::MoveToDesktop { xid, desktop: current },
        WindowOp::EnsureShown { xid },
        WindowOp::Focus { xid },
    ];
    assert(ops@ =~= activation_ops_of(xid, current));
    ops
}

// ----------------------------------------------------------- scratchpad

/// The window is on desktop `d`.
pub open spec fn is_on_desktop(w: WinInfo, d: u32) -> bool {
    w.desktop == Some(d)
}

/// The windows on desktop `current`, in order.
pub open spec fn visible_of(wins: Seq<WinInfo>, current: u32) -> Seq<WinInfo> {
    wins.filter(|w: WinInfo| is_on_desktop(w, current))
}

/// The requests that send every window on desktop `current` to the pool's
/// desktop.
pub open spec fn hide_ops_of(wins: Seq<WinInfo>, current: u32, pool_desktop: u32) -> Seq<WindowOp> {
    visible_of(wins, current).map_values(
        |w: WinInfo| WindowOp::MoveToDesktop { xid: w.xid, desktop: pool_desktop },
    )
}

/// The requests that hide every window of the pool's class on the current
/// desktop; their number is the number of windows hidden.
pub fn hide_ops(wins: &Vec<WinInfo>, current: u32, pool_desktop: u32) -> (ops: Vec<WindowOp>)
    ensures
        ops@ == hide_ops_of(wins@, current, pool_desktop),
{
    let ghost f = |w: WinInfo| is_on_desktop(w, current);
    let ghost g = |w: WinInfo| WindowOp::MoveToDesktop { xid: w.xid, desktop: pool_desktop };
    let mut ops: Vec<WindowOp> = Vec::new();
    let mut i: usize = 0;
    while i < wins.len()
        invariant
            0 <= i <= wins@.len(),
            f == (|w: WinInfo| is_on_desktop(w, current)),
            g == (|w: WinInfo| WindowOp::MoveToDesktop { xid: w.xid, desktop: pool_desktop }),
            ops@ == wins@.take(i as int).filter(f).map_values(g),
        decreases wins@.len() - i,
    {
        if wins[i].desktop == Some(current) {
            ops.push(WindowOp::MoveToDesktop { xid: wins[i].xid, desktop: pool_desktop });
        }
        proof {
            reveal(Seq::filter);
            assert(wins@.take(i + 1).drop_last() =~= wins@.take(i as int));
            assert(ops@ =~= wins@.take(i + 1).filter(f).map_values(g));
        }
        i = i + 1;
    }
    assert(wins@.take(i as int) =~= wins@);
    ops
}

/// How many windows are on desktop `desktop`.
pub fn count_on_desktop(wins: &Vec<WinInfo>, desktop: u32) -> (n: usize)
    ensures
        n == visible_of(wins@, desktop).len(),
{
    hide_ops(wins, desktop, desktop).len()
}

/// What a scratchpad toggle does.
#[derive(Debug, Clone, Copy, PartialEq, Eq, Structural)]
pub enum ToggleChoice {
    /// Some pool window is on the current desktop: hide them all.
    HideAll,
    /// None is: show one.
    ShowOne,
}

/// A toggle hides when some window of the class is on the current desktop,
/// and shows one otherwise.
pub fn toggle_choice(wins: &Vec<WinInfo>, current: u32) -> (c: ToggleChoice)
    ensures
        (c == ToggleChoice::HideAll) == (visible_of(wins@, current).len() > 0),
{
    if count_on_desktop(wins, current) > 0 {
        ToggleChoice::HideAll
    } else {
        ToggleChoice::ShowOne
    }
}

/// The plain toggle: hide the first window of the class on the current
/// desktop, or, when there is none, show one (`None`).
pub fn quick_toggle_op(wins: &Vec<WinInfo>, current: u32, pool_desktop: u32) -> (r: Option<WindowOp>)
    ensures
        r == (if visible_of(wins@, current).len() > 0 {
            Some(WindowOp::MoveToDesktop { xid: visible_of(wins@, current)[0].xid, desktop: pool_desktop })
        } else {
            None::<WindowOp>
        }),
{
    let ops = hide_ops(wins, current, pool_desktop);
    if ops.len() > 0 {
        Some(ops[0])
    } else {
        None
    }
}

/// What a scratchpad cycle does.
#[derive(Debug, Clone, Copy, PartialEq, Eq, Structural)]
pub enum CyclePlan {
    /// No window of the class is on the current desktop: show one.
    ShowOne,
    /// Hide the first window on the current desktop and bring in the first
    /// warm pool window, if there is one.
    Rotate { hide: u32, next: Option<u32> },
}

/// The plan of a scratchpad cycle over the window list as read before any
/// request is made.
pub open spec fn cycle_plan_of(
    wins: Seq<WinInfo>,
    current: u32,
    pool_desktop: u32,
    record: Map<u32, WindowMeta>,
) -> CyclePlan {
    let vis = visible_of(wins, current);
    let warm = pool_windows_of(wins, pool_desktop, record);
    if vis.len() == 0 {
        CyclePlan::ShowOne
    } else {
        CyclePlan::Rotate {
            hide: vis[0].xid,
            next: if warm.len() > 0 {
                Some(warm[0].xid)
            } else {
                None
            },
        }
    }
}

/// Decides a scratchpad cycle.
pub fn cycle_plan(wins: &Vec<WinInfo>, current: u32, pool_desktop: u32, st: &StateFile) -> (p: CyclePlan)
    ensures
        p == cycle_plan_of(wins@, current, pool_desktop, st.windows@),
{
    let ops = hide_ops(wins, current, pool_desktop);
    if ops.len() == 0 {
        return CyclePlan::ShowOne;
    }
    let hide = match ops[0] {
        WindowOp::MoveToDesktop { xid, desktop: _ } => xid,
        _ => 0,
    };
    let warm = pool_windows(wins, pool_desktop, st);
    let next = if warm.len() > 0 {
        Some(warm[0].xid)
    } else {
        None
    };
    CyclePlan::Rotate { hide, next }
}


// ----------------------------------------------------------- anti-flicker

/// The requests made right after a window of the pool appears, for each
/// strategy name; an unknown name is treated as `all`.
pub open spec fn antiflicker_ops_of(strategy: Seq<char>, xid: u32) -> Seq<WindowOp> {
    let all = seq![
        WindowOp::SetUtilityType { xid },
        WindowOp::SetInvisibleStates { xid },
        WindowOp::Lower { xid },
        WindowOp::MoveOffscreen { xid },
    ];
    if strategy == "none"@ {
        seq![]
    } else if strategy == "all"@ {
        all
    } else if strategy == "unmap"@ {
        seq![WindowOp::Unmap { xid }]
    } else if strategy == "offscreen"@ {
        seq![WindowOp::MoveOffscreen { xid }]
    } else if strategy == "utility"@ {
        seq![WindowOp::SetUtilityType { xid }]
    } else if strategy == "iconic"@ {
        seq![WindowOp::SetIconic { xid }]
    } else if strategy == "lower"@ {
        seq![WindowOp::Lower { xid }]
    } else if strategy == "combo1"@ {
        seq![WindowOp::Unmap { xid }, WindowOp::MoveOffscreen { xid }]
    } else if strategy == "combo2"@ {
        seq![
            WindowOp::SetUtilityType { xid },
            WindowOp::SetInvisibleStates { xid },
            WindowOp::Lower { xid },
        ]
    } else if strategy == "combo3"@ {
        seq![WindowOp::SetIconic { xid }, WindowOp::MoveOffscreen { xid }]
    } else {
        all
    }
}

/// The strategy names that are known.
pub open spec fn is_known_strategy(strategy: Seq<char>) -> bool {
    ||| strategy == "none"@
    ||| strategy == "all"@
    ||| strategy == "unmap"@
    ||| strategy == "offscreen"@
    ||| strategy == "utility"@
    ||| strategy == "iconic"@
    ||| strategy == "lower"@
    ||| strategy == "combo1"@
    ||| strategy == "combo2"@
    ||| strategy == "combo3"@
}

/// The anti-flicker requests for a new window, and whether the strategy
/// name was known (an unknown one is reported and treated as `all`).
pub fn antiflicker_ops(strategy: &str, xid: u32) -> (r: (Vec<WindowOp>, bool))
    ensures
        r.0@ == antiflicker_ops_of(strategy@, xid),
        r.1 == is_known_strategy(strategy@),
{
    let mut ops: Vec<WindowOp> = Vec::new();
    let mut known = true;
    if str_eq(strategy, "none") {
    } else if str_eq(strategy, "all") {
        ops.push(WindowOp::SetUtilityType { xid });
        ops.push(WindowOp::SetInvisibleStates { xid });
        ops.push(WindowOp::Lower { xid });
        ops.push(WindowOp::MoveOffscreen { xid });
    } else if str_eq(strategy, "unmap") {
        ops.push(WindowOp::Unmap { xid });
    } else if str_eq(strategy, "offscreen") {
        ops.push(WindowOp::MoveOffscreen { xid });
    } else if str_eq(strategy, "utility") {
        ops.push(WindowOp::SetUtilityType { xid });
    } else if str_eq(strategy, "iconic") {
        ops.push(WindowOp::SetIconic { xid });
    } else if str_eq(strategy, "lower") {
        ops.push(WindowOp::Lower { xid });
    } else if str_eq(strategy, "combo1") {
        ops.push(WindowOp::Unmap { xid });
        ops.push(WindowOp::MoveOffscreen { xid });
    } else if str_eq(strategy, "combo2") {
        ops.push(WindowOp::SetUtilityType { xid });
        ops.push(WindowOp::SetInvisibleStates { xid });
        ops.push(WindowOp::Lower { xid });
    } else if str_eq(strategy, "combo3") {
        ops.push(WindowOp::SetIconic { xid });
        ops.push(WindowOp::MoveOffscreen { xid });
    } else {
        known = false;
        ops.push(WindowOp::SetUtilityType { xid });
        ops.push(WindowOp::SetInvisibleStates { xid });
        ops.push(WindowOp::Lower { xid });
        ops.push(WindowOp::MoveOffscreen { xid });
    }
    assert(ops@ =~= antiflicker_ops_of(strategy@, xid));
    (ops, known)
}

// -------------------------------------------------------------- spawning

/// Every character of `replace_all(s, pat, rep)` comes from `s` or from
/// `rep`.
pub proof fn lemma_replace_chars(s: Seq<char>, pat: Seq<char>, rep: Seq<char>, c: char)
    requires
        replace_all(s, pat, rep).contains(c),
    ensures
        s.contains(c) || rep.contains(c),
    decreases s.len(),
{
    if pat.len() == 0 || s.len() < pat.len() {
    } else if s.subrange(0, pat.len() as int) == pat {
        let rest = s.subrange(pat.len() as int, s.len() as int);
        let r = replace_all(rest, pat, rep);
        let i = choose|i: int| 0 <= i < (rep + r).len() && (rep + r)[i] == c;
        if i < rep.len() {
            assert(rep[i] == c);
        } else {
            assert(r[i - rep.len()] == c);
            lemma_replace_chars(rest, pat, rep, c);
            if rest.contains(c) {
                let j = choose|j: int| 0 <= j < rest.len() && rest[j] == c;
                assert(s[j + pat.len()] == c);
            }
        }
    } else {
        let rest = s.subrange(1, s.len() as int);
        let r = replace_all(rest, pat, rep);
        let i = choose|i: int| 0 <= i < (seq![s[0]] + r).len() && (seq![s[0]] + r)[i] == c;
        if i == 0 {
            assert(s[0] == c);
        } else {
            assert(r[i - 1] == c);
            lemma_replace_chars(rest, pat, rep, c);
            if rest.contains(c) {
                let j = choose|j: int| 0 <= j < rest.len() && rest[j] == c;
                assert(s[j + 1] == c);
            }
        }
    }
}

/// A quote in a concatenation is a quote in one of its parts.
pub proof fn lemma_quote_concat(a: Seq<char>, b: Seq<char>)
    ensures
        has_quote(a + b) == (has_quote(a) || has_quote(b)),
{
    if has_quote(a + b) {
        let i = choose|i: int| 0 <= i < (a + b).len() && ((a + b)[i] == '\'' || (a + b)[i] == '"');
        if i >= a.len() {
            assert(b[i - a.len()] == (a + b)[i]);
        }
    }
    if has_quote(a) {
        let i = choose|i: int| 0 <= i < a.len() && (a[i] == '\'' || a[i] == '"');
        assert((a + b)[i] == a[i]);
    }
    if has_quote(b) {
        let i = choose|i: int| 0 <= i < b.len() && (b[i] == '\'' || b[i] == '"');
        assert((a + b)[a.len() + i] == b[i]);
    }
}

/// A session name: `0fbuf-`, the timestamp without colons, `-`, and the
/// random suffix.
pub open spec fn session_text(timestamp: Seq<char>, suffix: Seq<char>) -> Seq<char> {
    "0fbuf-"@ + replace_all(timestamp, ":"@, ""@) + "-"@ + suffix
}

/// The session name made of `timestamp` and `suffix`.
pub fn session_id(timestamp: &str, suffix: &str) -> (s: String)
    ensures
        s@ == session_text(timestamp@, suffix@),
{
    proof {
        reveal_strlit(":");
    }
    let t = replace_str(timestamp, ":", "");
    let mut s = owned("0fbuf-");
    push_str_chars(&mut s, t.as_str());
    push_str_chars(&mut s, "-");
    push_str_chars(&mut s, suffix);
    s
}

/// Removing every `c` leaves no `c`.
pub proof fn lemma_strip_char(s: Seq<char>, c: char)
    ensures
        !replace_all(s, seq![c], Seq::<char>::empty()).contains(c),
    decreases s.len(),
{
    let pat = seq![c];
    if s.len() < 1 {
    } else {
        let rest = s.subrange(1, s.len() as int);
        lemma_strip_char(rest, c);
        let r = replace_all(rest, pat, Seq::<char>::empty());
        if s[0] == c {
            assert(s.subrange(0, 1) =~= pat);
            assert(Seq::<char>::empty() + r =~= r);
        } else {
            assert(s.subrange(0, 1)[0] == s[0]);
            let whole = seq![s[0]] + r;
            if whole.contains(c) {
                let i = choose|i: int| 0 <= i < whole.len() && whole[i] == c;
                if i > 0 {
                    assert(r[i - 1] == c);
                    assert(r.contains(c));
                }
            }
        }
    }
}

/// A fresh session name: the current time (as `now_rfc3339` gives it) with
/// its colons removed, and six random letters or digits. It never holds a
/// quote character or a colon.
pub fn gen_session_id() -> (s: String)
    ensures
        exists|t: Seq<char>, r: Seq<char>|
            (is_rfc3339_stamp(t) || t == "now"@) && r.len() == 6 && (forall|i: int|
                0 <= i < r.len() ==> is_ascii_alphanumeric(#[trigger] r[i])) && s@ == session_text(
                t,
                r,
            ),
        !has_quote(s@),
        !s@.contains(':'),
{
    let suffix = sample_alphanumeric(thread_rng(), 6);
    let t = now_rfc3339();
    let s = session_id(t.as_str(), suffix.as_str());
    proof {
        reveal_strlit("0fbuf-");
        reveal_strlit("-");
        reveal_strlit("now");
        reveal_strlit(":");
        reveal_strlit("");
        let stripped = replace_all(t@, ":"@, ""@);
        assert(!has_quote(stripped)) by {
            if has_quote(stripped) {
                let i = choose|i: int| 0 <= i < stripped.len() && (stripped[i] == '\'' || stripped[i] == '"');
                assert(stripped.contains(stripped[i]));
                lemma_replace_chars(t@, ":"@, ""@, stripped[i]);
                let j = choose|j: int| 0 <= j < t@.len() && t@[j] == stripped[i];
                if is_rfc3339_text(t@) {
                    assert(crate::external::is_rfc3339_char(t@[j]));
                }
            }
        }
        assert(!has_quote(suffix@)) by {
            if has_quote(suffix@) {
                let i = choose|i: int| 0 <= i < suffix@.len() && (suffix@[i] == '\'' || suffix@[i] == '"');
                assert(is_ascii_alphanumeric(suffix@[i]));
            }
        }
        lemma_quote_concat("0fbuf-"@, stripped);
        lemma_quote_concat("0fbuf-"@ + stripped, "-"@);
        lemma_quote_concat("0fbuf-"@ + stripped + "-"@, suffix@);
        assert(":"@ =~= seq![':']);
        assert(""@ =~= Seq::<char>::empty());
        lemma_strip_char(t@, ':');
        let a = "0fbuf-"@;
        let b = "-"@;
        assert(s@ =~= a + stripped + b + suffix@);
        if s@.contains(':') {
            let i = choose|i: int| 0 <= i < s@.len() && s@[i] == ':';
            if i < a.len() {
                assert(a[i] == s@[i]);
            } else if i < a.len() + stripped.len() {
                assert(stripped[i - a.len()] == s@[i]);
                assert(stripped.contains(':'));
            } else if i < a.len() + stripped.len() + 1 {
                assert(b[0] == s@[i]);
            } else {
                assert(suffix@[i - a.len() - stripped.len() - 1] == s@[i]);
                assert(is_ascii_alphanumeric(suffix@[i - a.len() - stripped.len() - 1]));
            }
        }
    }
    s
}

/// The command line used when a pool has no usable spawn command.
pub open spec fn default_spawn_line(class: Seq<char>, session: Seq<char>) -> Seq<char> {
    "xterm -class "@ + class + " -T "@ + class + " -e tmux new -A -s "@ + session
}

/// The command line used when a pool has no usable spawn command.
pub fn default_spawn_cmd_line(class: &str, session: &str) -> (s: String)
    ensures
        s@ == default_spawn_line(class@, session@),
{
    let mut s = owned("xterm -class ");
    push_str_chars(&mut s, class);
    push_str_chars(&mut s, " -T ");
    push_str_chars(&mut s, class);
    push_str_chars(&mut s, " -e tmux new -A -s ");
    push_str_chars(&mut s, session);
    s
}

/// The default command line holds a quote only where the class or the
/// session does.
pub proof fn lemma_default_line_quotes(class: Seq<char>, session: Seq<char>)
    ensures
        has_quote(default_spawn_line(class, session)) == (has_quote(class) || has_quote(session)),
{
    reveal_strlit("xterm -class ");
    reveal_strlit(" -T ");
    reveal_strlit(" -e tmux new -A -s ");
    let a = "xterm -class "@;
    let b = " -T "@;
    let c = " -e tmux new -A -s "@;
    assert(!has_quote(a));
    assert(!has_quote(b));
    assert(!has_quote(c));
    lemma_quote_concat(a, class);
    lemma_quote_concat(a + class, b);
    lemma_quote_concat(a + class + b, class);
    lemma_quote_concat(a + class + b + class, c);
    lemma_quote_concat(a + class + b + class + c, session);
}

/// A spawn template with `{session}` and then `{class}` filled in.
pub open spec fn filled_spawn_template(template: Seq<char>, session: Seq<char>, class: Seq<char>) -> Seq<char> {
    replace_all(replace_all(template, "{session}"@, session), "{class}"@, class)
}

/// Fills `{session}` and then `{class}` into a spawn template.
pub fn fill_spawn_template(template: &str, session: &str, class: &str) -> (s: String)
    ensures
        s@ == filled_spawn_template(template@, session@, class@),
{
    proof {
        reveal_strlit("{session}");
        reveal_strlit("{class}");
    }
    let a = replace_str(template, "{session}", session);
    replace_str(a.as_str(), "{class}", class)
}

/// The views of optional word lists.
pub open spec fn words_view(w: Option<Vec<String>>) -> Option<Seq<Seq<char>>> {
    match w {
        Some(v) => Some(crate::config::strings_view(v@)),
        None => None,
    }
}

/// The view of a parse result: the words, or the error text.
pub open spec fn parsed_view(r: Result<Vec<String>, String>) -> Result<Seq<Seq<char>>, Seq<char>> {
    match r {
        Ok(v) => Ok(crate::config::strings_view(v@)),
        Err(e) => Err(e@),
    }
}

/// The error text of a spawn template that does not parse; it names the
/// template as written, before the placeholders are filled in.
pub open spec fn parse_failure_text(template: Seq<char>) -> Seq<char> {
    "Failed to parse spawn command '"@ + template + "': missing closing quote"@
}

/// What parsing `template` gives once `{session}` and `{class}` are filled
/// in: its words, or the error text naming the template.
pub open spec fn parsed_template(template: Seq<char>, session: Seq<char>, class: Seq<char>) -> Result<
    Seq<Seq<char>>,
    Seq<char>,
> {
    match shell_words_split(filled_spawn_template(template, session, class)) {
        Some(w) => Ok(w),
        None => Err(parse_failure_text(template)),
    }
}

/// Fills `{session}` and `{class}` into `template` and splits it into
/// words; where a quote is left open the error names the template.
pub fn parse_cmd(template: &str, session: &str, class: &str) -> (r: Result<Vec<String>, String>)
    ensures
        parsed_view(r) == parsed_template(template@, session@, class@),
        !has_quote(filled_spawn_template(template@, session@, class@)) ==> r is Ok,
{
    let filled = fill_spawn_template(template, session, class);
    match shell_split(filled.as_str()) {
        Ok(w) => {
            proof {
                assert(crate::config::strings_view(w@) == w@.map_values(|s: String| s@));
            }
            Ok(w)
        },
        Err(e) => {
            proof {
                reveal_strlit("Failed to parse spawn command '");
                reveal_strlit("': ");
                reveal_strlit("missing closing quote");
                reveal_strlit("': missing closing quote");
            }
            let mut m = owned("Failed to parse spawn command '");
            push_str_chars(&mut m, template);
            push_str_chars(&mut m, "': ");
            let detail = parse_error_text(&e);
            push_str_chars(&mut m, detail.as_str());
            assert(m@ =~= parse_failure_text(template@));
            Err(m)
        },
    }
}

/// The warning shown when the pool's own command does not parse and the
/// default command is used instead.
pub open spec fn fallback_warning_text(error: Seq<char>) -> Seq<char> {
    "Warning: "@ + error + ", using default"@
}

/// The words a spawn runs and the warning to show, from the parse of the
/// pool's own command (`None` when it is blank) and the words of the
/// default command (`None` when they do not parse): the pool's own words
/// when they parse, else the default words, with a warning that carries the
/// parse error.
pub open spec fn chosen_words(
    own: Option<Result<Seq<Seq<char>>, Seq<char>>>,
    fallback: Option<Seq<Seq<char>>>,
) -> (Option<Seq<Seq<char>>>, Option<Seq<char>>) {
    match own {
        Some(Ok(w)) => (Some(w), None),
        Some(Err(e)) => (fallback, Some(fallback_warning_text(e))),
        None => (fallback, None),
    }
}

/// The parse of the pool's own spawn command with `session` filled in:
/// `None` when the command is blank.
pub open spec fn own_words(pool: PoolConfigView, session: Seq<char>) -> Option<
    Result<Seq<Seq<char>>, Seq<char>>,
> {
    if is_blank(pool.spawn_cmd) {
        None
    } else {
        Some(parsed_template(pool.spawn_cmd, session, pool.class))
    }
}

/// The words a spawn for `session` runs, and the warning to show.
pub open spec fn spawn_words(pool: PoolConfigView, session: Seq<char>) -> (
    Option<Seq<Seq<char>>>,
    Option<Seq<char>>,
) {
    chosen_words(own_words(pool, session), shell_words_split(default_spawn_line(pool.class, session)))
}

/// What a spawn runs.
#[derive(Debug)]
pub enum ArgvPlan {
    /// Run `argv[0]` with the rest as arguments.
    Run { argv: Vec<String>, warning: Option<String> },
    /// The command has no words: the spawn fails.
    Empty { warning: Option<String> },
    /// Not even the default command parses.
    Unparsable { warning: Option<String> },
}

/// `plan` runs the chosen words: it runs them when there are some, reports
/// an empty command when there are none, and reports that nothing parses
/// when no words were chosen; it carries the chosen warning.
pub open spec fn plan_matches(plan: ArgvPlan, chosen: (Option<Seq<Seq<char>>>, Option<Seq<char>>)) -> bool {
    match plan {
        ArgvPlan::Run { argv, warning } => argv@.len() > 0 && chosen.0 == Some(
            crate::config::strings_view(argv@),
        ) && opt_view(warning) == chosen.1,
        ArgvPlan::Empty { warning } => chosen.0 == Some(Seq::<Seq<char>>::empty()) && opt_view(
            warning,
        ) == chosen.1,
        ArgvPlan::Unparsable { warning } => chosen.0 is None && opt_view(warning) == chosen.1,
    }
}

/// Decides what a spawn runs from the parse of the pool's own command
/// (`None` when it is blank) and the words of the default command (`None`
/// when they do not parse).
pub fn argv_from_words(own: Option<Result<Vec<String>, String>>, fallback: Option<Vec<String>>) -> (r: ArgvPlan)
    ensures
        plan_matches(
            r,
            chosen_words(
                match own {
                    Some(o) => Some(parsed_view(o)),
                    None => None,
                },
                words_view(fallback),
            ),
        ),
{
    let (words, warning): (Option<Vec<String>>, Option<String>) = match own {
        Some(Ok(w)) => (Some(w), None),
        Some(Err(e)) => {
            proof {
                reveal_strlit("Warning: ");
                reveal_strlit(", using default");
            }
            let mut m = owned("Warning: ");
            push_str_chars(&mut m, e.as_str());
            push_str_chars(&mut m, ", using default");
            (fallback, Some(m))
        },
        None => (fallback, None),
    };
    match words {
        Some(w) => {
            if w.len() == 0 {
                assert(crate::config::strings_view(w@) =~= Seq::<Seq<char>>::empty());
                ArgvPlan::Empty { warning }
            } else {
                ArgvPlan::Run { argv: w, warning }
            }
        },
        None => ArgvPlan::Unparsable { warning },
    }
}

/// The words `shell_words::split` gives, `None` where it fails.
fn split_words(line: &str) -> (r: Option<Vec<String>>)
    ensures
        words_view(r) == shell_words_split(line@),
        !crate::external::has_quote(line@) ==> r is Some,
{
    match shell_split(line) {
        Ok(w) => Some(w),
        Err(_) => None,
    }
}

/// Decides the command line of a spawn for session `session`: the pool's
/// own command with `{session}` and `{class}` filled in, or the default
/// command, with a warning naming the template, when the own one does not
/// parse; the default command, without a warning, when the own one is
/// blank. When neither the class nor the session holds a quote, the default
/// command parses.
pub fn spawn_argv(pool: &PoolConfig, session: &str) -> (r: ArgvPlan)
    ensures
        plan_matches(r, spawn_words(pool@, session@)),
        !has_quote(pool.class@) && !has_quote(session@) ==> !(r is Unparsable),
{
    proof {
        lemma_default_line_quotes(pool.class@, session@);
    }
    let own: Option<Result<Vec<String>, String>> = if trim_is_empty(pool.spawn_cmd.as_str()) {
        None
    } else {
        Some(parse_cmd(pool.spawn_cmd.as_str(), session, pool.class.as_str()))
    };
    let fallback = split_words(default_spawn_cmd_line(pool.class.as_str(), session).as_str());
    argv_from_words(own, fallback)
}
/// The first window of process `pid`, if it has appeared.
pub fn find_spawned(wins: &Vec<WinInfo>, pid: u32) -> (r: Option<u32>)
    ensures
        match r {
            Some(x) => exists|i: int|
                0 <= i < wins@.len() && (#[trigger] wins@[i]).pid == Some(pid) && wins@[i].xid == x
                    && forall|j: int| 0 <= j < i ==> (#[trigger] wins@[j]).pid != Some(pid),
            None => forall|i: int| 0 <= i < wins@.len() ==> (#[trigger] wins@[i]).pid != Some(pid),
        },
{
    let mut i: usize = 0;
    while i < wins.len()
        invariant
            0 <= i <= wins@.len(),
            forall|j: int| 0 <= j < i ==> (#[trigger] wins@[j]).pid != Some(pid),
        decreases wins@.len() - i,
    {
        if wins[i].pid == Some(pid) {
            return Some(wins[i].xid);
        }
        i = i + 1;
    }
    None
}

/// One round of waiting for a spawned window.
#[derive(Debug, Clone, Copy, PartialEq, Eq, Structural)]
pub enum PollStep {
    /// The window is there.
    Found { xid: u32 },
    /// It did not appear within the timeout.
    TimedOut,
    /// Look again after the poll interval.
    Wait,
}

/// Decides a round of waiting: found when the process has a window, else a
/// timeout once more than the timeout has passed, else wait.
pub fn spawn_poll_step(wins: &Vec<WinInfo>, pid: u32, elapsed_ns: u64) -> (r: PollStep)
    ensures
        match r {
            PollStep::Found { xid } => exists|i: int|
                0 <= i < wins@.len() && (#[trigger] wins@[i]).pid == Some(pid) && wins@[i].xid == xid
                    && forall|j: int| 0 <= j < i ==> (#[trigger] wins@[j]).pid != Some(pid),
            PollStep::TimedOut => (forall|i: int|
                0 <= i < wins@.len() ==> (#[trigger] wins@[i]).pid != Some(pid)) && elapsed_ns
                > WINDOW_SPAWN_TIMEOUT_SECS * 1_000_000_000,
            PollStep::Wait => (forall|i: int|
                0 <= i < wins@.len() ==> (#[trigger] wins@[i]).pid != Some(pid)) && elapsed_ns
                <= WINDOW_SPAWN_TIMEOUT_SECS * 1_000_000_000,
        },
{
    match find_spawned(wins, pid) {
        Some(xid) => PollStep::Found { xid },
        None => if elapsed_ns > WINDOW_SPAWN_TIMEOUT_SECS * 1_000_000_000 {
            PollStep::TimedOut
        } else {
            PollStep::Wait
        },
    }
}

/// A command run after a spawn: `{class}`, then `{session}`, then `{xid}`
/// (as `0x` and hex digits) filled in.
pub open spec fn on_spawn_command(template: Seq<char>, class: Seq<char>, session: Seq<char>, xid: u32) -> Seq<char> {
    replace_all(
        replace_all(replace_all(template, "{class}"@, class), "{session}"@, session),
        "{xid}"@,
        seq!['0', 'x'] + digits(xid as nat, 16),
    )
}

/// The pause before the commands that follow a spawn run: none at all, and
/// nothing to run, when there are no commands; else `ON_SPAWN_DELAY_MS`, to
/// let the window settle.
pub fn on_spawn_pause_ms(commands: &Vec<String>) -> (p: Option<u64>)
    ensures
        p == (if commands@.len() == 0 {
            None::<u64>
        } else {
            Some(ON_SPAWN_DELAY_MS)
        }),
{
    if commands.len() == 0 {
        None
    } else {
        Some(ON_SPAWN_DELAY_MS)
    }
}

/// Whether a window that was shown is moved next to the pointer: only when
/// that was asked for and the input monitor reports mouse mode.
pub fn place_near_pointer(apply_mouse: bool, input: &InputState) -> (b: bool)
    ensures
        b == (apply_mouse && input.move_flag),
{
    apply_mouse && input.move_flag
}

/// The commands to run after a spawn, filled in, in order.
pub fn on_spawn_commands(commands: &Vec<String>, class: &str, session: &str, xid: u32) -> (r: Vec<String>)
    ensures
        r@.len() == commands@.len(),
        forall|i: int|
            0 <= i < r@.len() ==> (#[trigger] r@[i])@ == on_spawn_command(commands@[i]@, class@, session@, xid),
{
    proof {
        reveal_strlit("{class}");
        reveal_strlit("{session}");
        reveal_strlit("{xid}");
    }
    let hex = hex_string(xid);
    let mut out: Vec<String> = Vec::new();
    let mut i: usize = 0;
    while i < commands.len()
        invariant
            0 <= i <= commands@.len(),
            hex@ == seq!['0', 'x'] + digits(xid as nat, 16),
            out@.len() == i,
            forall|j: int|
                0 <= j < i ==> (#[trigger] out@[j])@ == on_spawn_command(commands@[j]@, class@, session@, xid),
        decreases commands@.len() - i,
    {
        proof {
            reveal_strlit("{class}");
            reveal_strlit("{session}");
            reveal_strlit("{xid}");
        }
        let a = replace_str(commands[i].as_str(), "{class}", class);
        let b = replace_str(a.as_str(), "{session}", session);
        let c = replace_str(b.as_str(), "{xid}", hex.as_str());
        out.push(c);
        i = i + 1;
    }
    out
}

/// The record entry of a freshly spawned window.
pub fn spawned_meta(pid: u32, session: String, created_at: String) -> (m: WindowMeta)
    ensures
        m == (WindowMeta { pid, session: Some(session), created_at, popped: false }),
{
    WindowMeta { pid, session: Some(session), created_at, popped: false }
}

/// What a spawn reports: the window, its process, the pool's desktop and the
/// pool's class.
pub fn spawned_info(xid: u32, pid: u32, pool_desktop: u32, class: &str) -> (w: WinInfo)
    ensures
        w.xid == xid,
        w.pid == Some(pid),
        w.desktop == Some(pool_desktop),
        w.class is Some && w.class->0@ == class@,
{
    WinInfo { xid, pid: Some(pid), desktop: Some(pool_desktop), class: Some(owned(class)) }
}


// ------------------------------------------------------------------ laws

/// Topping up: the warm windows there are plus the windows spawned reach the
/// pool's minimum, and no more are spawned than needed.
pub proof fn law_top_up_reaches_min(min: nat, have: nat)
    ensures
        have + shortfall(min, have) >= min,
        have + shortfall(min, have) == if have >= min {
            have
        } else {
            min
        },
{
}

/// No two windows in the list share an id.
pub open spec fn distinct_ids(wins: Seq<WinInfo>) -> bool {
    forall|j: int, k: int| 0 <= j < k < wins.len() ==> (#[trigger] wins[j]).xid != (#[trigger] wins[k]).xid
}

proof fn lemma_count_after_pop(wins: Seq<WinInfo>, pd: u32, m: Map<u32, WindowMeta>, x: u32)
    requires
        m.contains_key(x),
        distinct_ids(wins),
    ensures
        pool_windows_of(wins, pd, popped_record(m, x)).len() + (if exists|j: int|
            0 <= j < wins.len() && (#[trigger] wins[j]).xid == x && is_pool_window(wins[j], pd, m) {
            1int
        } else {
            0int
        }) == pool_windows_of(wins, pd, m).len(),
    decreases wins.len(),
{
    reveal(Seq::filter);
    if wins.len() > 0 {
        let rest = wins.drop_last();
        let w = wins.last();
        assert(distinct_ids(rest)) by {
            assert forall|j: int, k: int| 0 <= j < k < rest.len() implies (#[trigger] rest[j]).xid != (#[trigger] rest[k]).xid by {
                assert(rest[j] == wins[j] && rest[k] == wins[k]);
            }
        }
        lemma_count_after_pop(rest, pd, m, x);
        let m2 = popped_record(m, x);
        if w.xid == x {
            assert(!is_pool_window(w, pd, m2));
            assert forall|j: int| 0 <= j < rest.len() implies (#[trigger] rest[j]).xid != x by {
                assert(rest[j] == wins[j]);
                assert(wins[j].xid != wins[wins.len() - 1].xid);
            }
            if is_pool_window(w, pd, m) {
                assert(wins[wins.len() - 1] == w);
            } else {
                if exists|j: int| 0 <= j < wins.len() && (#[trigger] wins[j]).xid == x && is_pool_window(wins[j], pd, m) {
                    let j = choose|j: int| 0 <= j < wins.len() && (#[trigger] wins[j]).xid == x && is_pool_window(wins[j], pd, m);
                    if j < rest.len() {
                        assert(rest[j] == wins[j]);
                    }
                }
            }
            assert(!(exists|j: int| 0 <= j < rest.len() && (#[trigger] rest[j]).xid == x && is_pool_window(rest[j], pd, m)));
        } else {
            assert(is_pool_window(w, pd, m2) == is_pool_window(w, pd, m));
            if exists|j: int| 0 <= j < wins.len() && (#[trigger] wins[j]).xid == x && is_pool_window(wins[j], pd, m) {
                let j = choose|j: int| 0 <= j < wins.len() && (#[trigger] wins[j]).xid == x && is_pool_window(wins[j], pd, m);
                assert(j < rest.len());
                assert(rest[j] == wins[j]);
            }
            if exists|j: int| 0 <= j < rest.len() && (#[trigger] rest[j]).xid == x && is_pool_window(rest[j], pd, m) {
                let j = choose|j: int| 0 <= j < rest.len() && (#[trigger] rest[j]).xid == x && is_pool_window(rest[j], pd, m);
                assert(wins[j] == rest[j]);
            }
        }
    }
}

/// Activation takes the window out of the pool: once the activated window
/// (a warm pool window that the record holds) is marked as popped, the pool
/// counts exactly one warm window less.
pub proof fn law_activation_consumes_window(wins: Seq<WinInfo>, pd: u32, m: Map<u32, WindowMeta>, i: int)
    requires
        0 <= i < wins.len(),
        is_pool_window(wins[i], pd, m),
        m.contains_key(wins[i].xid),
        distinct_ids(wins),
    ensures
        pool_windows_of(wins, pd, popped_record(m, wins[i].xid)).len() + 1 == pool_windows_of(wins, pd, m).len(),
{
    lemma_count_after_pop(wins, pd, m, wins[i].xid);
}

/// Every element that a filter keeps comes from the filtered sequence and
/// satisfies the predicate.
proof fn lemma_filter_member<A>(s: Seq<A>, f: spec_fn(A) -> bool, i: int)
    requires
        0 <= i < s.filter(f).len(),
    ensures
        exists|j: int| 0 <= j < s.len() && s[j] == s.filter(f)[i] && f(#[trigger] s[j]),
    decreases s.len(),
{
    reveal(Seq::filter);
    if s.len() > 0 {
        let rest = s.drop_last();
        if i < rest.filter(f).len() {
            lemma_filter_member(rest, f, i);
            let j = choose|j: int| 0 <= j < rest.len() && rest[j] == rest.filter(f)[i] && f(#[trigger] rest[j]);
            assert(s[j] == rest[j]);
        } else {
            assert(s[s.len() - 1] == s.filter(f)[i]);
        }
    }
}

/// A cycle brings in a warm pool window, one of the listed windows, and
/// hides a window that is on the current desktop.
pub proof fn law_cycle_brings_in_pool_window(
    wins: Seq<WinInfo>,
    current: u32,
    pd: u32,
    m: Map<u32, WindowMeta>,
)
    ensures
        match cycle_plan_of(wins, current, pd, m) {
            CyclePlan::Rotate { hide, next } => {
                &&& exists|j: int| 0 <= j < wins.len() && (#[trigger] wins[j]).xid == hide && is_on_desktop(wins[j], current)
                &&& next matches Some(x) ==> exists|j: int|
                    0 <= j < wins.len() && (#[trigger] wins[j]).xid == x && is_pool_window(wins[j], pd, m)
            },
            CyclePlan::ShowOne => forall|j: int| 0 <= j < wins.len() ==> !is_on_desktop(#[trigger] wins[j], current),
        },
{
    let vis = visible_of(wins, current);
    let warm = pool_windows_of(wins, pd, m);
    let f = |w: WinInfo| is_on_desktop(w, current);
    let g = |w: WinInfo| is_pool_window(w, pd, m);
    if vis.len() > 0 {
        lemma_filter_member(wins, f, 0);
        let j = choose|j: int| 0 <= j < wins.len() && wins[j] == vis[0] && f(#[trigger] wins[j]);
        assert(wins[j].xid == vis[0].xid);
        if warm.len() > 0 {
            lemma_filter_member(wins, g, 0);
            let k = choose|k: int| 0 <= k < wins.len() && wins[k] == warm[0] && g(#[trigger] wins[k]);
            assert(wins[k].xid == warm[0].xid);
        }
    } else {
        assert forall|j: int| 0 <= j < wins.len() implies !is_on_desktop(#[trigger] wins[j], current) by {
            if is_on_desktop(wins[j], current) {
                broadcast use vstd::seq_lib::group_filter_ensures;
                assert(vis.contains(wins[j]));
            }
        }
    }
}

/// The window a request is about.
pub open spec fn op_window(op: WindowOp) -> u32 {
    match op {
        WindowOp::MoveToDesktop { xid, .. } => xid,
        WindowOp::RestoreNormalState { xid } => xid,
        WindowOp::MoveToCenter { xid } => xid,
        WindowOp::EnsureShown { xid } => xid,
        WindowOp::Focus { xid } => xid,
        WindowOp::SetUtilityType { xid } => xid,
        WindowOp::SetInvisibleStates { xid } => xid,
        WindowOp::Lower { xid } => xid,
        WindowOp::MoveOffscreen { xid } => xid,
        WindowOp::Unmap { xid } => xid,
        WindowOp::SetIconic { xid } => xid,
    }
}

/// Activation brings the window onto the current desktop, whichever desktop
/// that is: every request is about that window; it starts by restoring the
/// normal state and ends by focusing it; it is centred, then moved to the
/// current desktop (and to no other), then mapped, then focused.
pub proof fn law_activation_brings_window_here(xid: u32, current: u32)
    ensures
        ({
            let ops = activation_ops_of(xid, current);
            &&& ops.len() > 0
            &&& ops[0] == WindowOp::RestoreNormalState { xid }
            &&& ops.last() == WindowOp::Focus { xid }
            &&& forall|i: int| 0 <= i < ops.len() ==> op_window(#[trigger] ops[i]) == xid
            &&& forall|i: int|
                0 <= i < ops.len() ==> (#[trigger] ops[i] matches WindowOp::MoveToDesktop { desktop, .. }
                    ==> desktop == current)
            &&& exists|a: int, b: int, c: int, d: int|
                0 <= a < b < c < d < ops.len() && #[trigger] ops[a] == WindowOp::MoveToCenter { xid }
                    && #[trigger] ops[b] == WindowOp::MoveToDesktop { xid, desktop: current }
                    && #[trigger] ops[c] == WindowOp::EnsureShown { xid } && #[trigger] ops[d]
                    == WindowOp::Focus { xid }
        }),
{
    let ops = activation_ops_of(xid, current);
    assert(ops[1] == WindowOp::MoveToCenter { xid });
    assert(ops[2] == WindowOp::MoveToDesktop { xid, desktop: current });
    assert(ops[3] == WindowOp::EnsureShown { xid });
    assert(ops[4] == WindowOp::Focus { xid });
}

/// The first element a filter keeps is the first element of the sequence
/// that satisfies the predicate.
proof fn lemma_filter_first<A>(s: Seq<A>, f: spec_fn(A) -> bool, j: int)
    requires
        0 <= j < s.len(),
        f(s[j]),
        forall|i: int| 0 <= i < j ==> !f(#[trigger] s[i]),
    ensures
        s.filter(f).len() > 0,
        s.filter(f)[0] == s[j],
    decreases s.len(),
{
    reveal(Seq::filter);
    let rest = s.drop_last();
    if j < s.len() - 1 {
        assert forall|i: int| 0 <= i < j implies !f(#[trigger] rest[i]) by {
            assert(rest[i] == s[i]);
        }
        assert(rest[j] == s[j]);
        lemma_filter_first(rest, f, j);
    } else {
        if rest.filter(f).len() > 0 {
            lemma_filter_member(rest, f, 0);
            let k = choose|k: int| 0 <= k < rest.len() && rest[k] == rest.filter(f)[0] && f(#[trigger] rest[k]);
            assert(rest[k] == s[k]);
        }
    }
}

/// A filter keeps nothing where nothing satisfies the predicate.
proof fn lemma_filter_none<A>(s: Seq<A>, f: spec_fn(A) -> bool)
    requires
        forall|i: int| 0 <= i < s.len() ==> !f(#[trigger] s[i]),
    ensures
        s.filter(f).len() == 0,
{
    if s.filter(f).len() > 0 {
        lemma_filter_member(s, f, 0);
    }
}

/// A cycle, in terms of the window list itself: with no window of the class
/// on the current desktop it shows one; otherwise it hides the first window
/// on the current desktop and brings in the first warm pool window (on the
/// pool desktop and not taken out of the pool), whatever the record says of
/// the hidden window; only when there is no warm window does it bring in
/// none.
pub proof fn law_cycle_takes_first_warm_window(
    wins: Seq<WinInfo>,
    current: u32,
    pd: u32,
    m: Map<u32, WindowMeta>,
)
    ensures
        (forall|i: int| 0 <= i < wins.len() ==> (#[trigger] wins[i]).desktop != Some(current))
            ==> cycle_plan_of(wins, current, pd, m) == CyclePlan::ShowOne,
        forall|j: int, k: int|
            0 <= j < wins.len() && 0 <= k < wins.len() && (#[trigger] wins[j]).desktop == Some(current) && (
            forall|i: int| 0 <= i < j ==> (#[trigger] wins[i]).desktop != Some(current)) && (#[trigger] wins[k]).desktop
                == Some(pd) && !popped_in(m, wins[k].xid) && (forall|i: int|
                0 <= i < k ==> !((#[trigger] wins[i]).desktop == Some(pd) && !popped_in(m, wins[i].xid)))
                ==> cycle_plan_of(wins, current, pd, m) == (CyclePlan::Rotate {
                hide: wins[j].xid,
                next: Some(wins[k].xid),
            }),
        forall|j: int|
            0 <= j < wins.len() && (#[trigger] wins[j]).desktop == Some(current) && (forall|i: int|
                0 <= i < j ==> (#[trigger] wins[i]).desktop != Some(current)) && (forall|i: int|
                0 <= i < wins.len() ==> !((#[trigger] wins[i]).desktop == Some(pd) && !popped_in(m, wins[i].xid)))
                ==> cycle_plan_of(wins, current, pd, m) == (CyclePlan::Rotate { hide: wins[j].xid, next: None }),
{
    let f = |w: WinInfo| is_on_desktop(w, current);
    let g = |w: WinInfo| is_pool_window(w, pd, m);
    if forall|i: int| 0 <= i < wins.len() ==> (#[trigger] wins[i]).desktop != Some(current) {
        assert forall|i: int| 0 <= i < wins.len() implies !f(#[trigger] wins[i]) by {
            assert(wins[i].desktop != Some(current));
        }
        lemma_filter_none(wins, f);
    }
    assert forall|j: int, k: int|
        0 <= j < wins.len() && 0 <= k < wins.len() && (#[trigger] wins[j]).desktop == Some(current) && (forall|
            i: int,
        | 0 <= i < j ==> (#[trigger] wins[i]).desktop != Some(current)) && (#[trigger] wins[k]).desktop == Some(
            pd,
        ) && !popped_in(m, wins[k].xid) && (forall|i: int|
            0 <= i < k ==> !((#[trigger] wins[i]).desktop == Some(pd) && !popped_in(m, wins[i].xid)))
        implies cycle_plan_of(wins, current, pd, m) == (CyclePlan::Rotate {
        hide: wins[j].xid,
        next: Some(wins[k].xid),
    }) by {
        assert forall|i: int| 0 <= i < j implies !f(#[trigger] wins[i]) by {
            assert(wins[i].desktop != Some(current));
        }
        assert forall|i: int| 0 <= i < k implies !g(#[trigger] wins[i]) by {
            assert(!(wins[i].desktop == Some(pd) && !popped_in(m, wins[i].xid)));
        }
        lemma_filter_first(wins, f, j);
        lemma_filter_first(wins, g, k);
    }
    assert forall|j: int|
        0 <= j < wins.len() && (#[trigger] wins[j]).desktop == Some(current) && (forall|i: int|
            0 <= i < j ==> (#[trigger] wins[i]).desktop != Some(current)) && (forall|i: int|
            0 <= i < wins.len() ==> !((#[trigger] wins[i]).desktop == Some(pd) && !popped_in(m, wins[i].xid)))
        implies cycle_plan_of(wins, current, pd, m) == (CyclePlan::Rotate { hide: wins[j].xid, next: None }) by {
        assert forall|i: int| 0 <= i < j implies !f(#[trigger] wins[i]) by {
            assert(wins[i].desktop != Some(current));
        }
        assert forall|i: int| 0 <= i < wins.len() implies !g(#[trigger] wins[i]) by {
            assert(!(wins[i].desktop == Some(pd) && !popped_in(m, wins[i].xid)));
        }
        lemma_filter_first(wins, f, j);
        lemma_filter_none(wins, g);
    }
}

/// A configured pool desktop is the pool's desktop, whatever the number of
/// desktops, and it is accepted exactly when that desktop exists; without
/// one the pool lives on the last desktop, which always exists when there
/// is any.
pub proof fn law_pool_desktop_configured_or_last(configured: Option<u32>, desktops: u32)
    ensures
        configured matches Some(d) ==> pool_desktop_of(configured, desktops) == d,
        configured matches Some(d) ==> (pool_desktop_of(configured, desktops) < desktops <==> d < desktops),
        configured is None && desktops > 0 ==> pool_desktop_of(configured, desktops) + 1 == desktops,
        configured is None && desktops == 0 ==> pool_desktop_of(configured, desktops) == 0,
{
}

/// The warning carried by a spawn plan.
pub open spec fn plan_warning(p: ArgvPlan) -> Option<Seq<char>> {
    match p {
        ArgvPlan::Run { warning, .. } => opt_view(warning),
        ArgvPlan::Empty { warning } => opt_view(warning),
        ArgvPlan::Unparsable { warning } => opt_view(warning),
    }
}

/// What a spawn runs, for any plan `spawn_argv` may give: a pool command
/// that is not blank and splits into words runs exactly those words, with
/// no warning, however many words there are; a blank command runs the
/// default command, with no warning; a command that does not split runs the
/// default command, with a warning that names the command as written.
pub proof fn law_spawn_runs_own_command(pool: PoolConfigView, session: Seq<char>, r: ArgvPlan)
    requires
        plan_matches(r, spawn_words(pool, session)),
    ensures
        ({
            let own = shell_words_split(filled_spawn_template(pool.spawn_cmd, session, pool.class));
            let dflt = shell_words_split(default_spawn_line(pool.class, session));
            &&& !is_blank(pool.spawn_cmd) && own is Some && own->0.len() > 0 ==> (r matches ArgvPlan::Run {
                argv,
                warning,
            } && crate::config::strings_view(argv@) == own->0 && warning is None)
            &&& !is_blank(pool.spawn_cmd) && own == Some(Seq::<Seq<char>>::empty()) ==> r == (ArgvPlan::Empty {
                warning: None,
            })
            &&& is_blank(pool.spawn_cmd) ==> plan_warning(r) is None && (r matches ArgvPlan::Run { argv, .. }
                ==> dflt == Some(crate::config::strings_view(argv@)))
            &&& !is_blank(pool.spawn_cmd) && own is None ==> plan_warning(r) == Some(
                "Warning: "@ + "Failed to parse spawn command '"@ + pool.spawn_cmd + "': missing closing quote"@
                    + ", using default"@,
            ) && (r matches ArgvPlan::Run { argv, .. } ==> dflt == Some(
                crate::config::strings_view(argv@),
            ))
        }),
{
    let own = shell_words_split(filled_spawn_template(pool.spawn_cmd, session, pool.class));
    if !is_blank(pool.spawn_cmd) && own is None {
        assert(fallback_warning_text(parse_failure_text(pool.spawn_cmd)) =~= "Warning: "@
            + "Failed to parse spawn command '"@ + pool.spawn_cmd + "': missing closing quote"@
            + ", using default"@);
    }
}

// ------------------------------------------------------------ messages

/// `hidden {count} windows`.
pub fn hidden_message(count: usize) -> (m: String)
    ensures
        m@ == "hidden "@ + digits(count as nat, 10) + " windows"@,
{
    let mut m = owned("hidden ");
    push_str_chars(&mut m, decimal_string(count as u64).as_str());
    push_str_chars(&mut m, " windows");
    m
}

/// `shown window 0x{xid}`.
pub fn shown_message(xid: u32) -> (m: String)
    ensures
        m@ == "shown window "@ + seq!['0', 'x'] + digits(xid as nat, 16),
{
    concat2("shown window ", hex_string(xid).as_str())
}

/// `cycled to 0x{xid}`.
pub fn cycled_message(xid: u32) -> (m: String)
    ensures
        m@ == "cycled to "@ + seq!['0', 'x'] + digits(xid as nat, 16),
{
    concat2("cycled to ", hex_string(xid).as_str())
}

/// What a cycle reports when no warm window was left to bring in.
pub fn last_hidden_message() -> (m: String)
    ensures
        m@ == "hidden last window"@,
{
    owned("hidden last window")
}

} // verus!
