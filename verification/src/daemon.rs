//! The input monitor of the daemon as a state machine: each sample of the
//! pointer or the keyboard is an event that updates the tracked state, and
//! the schedule says when to top up pools and when to forget vanished
//! windows. The daemon's loop makes the X11 requests and hands the replies
//! in.
use vstd::prelude::*;
use crate::state::{is_rfc3339_text, now_rfc3339, InputState};
use crate::x11util::bytes_contain;

verus! {

/// After this many X11 errors in a row the daemon stops.
pub const MAX_X11_ERRORS: u32 = 10;

/// How often records of vanished windows are dropped (ms).
pub const CLEANUP_INTERVAL_MS: u64 = 30_000;

// ---------------------------------------------------------------- keymap

/// Key `b` of byte `i` of the keymap is down.
pub open spec fn key_down(keys: Seq<u8>, i: int, b: int) -> bool {
    0 <= i < keys.len() && 0 <= b < 8 && (keys[i] & (1u8 << (b as u8))) != 0
}

/// The keycode the daemon assigns to key `b` of byte `i`: `i * 8 + b + 8`
/// computed in `u8` arithmetic, which wraps.
pub open spec fn keycode_at(i: int, b: int) -> u8 {
    ((8 * (i % 32) + b + 8) % 256) as u8
}

/// `kc` belongs to one of the groups `lo..hi`.
pub open spec fn in_groups(groups: Seq<Seq<u8>>, lo: int, hi: int, kc: u8) -> bool {
    exists|g: int| lo <= g < hi && 0 <= g < groups.len() && (#[trigger] groups[g]).contains(kc)
}

/// A shortcut modifier (Control or Mod1..Mod5, groups 2 to 7) is held.
pub open spec fn shortcut_modifier_held(keys: Seq<u8>, groups: Seq<Seq<u8>>) -> bool {
    exists|i: int, b: int| #[trigger] key_down(keys, i, b) && in_groups(groups, 2, 8, keycode_at(i, b))
}

/// Someone is typing: a key that is no modifier at all is down, and no
/// shortcut modifier is held.
pub open spec fn typing(keys: Seq<u8>, groups: Seq<Seq<u8>>) -> bool {
    &&& !shortcut_modifier_held(keys, groups)
    &&& exists|i: int, b: int|
        #[trigger] key_down(keys, i, b) && !in_groups(groups, 0, 8, keycode_at(i, b))
}

fn keycode(i: usize, b: u8) -> (kc: u8)
    requires
        b < 8,
    ensures
        kc == keycode_at(i as int, b as int),
{
    let t: usize = (i % 32) * 8 + (b as usize) + 8;
    (t % 256) as u8
}

fn bit_set(byte: u8, b: u8) -> (r: bool)
    requires
        b < 8,
    ensures
        r == ((byte & (1u8 << b)) != 0),
{
    (byte & (1u8 << b)) != 0
}

/// Whether `kc` belongs to one of the groups `lo..hi`.
fn in_group_range(groups: &Vec<Vec<u8>>, lo: usize, hi: usize, kc: u8) -> (r: bool)
    requires
        lo <= hi <= groups@.len(),
    ensures
        r == in_groups(groups@.map_values(|v: Vec<u8>| v@), lo as int, hi as int, kc),
{
    let ghost gs = groups@.map_values(|v: Vec<u8>| v@);
    let mut g = lo;
    while g < hi
        invariant
            lo <= g <= hi <= groups@.len(),
            gs == groups@.map_values(|v: Vec<u8>| v@),
            forall|h: int| lo <= h < g ==> !(#[trigger] gs[h]).contains(kc),
        decreases hi - g,
    {
        if bytes_contain(&groups[g], kc) {
            assert(gs[g as int].contains(kc));
            return true;
        }
        g = g + 1;
    }
    false
}

/// Whether the keymap shows typing (see [`typing`]); `groups` are the eight
/// modifier groups.
pub fn keymap_typing(keys: &Vec<u8>, groups: &Vec<Vec<u8>>) -> (r: bool)
    requires
        groups@.len() == 8,
    ensures
        r == typing(keys@, groups@.map_values(|v: Vec<u8>| v@)),
{
    let ghost gs = groups@.map_values(|v: Vec<u8>| v@);
    // Is a shortcut modifier held?
    let mut shortcut = false;
    let mut i: usize = 0;
    while i < keys.len() && !shortcut
        invariant
            groups@.len() == 8,
            gs == groups@.map_values(|v: Vec<u8>| v@),
            0 <= i <= keys@.len(),
            shortcut ==> shortcut_modifier_held(keys@, gs),
            !shortcut ==> forall|j: int, b: int|
                0 <= j < i ==> !(#[trigger] key_down(keys@, j, b) && in_groups(gs, 2, 8, keycode_at(j, b))),
        decreases keys@.len() - i, (if shortcut { 0int } else { 1int }),
    {
        let byte = keys[i];
        let mut b: u8 = 0;
        while b < 8 && !shortcut
            invariant
                groups@.len() == 8,
                gs == groups@.map_values(|v: Vec<u8>| v@),
                0 <= i < keys@.len(),
                byte == keys@[i as int],
                0 <= b <= 8,
                shortcut ==> shortcut_modifier_held(keys@, gs),
                !shortcut ==> forall|j: int, c: int|
                    0 <= j < i ==> !(#[trigger] key_down(keys@, j, c) && in_groups(gs, 2, 8, keycode_at(j, c))),
                !shortcut ==> forall|c: int|
                    0 <= c < b ==> !(#[trigger] key_down(keys@, i as int, c) && in_groups(gs, 2, 8, keycode_at(i as int, c))),
            decreases 8 - b,
        {
            if bit_set(byte, b) {
                let kc = keycode(i, b);
                if in_group_range(groups, 2, 8, kc) {
                    assert(key_down(keys@, i as int, b as int));
                    shortcut = true;
                }
            }
            b = b + 1;
        }
        if !shortcut {
            i = i + 1;
        }
    }
    if shortcut {
        return false;
    }
    assert(!shortcut_modifier_held(keys@, gs));
    // Is a key down that is no modifier?
    let mut i: usize = 0;
    while i < keys.len()
        invariant
            groups@.len() == 8,
            gs == groups@.map_values(|v: Vec<u8>| v@),
            !shortcut_modifier_held(keys@, gs),
            0 <= i <= keys@.len(),
            forall|j: int, b: int|
                0 <= j < i ==> !(#[trigger] key_down(keys@, j, b) && !in_groups(gs, 0, 8, keycode_at(j, b))),
        decreases keys@.len() - i,
    {
        let byte = keys[i];
        let mut b: u8 = 0;
        while b < 8
            invariant
                !shortcut_modifier_held(keys@, gs),
                groups@.len() == 8,
                gs == groups@.map_values(|v: Vec<u8>| v@),
                0 <= i < keys@.len(),
                byte == keys@[i as int],
                0 <= b <= 8,
                forall|j: int, c: int|
                    0 <= j < i ==> !(#[trigger] key_down(keys@, j, c) && !in_groups(gs, 0, 8, keycode_at(j, c))),
                forall|c: int|
                    0 <= c < b ==> !(#[trigger] key_down(keys@, i as int, c) && !in_groups(gs, 0, 8, keycode_at(i as int, c))),
            decreases 8 - b,
        {
            if bit_set(byte, b) {
                let kc = keycode(i, b);
                if !in_group_range(groups, 0, 8, kc) {
                    assert(key_down(keys@, i as int, b as int) && !in_groups(gs, 0, 8, keycode_at(i as int, b as int)));
                    assert(typing(keys@, gs));
                    return true;
                }
            }
            b = b + 1;
        }
        assert forall|j: int, c: int|
            0 <= j < i + 1 implies !(#[trigger] key_down(keys@, j, c) && !in_groups(gs, 0, 8, keycode_at(j, c))) by {
            if j == i && key_down(keys@, j, c) {
                assert(0 <= c < 8);
            }
        }
        i = i + 1;
    }
    false
}

// ---------------------------------------------------------------- pointer

/// `v` wrapped into the `i16` range (two's complement).
pub open spec fn wrap_i16(v: int) -> int {
    if v > 32767 {
        v - 65536
    } else if v < -32768 {
        v + 65536
    } else {
        v
    }
}

/// `i16::abs` as it behaves in wrapping arithmetic: the minimum stays.
pub open spec fn abs_i16(v: int) -> int {
    if v == -32768 {
        v
    } else if v < 0 {
        -v
    } else {
        v
    }
}

/// The pointer moved by more than `eps` on either axis since it was last
/// recorded at `(last_x, last_y)`; differences are taken in `i16`
/// arithmetic, which wraps.
pub open spec fn moved_beyond(x: i16, y: i16, last_x: i32, last_y: i32, eps: i16) -> bool {
    let dx = wrap_i16(x - (last_x as i16));
    let dy = wrap_i16(y - (last_y as i16));
    abs_i16(dx) > eps || abs_i16(dy) > eps
}

fn axis_moved(v: i16, last: i32, eps: i16) -> (r: bool)
    ensures
        r == (abs_i16(wrap_i16(v - (last as i16))) > eps),
{
    let l: i16 = last as i16;
    let d: i32 = v as i32 - l as i32;
    let w: i32 = if d > 32767 {
        d - 65536
    } else if d < -32768 {
        d + 65536
    } else {
        d
    };
    let a: i32 = if w == -32768 {
        w
    } else if w < 0 {
        -w
    } else {
        w
    };
    a > eps as i32
}

// ----------------------------------------------------------- the monitor

/// What the input monitor keeps between samples. Times are milliseconds
/// on a monotonic clock.
#[derive(Debug)]
pub struct InputTracker {
    /// The findings that are published.
    pub input: InputState,
    /// When the pointer last moved.
    pub last_mouse_ms: u64,
    /// When typing was last seen.
    pub last_key_ms: u64,
    /// When the pools were last topped up.
    pub last_ensure_ms: u64,
    /// When vanished windows were last forgotten.
    pub last_cleanup_ms: u64,
    /// X11 errors in a row.
    pub x11_error_count: u32,
    /// The configuration was reloaded and the pools not yet topped up for it.
    pub reload_pending: bool,
}

/// Milliseconds from `then` to `now`, zero if `then` is later.
pub open spec fn elapsed(now: u64, then: u64) -> nat {
    if now >= then {
        (now - then) as nat
    } else {
        0
    }
}

/// `a.max(b)`.
pub open spec fn max_u64(a: u64, b: u64) -> u64 {
    if a >= b {
        a
    } else {
        b
    }
}

/// The two records of input agree except for the pointer and mouse time.
pub open spec fn same_but_pointer(a: InputState, b: InputState) -> bool {
    a.move_flag == b.move_flag && a.last_key_at == b.last_key_at
}

/// The two records of input agree except for the key time.
pub open spec fn same_but_key(a: InputState, b: InputState) -> bool {
    a.move_flag == b.move_flag && a.pointer_x == b.pointer_x && a.pointer_y == b.pointer_y
        && a.last_mouse_at == b.last_mouse_at
}

impl InputTracker {
    /// The error count is below the limit: the monitor is still running.
    pub open spec fn running(&self) -> bool {
        self.x11_error_count < MAX_X11_ERRORS
    }

    /// The monitor at start: the mouse and the keyboard count as idle for
    /// ten seconds, pools and records as due, the pointer where the first
    /// sample found it (the origin if it could not be read).
    pub fn new(now_ms: u64, pointer: Option<(i16, i16)>) -> (t: InputTracker)
        requires
            now_ms >= 60_000,
        ensures
            t.running(),
            t.x11_error_count == 0,
            !t.reload_pending,
            t.last_mouse_ms == now_ms - 10_000,
            t.last_key_ms == now_ms - 10_000,
            t.last_ensure_ms == now_ms - 60_000,
            t.last_cleanup_ms == now_ms - 60_000,
            !t.input.move_flag,
            t.input.last_mouse_at is None,
            t.input.last_key_at is None,
            match pointer {
                Some((x, y)) => t.input.pointer_x == x && t.input.pointer_y == y,
                None => t.input.pointer_x == 0 && t.input.pointer_y == 0,
            },
    {
        let (px, py): (i32, i32) = match pointer {
            Some((x, y)) => (x as i32, y as i32),
            None => (0, 0),
        };
        InputTracker {
            input: InputState {
                move_flag: false,
                pointer_x: px,
                pointer_y: py,
                last_mouse_at: None,
                last_key_at: None,
            },
            last_mouse_ms: now_ms - 10_000,
            last_key_ms: now_ms - 10_000,
            last_ensure_ms: now_ms - 60_000,
            last_cleanup_ms: now_ms - 60_000,
            x11_error_count: 0,
            reload_pending: false,
        }
    }

    /// Counts one X11 error; says whether the monitor keeps running.
    fn count_error(&mut self) -> (keep: bool)
        requires
            old(self).running(),
        ensures
            final(self).x11_error_count == old(self).x11_error_count + 1,
            keep == final(self).running(),
            final(self).reload_pending == old(self).reload_pending,
            final(self).input == old(self).input,
            final(self).last_mouse_ms == old(self).last_mouse_ms,
            final(self).last_key_ms == old(self).last_key_ms,
            final(self).last_ensure_ms == old(self).last_ensure_ms,
            final(self).last_cleanup_ms == old(self).last_cleanup_ms,
    {
        self.x11_error_count = self.x11_error_count + 1;
        self.x11_error_count < MAX_X11_ERRORS
    }

    /// A pointer sample (`None` when the query failed). A reading clears the
    /// error count; motion beyond `motion_eps` records the new position and
    /// the time. A failure counts an error. Says whether the monitor keeps
    /// running.
    pub fn observe_pointer(&mut self, sample: Option<(i16, i16)>, motion_eps: i16, now_ms: u64) -> (keep:
        bool)
        requires
            old(self).running(),
        ensures
            keep == final(self).running(),
            final(self).reload_pending == old(self).reload_pending,
            final(self).last_key_ms == old(self).last_key_ms,
            final(self).last_ensure_ms == old(self).last_ensure_ms,
            final(self).last_cleanup_ms == old(self).last_cleanup_ms,
            same_but_pointer(final(self).input, old(self).input),
            match sample {
                Some((x, y)) => {
                    &&& final(self).x11_error_count == 0
                    &&& if moved_beyond(x, y, old(self).input.pointer_x, old(self).input.pointer_y, motion_eps) {
                        &&& final(self).input.pointer_x == x
                        &&& final(self).input.pointer_y == y
                        &&& final(self).last_mouse_ms == now_ms
                        &&& final(self).input.last_mouse_at matches Some(t) && (is_rfc3339_text(t@) || t@ == "now"@)
                    } else {
                        &&& final(self).input == old(self).input
                        &&& final(self).last_mouse_ms == old(self).last_mouse_ms
                    }
                },
                None => {
                    &&& final(self).x11_error_count == old(self).x11_error_count + 1
                    &&& final(self).input == old(self).input
                    &&& final(self).last_mouse_ms == old(self).last_mouse_ms
                },
            },
    {
        match sample {
            Some((x, y)) => {
                self.x11_error_count = 0;
                let moved = axis_moved(x, self.input.pointer_x, motion_eps) || axis_moved(
                    y,
                    self.input.pointer_y,
                    motion_eps,
                );
                if moved {
                    self.input.pointer_x = x as i32;
                    self.input.pointer_y = y as i32;
                    self.last_mouse_ms = now_ms;
                    self.input.last_mouse_at = Some(now_rfc3339());
                }
                true
            },
            None => self.count_error(),
        }
    }

    /// A keymap sample (`None` when the query failed); `groups` are the eight
    /// modifier groups. A reading clears the error count; typing records the
    /// time. A failure counts an error. Says whether the monitor keeps
    /// running.
    pub fn observe_keymap(&mut self, keymap: Option<&Vec<u8>>, groups: &Vec<Vec<u8>>, now_ms: u64) -> (keep:
        bool)
        requires
            old(self).running(),
            groups@.len() == 8,
        ensures
            keep == final(self).running(),
            final(self).reload_pending == old(self).reload_pending,
            final(self).last_mouse_ms == old(self).last_mouse_ms,
            final(self).last_ensure_ms == old(self).last_ensure_ms,
            final(self).last_cleanup_ms == old(self).last_cleanup_ms,
            same_but_key(final(self).input, old(self).input),
            match keymap {
                Some(keys) => {
                    &&& final(self).x11_error_count == 0
                    &&& if typing(keys@, groups@.map_values(|v: Vec<u8>| v@)) {
                        &&& final(self).last_key_ms == now_ms
                        &&& final(self).input.last_key_at matches Some(t) && (is_rfc3339_text(t@) || t@ == "now"@)
                    } else {
                        &&& final(self).input == old(self).input
                        &&& final(self).last_key_ms == old(self).last_key_ms
                    }
                },
                None => {
                    &&& final(self).x11_error_count == old(self).x11_error_count + 1
                    &&& final(self).input == old(self).input
                    &&& final(self).last_key_ms == old(self).last_key_ms
                },
            },
    {
        match keymap {
            Some(keys) => {
                self.x11_error_count = 0;
                if keymap_typing(keys, groups) {
                    self.last_key_ms = now_ms;
                    self.input.last_key_at = Some(now_rfc3339());
                }
                true
            },
            None => self.count_error(),
        }
    }

    /// Mouse mode: the mouse moved within `max(mouse_recent_ms, 50)` ms and
    /// no typing was seen within `max(key_suppress_ms, 50)` ms.
    pub open spec fn mouse_mode(&self, now_ms: u64, mouse_recent_ms: u64, key_suppress_ms: u64) -> bool {
        &&& elapsed(now_ms, self.last_mouse_ms) <= max_u64(mouse_recent_ms, 50)
        &&& !(elapsed(now_ms, self.last_key_ms) <= max_u64(key_suppress_ms, 50))
    }

    /// Sets the published mouse-mode flag.
    pub fn update_move_flag(&mut self, now_ms: u64, mouse_recent_ms: u64, key_suppress_ms: u64)
        ensures
            final(self).input.move_flag == old(self).mouse_mode(now_ms, mouse_recent_ms, key_suppress_ms),
            final(self).input.pointer_x == old(self).input.pointer_x,
            final(self).input.pointer_y == old(self).input.pointer_y,
            final(self).input.last_mouse_at == old(self).input.last_mouse_at,
            final(self).input.last_key_at == old(self).input.last_key_at,
            final(self).last_mouse_ms == old(self).last_mouse_ms,
            final(self).last_key_ms == old(self).last_key_ms,
            final(self).last_ensure_ms == old(self).last_ensure_ms,
            final(self).last_cleanup_ms == old(self).last_cleanup_ms,
            final(self).x11_error_count == old(self).x11_error_count,
            final(self).reload_pending == old(self).reload_pending,
    {
        let mouse_age = now_ms.saturating_sub(self.last_mouse_ms);
        let key_age = now_ms.saturating_sub(self.last_key_ms);
        let mouse_recent = mouse_age <= if mouse_recent_ms >= 50 {
            mouse_recent_ms
        } else {
            50
        };
        let key_recent = key_age <= if key_suppress_ms >= 50 {
            key_suppress_ms
        } else {
            50
        };
        self.input.move_flag = mouse_recent && !key_recent;
    }

    /// The pools are due for a top-up: `max(ensure_interval_ms, 50)` ms have
    /// passed since the last one.
    pub fn ensure_due(&self, now_ms: u64, ensure_interval_ms: u64) -> (due: bool)
        ensures
            due == (elapsed(now_ms, self.last_ensure_ms) >= max_u64(ensure_interval_ms, 50)),
    {
        let interval = if ensure_interval_ms >= 50 {
            ensure_interval_ms
        } else {
            50
        };
        now_ms.saturating_sub(self.last_ensure_ms) >= interval
    }

    /// Notes that the pools were topped up at `now_ms`.
    pub fn record_ensure(&mut self, now_ms: u64)
        ensures
            final(self).last_ensure_ms == now_ms,
            final(self).input == old(self).input,
            final(self).last_mouse_ms == old(self).last_mouse_ms,
            final(self).last_key_ms == old(self).last_key_ms,
            final(self).last_cleanup_ms == old(self).last_cleanup_ms,
            final(self).x11_error_count == old(self).x11_error_count,
            final(self).reload_pending == old(self).reload_pending,
    {
        self.last_ensure_ms = now_ms;
    }

    /// Notes that the configuration was reloaded: the next round tops up
    /// every pool.
    pub fn note_config_reload(&mut self)
        ensures
            *final(self) == (InputTracker { reload_pending: true, ..*old(self) }),
    {
        self.reload_pending = true;
    }

    /// Whether this round tops up every pool for a reload: exactly when one
    /// was noted and no round has answered it yet. The note is used up.
    pub fn take_reload(&mut self) -> (due: bool)
        ensures
            due == old(self).reload_pending,
            *final(self) == (InputTracker { reload_pending: false, ..*old(self) }),
    {
        let due = self.reload_pending;
        self.reload_pending = false;
        due
    }

    /// Records of vanished windows are due to be dropped: thirty seconds
    /// have passed since the last time.
    pub fn cleanup_due(&self, now_ms: u64) -> (due: bool)
        ensures
            due == (elapsed(now_ms, self.last_cleanup_ms) >= CLEANUP_INTERVAL_MS),
    {
        now_ms.saturating_sub(self.last_cleanup_ms) >= CLEANUP_INTERVAL_MS
    }

    /// Notes that records were cleaned at `now_ms`.
    pub fn record_cleanup(&mut self, now_ms: u64)
        ensures
            final(self).last_cleanup_ms == now_ms,
            final(self).input == old(self).input,
            final(self).last_mouse_ms == old(self).last_mouse_ms,
            final(self).last_key_ms == old(self).last_key_ms,
            final(self).last_ensure_ms == old(self).last_ensure_ms,
            final(self).x11_error_count == old(self).x11_error_count,
            final(self).reload_pending == old(self).reload_pending,
    {
        self.last_cleanup_ms = now_ms;
    }
}

/// The pause between two rounds of the monitor: `max(input_poll_ms, 10)`.
pub fn poll_sleep_ms(input_poll_ms: u64) -> (ms: u64)
    ensures
        ms == max_u64(input_poll_ms, 10),
{
    if input_poll_ms >= 10 {
        input_poll_ms
    } else {
        10
    }
}

// ------------------------------------------------------------------ laws

/// Typing seen now rules mouse mode out, whatever the thresholds.
pub proof fn law_typing_clears_mouse_mode(t: InputTracker, now_ms: u64, mouse_recent_ms: u64, key_suppress_ms: u64)
    requires
        t.last_key_ms == now_ms,
    ensures
        !t.mouse_mode(now_ms, mouse_recent_ms, key_suppress_ms),
{
}

/// Pointer motion seen now gives mouse mode exactly when no typing was seen
/// within the suppression window.
pub proof fn law_motion_gives_mouse_mode(t: InputTracker, now_ms: u64, mouse_recent_ms: u64, key_suppress_ms: u64)
    requires
        t.last_mouse_ms == now_ms,
    ensures
        t.mouse_mode(now_ms, mouse_recent_ms, key_suppress_ms) == (elapsed(now_ms, t.last_key_ms) > max_u64(
            key_suppress_ms,
            50,
        )),
{
}

/// When the pools were last topped up after rounds of the monitor at the
/// times `times`, starting from a last top-up at `last`: each round tops up
/// exactly when `ensure_due` says so and then notes the time with
/// `record_ensure`.
pub open spec fn last_top_up(last: u64, times: Seq<u64>, ensure_interval_ms: u64) -> u64
    decreases times.len(),
{
    if times.len() == 0 {
        last
    } else {
        let prev = last_top_up(last, times.drop_last(), ensure_interval_ms);
        if elapsed(times.last(), prev) >= max_u64(ensure_interval_ms, 50) {
            times.last()
        } else {
            prev
        }
    }
}

proof fn lemma_last_top_up(last: u64, times: Seq<u64>, ensure_interval_ms: u64)
    requires
        times.len() > 0,
        last <= times[0],
        forall|i: int, j: int| 0 <= i <= j < times.len() ==> times[i] <= times[j],
    ensures
        last_top_up(last, times, ensure_interval_ms) <= times.last(),
        times.last() - last_top_up(last, times, ensure_interval_ms) < max_u64(ensure_interval_ms, 50),
    decreases times.len(),
{
    let init = times.drop_last();
    if init.len() > 0 {
        lemma_last_top_up(last, init, ensure_interval_ms);
        assert(init.last() == times[times.len() - 2]);
        assert(times[times.len() - 2] <= times[times.len() - 1]);
    } else {
        assert(times.last() == times[0]);
    }
    let prev = last_top_up(last, init, ensure_interval_ms);
    assert(prev <= times.last());
    assert(last_top_up(last, times, ensure_interval_ms) == (if elapsed(times.last(), prev) >= max_u64(
        ensure_interval_ms,
        50,
    ) {
        times.last()
    } else {
        prev
    }));
}

/// The periodic top-up keeps the pools fresh: over rounds of the monitor at
/// non-decreasing times, none before the last top-up, less than
/// `max(ensure_interval_ms, 50)` ms have passed since the last top-up at the
/// end of every round; so when rounds are at most `gap` ms apart, the next
/// round comes less than `max(ensure_interval_ms, 50) + gap` ms after the
/// last top-up.
pub proof fn law_pools_topped_up_every_interval(last: u64, times: Seq<u64>, ensure_interval_ms: u64, gap: u64)
    requires
        times.len() > 0,
        last <= times[0],
        forall|i: int, j: int| 0 <= i <= j < times.len() ==> times[i] <= times[j],
        forall|k: int| 0 <= k < times.len() - 1 ==> #[trigger] times[k + 1] <= times[k] + gap,
    ensures
        forall|k: int|
            0 <= k < times.len() ==> last_top_up(last, #[trigger] times.take(k + 1), ensure_interval_ms) <= times[k]
                && times[k] - last_top_up(last, times.take(k + 1), ensure_interval_ms) < max_u64(
                ensure_interval_ms,
                50,
            ),
        forall|k: int|
            0 <= k < times.len() - 1 ==> times[k + 1] - last_top_up(last, #[trigger] times.take(k + 1), ensure_interval_ms)
                < max_u64(ensure_interval_ms, 50) + gap,
{
    assert forall|k: int| 0 <= k < times.len() implies last_top_up(
        last,
        #[trigger] times.take(k + 1),
        ensure_interval_ms,
    ) <= times[k] && times[k] - last_top_up(last, times.take(k + 1), ensure_interval_ms) < max_u64(
        ensure_interval_ms,
        50,
    ) by {
        let p = times.take(k + 1);
        assert(p.last() == times[k]);
        assert(p[0] == times[0]);
        lemma_last_top_up(last, p, ensure_interval_ms);
    }
    assert forall|k: int| 0 <= k < times.len() - 1 implies times[k + 1] - last_top_up(
        last,
        #[trigger] times.take(k + 1),
        ensure_interval_ms,
    ) < max_u64(ensure_interval_ms, 50) + gap by {
        assert(times[k + 1] <= times[k] + gap);
        let p = times.take(k + 1);
        assert(p.last() == times[k]);
        assert(p[0] == times[0]);
        lemma_last_top_up(last, p, ensure_interval_ms);
    }
}

/// Whether a reload is waiting after the events `events`, starting from
/// `pending`: `true` stands for a reload noted with `note_config_reload`,
/// `false` for a round that asks with `take_reload`. Each event sets the note
/// to what it is, so the last one decides.
pub open spec fn reload_pending_after(pending: bool, events: Seq<bool>) -> bool {
    if events.len() == 0 {
        pending
    } else {
        events.last()
    }
}

/// A reload is answered by the next round, and only then: a round tops up
/// every pool for a reload exactly when a reload was noted after the round
/// before it (or, before any round, when one was already waiting).
pub proof fn law_reload_answered_by_next_round(pending: bool, events: Seq<bool>, k: int)
    requires
        0 <= k < events.len(),
        !events[k],
    ensures
        reload_pending_after(pending, events.take(k)) <==> (
        (exists|j: int| 0 <= j < k && #[trigger] events[j] && forall|i: int| j < i < k ==> #[trigger] events[i])
            || (pending && forall|i: int| 0 <= i < k ==> #[trigger] events[i])),
{
    if k > 0 {
        let p = events.take(k);
        assert(p.last() == events[k - 1]);
        if events[k - 1] {
            assert(events[k - 1] && forall|i: int| k - 1 < i < k ==> #[trigger] events[i]);
        } else {
            assert forall|j: int| 0 <= j < k && #[trigger] events[j] implies !(forall|i: int|
                j < i < k ==> #[trigger] events[i]) by {
                if j < k - 1 {
                    assert(!events[k - 1]);
                }
            }
            assert(!events[k - 1]);
        }
    } else {
        assert(events.take(0).len() == 0);
    }
}

} // verus!
