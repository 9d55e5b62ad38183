//! What the tool remembers between runs: the pool windows it spawned and the
//! input monitor's last findings, and the operations on that record.
use vstd::prelude::*;
use std::collections::BTreeMap;
use vstd::std_specs::btree::spec_keys_iter;
use vstd::std_specs::iter::IteratorSpec;
use crate::external::{format_rfc3339, is_rfc3339_char, is_rfc3339_stamp, now_utc};
use crate::text::{join_path, owned, path_join};

verus! {

/// What is known of a window that was spawned into a pool.
#[derive(Debug, Clone)]
pub struct WindowMeta {
    pub pid: u32,
    pub session: Option<String>,
    pub created_at: String,
    /// Set once the window has been taken out of its pool; it is then
    /// independent and no longer counts as a pool window.
    pub popped: bool,
}

/// The record of spawned windows, keyed by X window id.
#[derive(Debug)]
pub struct StateFile {
    pub windows: BTreeMap<u32, WindowMeta>,
}

/// The input monitor's findings, as the daemon publishes them.
#[derive(Debug, Clone)]
pub struct InputState {
    pub move_flag: bool,
    pub pointer_x: i32,
    pub pointer_y: i32,
    pub last_mouse_at: Option<String>,
    pub last_key_at: Option<String>,
}

impl StateFile {
    /// An empty record.
    pub fn new() -> (st: StateFile)
        ensures
            st.windows@ == Map::<u32, WindowMeta>::empty(),
    {
        StateFile { windows: BTreeMap::new() }
    }
}

impl Default for StateFile {
    fn default() -> (st: StateFile)
        ensures
            st.windows@ == Map::<u32, WindowMeta>::empty(),
    {
        StateFile::new()
    }
}

impl Default for InputState {
    fn default() -> (st: InputState)
        ensures
            !st.move_flag,
            st.pointer_x == 0,
            st.pointer_y == 0,
            st.last_mouse_at is None,
            st.last_key_at is None,
    {
        InputState {
            move_flag: false,
            pointer_x: 0,
            pointer_y: 0,
            last_mouse_at: None,
            last_key_at: None,
        }
    }
}

// ------------------------------------------------------------------ paths

/// The state directory: `$XDG_STATE_HOME/0fbuf` when that variable is set,
/// else `~/.local/state/0fbuf`; `None` when neither is known (the caller
/// stops there, as HOME must be set).
pub fn xdg_state_dir(xdg_state_home: Option<&str>, home: Option<&str>) -> (d: Option<String>)
    ensures
        match xdg_state_home {
            Some(x) => d is Some && d->0@ == path_join(x@, "0fbuf"@),
            None => match home {
                Some(h) => d is Some && d->0@ == path_join(h@, ".local/state/0fbuf"@),
                None => d is None,
            },
        },
{
    match xdg_state_home {
        Some(x) => Some(join_path(x, "0fbuf")),
        None => match home {
            Some(h) => Some(join_path(h, ".local/state/0fbuf")),
            None => None,
        },
    }
}

/// The path of the window record inside the state directory.
pub fn state_path(state_dir: &str) -> (p: String)
    ensures
        p@ == path_join(state_dir@, "state.json"@),
{
    join_path(state_dir, "state.json")
}

/// The path of the published input state inside the state directory.
pub fn input_path(state_dir: &str) -> (p: String)
    ensures
        p@ == path_join(state_dir@, "input.json"@),
{
    join_path(state_dir, "input.json")
}

// ------------------------------------------------------------------- time

/// Text that the RFC 3339 formatter may produce.
pub open spec fn is_rfc3339_text(s: Seq<char>) -> bool {
    forall|i: int| 0 <= i < s.len() ==> is_rfc3339_char(#[trigger] s[i])
}

/// The current UTC time in RFC 3339 form (`YYYY-MM-DDTHH:MM:SS`, then
/// optional sub-second digits and the offset), or `now` where it cannot be
/// formatted.
pub fn now_rfc3339() -> (s: String)
    ensures
        is_rfc3339_stamp(s@) || s@ == "now"@,
{
    match format_rfc3339(now_utc()) {
        Ok(s) => s,
        Err(_) => owned("now"),
    }
}

// ------------------------------------------------------------- the record

/// Whether the record marks window `xid` as taken out of its pool.
pub open spec fn popped_in(m: Map<u32, WindowMeta>, xid: u32) -> bool {
    m.contains_key(xid) && m[xid].popped
}

/// `meta`, marked as taken out of its pool.
pub open spec fn as_popped(meta: WindowMeta) -> WindowMeta {
    WindowMeta { popped: true, ..meta }
}

/// The record after window `xid` is marked as taken out of its pool.
pub open spec fn popped_record(m: Map<u32, WindowMeta>, xid: u32) -> Map<u32, WindowMeta> {
    if m.contains_key(xid) {
        m.insert(xid, as_popped(m[xid]))
    } else {
        m
    }
}

/// Whether window `xid` has been taken out of its pool.
pub fn is_popped(st: &StateFile, xid: u32) -> (b: bool)
    ensures
        b == popped_in(st.windows@, xid),
{
    match st.windows.get(&xid) {
        Some(meta) => meta.popped,
        None => false,
    }
}

/// Marks window `xid` as taken out of its pool (it becomes independent). A
/// window that the record does not hold is left unrecorded.
pub fn mark_popped(st: &mut StateFile, xid: u32)
    ensures
        final(st).windows@ == popped_record(old(st).windows@, xid),
{
    match st.windows.remove(&xid) {
        Some(meta) => {
            let mut meta = meta;
            meta.popped = true;
            st.windows.insert(xid, meta);
            assert(st.windows@ =~= popped_record(old(st).windows@, xid));
        },
        None => {},
    }
}

/// Records a newly spawned window.
pub fn record_window(st: &mut StateFile, xid: u32, meta: WindowMeta)
    ensures
        final(st).windows@ == old(st).windows@.insert(xid, meta),
{
    st.windows.insert(xid, meta);
}

/// Whether `v` holds `x`.
pub fn slice_contains(v: &[u32], x: u32) -> (b: bool)
    ensures
        b == v@.contains(x),
{
    let mut i: usize = 0;
    while i < v.len()
        invariant
            0 <= i <= v@.len(),
            forall|k: int| 0 <= k < i ==> v@[k] != x,
        decreases v@.len() - i,
    {
        if v[i] == x {
            assert(v@[i as int] == x);
            return true;
        }
        i = i + 1;
    }
    false
}

/// The record keys, in ascending order.
fn record_keys(m: &BTreeMap<u32, WindowMeta>) -> (v: Vec<u32>)
    ensures
        v@.to_set() == m@.dom(),
        v@.no_duplicates(),
{
    let mut v: Vec<u32> = Vec::new();
    let ghost ks = spec_keys_iter(m).remaining().unref();
    for k in it: m.keys()
        invariant
            it.seq().unref() == ks,
            v@ == ks.take(it.index()),
    {
        v.push(*k);
    }
    assert(v@ == ks);
    v
}

/// Forgets every window whose id is not in `valid_xids` (the windows that
/// still exist).
pub fn cleanup_stale_state(st: &mut StateFile, valid_xids: &[u32])
    ensures
        final(st).windows@ == old(st).windows@.restrict(valid_xids@.to_set()),
{
    let keys = record_keys(&st.windows);
    let mut i: usize = 0;
    while i < keys.len()
        invariant
            0 <= i <= keys@.len(),
            keys@.to_set() == old(st).windows@.dom(),
            keys@.no_duplicates(),
            st.windows@.dom() == old(st).windows@.dom().filter(
                |k: u32| !keys@.take(i as int).contains(k) || valid_xids@.contains(k),
            ),
            forall|k: u32| #[trigger] st.windows@.contains_key(k) ==> st.windows@[k] == old(st).windows@[k],
        decreases keys@.len() - i,
    {
        let k = keys[i];
        if !slice_contains(valid_xids, k) {
            st.windows.remove(&k);
        }
        let ghost prev = keys@.take(i as int);
        assert(keys@.take(i + 1) == prev.push(k));
        assert forall|j: u32| #[trigger] keys@.take(i + 1).contains(j) == (prev.contains(j) || j == k) by {
            if keys@.take(i + 1).contains(j) {
                let t = keys@.take(i + 1);
                let w = choose|w: int| 0 <= w < t.len() && #[trigger] t[w] == j;
                if w < i {
                    assert(prev[w] == j);
                }
            }
            if prev.contains(j) {
                let w = choose|w: int| 0 <= w < prev.len() && #[trigger] prev[w] == j;
                assert(keys@.take(i + 1)[w] == j);
            }
            if j == k {
                assert(keys@.take(i + 1)[i as int] == j);
            }
        }
        i = i + 1;
        assert(st.windows@.dom() =~= old(st).windows@.dom().filter(
            |j: u32| !keys@.take(i as int).contains(j) || valid_xids@.contains(j),
        ));
    }
    assert(keys@.take(i as int) == keys@);
    assert(st.windows@ =~= old(st).windows@.restrict(valid_xids@.to_set()));
}

// ------------------------------------------------------------------ laws

/// Cleaning up keeps exactly the records of existing windows, unchanged, and
/// a second cleanup with the same windows changes nothing.
pub proof fn law_cleanup_keeps_existing(m: Map<u32, WindowMeta>, valid: Seq<u32>)
    ensures
        forall|x: u32| #[trigger] m.restrict(valid.to_set()).contains_key(x) == (m.contains_key(x) && valid.contains(x)),
        forall|x: u32| #[trigger] m.restrict(valid.to_set()).contains_key(x) ==> m.restrict(valid.to_set())[x] == m[x],
        m.restrict(valid.to_set()).restrict(valid.to_set()) == m.restrict(valid.to_set()),
{
    assert(m.restrict(valid.to_set()).restrict(valid.to_set()) =~= m.restrict(valid.to_set()));
}

/// Marking a window as popped: afterwards the record says so exactly when it
/// holds the window, no other window's entry changes, and marking it again
/// changes nothing.
pub proof fn law_mark_popped(m: Map<u32, WindowMeta>, xid: u32)
    ensures
        popped_in(popped_record(m, xid), xid) == m.contains_key(xid),
        popped_record(m, xid).dom() == m.dom(),
        forall|y: u32| y != xid && #[trigger] m.contains_key(y) ==> popped_record(m, xid)[y] == m[y],
        popped_record(popped_record(m, xid), xid) == popped_record(m, xid),
{
    assert(popped_record(m, xid).dom() =~= m.dom());
    assert(popped_record(popped_record(m, xid), xid) =~= popped_record(m, xid));
}

} // verus!
