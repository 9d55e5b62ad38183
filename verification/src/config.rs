//! Pool and input configuration, the built-in defaults, and where the
//! configuration file is looked for.
use vstd::prelude::*;
use crate::text::{chars_of, join_path, owned, path_join};

verus! {

/// The window class used when none is configured.
pub const DEFAULT_CLASS: &'static str = "0fbuf";

/// How many warm windows a pool keeps when none is configured.
pub const DEFAULT_MIN: usize = 5;

/// One pool of pre-started windows.
#[derive(Debug, Clone)]
pub struct PoolConfig {
    pub name: String,
    /// The `WM_CLASS` that identifies the pool's windows.
    pub class: String,
    /// How many warm windows the pool keeps.
    pub min: usize,
    /// The command that starts a window; `{class}` and `{session}` are
    /// filled in.
    pub spawn_cmd: String,
    /// The desktop that holds the pool; the last one when unset.
    pub pool_desktop: Option<u32>,
    pub reset_via_tmux: bool,
    pub reset_keys: Option<String>,
    /// Shell commands run after a window appears; `{class}`, `{session}` and
    /// `{xid}` are filled in.
    pub on_spawn: Vec<String>,
    /// How a freshly spawned window is kept from flashing on screen.
    pub antiflicker_strategy: String,
}

/// A pool's configuration as plain values.
pub struct PoolConfigView {
    pub name: Seq<char>,
    pub class: Seq<char>,
    pub min: nat,
    pub spawn_cmd: Seq<char>,
    pub pool_desktop: Option<u32>,
    pub reset_via_tmux: bool,
    pub reset_keys: Option<Seq<char>>,
    pub on_spawn: Seq<Seq<char>>,
    pub antiflicker_strategy: Seq<char>,
}

/// The view of an optional string.
pub open spec fn opt_view(o: Option<String>) -> Option<Seq<char>> {
    match o {
        Some(s) => Some(s@),
        None => None,
    }
}

/// The views of a list of strings.
pub open spec fn strings_view(v: Seq<String>) -> Seq<Seq<char>> {
    v.map_values(|s: String| s@)
}

impl View for PoolConfig {
    type V = PoolConfigView;

    open spec fn view(&self) -> PoolConfigView {
        PoolConfigView {
            name: self.name@,
            class: self.class@,
            min: self.min as nat,
            spawn_cmd: self.spawn_cmd@,
            pool_desktop: self.pool_desktop,
            reset_via_tmux: self.reset_via_tmux,
            reset_keys: opt_view(self.reset_keys),
            on_spawn: strings_view(self.on_spawn@),
            antiflicker_strategy: self.antiflicker_strategy@,
        }
    }
}

// ------------------------------------------------------------ key order

/// The order of `String`: lexicographic by code point (the order of the
/// UTF-8 bytes).
pub open spec fn str_lt(a: Seq<char>, b: Seq<char>) -> bool
    decreases a.len(),
{
    if b.len() == 0 {
        false
    } else if a.len() == 0 {
        true
    } else if a[0] != b[0] {
        (a[0] as u32) < (b[0] as u32)
    } else {
        str_lt(a.drop_first(), b.drop_first())
    }
}

/// No string is below itself.
pub proof fn lemma_str_lt_irreflexive(a: Seq<char>)
    ensures
        !str_lt(a, a),
    decreases a.len(),
{
    if a.len() > 0 {
        lemma_str_lt_irreflexive(a.drop_first());
    }
}

/// The order is transitive.
pub proof fn lemma_str_lt_transitive(a: Seq<char>, b: Seq<char>, c: Seq<char>)
    requires
        str_lt(a, b),
        str_lt(b, c),
    ensures
        str_lt(a, c),
    decreases a.len(),
{
    if a.len() > 0 && b.len() > 0 && c.len() > 0 && a[0] == b[0] && b[0] == c[0] {
        lemma_str_lt_transitive(a.drop_first(), b.drop_first(), c.drop_first());
    }
}

/// Different characters have different codes.
proof fn lemma_char_code_injective(c: char, d: char)
    requires
        c != d,
    ensures
        (c as u32) != (d as u32),
{
    assert((c as int) != (d as int));
    assert((c as u32) as int == c as int);
    assert((d as u32) as int == d as int);
}

/// Two different strings are ordered one way or the other.
pub proof fn lemma_str_lt_total(a: Seq<char>, b: Seq<char>)
    ensures
        a == b || str_lt(a, b) || str_lt(b, a),
    decreases a.len(),
{
    if a.len() > 0 && b.len() > 0 {
        if a[0] == b[0] {
            lemma_str_lt_total(a.drop_first(), b.drop_first());
            if a.drop_first() == b.drop_first() {
                assert(a =~= seq![a[0]] + a.drop_first());
                assert(b =~= seq![b[0]] + b.drop_first());
            }
        } else {
            lemma_char_code_injective(a[0], b[0]);
        }
    } else if a.len() == 0 && b.len() == 0 {
        assert(a =~= b);
    }
}

/// `a < b` in the order of `String`.
pub fn str_less(a: &str, b: &str) -> (r: bool)
    ensures
        r == str_lt(a@, b@),
{
    let av = chars_of(a);
    let bv = chars_of(b);
    let mut i: usize = 0;
    assert(av@.skip(0) =~= av@);
    assert(bv@.skip(0) =~= bv@);
    while i < av.len() && i < bv.len() && av[i] == bv[i]
        invariant
            av@ == a@,
            bv@ == b@,
            0 <= i <= av.len(),
            i <= bv.len(),
            str_lt(a@, b@) == str_lt(av@.skip(i as int), bv@.skip(i as int)),
        decreases av.len() - i,
    {
        assert(av@.skip(i as int).drop_first() =~= av@.skip(i + 1));
        assert(bv@.skip(i as int).drop_first() =~= bv@.skip(i + 1));
        i = i + 1;
    }
    if i == bv.len() {
        false
    } else if i == av.len() {
        true
    } else {
        (av[i] as u32) < (bv[i] as u32)
    }
}

// ------------------------------------------------------------- pool map

/// The configured pools by name, kept in ascending order of name, each name
/// once.
#[derive(Debug, Clone)]
pub struct PoolMap {
    entries: Vec<(String, PoolConfig)>,
}

/// Names in strictly ascending order (hence each once).
pub open spec fn keys_ascending(k: Seq<Seq<char>>) -> bool {
    forall|i: int, j: int| 0 <= i < j < k.len() ==> str_lt(#[trigger] k[i], #[trigger] k[j])
}

/// `s` with the entry for `k` set to `v`: the existing entry keeps its place,
/// a new one goes where the ascending order puts it.
pub open spec fn entries_with(s: Seq<(Seq<char>, PoolConfigView)>, k: Seq<char>, v: PoolConfigView) -> Seq<
    (Seq<char>, PoolConfigView),
> {
    if exists|i: int| 0 <= i < s.len() && (#[trigger] s[i]).0 == k {
        let i = choose|i: int| 0 <= i < s.len() && (#[trigger] s[i]).0 == k;
        s.update(i, (k, v))
    } else {
        let p = s.filter(|e: (Seq<char>, PoolConfigView)| str_lt(e.0, k)).len();
        s.insert(p as int, (k, v))
    }
}

impl View for PoolMap {
    type V = Map<Seq<char>, PoolConfigView>;

    /// The pools by name.
    open spec fn view(&self) -> Map<Seq<char>, PoolConfigView> {
        Map::new(
            |k: Seq<char>| self.keys().contains(k),
            |k: Seq<char>| self.entries()[self.keys().index_of(k)].1,
        )
    }
}

impl PoolMap {
    /// The entries in order, as plain values.
    pub closed spec fn entries(&self) -> Seq<(Seq<char>, PoolConfigView)> {
        self.entries@.map_values(|e: (String, PoolConfig)| (e.0@, e.1@))
    }

    /// The names in order.
    pub open spec fn keys(&self) -> Seq<Seq<char>> {
        self.entries().map_values(|e: (Seq<char>, PoolConfigView)| e.0)
    }

    /// Names ascend strictly.
    pub open spec fn wf(&self) -> bool {
        keys_ascending(self.keys())
    }

    /// No pools.
    pub fn new() -> (m: PoolMap)
        ensures
            m.wf(),
            m.entries() == Seq::<(Seq<char>, PoolConfigView)>::empty(),
    {
        let m = PoolMap { entries: Vec::new() };
        assert(m.entries() =~= Seq::<(Seq<char>, PoolConfigView)>::empty());
        m
    }

    /// How many pools there are.
    pub fn len(&self) -> (n: usize)
        ensures
            n == self.entries().len(),
    {
        self.entries.len()
    }

    /// The name of the `i`-th pool in order.
    pub fn key_at(&self, i: usize) -> (k: &String)
        requires
            i < self.entries().len(),
        ensures
            k@ == self.entries()[i as int].0,
    {
        &self.entries[i].0
    }

    /// The `i`-th pool in order.
    pub fn pool_at(&self, i: usize) -> (p: &PoolConfig)
        requires
            i < self.entries().len(),
        ensures
            p@ == self.entries()[i as int].1,
    {
        &self.entries[i].1
    }

    /// Where the pool named `key` stands, if there is one.
    pub fn position(&self, key: &str) -> (r: Option<usize>)
        ensures
            match r {
                Some(i) => i < self.entries().len() && self.entries()[i as int].0 == key@,
                None => !self.keys().contains(key@),
            },
    {
        let want = chars_of(key);
        let mut i: usize = 0;
        while i < self.entries.len()
            invariant
                want@ == key@,
                0 <= i <= self.entries().len(),
                forall|j: int| 0 <= j < i ==> self.keys()[j] != key@,
            decreases self.entries().len() - i,
        {
            let k: &str = self.entries[i].0.as_str();
            let kv = chars_of(k);
            if kv.len() == want.len() && same_chars(&kv, &want) {
                assert(kv@ =~= want@);
                return Some(i);
            }
            i = i + 1;
        }
        None
    }

    /// Whether a pool is named `key`.
    pub fn contains_key(&self, key: &str) -> (b: bool)
        requires
            self.wf(),
        ensures
            b == self.view().dom().contains(key@),
    {
        let r = self.position(key);
        proof {
            if let Some(i) = r {
                assert(self.keys()[i as int] == key@);
            }
        }
        r.is_some()
    }

    /// The pool named `key`.
    pub fn get(&self, key: &str) -> (r: Option<&PoolConfig>)
        requires
            self.wf(),
        ensures
            match r {
                Some(p) => self.view().dom().contains(key@) && p@ == self.view()[key@],
                None => !self.view().dom().contains(key@),
            },
    {
        match self.position(key) {
            Some(i) => {
                proof {
                    self.lemma_index_of(i as int);
                }
                Some(&self.entries[i].1)
            },
            None => None,
        }
    }

    /// With ascending names, a name's place is where `index_of` finds it.
    pub proof fn lemma_index_of(&self, i: int)
        requires
            self.wf(),
            0 <= i < self.entries().len(),
        ensures
            self.keys().index_of(self.keys()[i]) == i,
            self.view().dom().contains(self.keys()[i]),
            self.view()[self.keys()[i]] == self.entries()[i].1,
    {
        let k = self.keys()[i];
        assert(self.keys().contains(k));
        let j = self.keys().index_of(k);
        if j != i {
            if j < i {
                assert(str_lt(self.keys()[j], self.keys()[i]));
            } else {
                assert(str_lt(self.keys()[i], self.keys()[j]));
            }
            lemma_str_lt_irreflexive(k);
        }
    }

    /// Replaces the pool at place `i`, keeping its name.
    pub fn set_pool_at(&mut self, i: usize, pool: PoolConfig)
        requires
            i < old(self).entries().len(),
        ensures
            final(self).entries() == old(self).entries().update(
                i as int,
                (old(self).entries()[i as int].0, pool@),
            ),
            final(self).keys() == old(self).keys(),
    {
        let key = self.entries[i].0.clone();
        self.entries.set(i, (key, pool));
        assert(self.entries() =~= old(self).entries().update(
            i as int,
            (old(self).entries()[i as int].0, pool@),
        ));
        assert(self.keys() =~= old(self).keys());
    }

    /// Sets the pool named `key` to `pool` (`BTreeMap::insert`).
    pub fn insert(&mut self, key: String, pool: PoolConfig)
        requires
            old(self).wf(),
        ensures
            final(self).wf(),
            final(self).entries() == entries_with(old(self).entries(), key@, pool@),
            final(self).view() == old(self).view().insert(key@, pool@),
    {
        let ghost s = self.entries();
        match self.position(key.as_str()) {
            Some(i) => {
                self.set_pool_at(i, pool);
                proof {
                    assert(s[i as int].0 == key@);
                    let c = choose|c: int| 0 <= c < s.len() && (#[trigger] s[c]).0 == key@;
                    if c != i {
                        assert(self.keys()[c] == key@);
                        assert(old(self).keys()[c] == key@ && old(self).keys()[i as int] == key@);
                        if c < i {
                            assert(str_lt(old(self).keys()[c], old(self).keys()[i as int]));
                        } else {
                            assert(str_lt(old(self).keys()[i as int], old(self).keys()[c]));
                        }
                        lemma_str_lt_irreflexive(key@);
                    }
                    assert(self.entries() == entries_with(s, key@, pool@));
                    self.lemma_view_after_update(old(self), i as int, key@, pool@);
                }
            },
            None => {
                let mut p: usize = 0;
                while p < self.entries.len() && str_less(self.entries[p].0.as_str(), key.as_str())
                    invariant
                        self.entries() == s,
                        self.wf(),
                        0 <= p <= s.len(),
                        forall|j: int| 0 <= j < p ==> str_lt(#[trigger] s[j].0, key@),
                    decreases s.len() - p,
                {
                    p = p + 1;
                }
                proof {
                    assert(!self.keys().contains(key@));
                    self.lemma_insert_place(p as int, key@);
                }
                let ghost e = (key@, pool@);
                self.entries.insert(p, (key, pool));
                proof {
                    assert(self.entries() =~= s.insert(p as int, e));
                    self.lemma_inserted_sorted(s, p as int, e.0, e.1);
                    assert(!(exists|i: int| 0 <= i < s.len() && (#[trigger] s[i]).0 == e.0)) by {
                        if exists|i: int| 0 <= i < s.len() && (#[trigger] s[i]).0 == e.0 {
                            let i = choose|i: int| 0 <= i < s.len() && (#[trigger] s[i]).0 == e.0;
                            assert(old(self).keys()[i] == e.0);
                        }
                    }
                }
            },
        }
    }

    /// Where a new name goes: before it every name is smaller, from it on
    /// every name is larger; and that place is the number of smaller names.
    proof fn lemma_insert_place(&self, p: int, k: Seq<char>)
        requires
            self.wf(),
            0 <= p <= self.entries().len(),
            !self.keys().contains(k),
            forall|j: int| 0 <= j < p ==> str_lt(#[trigger] self.entries()[j].0, k),
            p < self.entries().len() ==> !str_lt(self.entries()[p].0, k),
        ensures
            forall|j: int| p <= j < self.entries().len() ==> str_lt(k, #[trigger] self.entries()[j].0),
            self.entries().filter(|e: (Seq<char>, PoolConfigView)| str_lt(e.0, k)).len() == p,
    {
        let s = self.entries();
        assert forall|j: int| p <= j < s.len() implies str_lt(k, #[trigger] s[j].0) by {
            assert(self.keys()[p] == s[p].0);
            assert(self.keys()[j] == s[j].0);
            lemma_str_lt_total(s[p].0, k);
            if j > p {
                lemma_str_lt_transitive(k, s[p].0, s[j].0);
            }
        }
        let f = |e: (Seq<char>, PoolConfigView)| str_lt(e.0, k);
        assert(s =~= s.subrange(0, p) + s.subrange(p, s.len() as int));
        Seq::filter_distributes_over_add(s.subrange(0, p), s.subrange(p, s.len() as int), f);
        lemma_filter_all(s.subrange(0, p), f);
        assert forall|j: int| 0 <= j < s.len() - p implies !f(#[trigger] s.subrange(p, s.len() as int)[j]) by {
            assert(s.subrange(p, s.len() as int)[j] == s[p + j]);
            if str_lt(s[p + j].0, k) {
                lemma_str_lt_transitive(k, s[p + j].0, k);
                lemma_str_lt_irreflexive(k);
            }
        }
        lemma_filter_none(s.subrange(p, s.len() as int), f);
    }

    /// Inserting at the sorted place keeps names ascending.
    proof fn lemma_inserted_sorted(&self, s: Seq<(Seq<char>, PoolConfigView)>, p: int, k: Seq<char>, v: PoolConfigView)
        requires
            self.entries() == s.insert(p, (k, v)),
            0 <= p <= s.len(),
            keys_ascending(s.map_values(|e: (Seq<char>, PoolConfigView)| e.0)),
            forall|j: int| 0 <= j < p ==> str_lt(#[trigger] s[j].0, k),
            forall|j: int| p <= j < s.len() ==> str_lt(k, #[trigger] s[j].0),
        ensures
            self.wf(),
            self.view() == Map::new(
                |q: Seq<char>| s.map_values(|e: (Seq<char>, PoolConfigView)| e.0).contains(q),
                |q: Seq<char>| s[s.map_values(|e: (Seq<char>, PoolConfigView)| e.0).index_of(q)].1,
            ).insert(k, v),
    {
        let t = self.entries();
        let ks = s.map_values(|e: (Seq<char>, PoolConfigView)| e.0);
        assert forall|i: int, j: int| 0 <= i < j < t.len() implies str_lt(
            #[trigger] self.keys()[i],
            #[trigger] self.keys()[j],
        ) by {
            assert(self.keys()[i] == t[i].0);
            assert(self.keys()[j] == t[j].0);
            if i < p && j < p {
                assert(ks[i] == s[i].0 && ks[j] == s[j].0);
            } else if i < p && j == p {
            } else if i < p {
                assert(t[j] == s[j - 1]);
                lemma_str_lt_transitive(s[i].0, k, s[j - 1].0);
            } else if i == p {
                assert(t[j] == s[j - 1]);
            } else {
                assert(t[i] == s[i - 1] && t[j] == s[j - 1]);
                assert(ks[i - 1] == s[i - 1].0 && ks[j - 1] == s[j - 1].0);
            }
        }
        let old_map = Map::new(|q: Seq<char>| ks.contains(q), |q: Seq<char>| s[ks.index_of(q)].1);
        assert(self.view() =~= old_map.insert(k, v)) by {
            assert forall|q: Seq<char>| #[trigger] self.view().dom().contains(q) == old_map.insert(k, v).dom().contains(q) by {
                if self.keys().contains(q) {
                    let i = self.keys().index_of(q);
                    if i < p {
                        assert(ks[i] == q);
                    } else if i > p {
                        assert(ks[i - 1] == q);
                    }
                }
                if ks.contains(q) {
                    let i = ks.index_of(q);
                    if i < p {
                        assert(self.keys()[i] == q);
                    } else {
                        assert(self.keys()[i + 1] == q);
                    }
                }
                if q == k {
                    assert(self.keys()[p] == k);
                }
            }
            assert forall|q: Seq<char>| #[trigger] self.view().dom().contains(q) implies self.view()[q] == old_map.insert(k, v)[q] by {
                let i = self.keys().index_of(q);
                self.lemma_index_of(i);
                if q == k {
                    assert(self.keys()[p] == k);
                    self.lemma_index_of(p);
                } else {
                    assert(ks.contains(q));
                    let j = ks.index_of(q);
                    lemma_keys_index_unique(ks, j);
                    if j < p {
                        assert(self.keys()[j] == q);
                        self.lemma_index_of(j);
                    } else {
                        assert(self.keys()[j + 1] == q);
                        self.lemma_index_of(j + 1);
                    }
                }
            }
        }
    }

    /// Replacing the pool of an existing name changes only that name's pool.
    proof fn lemma_view_after_update(&self, before: &PoolMap, i: int, k: Seq<char>, v: PoolConfigView)
        requires
            before.wf(),
            0 <= i < before.entries().len(),
            before.entries()[i].0 == k,
            self.entries() == before.entries().update(i, (k, v)),
            self.keys() == before.keys(),
        ensures
            self.wf(),
            self.view() == before.view().insert(k, v),
    {
        assert(self.view() =~= before.view().insert(k, v)) by {
            assert(before.keys()[i] == k);
            before.lemma_index_of(i);
            assert forall|q: Seq<char>| #[trigger] self.view().dom().contains(q) implies self.view()[q] == before.view().insert(k, v)[q] by {
                let j = self.keys().index_of(q);
                self.lemma_index_of(j);
                before.lemma_index_of(j);
            }
        }
    }
}

// --------------------------------------------------------------- input

/// Thresholds and intervals of the input monitor and the pool maintainer.
#[derive(Debug, Clone, Copy)]
pub struct InputConfig {
    /// The mouse counts as recently used if it moved within this many ms.
    pub mouse_recent_ms: u64,
    /// A non-modifier key within this many ms suppresses mouse mode.
    pub key_suppress_ms: u64,
    /// Input sampling and status write interval (ms).
    pub input_poll_ms: u64,
    /// Pool top-up interval (ms).
    pub ensure_interval_ms: u64,
    /// Pointer motion below or at this many pixels is ignored.
    pub motion_eps: i16,
}

/// The built-in input settings.
pub open spec fn default_input() -> InputConfig {
    InputConfig {
        mouse_recent_ms: 500,
        key_suppress_ms: 400,
        input_poll_ms: 50,
        ensure_interval_ms: 800,
        motion_eps: 1,
    }
}

impl Default for InputConfig {
    fn default() -> (c: InputConfig)
        ensures
            c == default_input(),
    {
        InputConfig {
            mouse_recent_ms: 500,
            key_suppress_ms: 400,
            input_poll_ms: 50,
            ensure_interval_ms: 800,
            motion_eps: 1,
        }
    }
}

// -------------------------------------------------------------- config

/// The whole configuration.
#[derive(Debug, Clone)]
pub struct Config {
    pub pools: PoolMap,
    pub input: InputConfig,
}

impl Default for Config {
    fn default() -> (c: Config)
        ensures
            c.pools.wf(),
            c.pools.entries() == Seq::<(Seq<char>, PoolConfigView)>::empty(),
            c.input == default_input(),
    {
        Config { pools: PoolMap::new(), input: InputConfig::default() }
    }
}

/// The anti-flicker strategy used when the configuration names none.
pub fn default_antiflicker() -> (s: String)
    ensures
        s@ == "all"@,
{
    owned("all")
}

/// The shape of the built-in pools: no fixed desktop, tmux reset with
/// `C-c reset Enter`, no commands after spawning, every anti-flicker measure.
pub open spec fn builtin_pool(name: Seq<char>, class: Seq<char>, min: nat, spawn_cmd: Seq<char>) -> PoolConfigView {
    PoolConfigView {
        name,
        class,
        min,
        spawn_cmd,
        pool_desktop: None,
        reset_via_tmux: true,
        reset_keys: Some("C-c reset Enter"@),
        on_spawn: Seq::empty(),
        antiflicker_strategy: "all"@,
    }
}

/// A pool of the built-in shape.
pub fn make_builtin_pool(name: &str, class: &str, min: usize, spawn_cmd: &str) -> (p: PoolConfig)
    ensures
        p@ == builtin_pool(name@, class@, min as nat, spawn_cmd@),
{
    let p = PoolConfig {
        name: owned(name),
        class: owned(class),
        min,
        spawn_cmd: owned(spawn_cmd),
        pool_desktop: None,
        reset_via_tmux: true,
        reset_keys: Some(owned("C-c reset Enter")),
        on_spawn: Vec::new(),
        antiflicker_strategy: owned("all"),
    };
    assert(p@.on_spawn =~= Seq::<Seq<char>>::empty());
    p
}

/// The built-in pools, in name order: a one-window `scratch` pool and a
/// three-window `shell` pool, both running `terminal`.
pub open spec fn builtin_entries(terminal: Seq<char>) -> Seq<(Seq<char>, PoolConfigView)> {
    seq![
        ("scratch"@, builtin_pool("scratch"@, "0fbuf-scratch"@, 1, terminal)),
        ("shell"@, builtin_pool("shell"@, "0fbuf-shell"@, 3, terminal)),
    ]
}

/// The configuration used when no file is read, with the spawn command of
/// the terminal that was detected.
pub fn default_single_config(detected_terminal: &str) -> (c: Config)
    ensures
        c.pools.wf(),
        c.pools.entries() == builtin_entries(detected_terminal@),
        c.input == default_input(),
{
    let mut pools = PoolMap::new();
    let shell = make_builtin_pool("shell", "0fbuf-shell", 3, detected_terminal);
    let ghost shell_view = shell@;
    pools.insert(owned("shell"), shell);
    let ghost first = pools.entries();
    proof {
        let empty = Seq::<(Seq<char>, PoolConfigView)>::empty();
        assert(empty.filter(|e: (Seq<char>, PoolConfigView)| str_lt(e.0, "shell"@)).len() == 0) by {
            reveal(Seq::filter);
        }
        assert(first =~= seq![("shell"@, shell_view)]);
    }
    pools.insert(
        owned("scratch"),
        make_builtin_pool("scratch", "0fbuf-scratch", 1, detected_terminal),
    );
    proof {
        reveal_strlit("scratch");
        reveal_strlit("shell");
        reveal_with_fuel(str_lt, 3);
        assert(str_lt("scratch"@, "shell"@));
        lemma_str_lt_irreflexive("scratch"@);
        if str_lt("shell"@, "scratch"@) {
            lemma_str_lt_transitive("scratch"@, "shell"@, "scratch"@);
        }
        assert(first[0].0 != "scratch"@);
        let f = |e: (Seq<char>, PoolConfigView)| str_lt(e.0, "scratch"@);
        assert(first.filter(f).len() == 0) by {
            reveal(Seq::filter);
            assert(first.drop_last() =~= Seq::<(Seq<char>, PoolConfigView)>::empty());
            assert(first.drop_last().filter(f) =~= Seq::<(Seq<char>, PoolConfigView)>::empty());
        }
        assert(pools.entries() =~= builtin_entries(detected_terminal@));
    }
    Config { pools, input: InputConfig::default() }
}

/// A new pool named `name`, made from the first built-in pool (the order of
/// names puts `scratch` first).
pub fn seed_pool(name: &str, detected_terminal: &str) -> (p: PoolConfig)
    ensures
        p@ == (PoolConfigView { name: name@, ..builtin_entries(detected_terminal@)[0].1 }),
{
    make_builtin_pool(name, "0fbuf-scratch", 1, detected_terminal)
}

// ------------------------------------------------------------ terminals

/// The terminals that are looked for, in order of preference, each with the
/// spawn command used for it.
pub open spec fn terminal_table() -> Seq<(Seq<char>, Seq<char>)> {
    seq![
        ("kitty"@, "kitty --class {class} --title {class} tmux new -A -s {session}"@),
        ("alacritty"@, "alacritty --class {class} -t {class} -e tmux new -A -s {session}"@),
        ("wezterm"@, "wezterm start --class {class} -- tmux new -A -s {session}"@),
        ("foot"@, "foot --app-id={class} --title={class} tmux new -A -s {session}"@),
        ("st"@, "st -c {class} -t {class} -e tmux new -A -s {session}"@),
        ("termite"@, "termite --class={class} --title={class} -e 'tmux new -A -s {session}'"@),
        ("urxvt"@, "urxvt -name {class} -title {class} -e tmux new -A -s {session}"@),
        ("gnome-terminal"@, "gnome-terminal --class={class} --title={class} -- tmux new -A -s {session}"@),
        ("konsole"@, "konsole --new-tab -p tabtitle={class} -e tmux new -A -s {session}"@),
        ("xfce4-terminal"@, "xfce4-terminal --class {class} --title {class} --disable-server --hide-menubar -e 'tmux new -A -s {session}'"@),
        ("tilix"@, "tilix --class={class} --title={class} -e 'tmux new -A -s {session}'"@),
        ("terminology"@, "terminology --class={class} --title={class} -e 'tmux new -A -s {session}'"@),
        ("xterm"@, "xterm -class {class} -T {class} -e tmux new -A -s {session}"@),
    ]
}

/// The spawn command used when no known terminal is installed.
pub open spec fn fallback_terminal() -> Seq<char> {
    "xterm -class {class} -T {class} -e tmux new -A -s {session}"@
}

/// The terminals to look for, in order: program name and spawn command.
pub fn terminal_candidates() -> (v: Vec<(String, String)>)
    ensures
        v@.map_values(|e: (String, String)| (e.0@, e.1@)) == terminal_table(),
{
    let mut v: Vec<(String, String)> = Vec::new();
    v.push((owned("kitty"), owned("kitty --class {class} --title {class} tmux new -A -s {session}")));
    v.push((owned("alacritty"), owned("alacritty --class {class} -t {class} -e tmux new -A -s {session}")));
    v.push((owned("wezterm"), owned("wezterm start --class {class} -- tmux new -A -s {session}")));
    v.push((owned("foot"), owned("foot --app-id={class} --title={class} tmux new -A -s {session}")));
    v.push((owned("st"), owned("st -c {class} -t {class} -e tmux new -A -s {session}")));
    v.push((owned("termite"), owned("termite --class={class} --title={class} -e 'tmux new -A -s {session}'")));
    v.push((owned("urxvt"), owned("urxvt -name {class} -title {class} -e tmux new -A -s {session}")));
    v.push((owned("gnome-terminal"), owned("gnome-terminal --class={class} --title={class} -- tmux new -A -s {session}")));
    v.push((owned("konsole"), owned("konsole --new-tab -p tabtitle={class} -e tmux new -A -s {session}")));
    v.push((owned("xfce4-terminal"), owned("xfce4-terminal --class {class} --title {class} --disable-server --hide-menubar -e 'tmux new -A -s {session}'")));
    v.push((owned("tilix"), owned("tilix --class={class} --title={class} -e 'tmux new -A -s {session}'")));
    v.push((owned("terminology"), owned("terminology --class={class} --title={class} -e 'tmux new -A -s {session}'")));
    v.push((owned("xterm"), owned("xterm -class {class} -T {class} -e tmux new -A -s {session}")));
    assert(v@.map_values(|e: (String, String)| (e.0@, e.1@)) =~= terminal_table());
    v
}

/// The spawn command of the first terminal from place `i` on that was found
/// installed (`found[j]` tells of the `j`-th terminal; a terminal beyond the
/// end of `found` was not found), or the fallback.
pub open spec fn first_found_terminal(found: Seq<bool>, i: nat) -> Seq<char>
    decreases terminal_table().len() - i,
{
    if i >= terminal_table().len() {
        fallback_terminal()
    } else if i < found.len() && found[i as int] {
        terminal_table()[i as int].1
    } else {
        first_found_terminal(found, i + 1)
    }
}

/// The spawn command of the preferred terminal among those found installed.
pub fn pick_terminal(found: &Vec<bool>) -> (t: String)
    ensures
        t@ == first_found_terminal(found@, 0),
{
    let table = terminal_candidates();
    let ghost tv = table@.map_values(|e: (String, String)| (e.0@, e.1@));
    let mut i: usize = 0;
    while i < table.len()
        invariant
            tv == terminal_table(),
            table@.len() == tv.len(),
            tv == table@.map_values(|e: (String, String)| (e.0@, e.1@)),
            0 <= i <= table@.len(),
            first_found_terminal(found@, 0) == first_found_terminal(found@, i as nat),
        decreases table@.len() - i,
    {
        if i < found.len() && found[i] {
            assert(tv[i as int] == (table@[i as int].0@, table@[i as int].1@));
            return table[i].1.clone();
        }
        i = i + 1;
    }
    owned("xterm -class {class} -T {class} -e tmux new -A -s {session}")
}

// ---------------------------------------------------------- config path

/// The configuration files looked for under the home directory, in order of
/// preference: TOML before JSON, `pools` before `config`.
pub open spec fn config_candidate_names() -> Seq<Seq<char>> {
    seq![
        ".config/0fbuf/pools.toml"@,
        ".config/0fbuf/config.toml"@,
        ".config/0fbuf/pools.json"@,
        ".config/0fbuf/config.json"@,
    ]
}

/// The configuration files looked for under `home`, in order.
pub fn config_candidates(home: &str) -> (v: Vec<String>)
    ensures
        v@.len() == 4,
        forall|i: int| 0 <= i < 4 ==> (#[trigger] v@[i])@ == path_join(home@, config_candidate_names()[i]),
{
    let mut v: Vec<String> = Vec::new();
    v.push(join_path(home, ".config/0fbuf/pools.toml"));
    v.push(join_path(home, ".config/0fbuf/config.toml"));
    v.push(join_path(home, ".config/0fbuf/pools.json"));
    v.push(join_path(home, ".config/0fbuf/config.json"));
    v
}

/// `~/` at the start of `p` replaced by the home directory, when known.
pub open spec fn tilde_expanded(p: Seq<char>, home: Option<Seq<char>>) -> Seq<char> {
    if p.len() >= 2 && p[0] == '~' && p[1] == '/' && home is Some {
        home->0 + p.subrange(1, p.len() as int)
    } else {
        p
    }
}

/// Replaces a leading `~/` by the home directory.
pub fn expand_tilde(p: &str, home: Option<&str>) -> (r: String)
    ensures
        r@ == tilde_expanded(p@, match home { Some(h) => Some(h@), None => None }),
{
    let pv = chars_of(p);
    match home {
        Some(h) => {
            if pv.len() >= 2 && pv[0] == '~' && pv[1] == '/' {
                let mut r = owned(h);
                let mut i: usize = 1;
                while i < pv.len()
                    invariant
                        1 <= i <= pv@.len(),
                        r@ == h@ + pv@.subrange(1, i as int),
                    decreases pv@.len() - i,
                {
                    crate::text::push_char(&mut r, pv[i]);
                    assert(pv@.subrange(1, i + 1) =~= pv@.subrange(1, i as int).push(pv@[i as int]));
                    i = i + 1;
                }
                return r;
            }
            owned(p)
        },
        None => owned(p),
    }
}

/// The path the configuration is read from: the one given, else
/// `$OFB_CONFIG`, else the first of the candidate files under the home
/// directory that exists (`existing[i]` tells of the `i`-th), else
/// `pools.toml` there; a leading `~/` is expanded. Without a home directory
/// and without a given path it is `pools.toml`.
pub open spec fn config_path_choice(
    explicit: Option<Seq<char>>,
    env_config: Option<Seq<char>>,
    home: Option<Seq<char>>,
    existing: Seq<bool>,
) -> Seq<char> {
    let exists_at = |i: int| i < existing.len() && existing[i];
    let chosen: Option<Seq<char>> = if explicit is Some {
        explicit
    } else if env_config is Some {
        env_config
    } else if home is Some {
        let h = home->0;
        if exists_at(0) {
            Some(path_join(h, config_candidate_names()[0]))
        } else if exists_at(1) {
            Some(path_join(h, config_candidate_names()[1]))
        } else if exists_at(2) {
            Some(path_join(h, config_candidate_names()[2]))
        } else if exists_at(3) {
            Some(path_join(h, config_candidate_names()[3]))
        } else {
            Some(path_join(h, config_candidate_names()[0]))
        }
    } else {
        None
    };
    match chosen {
        Some(p) => tilde_expanded(p, home),
        None => "pools.toml"@,
    }
}

/// The candidate configuration file `i` under the home directory, by name.
pub open spec fn candidate_name(i: int) -> Seq<char> {
    if i == 0 {
        ".config/0fbuf/pools.toml"@
    } else if i == 1 {
        ".config/0fbuf/config.toml"@
    } else if i == 2 {
        ".config/0fbuf/pools.json"@
    } else {
        ".config/0fbuf/config.json"@
    }
}

/// Where the configuration is read from: a given path wins, then
/// `$OFB_CONFIG` (each with `~/` expanded); otherwise, with a home
/// directory, the first of `pools.toml`, `config.toml`, `pools.json`,
/// `config.json` under `~/.config/0fbuf` that exists, and `pools.toml` there
/// when none does; without a home directory, `pools.toml`.
pub proof fn law_config_path_first_existing(
    explicit: Option<Seq<char>>,
    env_config: Option<Seq<char>>,
    home: Option<Seq<char>>,
    existing: Seq<bool>,
)
    ensures
        explicit matches Some(e) ==> config_path_choice(explicit, env_config, home, existing) == tilde_expanded(
            e,
            home,
        ),
        explicit is None && env_config is Some ==> config_path_choice(explicit, env_config, home, existing)
            == tilde_expanded(env_config->0, home),
        forall|i: int|
            #![trigger existing[i]]
            0 <= i < 4 && i < existing.len() && existing[i] && (forall|j: int| 0 <= j < i ==> !existing[j])
                && explicit is None && env_config is None && home is Some ==> config_path_choice(
                explicit,
                env_config,
                home,
                existing,
            ) == tilde_expanded(path_join(home->0, candidate_name(i)), home),
        (forall|j: int| 0 <= j < 4 && j < existing.len() ==> !existing[j]) && explicit is None && env_config is None
            && home is Some ==> config_path_choice(explicit, env_config, home, existing) == tilde_expanded(
            path_join(home->0, candidate_name(0)),
            home,
        ),
        explicit is None && env_config is None && home is None ==> config_path_choice(
            explicit,
            env_config,
            home,
            existing,
        ) == "pools.toml"@,
{
    assert forall|i: int|
        #![trigger existing[i]]
        0 <= i < 4 && i < existing.len() && existing[i] && (forall|j: int| 0 <= j < i ==> !existing[j])
            && explicit is None && env_config is None && home is Some implies config_path_choice(
            explicit,
            env_config,
            home,
            existing,
        ) == tilde_expanded(path_join(home->0, candidate_name(i)), home) by {
        if i >= 1 {
            assert(!existing[0]);
        }
        if i >= 2 {
            assert(!existing[1]);
        }
        if i >= 3 {
            assert(!existing[2]);
        }
    }
    if (forall|j: int| 0 <= j < 4 && j < existing.len() ==> !existing[j]) {
        if existing.len() > 0 {
            assert(!existing[0]);
        }
        if existing.len() > 1 {
            assert(!existing[1]);
        }
        if existing.len() > 2 {
            assert(!existing[2]);
        }
        if existing.len() > 3 {
            assert(!existing[3]);
        }
    }
}

/// Whether `flags` holds `true` at `i`.
fn flag_at(flags: &Vec<bool>, i: usize) -> (b: bool)
    ensures
        b == (i < flags@.len() && flags@[i as int]),
{
    i < flags.len() && flags[i]
}

/// Where the configuration file is: see [`config_path_choice`].
pub fn get_config_path(
    explicit: Option<&str>,
    env_config: Option<&str>,
    home: Option<&str>,
    existing: &Vec<bool>,
) -> (p: String)
    ensures
        p@ == config_path_choice(
            match explicit { Some(e) => Some(e@), None => None },
            match env_config { Some(e) => Some(e@), None => None },
            match home { Some(h) => Some(h@), None => None },
            existing@,
        ),
{
    let chosen: Option<String> = match explicit {
        Some(e) => Some(owned(e)),
        None => match env_config {
            Some(e) => Some(owned(e)),
            None => match home {
                Some(h) => {
                    let c = config_candidates(h);
                    let pick: usize = if flag_at(existing, 0) {
                        0
                    } else if flag_at(existing, 1) {
                        1
                    } else if flag_at(existing, 2) {
                        2
                    } else if flag_at(existing, 3) {
                        3
                    } else {
                        0
                    };
                    Some(c[pick].clone())
                },
                None => None,
            },
        },
    };
    match chosen {
        Some(p) => expand_tilde(p.as_str(), home),
        None => owned("pools.toml"),
    }
}

/// A copy of a list of strings.
pub fn clone_strings(v: &Vec<String>) -> (r: Vec<String>)
    ensures
        r@ == v@,
{
    let mut r: Vec<String> = Vec::new();
    let mut i: usize = 0;
    while i < v.len()
        invariant
            0 <= i <= v@.len(),
            r@ == v@.take(i as int),
        decreases v@.len() - i,
    {
        r.push(v[i].clone());
        assert(v@.take(i + 1) =~= v@.take(i as int).push(v@[i as int]));
        i = i + 1;
    }
    assert(v@.take(i as int) =~= v@);
    r
}

impl PoolConfig {
    /// A copy of the pool's configuration.
    pub fn duplicate(&self) -> (r: PoolConfig)
        ensures
            r@ == self@,
    {
        PoolConfig {
            name: self.name.clone(),
            class: self.class.clone(),
            min: self.min,
            spawn_cmd: self.spawn_cmd.clone(),
            pool_desktop: self.pool_desktop,
            reset_via_tmux: self.reset_via_tmux,
            reset_keys: match &self.reset_keys {
                Some(k) => Some(k.clone()),
                None => None,
            },
            on_spawn: clone_strings(&self.on_spawn),
            antiflicker_strategy: self.antiflicker_strategy.clone(),
        }
    }
}

/// `p` with the anti-flicker strategy `s`.
pub open spec fn with_strategy(p: PoolConfigView, s: Seq<char>) -> PoolConfigView {
    PoolConfigView { antiflicker_strategy: s, ..p }
}

impl PoolMap {
    /// Two maps with the same names in the same places, whose pools are
    /// related place by place, have views related name by name.
    pub proof fn lemma_views_follow_entries(&self, other: &PoolMap)
        requires
            self.wf(),
            other.keys() == self.keys(),
        ensures
            other.wf(),
            other.view().dom() == self.view().dom(),
            forall|k: Seq<char>| #[trigger] other.view().dom().contains(k) ==> exists|i: int|
                0 <= i < self.entries().len() && self.entries()[i].0 == k && self.view()[k]
                    == self.entries()[i].1 && other.view()[k] == other.entries()[i].1,
    {
        assert(other.view().dom() =~= self.view().dom());
        assert forall|k: Seq<char>| #[trigger] other.view().dom().contains(k) implies exists|i: int|
            0 <= i < self.entries().len() && self.entries()[i].0 == k && self.view()[k]
                == self.entries()[i].1 && other.view()[k] == other.entries()[i].1 by {
            let i = self.keys().index_of(k);
            self.lemma_index_of(i);
            other.lemma_index_of(i);
        }
    }

    /// Sets the anti-flicker strategy of every pool.
    pub fn set_all_strategies(&mut self, strategy: &str)
        requires
            old(self).wf(),
        ensures
            final(self).wf(),
            final(self).keys() == old(self).keys(),
            final(self).view().dom() == old(self).view().dom(),
            forall|k: Seq<char>| #[trigger] final(self).view().dom().contains(k) ==> final(self).view()[k]
                == with_strategy(old(self).view()[k], strategy@),
    {
        let n = self.len();
        let mut i: usize = 0;
        while i < n
            invariant
                n == old(self).entries().len(),
                0 <= i <= n,
                self.entries().len() == n,
                self.keys() == old(self).keys(),
                forall|j: int| 0 <= j < i ==> (#[trigger] self.entries()[j]).1 == with_strategy(old(self).entries()[j].1, strategy@),
                forall|j: int| i <= j < n ==> (#[trigger] self.entries()[j]) == old(self).entries()[j],
            decreases n - i,
        {
            let mut p = self.pool_at(i).duplicate();
            p.antiflicker_strategy = owned(strategy);
            self.set_pool_at(i, p);
            i = i + 1;
        }
        proof {
            old(self).lemma_views_follow_entries(self);
        }
    }
}

/// In ascending names, `index_of` finds a name where it stands.
proof fn lemma_keys_index_unique(ks: Seq<Seq<char>>, j: int)
    requires
        keys_ascending(ks),
        0 <= j < ks.len(),
    ensures
        ks.index_of(ks[j]) == j,
{
    let q = ks[j];
    assert(ks.contains(q));
    let i = ks.index_of(q);
    if i != j {
        if i < j {
            assert(str_lt(ks[i], ks[j]));
        } else {
            assert(str_lt(ks[j], ks[i]));
        }
        lemma_str_lt_irreflexive(q);
    }
}

proof fn lemma_filter_all<A>(s: Seq<A>, f: spec_fn(A) -> bool)
    requires
        forall|j: int| 0 <= j < s.len() ==> f(#[trigger] s[j]),
    ensures
        s.filter(f).len() == s.len(),
    decreases s.len(),
{
    reveal(Seq::filter);
    if s.len() > 0 {
        lemma_filter_all(s.drop_last(), f);
    }
}

proof fn lemma_filter_none<A>(s: Seq<A>, f: spec_fn(A) -> bool)
    requires
        forall|j: int| 0 <= j < s.len() ==> !f(#[trigger] s[j]),
    ensures
        s.filter(f).len() == 0,
    decreases s.len(),
{
    reveal(Seq::filter);
    if s.len() > 0 {
        lemma_filter_none(s.drop_last(), f);
    }
}

/// Whether two equally long character vectors are equal.
fn same_chars(a: &Vec<char>, b: &Vec<char>) -> (r: bool)
    requires
        a.len() == b.len(),
    ensures
        r == (a@ == b@),
{
    let mut i: usize = 0;
    while i < a.len()
        invariant
            a.len() == b.len(),
            0 <= i <= a.len(),
            forall|j: int| 0 <= j < i ==> a@[j] == b@[j],
        decreases a.len() - i,
    {
        if a[i] != b[i] {
            return false;
        }
        i = i + 1;
    }
    assert(a@ =~= b@);
    true
}

} // verus!
