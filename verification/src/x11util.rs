//! What the tool computes from X11 replies: which windows belong to a pool's
//! class, the modifier key groups, and where a window is placed.
use vstd::prelude::*;
use crate::text::{chars_of, eq_ignore_ascii_case, slice_eq_ignore_ascii_case};

verus! {

/// A client window as the tool sees it.
#[derive(Debug, Clone)]
pub struct WinInfo {
    pub xid: u32,
    /// `_NET_WM_PID`, when set.
    pub pid: Option<u32>,
    /// `_NET_WM_DESKTOP`, when set.
    pub desktop: Option<u32>,
    /// The raw `WM_CLASS` text, when set.
    pub class: Option<String>,
}

impl Default for WinInfo {
    fn default() -> (w: WinInfo)
        ensures
            w.xid == 0,
            w.pid is None,
            w.desktop is None,
            w.class is None,
    {
        WinInfo { xid: 0, pid: None, desktop: None, class: None }
    }
}

/// A copy of `w`.
pub fn copy_win(w: &WinInfo) -> (r: WinInfo)
    ensures
        r == *w,
{
    WinInfo {
        xid: w.xid,
        pid: w.pid,
        desktop: w.desktop,
        class: match &w.class {
            Some(c) => Some(c.clone()),
            None => None,
        },
    }
}

// ------------------------------------------------------------- WM_CLASS

/// `raw[a..b]` is one of the parts of `raw` between NUL characters, and is
/// not empty.
pub open spec fn is_nul_part(raw: Seq<char>, a: int, b: int) -> bool {
    &&& 0 <= a < b <= raw.len()
    &&& (a == 0 || raw[a - 1] == '\0')
    &&& (b == raw.len() || raw[b] == '\0')
    &&& forall|k: int| a <= k < b ==> raw[k] != '\0'
}

/// `WM_CLASS` text names `class_key`: one of its non-empty NUL-separated
/// parts equals the key, ignoring ASCII case.
pub open spec fn class_names(raw: Seq<char>, class_key: Seq<char>) -> bool {
    exists|a: int, b: int|
        is_nul_part(raw, a, b) && eq_ignore_ascii_case(#[trigger] raw.subrange(a, b), class_key)
}

/// Whether the `WM_CLASS` text `raw` names `class_key`.
pub fn class_matches(raw: &str, class_key: &str) -> (b: bool)
    ensures
        b == class_names(raw@, class_key@),
{
    let rv = chars_of(raw);
    let kv = chars_of(class_key);
    let n = rv.len();
    let mut start: usize = 0;
    let mut i: usize = 0;
    while i < n
        invariant
            rv@ == raw@,
            kv@ == class_key@,
            n == rv@.len(),
            0 <= start <= i <= n,
            start == 0 || rv@[start - 1] == '\0',
            forall|k: int| start <= k < i ==> rv@[k] != '\0',
            forall|a: int, b: int|
                is_nul_part(rv@, a, b) && b < i ==> !eq_ignore_ascii_case(
                    #[trigger] rv@.subrange(a, b),
                    kv@,
                ),
        decreases n - i,
    {
        if rv[i] == '\0' {
            if i > start && slice_eq_ignore_ascii_case(&rv, start, i, &kv) {
                assert(is_nul_part(rv@, start as int, i as int));
                return true;
            }
            proof {
                lemma_part_starts_at(rv@, start as int, i as int);
            }
            start = i + 1;
        }
        i = i + 1;
    }
    if n > start && slice_eq_ignore_ascii_case(&rv, start, n, &kv) {
        assert(is_nul_part(rv@, start as int, n as int));
        return true;
    }
    proof {
        lemma_part_starts_at(rv@, start as int, n as int);
        assert forall|a: int, b: int| is_nul_part(rv@, a, b) implies !eq_ignore_ascii_case(
            #[trigger] rv@.subrange(a, b),
            kv@,
        ) by {
            if b == n {
                assert(a == start);
            }
        }
    }
    false
}

/// A part that ends at `b` starts at `start` when `start` follows a NUL (or
/// is 0) and no NUL lies in `start..b`.
proof fn lemma_part_starts_at(raw: Seq<char>, start: int, b: int)
    requires
        0 <= start <= b <= raw.len(),
        start == 0 || raw[start - 1] == '\0',
        forall|k: int| start <= k < b ==> raw[k] != '\0',
    ensures
        forall|a: int| #[trigger] is_nul_part(raw, a, b) ==> a == start,
{
    assert forall|a: int| #[trigger] is_nul_part(raw, a, b) implies a == start by {
        if a < start {
            assert(raw[start - 1] == '\0');
        } else if a > start {
            assert(raw[a - 1] != '\0');
        }
    }
}

/// The window carries a `WM_CLASS` that names `class_key`.
pub open spec fn has_class(w: WinInfo, class_key: Seq<char>) -> bool {
    w.class is Some && class_names(w.class->0@, class_key)
}

/// The windows among `candidates`, in their order, whose `WM_CLASS` names
/// `class_key`.
pub fn filter_class_windows(candidates: &Vec<WinInfo>, class_key: &str) -> (r: Vec<WinInfo>)
    ensures
        r@ == candidates@.filter(|w: WinInfo| has_class(w, class_key@)),
{
    let ghost f = |w: WinInfo| has_class(w, class_key@);
    let mut out: Vec<WinInfo> = Vec::new();
    let mut i: usize = 0;
    while i < candidates.len()
        invariant
            0 <= i <= candidates@.len(),
            f == (|w: WinInfo| has_class(w, class_key@)),
            out@ == candidates@.take(i as int).filter(f),
        decreases candidates@.len() - i,
    {
        let w = &candidates[i];
        let keep = match &w.class {
            Some(c) => class_matches(c.as_str(), class_key),
            None => false,
        };
        if keep {
            out.push(copy_win(w));
        }
        proof {
            reveal(Seq::filter);
            assert(candidates@.take(i + 1).drop_last() =~= candidates@.take(i as int));
        }
        i = i + 1;
    }
    assert(candidates@.take(i as int) =~= candidates@);
    out
}

// ----------------------------------------------------------- modifiers

/// The non-zero keycodes of the `g`-th modifier group: the `g`-th chunk of
/// `per` entries of the modifier mapping.
pub open spec fn modifier_chunk(keycodes: Seq<u8>, per: nat, g: nat) -> Set<u8> {
    Set::new(
        |k: u8|
            k != 0 && exists|j: int|
                g * per <= j < (g + 1) * per && j < keycodes.len() && #[trigger] keycodes[j] == k,
    )
}

/// Whether `v` holds `x`.
pub fn bytes_contain(v: &Vec<u8>, x: u8) -> (b: bool)
    ensures
        b == v@.contains(x),
{
    let mut i: usize = 0;
    while i < v.len()
        invariant
            0 <= i <= v@.len(),
            forall|k: int| 0 <= k < i ==> v@[k] != x,
        decreases v@.len() - i,
    {
        if v[i] == x {
            assert(v@[i as int] == x);
            return true;
        }
        i = i + 1;
    }
    false
}

/// The eight modifier groups (Shift, Lock, Control, Mod1..Mod5) from a
/// modifier mapping with `per_modifier` keycodes per modifier; each group
/// holds its non-zero keycodes once.
pub fn modifier_groups(keycodes: &Vec<u8>, per_modifier: u8) -> (groups: Vec<Vec<u8>>)
    requires
        per_modifier > 0,
    ensures
        groups@.len() == 8,
        forall|g: int|
            0 <= g < 8 ==> (#[trigger] groups@[g])@.to_set() == modifier_chunk(
                keycodes@,
                per_modifier as nat,
                g as nat,
            ) && groups@[g]@.no_duplicates(),
{
    let per = per_modifier as usize;
    let mut groups: Vec<Vec<u8>> = Vec::new();
    let mut g: usize = 0;
    while g < 8
        invariant
            per == per_modifier as nat,
            per > 0,
            0 <= g <= 8,
            groups@.len() == g,
            forall|h: int|
                0 <= h < g ==> (#[trigger] groups@[h])@.to_set() == modifier_chunk(
                    keycodes@,
                    per as nat,
                    h as nat,
                ) && groups@[h]@.no_duplicates(),
        decreases 8 - g,
    {
        assert(g * per <= 8 * 255) by (nonlinear_arith)
            requires
                g < 8,
                per <= 255,
        ;
        let start = g * per;
        let mut set: Vec<u8> = Vec::new();
        let stop = start + per;
        let mut j = start;
        while j < stop && j < keycodes.len()
            invariant
                per == per_modifier as nat,
                0 <= g < 8,
                start == g * per,
                stop == start + per,
                start <= j <= start + per,
                set@.no_duplicates(),
                set@.to_set() == Set::new(
                    |k: u8|
                        k != 0 && exists|m: int|
                            start <= m < j && m < keycodes@.len() && #[trigger] keycodes@[m] == k,
                ),
            decreases stop - j,
        {
            let kc = keycodes[j];
            let ghost before = set@;
            if kc != 0 && !bytes_contain(&set, kc) {
                set.push(kc);
            }
            proof {
                assert(set@.to_set() =~= Set::new(
                    |k: u8|
                        k != 0 && exists|m: int|
                            start <= m < j + 1 && m < keycodes@.len() && #[trigger] keycodes@[m] == k,
                )) by {
                    assert forall|k: u8| #[trigger] set@.to_set().contains(k) implies (k != 0 && exists|m: int|
                            start <= m < j + 1 && m < keycodes@.len() && #[trigger] keycodes@[m] == k) by {
                        if before.to_set().contains(k) {
                        } else {
                            assert(keycodes@[j as int] == k);
                        }
                    }
                    assert forall|k: u8| (k != 0 && exists|m: int|
                            start <= m < j + 1 && m < keycodes@.len() && #[trigger] keycodes@[m] == k) implies #[trigger] set@.to_set().contains(k) by {
                        let m = choose|m: int| start <= m < j + 1 && m < keycodes@.len() && #[trigger] keycodes@[m] == k;
                        if m < j {
                            assert(before.to_set().contains(k));
                            assert(before.contains(k));
                            let w = choose|w: int| 0 <= w < before.len() && before[w] == k;
                            assert(set@[w] == k);
                        } else {
                            if before.contains(k) {
                                let w = choose|w: int| 0 <= w < before.len() && before[w] == k;
                                assert(set@[w] == k);
                            } else {
                                assert(set@[set@.len() - 1] == k);
                            }
                        }
                    }
                }
            }
            j = j + 1;
        }
        proof {
            assert(set@.to_set() =~= modifier_chunk(keycodes@, per as nat, g as nat)) by {
                assert forall|k: u8| #[trigger] modifier_chunk(keycodes@, per as nat, g as nat).contains(k) implies set@.to_set().contains(k) by {
                    let m = choose|m: int| g * per <= m < (g + 1) * per && m < keycodes@.len() && #[trigger] keycodes@[m] == k;
                    assert((g + 1) * per == g * per + per) by (nonlinear_arith);
                }
                assert forall|k: u8| #[trigger] set@.to_set().contains(k) implies modifier_chunk(keycodes@, per as nat, g as nat).contains(k) by {
                    let m = choose|m: int| start <= m < j && m < keycodes@.len() && #[trigger] keycodes@[m] == k;
                    assert((g + 1) * per == g * per + per) by (nonlinear_arith);
                }
            }
        }
        groups.push(set);
        g = g + 1;
    }
    groups
}

// ----------------------------------------------------------- placement

/// The window size used when the window's geometry cannot be read.
pub open spec fn size_or_default(geometry: Option<(u16, u16)>) -> (int, int) {
    match geometry {
        Some((w, h)) => (w as int, h as int),
        None => (800, 600),
    }
}

/// Half of `v`, rounded toward zero (`i32` division by two).
pub open spec fn half_toward_zero(v: int) -> int {
    if v >= 0 {
        v / 2
    } else {
        -((-v) / 2)
    }
}

fn halve(v: i32) -> (r: i32)
    ensures
        r == half_toward_zero(v as int),
{
    if v >= 0 {
        v / 2
    } else {
        let m: i32 = if v == i32::MIN {
            i32::MAX
        } else {
            -v
        };
        assert(v == i32::MIN ==> (-(v as int)) / 2 == (i32::MAX as int) / 2 + 1);
        if v == i32::MIN {
            -(m / 2) - 1
        } else {
            -(m / 2)
        }
    }
}

/// Where a window goes to be centred on a screen of the given size.
pub fn center_position(screen_width: u16, screen_height: u16, geometry: Option<(u16, u16)>) -> (p: (
    i32,
    i32,
))
    ensures
        p.0 == half_toward_zero(screen_width - size_or_default(geometry).0),
        p.1 == half_toward_zero(screen_height - size_or_default(geometry).1),
{
    let (w, h): (u16, u16) = match geometry {
        Some(g) => g,
        None => (800, 600),
    };
    let dx: i32 = screen_width as i32 - w as i32;
    let dy: i32 = screen_height as i32 - h as i32;
    (halve(dx), halve(dy))
}

/// The `_NET_MOVERESIZE_WINDOW` message data that centres a window on the
/// pointer: gravity 1 with the x and y flags, then x and y as 32-bit values.
pub open spec fn near_pointer_data(px: i16, py: i16, geometry: Option<(u16, u16)>) -> Seq<u32> {
    let (w, h) = size_or_default(geometry);
    seq![
        4099u32,
        (px as int - w / 2) as u32,
        (py as int - h / 2) as u32,
        0u32,
        0u32,
    ]
}

/// The message data that moves a window so that its centre is at the pointer.
pub fn near_pointer_request(px: i16, py: i16, geometry: Option<(u16, u16)>) -> (data: [u32; 5])
    ensures
        data@ == near_pointer_data(px, py, geometry),
{
    let (w, h): (u16, u16) = match geometry {
        Some(g) => g,
        None => (800, 600),
    };
    let x: i32 = px as i32 - (w as i32 / 2);
    let y: i32 = py as i32 - (h as i32 / 2);
    let first: u32 = (1u32 << 12) | ((1u32 | 2u32) & 0xFFFu32);
    assert(first == 4099) by (bit_vector)
        requires
            first == (1u32 << 12) | ((1u32 | 2u32) & 0xFFFu32),
    ;
    let data = [first, x as u32, y as u32, 0, 0];
    assert(data@ =~= near_pointer_data(px, py, geometry));
    data
}

} // verus!
