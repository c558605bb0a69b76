//! Displays: their bounds in global display space, their stable logical
//! index and a human-readable name that is unique among the displays
//! enumerated together.
use vstd::prelude::*;

verus! {

/// A rectangle in global display space; `right` and `bottom` are exclusive.
#[derive(Clone, Copy, Debug, PartialEq, Eq, Structural)]
pub struct Rect {
    pub left: i32,
    pub top: i32,
    pub right: i32,
    pub bottom: i32,
}

/// A display as the platform reports it, before names are made unique.
#[derive(Clone, Debug)]
pub struct RawDisplay {
    pub name: String,
    pub bounds: Rect,
}

/// An active display: its index in enumeration order, its de-duplicated
/// name and its bounds.
#[derive(Clone, Debug)]
pub struct Monitor {
    pub id: u32,
    pub name: String,
    pub bounds: Rect,
}

/// True when the point `(x, y)` lies inside `r`.
pub open spec fn contains_point(r: Rect, x: int, y: int) -> bool {
    r.left <= x < r.right && r.top <= y < r.bottom
}

/// True when the point `(x, y)` lies inside `r`.
pub fn point_in_rect(x: i32, y: i32, r: &Rect) -> (b: bool)
    ensures
        b == contains_point(*r, x as int, y as int),
{
    x >= r.left && x < r.right && y >= r.top && y < r.bottom
}

/// The character of a decimal digit.
pub open spec fn digit_char(d: nat) -> char {
    if d == 0 {
        '0'
    } else if d == 1 {
        '1'
    } else if d == 2 {
        '2'
    } else if d == 3 {
        '3'
    } else if d == 4 {
        '4'
    } else if d == 5 {
        '5'
    } else if d == 6 {
        '6'
    } else if d == 7 {
        '7'
    } else if d == 8 {
        '8'
    } else {
        '9'
    }
}

/// The decimal notation of `n`, without leading zeros.
pub open spec fn decimal(n: nat) -> Seq<char>
    decreases n,
{
    if n < 10 {
        seq![digit_char(n)]
    } else {
        decimal(n / 10).push(digit_char(n % 10))
    }
}

/// `name` with the disambiguating suffix ` (n)`.
pub open spec fn suffixed(name: Seq<char>, n: nat) -> Seq<char> {
    name + seq![' ', '('] + decimal(n) + seq![')']
}

/// True when `n` is the first number from `start` on whose suffixed name
/// `name (n)` is not among the keys `earlier`.
pub open spec fn is_first_free(earlier: Seq<Seq<char>>, name: Seq<char>, start: nat, n: nat) -> bool {
    &&& start <= n
    &&& !earlier.contains(suffixed(name, n))
    &&& forall|m: nat| start <= m < n ==> earlier.contains(#[trigger] suffixed(name, m))
}

/// The first number from `start` on whose suffixed name is unused.
pub open spec fn free_suffix(earlier: Seq<Seq<char>>, name: Seq<char>, start: nat) -> nat {
    choose|n: nat| is_first_free(earlier, name, start, n)
}

/// The key given to the display at position `i` whose reported name is
/// `name`, given the keys of the displays before it: the name itself where
/// no earlier key equals it, otherwise the name with the suffix ` (n)`,
/// `n` being the first number from `i + 1` on that gives an unused key.
pub open spec fn unique_name(earlier: Seq<Seq<char>>, name: Seq<char>, i: nat) -> Seq<char> {
    if earlier.contains(name) {
        suffixed(name, free_suffix(earlier, name, i + 1))
    } else {
        name
    }
}

/// True when no two keys are equal.
pub open spec fn keys_distinct(keys: Seq<Seq<char>>) -> bool {
    forall|i: int, j: int| 0 <= i < keys.len() && 0 <= j < keys.len() && i != j ==> keys[i] != keys[j]
}

/// The keys of displays reported with the names `raw`, in order.
pub open spec fn dedup_names(raw: Seq<Seq<char>>) -> Seq<Seq<char>>
    decreases raw.len(),
{
    if raw.len() == 0 {
        Seq::empty()
    } else {
        let earlier = dedup_names(raw.drop_last());
        earlier.push(unique_name(earlier, raw.last(), (raw.len() - 1) as nat))
    }
}

/// The views of a list of strings.
pub open spec fn views_of(v: Seq<String>) -> Seq<Seq<char>> {
    v.map_values(|s: String| s@)
}

/// The text of one decimal digit.
fn digit_str(d: u64) -> (r: &'static str)
    requires
        d < 10,
    ensures
        r@ == seq![digit_char(d as nat)],
{
    proof {
        reveal_strlit("0");
        reveal_strlit("1");
        reveal_strlit("2");
        reveal_strlit("3");
        reveal_strlit("4");
        reveal_strlit("5");
        reveal_strlit("6");
        reveal_strlit("7");
        reveal_strlit("8");
        reveal_strlit("9");
    }
    if d == 0 {
        "0"
    } else if d == 1 {
        "1"
    } else if d == 2 {
        "2"
    } else if d == 3 {
        "3"
    } else if d == 4 {
        "4"
    } else if d == 5 {
        "5"
    } else if d == 6 {
        "6"
    } else if d == 7 {
        "7"
    } else if d == 8 {
        "8"
    } else {
        "9"
    }
}

/// Appends the decimal notation of `n` to `s`.
fn push_decimal(s: &mut String, n: u64)
    ensures
        final(s)@ == old(s)@ + decimal(n as nat),
    decreases n,
{
    if n >= 10 {
        push_decimal(s, n / 10);
    }
    s.append(digit_str(n % 10));
    proof {
        if n >= 10 {
            assert(final(s)@ =~= old(s)@ + decimal(n as nat));
        } else {
            assert(final(s)@ =~= old(s)@ + decimal(n as nat));
        }
    }
}

/// `name` with the suffix ` (n)`.
fn with_suffix(name: &String, n: u64) -> (r: String)
    ensures
        r@ == suffixed(name@, n as nat),
{
    let mut r = name.clone();
    proof {
        reveal_strlit(" (");
        reveal_strlit(")");
    }
    r.append(" (");
    push_decimal(&mut r, n);
    r.append(")");
    assert(r@ =~= suffixed(name@, n as nat));
    r
}

/// True when one of `names` equals `name`.
fn contains_name(names: &Vec<String>, name: &String) -> (b: bool)
    ensures
        b == views_of(names@).contains(name@),
{
    let mut i: usize = 0;
    while i < names.len()
        invariant
            i <= names@.len(),
            forall|j: int| 0 <= j < i ==> names@[j]@ != name@,
        decreases names@.len() - i,
    {
        if names[i] == *name {
            assert(views_of(names@)[i as int] == name@);
            return true;
        }
        i += 1;
    }
    assert(!views_of(names@).contains(name@)) by {
        if views_of(names@).contains(name@) {
            let j = choose|j: int| 0 <= j < views_of(names@).len() && views_of(names@)[j] == name@;
            assert(names@[j]@ == name@);
        }
    }
    false
}

/// Names for displays reported with the names `raw`: a display keeps its
/// reported name unless an earlier display already has it as key; then it
/// gets the suffix ` (n)`, `n` being the first number from its one-based
/// position on that gives an unused key. No two displays share a key, so
/// that each can carry its own override.
pub fn screen_names(raw: &Vec<String>) -> (names: Vec<String>)
    requires
        raw@.len() < u32::MAX,
    ensures
        views_of(names@) == dedup_names(views_of(raw@)),
        names@.len() == raw@.len(),
        keys_distinct(views_of(names@)),
{
    let mut names: Vec<String> = Vec::new();
    let mut i: usize = 0;
    while i < raw.len()
        invariant
            i <= raw@.len() < u32::MAX,
            names@.len() == i,
            views_of(names@) == dedup_names(views_of(raw@).take(i as int)),
        decreases raw@.len() - i,
    {
        let ghost before = names@;
        let ghost earlier = views_of(names@);
        let name = if contains_name(&names, &raw[i]) {
            next_free_name(&names, &raw[i], (i + 1) as u64)
        } else {
            raw[i].clone()
        };
        names.push(name);
        proof {
            let r = views_of(raw@);
            assert(r.take(i + 1).drop_last() =~= r.take(i as int));
            assert(views_of(names@) =~= views_of(before).push(name@));
        }
        i += 1;
    }
    proof {
        assert(views_of(raw@).take(i as int) =~= views_of(raw@));
        lemma_dedup_distinct(views_of(raw@));
    }
    names
}

/// `name (n)` for the first `n` from `start` on that no key of `names` equals.
fn next_free_name(names: &Vec<String>, name: &String, start: u64) -> (r: String)
    requires
        start <= u32::MAX,
        names@.len() < u32::MAX,
    ensures
        r@ == suffixed(name@, free_suffix(views_of(names@), name@, start as nat)),
{
    let ghost earlier = views_of(names@);
    proof {
        lemma_taken_bounded(earlier, name@, start as nat);
    }
    let mut n: u64 = start;
    loop
        invariant
            start <= n,
            n - start + taken_from(earlier, name@, n as nat).len() <= taken_from(earlier, name@, start as nat).len(),
            taken_from(earlier, name@, start as nat).len() <= earlier.len(),
            earlier == views_of(names@),
            names@.len() < u32::MAX,
            start <= u32::MAX,
            forall|m: nat| start <= m < n ==> earlier.contains(#[trigger] suffixed(name@, m)),
        decreases taken_from(earlier, name@, n as nat).len(),
    {
        let candidate = with_suffix(name, n);
        if !contains_name(names, &candidate) {
            proof {
                assert(is_first_free(earlier, name@, start as nat, n as nat));
                lemma_free_suffix(earlier, name@, start as nat);
                lemma_first_free_unique(earlier, name@, start as nat, n as nat, free_suffix(earlier, name@, start as nat));
            }
            return candidate;
        }
        proof {
            lemma_taken_shrinks(earlier, name@, n as nat);
        }
        n = n + 1;
    }
}

/// The displays reported by the platform, in enumeration order, each with
/// its index as id and its de-duplicated name.
pub fn enumerate_monitors(raw: &Vec<RawDisplay>) -> (ms: Vec<Monitor>)
    requires
        raw@.len() < u32::MAX,
    ensures
        ms@.len() == raw@.len(),
        forall|i: int| 0 <= i < ms@.len() ==> (#[trigger] ms@[i]).id == i && ms@[i].bounds == raw@[i].bounds,
        monitor_names_of(ms@) == dedup_names(raw_names_of(raw@)),
        keys_distinct(monitor_names_of(ms@)),
{
    let mut reported: Vec<String> = Vec::new();
    let mut i: usize = 0;
    while i < raw.len()
        invariant
            i <= raw@.len(),
            reported@.len() == i,
            views_of(reported@) == raw_names_of(raw@).take(i as int),
        decreases raw@.len() - i,
    {
        let ghost before = reported@;
        reported.push(raw[i].name.clone());
        proof {
            assert(views_of(reported@) =~= views_of(before).push(raw@[i as int].name@));
            assert(views_of(reported@) =~= raw_names_of(raw@).take(i + 1));
        }
        i += 1;
    }
    proof {
        assert(views_of(reported@) =~= raw_names_of(raw@));
    }
    let names = screen_names(&reported);
    proof {
        lemma_dedup_len(raw_names_of(raw@));
        assert(views_of(names@).len() == names@.len());
    }
    let mut ms: Vec<Monitor> = Vec::new();
    let mut j: usize = 0;
    while j < raw.len()
        invariant
            j <= raw@.len() < u32::MAX,
            names@.len() == raw@.len(),
            views_of(names@) == dedup_names(raw_names_of(raw@)),
            ms@.len() == j,
            forall|k: int| 0 <= k < j ==> (#[trigger] ms@[k]).id == k && ms@[k].bounds == raw@[k].bounds
                && ms@[k].name@ == names@[k]@,
        decreases raw@.len() - j,
    {
        ms.push(Monitor { id: j as u32, name: names[j].clone(), bounds: raw[j].bounds });
        j += 1;
    }
    proof {
        lemma_dedup_len(raw_names_of(raw@));
        assert(monitor_names_of(ms@) =~= views_of(names@));
        lemma_dedup_distinct(raw_names_of(raw@));
    }
    ms
}

/// The reported names of raw displays.
pub open spec fn raw_names_of(v: Seq<RawDisplay>) -> Seq<Seq<char>> {
    v.map_values(|d: RawDisplay| d.name@)
}

/// The names of monitors.
pub open spec fn monitor_names_of(v: Seq<Monitor>) -> Seq<Seq<char>> {
    v.map_values(|m: Monitor| m.name@)
}

/// The index of the first display whose bounds hold the point, or 0 where
/// none does.
pub open spec fn index_at_point(ms: Seq<Monitor>, x: int, y: int) -> int {
    if (exists|i: int| 0 <= i < ms.len() && contains_point(ms[i].bounds, x, y)) {
        choose|i: int|
            0 <= i < ms.len() && contains_point(ms[i].bounds, x, y) && forall|j: int|
                0 <= j < i ==> !contains_point(#[trigger] ms[j].bounds, x, y)
    } else {
        0
    }
}

/// The index of the display under the point `(x, y)` (the first whose
/// bounds hold it), or 0 where no display does.
pub fn get_monitor_index_at_point(monitors: &Vec<Monitor>, x: i32, y: i32) -> (r: u32)
    requires
        monitors@.len() <= u32::MAX,
    ensures
        r as int == index_at_point(monitors@, x as int, y as int),
{
    let mut i: usize = 0;
    while i < monitors.len()
        invariant
            i <= monitors@.len() <= u32::MAX,
            forall|j: int| 0 <= j < i ==> !contains_point(#[trigger] monitors@[j].bounds, x as int, y as int),
        decreases monitors@.len() - i,
    {
        if point_in_rect(x, y, &monitors[i].bounds) {
            proof {
                let ms = monitors@;
                let (xi, yi) = (x as int, y as int);
                assert(contains_point(ms[i as int].bounds, xi, yi));
                assert(exists|k: int| 0 <= k < ms.len() && contains_point(ms[k].bounds, xi, yi));
                let c = index_at_point(ms, xi, yi);
                assert(0 <= i < ms.len() && contains_point(ms[i as int].bounds, xi, yi) && forall|j: int|
                    0 <= j < i ==> !contains_point(#[trigger] ms[j].bounds, xi, yi));
                if c < i {
                    assert(!contains_point(ms[c].bounds, xi, yi));
                } else if c > i {
                    assert(!contains_point(ms[i as int].bounds, xi, yi));
                }
            }
            return i as u32;
        }
        i += 1;
    }
    0
}

/// The keys have one entry per reported name.
pub proof fn lemma_dedup_len(raw: Seq<Seq<char>>)
    ensures
        dedup_names(raw).len() == raw.len(),
    decreases raw.len(),
{
    if raw.len() > 0 {
        lemma_dedup_len(raw.drop_last());
    }
}

/// The key at position `k` is decided by the keys before it alone.
pub proof fn lemma_dedup_at(raw: Seq<Seq<char>>, k: int)
    requires
        0 <= k < raw.len(),
    ensures
        dedup_names(raw)[k] == unique_name(dedup_names(raw).take(k), raw[k], k as nat),
    decreases raw.len(),
{
    lemma_dedup_len(raw);
    lemma_dedup_len(raw.drop_last());
    let d = dedup_names(raw);
    let e = dedup_names(raw.drop_last());
    if k == raw.len() - 1 {
        assert(d.take(k) =~= e);
    } else {
        lemma_dedup_at(raw.drop_last(), k);
        assert(d.take(k) =~= e.take(k));
    }
}

proof fn lemma_digit_injective(a: nat, b: nat)
    requires
        a < 10,
        b < 10,
        digit_char(a) == digit_char(b),
    ensures
        a == b,
{
}

proof fn lemma_decimal_nonempty(n: nat)
    ensures
        decimal(n).len() >= 1,
        n >= 10 ==> decimal(n).len() >= 2,
    decreases n,
{
    if n >= 10 {
        lemma_decimal_nonempty(n / 10);
    }
}

/// Distinct numbers have distinct decimal notations.
pub proof fn lemma_decimal_injective(m: nat, n: nat)
    requires
        decimal(m) == decimal(n),
    ensures
        m == n,
    decreases m,
{
    lemma_decimal_nonempty(m);
    lemma_decimal_nonempty(n);
    let dm = decimal(m);
    let dn = decimal(n);
    assert(dm.last() == dn.last());
    if m >= 10 {
        assert(dm.last() == digit_char(m % 10));
    } else {
        assert(dm.last() == digit_char(m));
    }
    if n >= 10 {
        assert(dn.last() == digit_char(n % 10));
    } else {
        assert(dn.last() == digit_char(n));
    }
    lemma_digit_injective(if m >= 10 { m % 10 } else { m }, if n >= 10 { n % 10 } else { n });
    if m >= 10 && n >= 10 {
        assert(dm.drop_last() =~= decimal(m / 10));
        assert(dn.drop_last() =~= decimal(n / 10));
        lemma_decimal_injective(m / 10, n / 10);
    }
}

proof fn lemma_suffixed_injective(a: Seq<char>, m: nat, n: nat)
    requires
        suffixed(a, m) == suffixed(a, n),
    ensures
        m == n,
{
    let sm = suffixed(a, m);
    let sn = suffixed(a, n);
    assert(sm.len() == sn.len());
    assert(decimal(m) =~= sm.subrange(a.len() + 2 as int, sm.len() - 1));
    assert(decimal(n) =~= sn.subrange(a.len() + 2 as int, sn.len() - 1));
    lemma_decimal_injective(m, n);
}

/// The suffixed names numbered `n` or more among the keys `earlier`.
pub open spec fn taken_from(earlier: Seq<Seq<char>>, name: Seq<char>, n: nat) -> Set<Seq<char>> {
    earlier.to_set().filter(|k: Seq<char>| exists|m: nat| m >= n && k == suffixed(name, m))
}

proof fn lemma_taken_bounded(earlier: Seq<Seq<char>>, name: Seq<char>, n: nat)
    ensures
        taken_from(earlier, name, n).finite(),
        taken_from(earlier, name, n).len() <= earlier.len(),
{
    earlier.lemma_cardinality_of_set();
    vstd::seq_lib::seq_to_set_is_finite(earlier);
    vstd::set_lib::lemma_len_subset(taken_from(earlier, name, n), earlier.to_set());
}

/// Where `name (n)` is taken, the suffixed names taken from `n + 1` on are
/// one fewer.
proof fn lemma_taken_shrinks(earlier: Seq<Seq<char>>, name: Seq<char>, n: nat)
    requires
        earlier.contains(suffixed(name, n)),
    ensures
        taken_from(earlier, name, n + 1).len() + 1 <= taken_from(earlier, name, n).len(),
{
    let t = taken_from(earlier, name, n);
    let u = taken_from(earlier, name, n + 1);
    let x = suffixed(name, n);
    lemma_taken_bounded(earlier, name, n);
    assert(t.contains(x)) by {
        assert(earlier.to_set().contains(x));
    }
    assert(u.subset_of(t.remove(x))) by {
        assert forall|k: Seq<char>| u.contains(k) implies t.remove(x).contains(k) by {
            let m = choose|m: nat| m >= n + 1 && k == suffixed(name, m);
            if k == x {
                lemma_suffixed_injective(name, m, n);
            }
        }
    }
    vstd::set_lib::lemma_len_subset(u, t.remove(x));
}

/// There is a first free number from any start on.
proof fn lemma_free_exists(earlier: Seq<Seq<char>>, name: Seq<char>, start: nat, n: nat)
    requires
        start <= n,
        forall|m: nat| start <= m < n ==> earlier.contains(#[trigger] suffixed(name, m)),
    ensures
        exists|f: nat| is_first_free(earlier, name, start, f),
    decreases taken_from(earlier, name, n).len(),
{
    if earlier.contains(suffixed(name, n)) {
        lemma_taken_shrinks(earlier, name, n);
        assert forall|m: nat| start <= m < n + 1 implies earlier.contains(#[trigger] suffixed(name, m)) by {}
        lemma_free_exists(earlier, name, start, n + 1);
    } else {
        assert(is_first_free(earlier, name, start, n));
    }
}

/// The chosen suffix is the first free one.
pub proof fn lemma_free_suffix(earlier: Seq<Seq<char>>, name: Seq<char>, start: nat)
    ensures
        is_first_free(earlier, name, start, free_suffix(earlier, name, start)),
{
    lemma_free_exists(earlier, name, start, start);
}

proof fn lemma_first_free_unique(earlier: Seq<Seq<char>>, name: Seq<char>, start: nat, a: nat, b: nat)
    requires
        is_first_free(earlier, name, start, a),
        is_first_free(earlier, name, start, b),
    ensures
        a == b,
{
    if a < b {
        assert(earlier.contains(suffixed(name, a)));
    } else if b < a {
        assert(earlier.contains(suffixed(name, b)));
    }
}

/// Each key is new: it differs from every key before it.
pub proof fn lemma_dedup_fresh(raw: Seq<Seq<char>>, k: int)
    requires
        0 <= k < raw.len(),
    ensures
        !dedup_names(raw).take(k).contains(dedup_names(raw)[k]),
{
    lemma_dedup_at(raw, k);
    let earlier = dedup_names(raw).take(k);
    if earlier.contains(raw[k]) {
        lemma_free_suffix(earlier, raw[k], (k + 1) as nat);
    }
}

/// No two displays share a key, whatever names they report: each override
/// reaches exactly one display.
pub proof fn lemma_dedup_distinct(raw: Seq<Seq<char>>)
    ensures
        keys_distinct(dedup_names(raw)),
{
    let d = dedup_names(raw);
    lemma_dedup_len(raw);
    assert forall|i: int, j: int| 0 <= i < d.len() && 0 <= j < d.len() && i != j implies d[i] != d[j] by {
        if i < j {
            lemma_dedup_fresh(raw, j);
            assert(d.take(j)[i] == d[i]);
        } else {
            lemma_dedup_fresh(raw, i);
            assert(d.take(i)[j] == d[j]);
        }
    }
}

/// Two displays that report the identical name get distinct keys.
pub proof fn lemma_identical_names_get_distinct_keys(raw: Seq<Seq<char>>, i: int, j: int)
    requires
        0 <= i < j < raw.len(),
        raw[i] == raw[j],
    ensures
        dedup_names(raw)[i] != dedup_names(raw)[j],
{
    lemma_dedup_distinct(raw);
    lemma_dedup_len(raw);
}

/// Displays that all report different names keep them as keys.
pub proof fn lemma_distinct_names_kept(raw: Seq<Seq<char>>)
    requires
        keys_distinct(raw),
    ensures
        dedup_names(raw) == raw,
    decreases raw.len(),
{
    if raw.len() > 0 {
        let p = raw.drop_last();
        assert(keys_distinct(p)) by {
            assert forall|i: int, j: int| 0 <= i < p.len() && 0 <= j < p.len() && i != j implies p[i] != p[j] by {
                assert(raw[i] != raw[j]);
            }
        }
        lemma_distinct_names_kept(p);
        assert(!p.contains(raw.last())) by {
            if p.contains(raw.last()) {
                let k = choose|k: int| 0 <= k < p.len() && p[k] == raw.last();
                assert(raw[k] != raw[raw.len() - 1]);
            }
        }
        assert(dedup_names(raw) =~= raw);
    }
}

} // verus!
