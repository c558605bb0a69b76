//! Text helpers over sequences of characters: whitespace, searching and
//! slicing, with the meaning of the corresponding `str` operations.
use vstd::prelude::*;

verus! {

/// Unicode white space, as `char::is_whitespace` defines it.
pub open spec fn is_ws(c: char) -> bool {
    ('\u{9}' <= c && c <= '\u{d}') || c == ' ' || c == '\u{85}' || c == '\u{a0}' || c == '\u{1680}'
        || ('\u{2000}' <= c && c <= '\u{200a}') || c == '\u{2028}' || c == '\u{2029}' || c
        == '\u{202f}' || c == '\u{205f}' || c == '\u{3000}'
}

/// `s` without its leading white space, as `str::trim_start` gives it.
pub open spec fn skip_ws(s: Seq<char>) -> Seq<char>
    decreases s.len(),
{
    if s.len() > 0 && is_ws(s[0]) {
        skip_ws(s.drop_first())
    } else {
        s
    }
}

/// True when `p` occurs in `t` at position `i`.
pub open spec fn occurs_at(t: Seq<char>, p: Seq<char>, i: int) -> bool {
    0 <= i && i + p.len() <= t.len() && t.subrange(i, i + p.len()) == p
}

/// The position of the first occurrence of `p` in `t`, as `str::find`
/// counts it in characters.
#[verifier::opaque]
pub open spec fn find(t: Seq<char>, p: Seq<char>) -> Option<int> {
    if occurs_in(t, p) {
        Some(first_occurrence(t, p))
    } else {
        None
    }
}

/// True when `p` occurs somewhere in `t`.
pub open spec fn occurs_in(t: Seq<char>, p: Seq<char>) -> bool {
    exists|i: int| occurs_at(t, p, i)
}

/// The earliest position at which `p` occurs in `t`, where it occurs.
pub open spec fn first_occurrence(t: Seq<char>, p: Seq<char>) -> int {
    choose|i: int| occurs_at(t, p, i) && forall|j: int| 0 <= j < i ==> !occurs_at(t, p, j)
}

/// True when `s` ends with `p`.
pub open spec fn ends_with(s: Seq<char>, p: Seq<char>) -> bool {
    p.len() <= s.len() && s.subrange(s.len() - p.len(), s.len() as int) == p
}

/// True when `c` is the character `'0'` to `'9'`.
pub open spec fn is_digit(c: char) -> bool {
    '0' <= c && c <= '9'
}

/// True when `c` is Unicode white space.
pub fn is_whitespace(c: char) -> (r: bool)
    ensures
        r == is_ws(c),
{
    (c >= '\u{9}' && c <= '\u{d}') || c == ' ' || c == '\u{85}' || c == '\u{a0}' || c == '\u{1680}'
        || (c >= '\u{2000}' && c <= '\u{200a}') || c == '\u{2028}' || c == '\u{2029}' || c
        == '\u{202f}' || c == '\u{205f}' || c == '\u{3000}'
}

/// The characters of `s`.
pub fn chars_of(s: &str) -> (r: Vec<char>)
    ensures
        r@ == s@,
{
    let mut r: Vec<char> = Vec::new();
    for c in it: s.chars()
        invariant
            r@ == it.seq().take(it.index() as int),
            it.seq() == s@,
    {
        r.push(c);
    }
    r
}

/// The first occurrence is the earliest one.
pub proof fn lemma_find_is(t: Seq<char>, p: Seq<char>, i: int)
    requires
        occurs_at(t, p, i),
        forall|j: int| 0 <= j < i ==> !occurs_at(t, p, j),
    ensures
        find(t, p) == Some(i),
{
    reveal(find);
    let c = first_occurrence(t, p);
    if c < i {
        assert(!occurs_at(t, p, c));
    } else if c > i {
        assert(!occurs_at(t, p, i));
    }
}

/// The search finds something exactly where the pattern occurs.
pub proof fn lemma_find_some_iff(t: Seq<char>, p: Seq<char>)
    ensures
        find(t, p) is Some <==> occurs_in(t, p),
{
    reveal(find);
}

/// The first occurrence is an occurrence.
pub proof fn lemma_find_occurs(t: Seq<char>, p: Seq<char>)
    requires
        find(t, p) is Some,
    ensures
        occurs_at(t, p, find(t, p)->0),
        0 <= find(t, p)->0 && find(t, p)->0 + p.len() <= t.len(),
{
    reveal(find);
    lemma_first_exists(t, p);
}

/// Where `p` occurs in `t`, it has an earliest occurrence.
pub proof fn lemma_first_exists(t: Seq<char>, p: Seq<char>)
    requires
        occurs_in(t, p),
    ensures
        occurs_at(t, p, first_occurrence(t, p)),
        forall|j: int| 0 <= j < first_occurrence(t, p) ==> !occurs_at(t, p, j),
{
    let w = choose|i: int| occurs_at(t, p, i);
    lemma_earliest(t, p, w);
}

proof fn lemma_earliest(t: Seq<char>, p: Seq<char>, w: int)
    requires
        occurs_at(t, p, w),
    ensures
        exists|i: int| occurs_at(t, p, i) && forall|j: int| 0 <= j < i ==> !occurs_at(t, p, j),
    decreases w,
{
    if exists|j: int| 0 <= j < w && occurs_at(t, p, j) {
        let j = choose|j: int| 0 <= j < w && occurs_at(t, p, j);
        lemma_earliest(t, p, j);
    } else {
        assert(occurs_at(t, p, w) && forall|j: int| 0 <= j < w ==> !occurs_at(t, p, j));
    }
}

/// True when `p` occurs in `t` at position `k`.
pub fn matches_at(t: &Vec<char>, p: &Vec<char>, k: usize) -> (r: bool)
    ensures
        r == occurs_at(t@, p@, k as int),
{
    if k > t.len() || p.len() > t.len() - k {
        return false;
    }
    let n = t.len();
    let mut j: usize = 0;
    while j < p.len()
        invariant
            n == t@.len(),
            k + p@.len() <= t@.len(),
            j <= p@.len(),
            forall|m: int| 0 <= m < j ==> t@[k + m] == p@[m],
        decreases p@.len() - j,
    {
        assert(k + j < n);
        if t[k + j] != p[j] {
            assert(t@.subrange(k as int, k + p@.len())[j as int] != p@[j as int]);
            return false;
        }
        j += 1;
    }
    assert(t@.subrange(k as int, k + p@.len()) =~= p@);
    true
}

proof fn lemma_occurs_skip(t: Seq<char>, p: Seq<char>, from: int, j: int)
    requires
        0 <= from <= t.len(),
        0 <= j,
    ensures
        occurs_at(t.skip(from), p, j) == occurs_at(t, p, from + j),
{
    if from + j + p.len() <= t.len() {
        assert(t.skip(from).subrange(j, j + p.len()) =~= t.subrange(from + j, from + j + p.len()));
    }
}

proof fn lemma_first_occurrence(t: Seq<char>, p: Seq<char>, from: int, k: int)
    requires
        0 <= from <= k <= t.len(),
        occurs_at(t, p, k),
        forall|j: int| from <= j < k ==> !occurs_at(t, p, j),
    ensures
        find(t.skip(from), p) == Some(k - from),
{
    let u = t.skip(from);
    lemma_occurs_skip(t, p, from, k - from);
    assert forall|j: int| 0 <= j < k - from implies !occurs_at(u, p, j) by {
        lemma_occurs_skip(t, p, from, j);
    }
    lemma_find_is(u, p, k - from);
}

proof fn lemma_no_occurrence(t: Seq<char>, p: Seq<char>, from: int, k: int)
    requires
        0 <= from <= k <= t.len(),
        k + p.len() > t.len(),
        forall|j: int| from <= j < k ==> !occurs_at(t, p, j),
    ensures
        find(t.skip(from), p) is None,
{
    reveal(find);
    let u = t.skip(from);
    assert forall|j: int| !occurs_at(u, p, j) by {
        if 0 <= j {
            lemma_occurs_skip(t, p, from, j);
            if from + j < k {
                assert(!occurs_at(t, p, from + j));
            }
        }
    }
}

/// The position of the first occurrence of `p` in `t` at or after `from`.
pub fn find_from(t: &Vec<char>, p: &Vec<char>, from: usize) -> (r: Option<usize>)
    requires
        from <= t@.len(),
    ensures
        match r {
            Some(k) => from <= k && find(t@.skip(from as int), p@) == Some(k - from),
            None => find(t@.skip(from as int), p@) is None,
        },
{
    let mut k: usize = from;
    while p.len() <= t.len() - k
        invariant
            from <= k <= t@.len(),
            forall|j: int| from <= j < k ==> !occurs_at(t@, p@, j),
        decreases t@.len() - k,
    {
        if matches_at(t, p, k) {
            proof {
                lemma_first_occurrence(t@, p@, from as int, k as int);
            }
            return Some(k);
        }
        proof {
            if k == t@.len() {
                assert(t@.subrange(k as int, k as int) =~= p@);
            }
        }
        k += 1;
    }
    proof {
        lemma_no_occurrence(t@, p@, from as int, k as int);
    }
    None
}

proof fn lemma_skip_ws_step(t: Seq<char>, i: int)
    requires
        0 <= i < t.len(),
        is_ws(t[i]),
    ensures
        skip_ws(t.skip(i)) == skip_ws(t.skip(i + 1)),
{
    assert(t.skip(i).drop_first() =~= t.skip(i + 1));
}

/// The position of the first character of `t` at or after `i` that is not
/// white space (or the end of `t`).
pub fn skip_ws_from(t: &Vec<char>, i: usize) -> (r: usize)
    requires
        i <= t@.len(),
    ensures
        i <= r <= t@.len(),
        t@.skip(r as int) == skip_ws(t@.skip(i as int)),
{
    let mut k: usize = i;
    while k < t.len() && is_whitespace(t[k])
        invariant
            i <= k <= t@.len(),
            skip_ws(t@.skip(k as int)) == skip_ws(t@.skip(i as int)),
        decreases t@.len() - k,
    {
        proof {
            lemma_skip_ws_step(t@, k as int);
        }
        k += 1;
    }
    proof {
        if k < t@.len() {
            assert(t@.skip(k as int)[0] == t@[k as int]);
        }
    }
    k
}

/// True when the characters `t[from..to]` end with `p`.
pub fn ends_with_at(t: &Vec<char>, from: usize, to: usize, p: &Vec<char>) -> (r: bool)
    requires
        from <= to <= t@.len(),
    ensures
        r == ends_with(t@.subrange(from as int, to as int), p@),
{
    if p.len() > to - from {
        return false;
    }
    let hit = matches_at(t, p, to - p.len());
    proof {
        let s = t@.subrange(from as int, to as int);
        assert(s.subrange(s.len() - p@.len(), s.len() as int) =~= t@.subrange(to - p@.len(), to as int));
    }
    hit
}

} // verus!
