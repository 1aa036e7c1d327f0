//! Character-level string operations used throughout the library, each
//! proved against a recursive definition over `Seq<char>`.
use vstd::prelude::*;
use vstd::string::StrSliceExecFns;
use vstd::string::StringExecFns;

verus! {

// ---------------------------------------------------------------------
// Definitions
// ---------------------------------------------------------------------

/// `p` is a prefix of `s`.
pub open spec fn starts_with(s: Seq<char>, p: Seq<char>) -> bool {
    p.len() <= s.len() && s.take(p.len() as int) == p
}

/// The index of the first occurrence of `p` in `s`, if any.
pub open spec fn find(s: Seq<char>, p: Seq<char>) -> Option<nat>
    decreases s.len(),
{
    if starts_with(s, p) {
        Some(0nat)
    } else if s.len() == 0 {
        None
    } else {
        match find(s.drop_first(), p) {
            Some(i) => Some(i + 1),
            None => None,
        }
    }
}

/// `p` occurs somewhere in `s`.
pub open spec fn contains(s: Seq<char>, p: Seq<char>) -> bool {
    find(s, p) is Some
}

/// The parts of `s` before and after the first occurrence of `p`.
pub open spec fn split_once(s: Seq<char>, p: Seq<char>) -> Option<(Seq<char>, Seq<char>)> {
    match find(s, p) {
        Some(i) => Some((s.take(i as int), s.skip((i + p.len()) as int))),
        None => None,
    }
}

/// `s` with every occurrence of a non-empty `p` removed, matched left to
/// right without overlap.
pub open spec fn remove_all(s: Seq<char>, p: Seq<char>) -> Seq<char>
    decreases s.len(),
{
    if s.len() == 0 || p.len() == 0 {
        s
    } else if starts_with(s, p) {
        remove_all(s.skip(p.len() as int), p)
    } else {
        seq![s[0]] + remove_all(s.drop_first(), p)
    }
}

/// Prepends `x` to the first piece of `r`.
pub open spec fn glue(x: Seq<char>, r: Seq<Seq<char>>) -> Seq<Seq<char>> {
    seq![x + r[0]] + r.skip(1)
}

/// The pieces of `s` between the occurrences of a non-empty `p`, matched
/// left to right without overlap; always at least one piece.
pub open spec fn split_all(s: Seq<char>, p: Seq<char>) -> Seq<Seq<char>>
    decreases s.len(),
{
    if p.len() == 0 || s.len() == 0 {
        seq![s]
    } else if starts_with(s, p) {
        seq![Seq::<char>::empty()] + split_all(s.skip(p.len() as int), p)
    } else {
        glue(seq![s[0]], split_all(s.drop_first(), p))
    }
}

/// The Unicode `White_Space` property.
pub open spec fn is_white_space(c: char) -> bool {
    ||| ('\u{9}' <= c && c <= '\u{d}')
    ||| c == ' '
    ||| c == '\u{85}'
    ||| c == '\u{a0}'
    ||| c == '\u{1680}'
    ||| ('\u{2000}' <= c && c <= '\u{200a}')
    ||| c == '\u{2028}'
    ||| c == '\u{2029}'
    ||| c == '\u{202f}'
    ||| c == '\u{205f}'
    ||| c == '\u{3000}'
}

/// `s` without its leading white space.
pub open spec fn trim_start(s: Seq<char>) -> Seq<char>
    decreases s.len(),
{
    if s.len() > 0 && is_white_space(s[0]) {
        trim_start(s.drop_first())
    } else {
        s
    }
}

/// `s` without its trailing white space.
pub open spec fn trim_end(s: Seq<char>) -> Seq<char>
    decreases s.len(),
{
    if s.len() > 0 && is_white_space(s.last()) {
        trim_end(s.drop_last())
    } else {
        s
    }
}

/// `s` without leading and trailing white space.
pub open spec fn trim(s: Seq<char>) -> Seq<char> {
    trim_end(trim_start(s))
}

// ---------------------------------------------------------------------
// Lemmas
// ---------------------------------------------------------------------

/// `find` returns the least index at which `p` starts.
pub proof fn lemma_find(s: Seq<char>, p: Seq<char>)
    ensures
        find(s, p) matches Some(k) ==> {
            &&& k <= s.len()
            &&& k + p.len() <= s.len()
            &&& starts_with(s.skip(k as int), p)
            &&& forall|j: int| 0 <= j < k ==> !starts_with(#[trigger] s.skip(j), p)
        },
        find(s, p) is None ==> forall|j: int| 0 <= j <= s.len() ==> !starts_with(#[trigger] s.skip(j), p),
    decreases s.len(),
{
    assert(s.skip(0) =~= s);
    if starts_with(s, p) {
    } else if s.len() == 0 {
    } else {
        let t = s.drop_first();
        lemma_find(t, p);
        assert forall|j: int| 1 <= j <= s.len() implies #[trigger] s.skip(j) =~= t.skip(j - 1) by {}
        if let Some(k) = find(t, p) {
            assert(s.skip((k + 1) as int) =~= t.skip(k as int));
            assert forall|j: int| 0 <= j < k + 1 implies !starts_with(#[trigger] s.skip(j), p) by {
                if j > 0 {
                    assert(s.skip(j) =~= t.skip(j - 1));
                }
            }
        } else {
            assert forall|j: int| 0 <= j <= s.len() implies !starts_with(#[trigger] s.skip(j), p) by {
                if j > 0 {
                    assert(s.skip(j) =~= t.skip(j - 1));
                }
            }
        }
    }
}

/// If `p` starts at `k` and nowhere before, `find` returns `k`.
pub proof fn lemma_find_at(s: Seq<char>, p: Seq<char>, k: int)
    requires
        0 <= k <= s.len(),
        starts_with(s.skip(k), p),
        forall|j: int| 0 <= j < k ==> !starts_with(#[trigger] s.skip(j), p),
    ensures
        find(s, p) == Some(k as nat),
{
    lemma_find(s, p);
    if let Some(k2) = find(s, p) {
        if k2 < k {
            assert(!starts_with(s.skip(k2 as int), p));
        }
    }
}

/// If `p` starts nowhere in `s`, `find` returns nothing.
pub proof fn lemma_find_none(s: Seq<char>, p: Seq<char>)
    requires
        forall|j: int| 0 <= j <= s.len() ==> !starts_with(#[trigger] s.skip(j), p),
    ensures
        find(s, p) is None,
{
    lemma_find(s, p);
    if let Some(k) = find(s, p) {
        assert(starts_with(s.skip(k as int), p));
    }
}

/// One step of `remove_all` from position `i`.
pub proof fn lemma_remove_all_step(s: Seq<char>, p: Seq<char>, i: int)
    requires
        0 <= i < s.len(),
        p.len() > 0,
    ensures
        starts_with(s.skip(i), p) ==> remove_all(s.skip(i), p) == remove_all(
            s.skip(i + p.len()),
            p,
        ),
        !starts_with(s.skip(i), p) ==> remove_all(s.skip(i), p) == seq![s[i]] + remove_all(
            s.skip(i + 1),
            p,
        ),
{
    let t = s.skip(i);
    if starts_with(t, p) {
        assert(t.skip(p.len() as int) =~= s.skip(i + p.len()));
    }
    assert(t.drop_first() =~= s.skip(i + 1));
}

/// One step of `split_all` from position `i`.
pub proof fn lemma_split_all_step(s: Seq<char>, p: Seq<char>, i: int)
    requires
        0 <= i < s.len(),
        p.len() > 0,
    ensures
        starts_with(s.skip(i), p) ==> split_all(s.skip(i), p) == seq![Seq::<char>::empty()]
            + split_all(s.skip(i + p.len()), p),
        !starts_with(s.skip(i), p) ==> split_all(s.skip(i), p) == glue(
            seq![s[i]],
            split_all(s.skip(i + 1), p),
        ),
{
    let t = s.skip(i);
    if starts_with(t, p) {
        assert(t.skip(p.len() as int) =~= s.skip(i + p.len()));
    }
    assert(t.drop_first() =~= s.skip(i + 1));
}

/// `split_all` never returns an empty list.
pub proof fn lemma_split_all_nonempty(s: Seq<char>, p: Seq<char>)
    ensures
        split_all(s, p).len() >= 1,
    decreases s.len(),
{
    if p.len() == 0 || s.len() == 0 {
    } else if starts_with(s, p) {
        lemma_split_all_nonempty(s.skip(p.len() as int), p);
    } else {
        lemma_split_all_nonempty(s.drop_first(), p);
    }
}

/// Gluing twice is gluing the concatenation.
pub proof fn lemma_glue_glue(x: Seq<char>, y: Seq<char>, r: Seq<Seq<char>>)
    requires
        r.len() >= 1,
    ensures
        glue(x, glue(y, r)) == glue(x + y, r),
{
    assert(glue(y, r).skip(1) =~= r.skip(1));
    assert(x + (y + r[0]) =~= (x + y) + r[0]);
    assert(glue(x, glue(y, r)) =~= glue(x + y, r));
}

/// Where `p` starts nowhere, nothing is removed.
pub proof fn lemma_remove_all_absent(s: Seq<char>, p: Seq<char>)
    requires
        !contains(s, p),
    ensures
        remove_all(s, p) == s,
    decreases s.len(),
{
    if s.len() == 0 || p.len() == 0 {
    } else {
        assert(!starts_with(s, p));
        let t = s.drop_first();
        assert(!contains(t, p));
        lemma_remove_all_absent(t, p);
        assert(seq![s[0]] + t =~= s);
    }
}

/// Where `p` starts nowhere, the whole text is the only piece.
pub proof fn lemma_split_all_absent(s: Seq<char>, p: Seq<char>)
    requires
        !contains(s, p),
    ensures
        split_all(s, p) == seq![s],
    decreases s.len(),
{
    if p.len() == 0 || s.len() == 0 {
    } else {
        assert(!starts_with(s, p));
        let t = s.drop_first();
        assert(!contains(t, p));
        lemma_split_all_absent(t, p);
        assert(seq![s[0]] + t =~= s);
        assert(glue(seq![s[0]], seq![t]) =~= seq![s]);
    }
}

/// The test that keeps every character but `c`.
pub open spec fn other_than(c: char) -> spec_fn(char) -> bool {
    |d: char| d != c
}

/// Removing a single character keeps every other character, in order.
pub proof fn lemma_remove_char(s: Seq<char>, c: char)
    ensures
        remove_all(s, seq![c]) == s.filter(other_than(c)),
    decreases s.len(),
{
    let keep = other_than(c);
    reveal(Seq::filter);
    if s.len() == 0 {
        assert(s.filter(keep) =~= s);
    } else {
        let t = s.drop_first();
        lemma_remove_char(t, c);
        let h = seq![s[0]];
        assert(s =~= h + t);
        Seq::filter_distributes_over_add(h, t, keep);
        assert(h.drop_last() =~= Seq::<char>::empty());
        assert(h.drop_last().filter(keep) =~= Seq::<char>::empty());
        assert(h.last() == s[0]);
        if s[0] == c {
            assert(s.take(1) =~= seq![c]);
            assert(s.skip(1) =~= t);
            assert(h.filter(keep) =~= Seq::<char>::empty());
            assert(Seq::<char>::empty() + t.filter(keep) =~= t.filter(keep));
        } else {
            assert(s.take(1)[0] != seq![c][0]);
            assert(!starts_with(s, seq![c]));
            assert(h.filter(keep) =~= h);
        }
    }
}

/// Filtering keeps only characters that pass the filter, and keeps every
/// property that all characters had.
pub proof fn lemma_filter_keeps_only(s: Seq<char>, pred: spec_fn(char) -> bool, q: spec_fn(char) -> bool)
    requires
        forall|i: int| 0 <= i < s.len() ==> q(#[trigger] s[i]),
    ensures
        forall|i: int|
            0 <= i < s.filter(pred).len() ==> q(#[trigger] s.filter(pred)[i]) && pred(
                s.filter(pred)[i],
            ),
    decreases s.len(),
{
    reveal(Seq::filter);
    broadcast use vstd::seq_lib::group_filter_ensures;
    if s.len() > 0 {
        let front = s.drop_last();
        assert forall|i: int| 0 <= i < front.len() implies q(#[trigger] front[i]) by {
            assert(front[i] == s[i]);
        }
        lemma_filter_keeps_only(front, pred, q);
        let sub = front.filter(pred);
        let out = s.filter(pred);
        assert forall|i: int| 0 <= i < out.len() implies q(#[trigger] out[i]) by {
            if i < sub.len() {
                assert(out[i] == sub[i]);
            } else {
                assert(out[i] == s.last());
                assert(q(s[s.len() - 1]));
            }
        }
    }
}

/// `trim_start` drops a prefix.
pub proof fn lemma_trim_start_is_suffix(s: Seq<char>) -> (k: int)
    ensures
        0 <= k <= s.len(),
        trim_start(s) == s.skip(k),
    decreases s.len(),
{
    if s.len() > 0 && is_white_space(s[0]) {
        let k1 = lemma_trim_start_is_suffix(s.drop_first());
        assert(s.drop_first().skip(k1) =~= s.skip(k1 + 1));
        k1 + 1
    } else {
        assert(s.skip(0) =~= s);
        0
    }
}

/// `trim_end` drops a suffix.
pub proof fn lemma_trim_end_is_prefix(s: Seq<char>) -> (e: int)
    ensures
        0 <= e <= s.len(),
        trim_end(s) == s.take(e),
    decreases s.len(),
{
    if s.len() > 0 && is_white_space(s.last()) {
        let e1 = lemma_trim_end_is_prefix(s.drop_last());
        assert(s.drop_last().take(e1) =~= s.take(e1));
        e1
    } else {
        assert(s.take(s.len() as int) =~= s);
        s.len() as int
    }
}

/// Trimming keeps a stretch of the text: every character of the result is
/// a character of `s`.
pub proof fn lemma_trim_keeps_chars(s: Seq<char>)
    ensures
        forall|i: int| 0 <= i < trim(s).len() ==> s.contains(#[trigger] trim(s)[i]),
{
    let k = lemma_trim_start_is_suffix(s);
    let st = trim_start(s);
    let e = lemma_trim_end_is_prefix(st);
    assert forall|i: int| 0 <= i < trim(s).len() implies s.contains(#[trigger] trim(s)[i]) by {
        assert(trim(s)[i] == st[i]);
        assert(st[i] == s[i + k]);
    }
}

/// Splitting `t + r` where `p` starts nowhere inside `t` glues `t` to the
/// first piece of `r`.
pub proof fn lemma_split_prefix(t: Seq<char>, r: Seq<char>, p: Seq<char>)
    requires
        p.len() > 0,
        forall|j: int| 0 <= j < t.len() ==> !starts_with(#[trigger] (t + r).skip(j), p),
    ensures
        split_all(t + r, p) == glue(t, split_all(r, p)),
    decreases t.len(),
{
    lemma_split_all_nonempty(r, p);
    if t.len() == 0 {
        assert(t + r =~= r);
        assert(glue(t, split_all(r, p)) =~= split_all(r, p));
    } else {
        let s = t + r;
        assert(s.skip(0) =~= s);
        let t2 = t.drop_first();
        assert(s.drop_first() =~= t2 + r);
        assert forall|j: int| 0 <= j < t2.len() implies !starts_with(#[trigger] (t2 + r).skip(j), p) by {
            assert((t2 + r).skip(j) =~= s.skip(j + 1));
        }
        lemma_split_prefix(t2, r, p);
        lemma_glue_glue(seq![t[0]], t2, split_all(r, p));
        assert(seq![t[0]] + t2 =~= t);
    }
}

/// `p` does not occur in `a + j + b` when it does not occur in `j`, no
/// character of `a` is its first character and no character of `b` its
/// last one.
pub proof fn lemma_framed_absent(a: Seq<char>, j: Seq<char>, b: Seq<char>, p: Seq<char>)
    requires
        p.len() > 0,
        !contains(j, p),
        forall|i: int| 0 <= i < a.len() ==> #[trigger] a[i] != p[0],
        forall|i: int| 0 <= i < b.len() ==> #[trigger] b[i] != p[p.len() - 1],
    ensures
        !contains(a + j + b, p),
{
    let s = a + j + b;
    let n = p.len() as int;
    lemma_find(j, p);
    assert forall|k: int| 0 <= k <= s.len() implies !starts_with(#[trigger] s.skip(k), p) by {
        if starts_with(s.skip(k), p) {
            let w = s.skip(k).take(n);
            assert(w == p);
            if k < a.len() {
                assert(w[0] == s[k]);
                assert(s[k] == a[k]);
            } else if k + n > a.len() + j.len() {
                let e = k + n - 1;
                assert(w[n - 1] == s[e]);
                assert(s[e] == b[e - a.len() - j.len()]);
            } else {
                let m = k - a.len();
                assert(j.skip(m).take(n) =~= w);
            }
        }
    }
    lemma_find_none(s, p);
}

/// `trim_start` drops exactly the leading white space.
pub proof fn lemma_trim_start(s: Seq<char>, k: int)
    requires
        0 <= k <= s.len(),
        forall|j: int| 0 <= j < k ==> is_white_space(#[trigger] s[j]),
        k == s.len() || !is_white_space(s[k]),
    ensures
        trim_start(s) == s.skip(k),
    decreases k,
{
    if k == 0 {
        assert(s.skip(0) =~= s);
    } else {
        let t = s.drop_first();
        assert forall|j: int| 0 <= j < k - 1 implies is_white_space(#[trigger] t[j]) by {
            assert(t[j] == s[j + 1]);
        }
        lemma_trim_start(t, k - 1);
        assert(t.skip(k - 1) =~= s.skip(k));
    }
}

/// `trim_end` drops exactly the trailing white space.
pub proof fn lemma_trim_end(s: Seq<char>, e: int)
    requires
        0 <= e <= s.len(),
        forall|j: int| e <= j < s.len() ==> is_white_space(#[trigger] s[j]),
        e == 0 || !is_white_space(s[e - 1]),
    ensures
        trim_end(s) == s.take(e),
    decreases s.len() - e,
{
    if e == s.len() {
        assert(s.take(e) =~= s);
    } else {
        let t = s.drop_last();
        assert forall|j: int| e <= j < t.len() implies is_white_space(#[trigger] t[j]) by {
            assert(t[j] == s[j]);
        }
        lemma_trim_end(t, e);
        assert(t.take(e) =~= s.take(e));
    }
}

// ---------------------------------------------------------------------
// Executable operations
// ---------------------------------------------------------------------

/// The characters of `s`, in order.
pub fn chars_of(s: &str) -> (v: Vec<char>)
    ensures
        v@ == s@,
{
    let mut v: Vec<char> = Vec::new();
    for c in it: s.chars()
        invariant
            v@ == it.seq().take(it.index() as int),
            it.seq() == s@,
    {
        v.push(c);
    }
    v
}

/// Whether `p` occurs in `v` at position `i`.
pub fn occurs_at(v: &Vec<char>, i: usize, p: &Vec<char>) -> (res: bool)
    requires
        i <= v.len(),
    ensures
        res == starts_with(v@.skip(i as int), p@),
{
    let n = v.len();
    let m = p.len();
    if m > n - i {
        return false;
    }
    let mut j: usize = 0;
    while j < m
        invariant
            i + m <= n,
            n == v.len(),
            m == p.len(),
            j <= m,
            forall|k: int| 0 <= k < j ==> v@[i + k] == p@[k],
        decreases m - j,
    {
        if v[i + j] != p[j] {
            assert(v@.skip(i as int).take(m as int)[j as int] != p@[j as int]);
            return false;
        }
        j = j + 1;
    }
    assert(v@.skip(i as int).take(m as int) =~= p@);
    true
}

/// The index of the first occurrence of `p` in `v`.
pub fn find_chars(v: &Vec<char>, p: &Vec<char>) -> (res: Option<usize>)
    ensures
        res matches Some(k) ==> find(v@, p@) == Some(k as nat),
        res is None ==> find(v@, p@) is None,
{
    let n = v.len();
    let mut i: usize = 0;
    while i < n
        invariant
            n == v.len(),
            i <= n,
            forall|j: int| 0 <= j < i ==> !starts_with(#[trigger] v@.skip(j), p@),
        decreases n - i,
    {
        if occurs_at(v, i, p) {
            proof {
                lemma_find_at(v@, p@, i as int);
            }
            return Some(i);
        }
        i = i + 1;
    }
    if occurs_at(v, n, p) {
        proof {
            lemma_find_at(v@, p@, n as int);
        }
        return Some(n);
    }
    proof {
        lemma_find_none(v@, p@);
    }
    None
}

/// Whether `p` is a prefix of `s`.
pub fn str_starts_with(s: &str, p: &str) -> (res: bool)
    ensures
        res == starts_with(s@, p@),
{
    let v = chars_of(s);
    let pv = chars_of(p);
    assert(v@.skip(0) =~= v@);
    occurs_at(&v, 0, &pv)
}

/// Whether `p` occurs in `s`.
pub fn str_contains(s: &str, p: &str) -> (res: bool)
    ensures
        res == contains(s@, p@),
{
    let v = chars_of(s);
    let pv = chars_of(p);
    find_chars(&v, &pv).is_some()
}

/// The parts of `s` around the first occurrence of `p`.
pub fn str_split_once(s: &str, p: &str) -> (res: Option<(String, String)>)
    ensures
        match res {
            Some((a, b)) => split_once(s@, p@) == Some((a@, b@)),
            None => split_once(s@, p@) is None,
        },
{
    let v = chars_of(s);
    let pv = chars_of(p);
    match find_chars(&v, &pv) {
        Some(k) => {
            proof {
                lemma_find(v@, p@);
            }
            let n = v.len();
            let a = s.substring_char(0, k).to_owned();
            let b = s.substring_char(k + pv.len(), n).to_owned();
            assert(a@ =~= s@.take(k as int));
            assert(b@ =~= s@.skip(k + p@.len()));
            Some((a, b))
        },
        None => None,
    }
}

/// `s` with every occurrence of `p` removed (`s.replace(p, "")`).
pub fn str_remove_all(s: &str, p: &str) -> (res: String)
    ensures
        res@ == remove_all(s@, p@),
{
    let v = chars_of(s);
    let pv = chars_of(p);
    let n = v.len();
    let m = pv.len();
    let mut out = String::new();
    let mut seg: usize = 0;
    let mut i: usize = 0;
    assert(s@.skip(0) =~= s@);
    assert(s@.subrange(0, 0) =~= Seq::<char>::empty());
    while i < n
        invariant
            n == v.len(),
            v@ == s@,
            m == p@.len(),
            pv@ == p@,
            seg <= i <= n,
            remove_all(s@, p@) == out@ + s@.subrange(seg as int, i as int) + remove_all(
                s@.skip(i as int),
                p@,
            ),
        decreases n - i,
    {
        if m > 0 && occurs_at(&v, i, &pv) {
            proof {
                lemma_remove_all_step(s@, p@, i as int);
            }
            let piece = s.substring_char(seg, i);
            out.append(piece);
            i = i + m;
            seg = i;
            assert(s@.subrange(seg as int, i as int) =~= Seq::<char>::empty());
        } else {
            proof {
                if m > 0 {
                    lemma_remove_all_step(s@, p@, i as int);
                } else {
                    assert(remove_all(s@.skip(i as int), p@) == s@.skip(i as int));
                    assert(remove_all(s@.skip(i + 1), p@) == s@.skip(i + 1));
                    assert(s@.skip(i as int) =~= seq![s@[i as int]] + s@.skip(i + 1));
                }
                assert(s@.subrange(seg as int, i + 1) =~= s@.subrange(seg as int, i as int)
                    + seq![s@[i as int]]);
            }
            i = i + 1;
        }
    }
    let rest = s.substring_char(seg, n);
    out.append(rest);
    assert(s@.skip(n as int) =~= Seq::<char>::empty());
    assert(remove_all(s@, p@) =~= out@);
    out
}

/// The view of an optional string.
pub open spec fn opt_view(o: Option<String>) -> Option<Seq<char>> {
    match o {
        Some(s) => Some(s@),
        None => None,
    }
}

/// The views of a list of strings.
pub open spec fn views(v: Seq<String>) -> Seq<Seq<char>> {
    v.map_values(|x: String| x@)
}

/// The pieces of `s` between occurrences of `p` (`s.split(p)`), for a
/// non-empty `p`.
pub fn str_split_all(s: &str, p: &str) -> (res: Vec<String>)
    requires
        p@.len() > 0,
    ensures
        views(res@) == split_all(s@, p@),
{
    let v = chars_of(s);
    let pv = chars_of(p);
    let n = v.len();
    let m = pv.len();
    let mut out: Vec<String> = Vec::new();
    let mut seg: usize = 0;
    let mut i: usize = 0;
    assert(s@.skip(0) =~= s@);
    proof {
        lemma_split_all_nonempty(s@, p@);
        assert(glue(s@.subrange(0, 0), split_all(s@, p@)) =~= split_all(s@, p@));
    }
    while i < n
        invariant
            n == v.len(),
            v@ == s@,
            m == p@.len(),
            m > 0,
            pv@ == p@,
            seg <= i <= n,
            split_all(s@, p@) == views(out@) + glue(
                s@.subrange(seg as int, i as int),
                split_all(s@.skip(i as int), p@),
            ),
        decreases n - i,
    {
        let ghost x = s@.subrange(seg as int, i as int);
        proof {
            lemma_split_all_step(s@, p@, i as int);
        }
        if occurs_at(&v, i, &pv) {
            let piece = s.substring_char(seg, i).to_owned();
            let ghost old_out = out@;
            out.push(piece);
            let ghost r = split_all(s@.skip(i + m), p@);
            proof {
                lemma_split_all_nonempty(s@.skip(i + m), p@);
                assert(glue(x, seq![Seq::<char>::empty()] + r) =~= seq![x] + r);
                assert(views(out@) =~= views(old_out) + seq![x]);
                assert(glue(Seq::<char>::empty(), r) =~= r);
            }
            i = i + m;
            seg = i;
            assert(s@.subrange(seg as int, i as int) =~= Seq::<char>::empty());
            assert(split_all(s@, p@) =~= views(out@) + glue(
                s@.subrange(seg as int, i as int),
                split_all(s@.skip(i as int), p@),
            ));
        } else {
            proof {
                lemma_split_all_nonempty(s@.skip(i + 1), p@);
                lemma_glue_glue(x, seq![s@[i as int]], split_all(s@.skip(i + 1), p@));
                assert(s@.subrange(seg as int, i + 1) =~= x + seq![s@[i as int]]);
            }
            i = i + 1;
        }
    }
    let rest = s.substring_char(seg, n).to_owned();
    let ghost old_out = out@;
    out.push(rest);
    proof {
        assert(s@.skip(n as int) =~= Seq::<char>::empty());
        let x = s@.subrange(seg as int, n as int);
        assert(glue(x, seq![Seq::<char>::empty()]) =~= seq![x]);
        assert(views(out@) =~= views(old_out) + seq![x]);
    }
    out
}

/// Whether `c` has the Unicode `White_Space` property.
pub fn char_is_white_space(c: char) -> (res: bool)
    ensures
        res == is_white_space(c),
{
    ('\u{9}' <= c && c <= '\u{d}') || c == ' ' || c == '\u{85}' || c == '\u{a0}' || c
        == '\u{1680}' || ('\u{2000}' <= c && c <= '\u{200a}') || c == '\u{2028}' || c
        == '\u{2029}' || c == '\u{202f}' || c == '\u{205f}' || c == '\u{3000}'
}

/// `s` without leading and trailing white space (`s.trim()`).
pub fn str_trim(s: &str) -> (res: String)
    ensures
        res@ == trim(s@),
{
    let v = chars_of(s);
    let n = v.len();
    let mut k: usize = 0;
    while k < n && char_is_white_space(v[k])
        invariant
            n == v.len(),
            v@ == s@,
            k <= n,
            forall|j: int| 0 <= j < k ==> is_white_space(#[trigger] s@[j]),
        decreases n - k,
    {
        k = k + 1;
    }
    proof {
        lemma_trim_start(s@, k as int);
    }
    let ghost t = s@.skip(k as int);
    let mut e: usize = n;
    while e > k && char_is_white_space(v[e - 1])
        invariant
            n == v.len(),
            v@ == s@,
            k <= e <= n,
            t == s@.skip(k as int),
            forall|j: int| e - k <= j < t.len() ==> is_white_space(#[trigger] t[j]),
        decreases e,
    {
        e = e - 1;
        assert(t[e - k] == s@[e as int]);
    }
    proof {
        if e > k {
            assert(t[e - k - 1] == s@[e - 1]);
        }
        lemma_trim_end(t, e - k);
    }
    let res = s.substring_char(k, e).to_owned();
    assert(res@ =~= t.take(e - k));
    res
}

/// `a` followed by `b`.
pub fn concat_str(a: &str, b: &str) -> (res: String)
    ensures
        res@ == a@ + b@,
{
    let mut out = a.to_owned();
    out.append(b);
    out
}

} // verus!
