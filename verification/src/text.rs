//! Character-level helpers shared by the rest of the library.
use vstd::prelude::*;

verus! {

broadcast use vstd::string::group_string_axioms;

/// `pat` occurs in `s` starting at index `i`.
pub open spec fn occurs_at(s: Seq<char>, pat: Seq<char>, i: int) -> bool {
    0 <= i && i + pat.len() <= s.len() && s.subrange(i, i + pat.len()) == pat
}

/// `pat` occurs somewhere in `s` (what `str::contains` answers).
pub open spec fn contains_seq(s: Seq<char>, pat: Seq<char>) -> bool {
    exists|i: int| occurs_at(s, pat, i)
}

/// `i` is the first position at which `pat` occurs in `s`.
pub open spec fn first_occurrence(s: Seq<char>, pat: Seq<char>, i: int) -> bool {
    occurs_at(s, pat, i) && forall|j: int| 0 <= j < i ==> !occurs_at(s, pat, j)
}

/// `i` is the first position of the character `c` in `s`.
pub open spec fn is_first_of(s: Seq<char>, c: char, i: int) -> bool {
    0 <= i < s.len() && s[i] == c && forall|j: int| 0 <= j < i ==> s[j] != c
}

/// What `str::split_once(c)` answers: the text before the first `c` and the
/// text after it, or `None` when `c` does not occur.
pub open spec fn split_once(s: Seq<char>, c: char) -> Option<(Seq<char>, Seq<char>)> {
    if exists|i: int| is_first_of(s, c, i) {
        let i = choose|i: int| is_first_of(s, c, i);
        Some((s.take(i), s.skip(i + 1)))
    } else {
        None
    }
}

/// All pieces of `s` between occurrences of `c`, as `str::split(c)` yields them
/// (empty pieces included; there is always at least one piece).
pub open spec fn split_on(s: Seq<char>, c: char) -> Seq<Seq<char>>
    decreases s.len(),
{
    match split_once(s, c) {
        None => seq![s],
        Some((head, rest)) => {
            if rest.len() < s.len() {
                seq![head] + split_on(rest, c)
            } else {
                seq![s]
            }
        },
    }
}

/// The pieces of `xs` joined with the separator `sep` between neighbours.
pub open spec fn join_with(xs: Seq<Seq<char>>, sep: char) -> Seq<char>
    decreases xs.len(),
{
    if xs.len() == 0 {
        Seq::empty()
    } else if xs.len() == 1 {
        xs[0]
    } else {
        join_with(xs.drop_last(), sep) + seq![sep] + xs.last()
    }
}

/// The characters that `char::is_whitespace` accepts: those with the Unicode
/// `White_Space` property.
pub open spec fn is_white_space(c: char) -> bool {
    ||| '\u{9}' <= c <= '\u{d}'
    ||| c == ' '
    ||| c == '\u{85}'
    ||| c == '\u{a0}'
    ||| c == '\u{1680}'
    ||| '\u{2000}' <= c <= '\u{200a}'
    ||| c == '\u{2028}'
    ||| c == '\u{2029}'
    ||| c == '\u{202f}'
    ||| c == '\u{205f}'
    ||| c == '\u{3000}'
}

/// `s` without its leading white space.
pub open spec fn trim_start(s: Seq<char>) -> Seq<char>
    decreases s.len(),
{
    if s.len() > 0 && is_white_space(s[0]) {
        trim_start(s.drop_first())
    } else {
        s
    }
}

/// `s` without its trailing white space.
pub open spec fn trim_end(s: Seq<char>) -> Seq<char>
    decreases s.len(),
{
    if s.len() > 0 && is_white_space(s.last()) {
        trim_end(s.drop_last())
    } else {
        s
    }
}

/// What `str::trim` gives back.
pub open spec fn trim(s: Seq<char>) -> Seq<char> {
    trim_end(trim_start(s))
}

/// The first occurrence of a character is unique.
pub proof fn lemma_first_of_unique(s: Seq<char>, c: char, i: int, j: int)
    requires
        is_first_of(s, c, i),
        is_first_of(s, c, j),
    ensures
        i == j,
{
    if i < j {
        assert(s[i] != c);
    } else if j < i {
        assert(s[j] != c);
    }
}

/// `split_once` splits at the first occurrence.
pub proof fn lemma_split_once_at(s: Seq<char>, c: char, i: int)
    requires
        is_first_of(s, c, i),
    ensures
        split_once(s, c) == Some((s.take(i), s.skip(i + 1))),
{
    let k = choose|k: int| is_first_of(s, c, k);
    lemma_first_of_unique(s, c, i, k);
}

/// `split_once` finds nothing where the character does not occur.
pub proof fn lemma_split_once_absent(s: Seq<char>, c: char)
    requires
        forall|j: int| 0 <= j < s.len() ==> s[j] != c,
    ensures
        split_once(s, c) is None,
        split_on(s, c) == seq![s],
{
    assert(!exists|i: int| is_first_of(s, c, i));
}

/// Splitting at a first occurrence: the head piece, then the pieces of the rest.
pub proof fn lemma_split_on_at(s: Seq<char>, c: char, i: int)
    requires
        is_first_of(s, c, i),
    ensures
        split_on(s, c) == seq![s.take(i)] + split_on(s.skip(i + 1), c),
{
    lemma_split_once_at(s, c, i);
}

/// `c` does not occur in `s`.
pub open spec fn lacks(s: Seq<char>, c: char) -> bool {
    forall|i: int| 0 <= i < s.len() ==> s[i] != c
}

/// Where a character occurs, it has a first occurrence.
pub proof fn lemma_first_exists(s: Seq<char>, c: char, j: int)
    requires
        0 <= j < s.len(),
        s[j] == c,
    ensures
        exists|i: int| is_first_of(s, c, i),
    decreases j,
{
    if forall|k: int| 0 <= k < j ==> s[k] != c {
        assert(is_first_of(s, c, j));
    } else {
        let k = choose|k: int| 0 <= k < j && s[k] == c;
        lemma_first_exists(s, c, k);
    }
}

/// The pieces of `split_on(s, c)` hold no `c`, and hold no character that `s` lacks.
pub proof fn lemma_split_on_pieces(s: Seq<char>, c: char, d: char)
    ensures
        forall|k: int| 0 <= k < split_on(s, c).len() ==> lacks(#[trigger] split_on(s, c)[k], c),
        lacks(s, d) ==> forall|k: int| 0 <= k < split_on(s, c).len() ==> lacks(#[trigger] split_on(s, c)[k], d),
    decreases s.len(),
{
    if exists|i: int| is_first_of(s, c, i) {
        let i = choose|i: int| is_first_of(s, c, i);
        lemma_split_on_at(s, c, i);
        let rest = s.skip(i + 1);
        lemma_split_on_pieces(rest, c, d);
        let ps = split_on(s, c);
        assert forall|k: int| 0 <= k < ps.len() implies lacks(#[trigger] ps[k], c) by {
            if k > 0 {
                assert(ps[k] == split_on(rest, c)[k - 1]);
            }
        }
        if lacks(s, d) {
            assert(lacks(rest, d)) by {
                assert forall|m: int| 0 <= m < rest.len() implies rest[m] != d by {
                    assert(rest[m] == s[m + i + 1]);
                }
            }
            assert forall|k: int| 0 <= k < ps.len() implies lacks(#[trigger] ps[k], d) by {
                if k > 0 {
                    assert(ps[k] == split_on(rest, c)[k - 1]);
                }
            }
        }
    } else {
        assert forall|m: int| 0 <= m < s.len() implies s[m] != c by {
            if s[m] == c {
                lemma_first_exists(s, c, m);
            }
        }
        lemma_split_once_absent(s, c);
    }
}

/// Joining two or more pieces: the first piece, the separator, then the rest joined.
pub proof fn lemma_join_front(xs: Seq<Seq<char>>, c: char)
    requires
        xs.len() >= 2,
    ensures
        join_with(xs, c) == xs[0] + seq![c] + join_with(xs.drop_first(), c),
    decreases xs.len(),
{
    let dl = xs.drop_last();
    let df = xs.drop_first();
    if xs.len() == 2 {
        assert(dl.len() == 1);
        assert(df.len() == 1);
        assert(join_with(dl, c) == xs[0]);
        assert(join_with(df, c) == xs[1]);
    } else {
        lemma_join_front(dl, c);
        assert(df.drop_last() =~= dl.drop_first());
        assert(df.last() == xs.last());
        assert(join_with(df, c) == join_with(df.drop_last(), c) + seq![c] + df.last());
        assert(join_with(xs, c) =~= xs[0] + seq![c] + join_with(df, c));
    }
}

/// A joined text lacks a character that no piece holds and that is not the separator.
pub proof fn lemma_join_lacks(xs: Seq<Seq<char>>, c: char, d: char)
    requires
        c != d,
        forall|k: int| 0 <= k < xs.len() ==> lacks(#[trigger] xs[k], d),
    ensures
        lacks(join_with(xs, c), d),
    decreases xs.len(),
{
    if xs.len() >= 2 {
        let dl = xs.drop_last();
        assert forall|k: int| 0 <= k < dl.len() implies lacks(#[trigger] dl[k], d) by {
            assert(dl[k] == xs[k]);
        }
        lemma_join_lacks(dl, c, d);
        let j = join_with(xs, c);
        let a = join_with(dl, c);
        let l = xs.last();
        assert(lacks(l, d)) by {
            assert(l == xs[xs.len() - 1]);
        }
        assert forall|i: int| 0 <= i < j.len() implies j[i] != d by {
            if i < a.len() {
                assert(j[i] == a[i]);
            } else if i > a.len() {
                assert(j[i] == l[i - a.len() - 1]);
            }
        }
    } else if xs.len() == 1 {
        assert(lacks(xs[0], d));
    }
}

/// Splitting a joined text at its separator gives the pieces back, when no
/// piece holds the separator.
pub proof fn lemma_split_join(xs: Seq<Seq<char>>, c: char)
    requires
        xs.len() > 0,
        forall|k: int| 0 <= k < xs.len() ==> lacks(#[trigger] xs[k], c),
    ensures
        split_on(join_with(xs, c), c) == xs,
    decreases xs.len(),
{
    if xs.len() == 1 {
        assert(lacks(xs[0], c));
        lemma_split_once_absent(xs[0], c);
        assert(seq![xs[0]] =~= xs);
    } else {
        let df = xs.drop_first();
        lemma_join_front(xs, c);
        let j = join_with(xs, c);
        let x0 = xs[0];
        let n = x0.len() as int;
        assert(lacks(x0, c));
        assert(is_first_of(j, c, n)) by {
            assert forall|m: int| 0 <= m < n implies j[m] != c by {
                assert(j[m] == x0[m]);
            }
        }
        lemma_split_on_at(j, c, n);
        assert(j.take(n) =~= x0);
        assert(j.skip(n + 1) =~= join_with(df, c));
        assert forall|k: int| 0 <= k < df.len() implies lacks(#[trigger] df[k], c) by {
            assert(df[k] == xs[k + 1]);
        }
        lemma_split_join(df, c);
        assert(seq![x0] + df =~= xs);
    }
}

/// Appends one character to a `String` (`String::push`).
#[verifier::external_body]
fn push_char(s: &mut String, c: char)
    ensures
        final(s)@ == old(s)@.push(c),
{
    s.push(c);
}

/// The characters of `s`, in order.
pub fn chars_of(s: &str) -> (v: Vec<char>)
    ensures
        v@ == s@,
{
    let n = s.unicode_len();
    let mut v: Vec<char> = Vec::new();
    let mut i: usize = 0;
    while i < n
        invariant
            n == s@.len(),
            i <= n,
            v@ == s@.take(i as int),
        decreases n - i,
    {
        v.push(s.get_char(i));
        i = i + 1;
        assert(v@ =~= s@.take(i as int));
    }
    assert(v@ =~= s@);
    v
}

/// Appends `v[lo..hi]` to `out`.
pub fn push_range(out: &mut String, v: &Vec<char>, lo: usize, hi: usize)
    requires
        lo <= hi <= v.len(),
    ensures
        final(out)@ == old(out)@ + v@.subrange(lo as int, hi as int),
{
    let mut i = lo;
    while i < hi
        invariant
            lo <= i <= hi <= v.len(),
            out@ == old(out)@ + v@.subrange(lo as int, i as int),
        decreases hi - i,
    {
        push_char(out, v[i]);
        i = i + 1;
        assert(out@ =~= old(out)@ + v@.subrange(lo as int, i as int));
    }
}

/// Appends one character to `out`.
pub fn push_one(out: &mut String, c: char)
    ensures
        final(out)@ == old(out)@.push(c),
{
    push_char(out, c);
}

/// The characters `v[lo..hi]` as a new `String`.
pub fn string_of_range(v: &Vec<char>, lo: usize, hi: usize) -> (s: String)
    requires
        lo <= hi <= v.len(),
    ensures
        s@ == v@.subrange(lo as int, hi as int),
{
    let mut s = String::new();
    push_range(&mut s, v, lo, hi);
    assert(s@ =~= v@.subrange(lo as int, hi as int));
    s
}

/// Position of the first `c` in `v[lo..hi]`, if any.
pub fn find_char(v: &Vec<char>, c: char, lo: usize, hi: usize) -> (r: Option<usize>)
    requires
        lo <= hi <= v.len(),
    ensures
        match r {
            Some(i) => lo <= i < hi && is_first_of(v@.subrange(lo as int, hi as int), c, i - lo),
            None => forall|j: int| lo <= j < hi ==> v@[j] != c,
        },
{
    let mut i = lo;
    while i < hi
        invariant
            lo <= i <= hi <= v.len(),
            forall|j: int| lo <= j < i ==> v@[j] != c,
        decreases hi - i,
    {
        if v[i] == c {
            return Some(i);
        }
        i = i + 1;
    }
    None
}

/// Whether `v[i..]` starts with `pat`.
pub fn occurs_at_exec(v: &Vec<char>, pat: &[char], i: usize) -> (b: bool)
    requires
        i <= v.len(),
    ensures
        b == occurs_at(v@, pat@, i as int),
{
    if pat.len() > v.len() - i {
        return false;
    }
    let mut k: usize = 0;
    while k < pat.len()
        invariant
            i + pat@.len() <= v@.len(),
            v@.len() == v.len(),
            k <= pat@.len(),
            forall|j: int| 0 <= j < k ==> v@[i + j] == pat@[j],
        decreases pat.len() - k,
    {
        if v[i + k] != pat[k] {
            assert(v@.subrange(i as int, i + pat@.len())[k as int] != pat@[k as int]);
            return false;
        }
        k = k + 1;
    }
    assert(v@.subrange(i as int, i + pat@.len()) =~= pat@);
    true
}

/// Position of the first occurrence of a non-empty `pat` in `v`, if any.
pub fn find_seq(v: &Vec<char>, pat: &[char]) -> (r: Option<usize>)
    requires
        pat@.len() > 0,
    ensures
        match r {
            Some(i) => first_occurrence(v@, pat@, i as int),
            None => !contains_seq(v@, pat@),
        },
{
    let mut i: usize = 0;
    while i < v.len()
        invariant
            i <= v.len(),
            forall|j: int| 0 <= j < i ==> !occurs_at(v@, pat@, j),
        decreases v.len() - i,
    {
        if occurs_at_exec(v, pat, i) {
            return Some(i);
        }
        i = i + 1;
    }
    assert forall|j: int| !occurs_at(v@, pat@, j) by {
        if 0 <= j < i {
        }
    }
    None
}

/// Leading white space up to a non-space character is what `trim_start` drops.
pub proof fn lemma_trim_start_at(s: Seq<char>, k: int)
    requires
        0 <= k <= s.len(),
        forall|j: int| 0 <= j < k ==> is_white_space(s[j]),
        k == s.len() || !is_white_space(s[k]),
    ensures
        trim_start(s) == s.skip(k),
    decreases k,
{
    if k == 0 {
        assert(s.skip(0) =~= s);
    } else {
        let t = s.drop_first();
        assert forall|j: int| 0 <= j < k - 1 implies is_white_space(t[j]) by {
            assert(t[j] == s[j + 1]);
        }
        lemma_trim_start_at(t, k - 1);
        assert(t.skip(k - 1) =~= s.skip(k));
    }
}

/// Trailing white space after a non-space character is what `trim_end` drops.
pub proof fn lemma_trim_end_at(s: Seq<char>, k: int)
    requires
        0 <= k <= s.len(),
        forall|j: int| k <= j < s.len() ==> is_white_space(s[j]),
        k == 0 || !is_white_space(s[k - 1]),
    ensures
        trim_end(s) == s.take(k),
    decreases s.len() - k,
{
    if k == s.len() {
        assert(s.take(k) =~= s);
    } else {
        let t = s.drop_last();
        assert forall|j: int| k <= j < t.len() implies is_white_space(t[j]) by {
            assert(t[j] == s[j]);
        }
        lemma_trim_end_at(t, k);
        assert(t.take(k) =~= s.take(k));
    }
}

/// `trim_start` drops a prefix, and what remains does not start with white space.
pub proof fn lemma_trim_start_shape(s: Seq<char>) -> (k: int)
    ensures
        0 <= k <= s.len(),
        trim_start(s) == s.skip(k),
        trim_start(s).len() > 0 ==> !is_white_space(trim_start(s)[0]),
        forall|j: int| 0 <= j < k ==> is_white_space(#[trigger] s[j]),
    decreases s.len(),
{
    if s.len() > 0 && is_white_space(s[0]) {
        let t = s.drop_first();
        let k1 = lemma_trim_start_shape(t);
        assert(t.skip(k1) =~= s.skip(k1 + 1));
        assert forall|j: int| 0 <= j < k1 + 1 implies is_white_space(#[trigger] s[j]) by {
            if j > 0 {
                assert(s[j] == t[j - 1]);
            }
        }
        k1 + 1
    } else {
        assert(s.skip(0) =~= s);
        0
    }
}

/// `trim_end` keeps a prefix, and what remains does not end with white space.
pub proof fn lemma_trim_end_shape(s: Seq<char>) -> (k: int)
    ensures
        0 <= k <= s.len(),
        trim_end(s) == s.take(k),
        trim_end(s).len() > 0 ==> !is_white_space(trim_end(s).last()),
        forall|j: int| k <= j < s.len() ==> is_white_space(#[trigger] s[j]),
    decreases s.len(),
{
    if s.len() > 0 && is_white_space(s.last()) {
        let t = s.drop_last();
        let k1 = lemma_trim_end_shape(t);
        assert(t.take(k1) =~= s.take(k1));
        assert forall|j: int| k1 <= j < s.len() implies is_white_space(#[trigger] s[j]) by {
            if j < s.len() - 1 {
                assert(s[j] == t[j]);
            }
        }
        k1
    } else {
        assert(s.take(s.len() as int) =~= s);
        s.len() as int
    }
}

/// `trim` keeps a stretch of its input that neither starts nor ends with
/// white space.
pub proof fn lemma_trim_shape(s: Seq<char>) -> (r: (int, int))
    ensures
        0 <= r.0 <= r.1 <= s.len(),
        trim(s) == s.subrange(r.0, r.1),
        trim(s).len() > 0 ==> !is_white_space(trim(s)[0]) && !is_white_space(trim(s).last()),
        forall|j: int| 0 <= j < r.0 ==> is_white_space(#[trigger] s[j]),
        forall|j: int| r.1 <= j < s.len() ==> is_white_space(#[trigger] s[j]),
{
    let a = lemma_trim_start_shape(s);
    let t = trim_start(s);
    let b = lemma_trim_end_shape(t);
    assert(t.take(b) =~= s.subrange(a, a + b));
    assert forall|j: int| a + b <= j < s.len() implies is_white_space(#[trigger] s[j]) by {
        assert(s[j] == t[j - a]);
    }
    if trim(s).len() > 0 {
        assert(trim(s)[0] == t[0]);
    }
    (a, a + b)
}

/// Law: trimming twice gives what trimming once gives, and a trimmed text
/// neither starts nor ends with white space.
pub proof fn law_trim_idempotent(s: Seq<char>)
    ensures
        trim(trim(s)) == trim(s),
        trim(s).len() > 0 ==> !is_white_space(trim(s)[0]) && !is_white_space(trim(s).last()),
{
    let _ = lemma_trim_shape(s);
    let t = trim(s);
    lemma_trim_start_at(t, 0);
    assert(t.skip(0) =~= t);
    lemma_trim_end_at(t, t.len() as int);
    assert(t.take(t.len() as int) =~= t);
}

/// Whether `c` is white space (`char::is_whitespace`).
pub fn is_whitespace_char(c: char) -> (b: bool)
    ensures
        b == is_white_space(c),
{
    ('\u{9}' <= c && c <= '\u{d}') || c == ' ' || c == '\u{85}' || c == '\u{a0}' || c == '\u{1680}'
        || ('\u{2000}' <= c && c <= '\u{200a}') || c == '\u{2028}' || c == '\u{2029}' || c
        == '\u{202f}' || c == '\u{205f}' || c == '\u{3000}'
}

/// The bounds of `v` without its leading and trailing white space.
pub fn trim_bounds(v: &Vec<char>) -> (r: (usize, usize))
    ensures
        r.0 <= r.1 <= v.len(),
        v@.subrange(r.0 as int, r.1 as int) == trim(v@),
{
    let n = v.len();
    let mut lo: usize = 0;
    while lo < n && is_whitespace_char(v[lo])
        invariant
            lo <= n == v.len(),
            forall|j: int| 0 <= j < lo ==> is_white_space(v@[j]),
        decreases n - lo,
    {
        lo = lo + 1;
    }
    proof {
        lemma_trim_start_at(v@, lo as int);
    }
    let ghost t = v@.skip(lo as int);
    let mut hi: usize = n;
    while hi > lo && is_whitespace_char(v[hi - 1])
        invariant
            lo <= hi <= n == v.len(),
            t == v@.skip(lo as int),
            forall|j: int| hi <= j < n ==> is_white_space(v@[j]),
        decreases hi,
    {
        hi = hi - 1;
    }
    proof {
        assert forall|j: int| hi - lo <= j < t.len() implies is_white_space(t[j]) by {
            assert(t[j] == v@[j + lo]);
        }
        if hi > lo {
            assert(t[hi - lo - 1] == v@[hi - 1]);
        }
        lemma_trim_end_at(t, hi - lo);
        assert(t.take(hi - lo) =~= v@.subrange(lo as int, hi as int));
    }
    (lo, hi)
}

/// `s` without its leading and trailing white space (`str::trim`).
pub fn trim_str(s: &str) -> (r: String)
    ensures
        r@ == trim(s@),
{
    let v = chars_of(s);
    let (lo, hi) = trim_bounds(&v);
    string_of_range(&v, lo, hi)
}

} // verus!
