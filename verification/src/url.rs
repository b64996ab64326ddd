//! Recognising playlist and video URLs, and removing playlist parameters.
use vstd::prelude::*;
use crate::text::{
    chars_of, contains_seq, find_char, find_seq, first_occurrence, is_first_of, join_with, lacks,
    lemma_first_exists, lemma_join_lacks, lemma_split_join, lemma_split_on_at, lemma_split_on_pieces, lemma_split_once_absent, lemma_split_once_at, occurs_at, occurs_at_exec,
    push_one, push_range, split_on, split_once, string_of_range,
};

verus! {

broadcast use vstd::string::group_string_axioms;

/// `list=`
pub open spec fn list_param() -> Seq<char> {
    seq!['l', 'i', 's', 't', '=']
}

/// `/playlist`
pub open spec fn playlist_path() -> Seq<char> {
    seq!['/', 'p', 'l', 'a', 'y', 'l', 'i', 's', 't']
}

/// `v=`
pub open spec fn video_param() -> Seq<char> {
    seq!['v', '=']
}

/// `youtu.be/`
pub open spec fn short_host() -> Seq<char> {
    seq!['y', 'o', 'u', 't', 'u', '.', 'b', 'e', '/']
}

/// `playlist`
pub open spec fn playlist_word() -> Seq<char> {
    seq!['p', 'l', 'a', 'y', 'l', 'i', 's', 't']
}

/// A URL names a playlist when it holds `list=` or `/playlist` anywhere.
pub open spec fn spec_is_playlist_url(url: Seq<char>) -> bool {
    contains_seq(url, list_param()) || contains_seq(url, playlist_path())
}

/// The characters that end the path segment after `youtu.be/`.
pub open spec fn ends_segment(c: char) -> bool {
    c == '?' || c == '#' || c == '/'
}

/// `k` is where the first path segment of `s` ends: at the first `?`, `#`
/// or `/`, or at the end of `s`.
pub open spec fn segment_end(s: Seq<char>, k: int) -> bool {
    &&& 0 <= k <= s.len()
    &&& (k == s.len() || ends_segment(s[k]))
    &&& forall|j: int| 0 <= j < k ==> !ends_segment(s[j])
}

/// The first path segment of `s`.
pub open spec fn first_segment(s: Seq<char>) -> Seq<char> {
    s.take(choose|k: int| segment_end(s, k))
}

/// The text that follows the first `youtu.be/` in `url`.
pub open spec fn after_short_host(url: Seq<char>) -> Seq<char> {
    url.skip((choose|i: int| first_occurrence(url, short_host(), i)) + short_host().len())
}

/// A URL refers to one video when it holds `v=`, or when the path segment
/// after its first `youtu.be/` is neither empty nor `playlist`.
pub open spec fn spec_has_video_reference(url: Seq<char>) -> bool {
    ||| contains_seq(url, video_param())
    ||| {
        &&& contains_seq(url, short_host())
        &&& first_segment(after_short_host(url)).len() > 0
        &&& first_segment(after_short_host(url)) != playlist_word()
    }
}

/// Whether `url` points at a playlist.
pub fn is_playlist_url(url: &str) -> (b: bool)
    ensures
        b == spec_is_playlist_url(url@),
{
    let v = chars_of(url);
    let list: [char; 5] = ['l', 'i', 's', 't', '='];
    let path: [char; 9] = ['/', 'p', 'l', 'a', 'y', 'l', 'i', 's', 't'];
    assert(list@ =~= list_param());
    assert(path@ =~= playlist_path());
    find_seq(&v, &list).is_some() || find_seq(&v, &path).is_some()
}

proof fn lemma_first_occurrence_unique(s: Seq<char>, pat: Seq<char>, i: int, j: int)
    requires
        first_occurrence(s, pat, i),
        first_occurrence(s, pat, j),
    ensures
        i == j,
{
}

proof fn lemma_segment_end_unique(s: Seq<char>, i: int, j: int)
    requires
        segment_end(s, i),
        segment_end(s, j),
    ensures
        i == j,
{
    if i < j {
        assert(!ends_segment(s[i]));
    } else if j < i {
        assert(!ends_segment(s[j]));
    }
}

/// Law: a URL is a playlist URL exactly when it holds `list=` or `/playlist`.
pub proof fn law_playlist_url_markers(url: Seq<char>)
    ensures
        spec_is_playlist_url(url) == (contains_seq(url, seq!['l', 'i', 's', 't', '='])
            || contains_seq(url, seq!['/', 'p', 'l', 'a', 'y', 'l', 'i', 's', 't'])),
{
    assert(list_param() =~= seq!['l', 'i', 's', 't', '=']);
    assert(playlist_path() =~= seq!['/', 'p', 'l', 'a', 'y', 'l', 'i', 's', 't']);
}

/// Law: a URL that holds `v=` anywhere refers to a video.
pub proof fn law_v_param_is_video(url: Seq<char>)
    requires
        contains_seq(url, seq!['v', '=']),
    ensures
        spec_has_video_reference(url),
{
}

/// Law: a URL that holds neither `v=` nor `youtu.be/` refers to no video.
pub proof fn law_no_marker_no_video(url: Seq<char>)
    requires
        !contains_seq(url, seq!['v', '=']),
        !contains_seq(url, seq!['y', 'o', 'u', 't', 'u', '.', 'b', 'e', '/']),
    ensures
        !spec_has_video_reference(url),
{
}

/// Law: for a URL without `v=` whose first `youtu.be/` starts at `p`, and
/// whose text after it runs up to `k`, the first `?`, `#` or `/` (or the
/// end), the URL refers to a video exactly when that text is not empty and
/// is not `playlist`.
pub proof fn law_short_link_segment(url: Seq<char>, p: int, k: int)
    requires
        !contains_seq(url, seq!['v', '=']),
        first_occurrence(url, seq!['y', 'o', 'u', 't', 'u', '.', 'b', 'e', '/'], p),
        p + 9 <= k <= url.len(),
        forall|j: int| p + 9 <= j < k ==> !(url[j] == '?' || url[j] == '#' || #[trigger] url[j] == '/'),
        k == url.len() || url[k] == '?' || url[k] == '#' || url[k] == '/',
    ensures
        spec_has_video_reference(url) == (k > p + 9 && url.subrange(p + 9, k) != seq![
            'p',
            'l',
            'a',
            'y',
            'l',
            'i',
            's',
            't',
        ]),
{
    assert(short_host() =~= seq!['y', 'o', 'u', 't', 'u', '.', 'b', 'e', '/']);
    assert(first_occurrence(url, short_host(), p));
    let q = choose|i: int| first_occurrence(url, short_host(), i);
    lemma_first_occurrence_unique(url, short_host(), p, q);
    let after = url.skip(p + 9);
    assert(after == after_short_host(url));
    let e = k - (p + 9);
    assert(segment_end(after, e)) by {
        assert forall|j: int| 0 <= j < e implies !ends_segment(after[j]) by {
            assert(after[j] == url[p + 9 + j]);
        }
        if e < after.len() {
            assert(after[e] == url[k]);
        }
    }
    let e2 = choose|e2: int| segment_end(after, e2);
    lemma_segment_end_unique(after, e, e2);
    assert(first_segment(after) =~= url.subrange(p + 9, k));
    assert(playlist_word() =~= seq!['p', 'l', 'a', 'y', 'l', 'i', 's', 't']);
    assert(contains_seq(url, short_host()));
}

/// Whether `url` refers to a single video.
pub fn has_video_reference(url: &str) -> (b: bool)
    ensures
        b == spec_has_video_reference(url@),
{
    let v = chars_of(url);
    let vparam: [char; 2] = ['v', '='];
    let host: [char; 9] = ['y', 'o', 'u', 't', 'u', '.', 'b', 'e', '/'];
    let word: [char; 8] = ['p', 'l', 'a', 'y', 'l', 'i', 's', 't'];
    assert(vparam@ =~= video_param());
    assert(host@ =~= short_host());
    assert(word@ =~= playlist_word());
    if find_seq(&v, &vparam).is_some() {
        return true;
    }
    match find_seq(&v, &host) {
        None => false,
        Some(pos) => {
            assert(occurs_at(v@, short_host(), pos as int));
            let n = v.len();
            assert(pos + 9 <= n);
            let start = pos + 9;
            let ghost after = v@.skip(start as int);
            proof {
                let p = choose|i: int| first_occurrence(v@, short_host(), i);
                lemma_first_occurrence_unique(v@, short_host(), p, pos as int);
                assert(after == after_short_host(v@));
            }
            let mut k = start;
            while k < v.len()
                invariant
                    start <= k <= v.len(),
                    after == v@.skip(start as int),
                    forall|j: int| start <= j < k ==> !ends_segment(v@[j]),
                ensures
                    start <= k <= v.len(),
                    forall|j: int| start <= j < k ==> !ends_segment(v@[j]),
                    k == v.len() || ends_segment(v@[k as int]),
                decreases v.len() - k,
            {
                let c = v[k];
                if c == '?' || c == '#' || c == '/' {
                    break;
                }
                k = k + 1;
            }
            proof {
                let e = (k - start) as int;
                assert(segment_end(after, e));
                let e2 = choose|e2: int| segment_end(after, e2);
                lemma_segment_end_unique(after, e, e2);
                assert(first_segment(after) =~= v@.subrange(start as int, k as int));
            }
            let len = k - start;
            if len == 0 {
                false
            } else if len == 8 && occurs_at_exec(&v, &word, start) {
                proof {
                    assert(v@.subrange(start as int, k as int) =~= playlist_word());
                }
                false
            } else {
                proof {
                    if v@.subrange(start as int, k as int) == playlist_word() {
                        assert(occurs_at(v@, word@, start as int));
                    }
                }
                true
            }
        },
    }
}

/// `list`
pub open spec fn list_key() -> Seq<char> {
    seq!['l', 'i', 's', 't']
}

/// `index`
pub open spec fn index_key() -> Seq<char> {
    seq!['i', 'n', 'd', 'e', 'x']
}

/// `start_radio`
pub open spec fn start_radio_key() -> Seq<char> {
    seq!['s', 't', 'a', 'r', 't', '_', 'r', 'a', 'd', 'i', 'o']
}

/// The query keys that tie a video URL to a playlist.
pub open spec fn is_playlist_key(key: Seq<char>) -> bool {
    key == list_key() || key == index_key() || key == start_radio_key()
}

/// The key of a query pair: the text before its first `=`, or the whole pair.
pub open spec fn pair_key(pair: Seq<char>) -> Seq<char> {
    match split_once(pair, '=') {
        Some((key, _)) => key,
        None => pair,
    }
}

/// A query pair survives when it is not empty and its key is not a playlist key.
pub open spec fn keeps_pair(pair: Seq<char>) -> bool {
    pair.len() > 0 && !is_playlist_key(pair_key(pair))
}

/// The pairs of `pairs` that survive, in their order.
pub open spec fn kept_pairs(pairs: Seq<Seq<char>>) -> Seq<Seq<char>>
    decreases pairs.len(),
{
    if pairs.len() == 0 {
        pairs
    } else {
        let rest = kept_pairs(pairs.drop_last());
        if keeps_pair(pairs.last()) {
            rest.push(pairs.last())
        } else {
            rest
        }
    }
}

/// The query text written for the surviving pairs: nothing when none survive,
/// else `?` and the pairs joined by `&`.
pub open spec fn query_text(kept: Seq<Seq<char>>) -> Seq<char> {
    if kept.len() > 0 {
        seq!['?'] + join_with(kept, '&')
    } else {
        Seq::empty()
    }
}

/// The part of a URL before its first `#`, and the fragment after it.
pub open spec fn split_fragment(url: Seq<char>) -> (Seq<char>, Option<Seq<char>>) {
    match split_once(url, '#') {
        Some((main, fragment)) => (main, Some(fragment)),
        None => (url, None),
    }
}

/// The part of a URL (without fragment) before its first `?`, and the query after it.
pub open spec fn split_query(main: Seq<char>) -> (Seq<char>, Option<Seq<char>>) {
    match split_once(main, '?') {
        Some((base, query)) => (base, Some(query)),
        None => (main, None),
    }
}

/// The surviving pairs of an optional query.
pub open spec fn kept_query_pairs(query: Option<Seq<char>>) -> Seq<Seq<char>> {
    match query {
        Some(q) => kept_pairs(split_on(q, '&')),
        None => Seq::empty(),
    }
}

/// The fragment written back: nothing, or `#` and the fragment.
pub open spec fn fragment_text(fragment: Option<Seq<char>>) -> Seq<char> {
    match fragment {
        Some(f) => seq!['#'] + f,
        None => Seq::empty(),
    }
}

/// `url` with the `list`, `index` and `start_radio` query pairs (and empty
/// pairs) taken out; the other pairs keep their order, and the base and the
/// fragment are kept as they are.
pub open spec fn spec_strip_playlist_params(url: Seq<char>) -> Seq<char> {
    let (main, fragment) = split_fragment(url);
    let (base, query) = split_query(main);
    base + query_text(kept_query_pairs(query)) + fragment_text(fragment)
}

/// The surviving pairs are pairs of the input that survive.
proof fn lemma_kept_pairs_from(ps: Seq<Seq<char>>, d: char)
    requires
        forall|k: int| 0 <= k < ps.len() ==> lacks(#[trigger] ps[k], d),
    ensures
        forall|k: int| 0 <= k < kept_pairs(ps).len() ==> keeps_pair(#[trigger] kept_pairs(ps)[k])
            && lacks(kept_pairs(ps)[k], d),
    decreases ps.len(),
{
    if ps.len() > 0 {
        let dl = ps.drop_last();
        assert forall|k: int| 0 <= k < dl.len() implies lacks(#[trigger] dl[k], d) by {
            assert(dl[k] == ps[k]);
        }
        lemma_kept_pairs_from(dl, d);
        assert(lacks(ps.last(), d)) by {
            assert(ps.last() == ps[ps.len() - 1]);
        }
        let kp = kept_pairs(ps);
        let rest = kept_pairs(dl);
        assert forall|k: int| 0 <= k < kp.len() implies keeps_pair(#[trigger] kp[k]) && lacks(kp[k], d) by {
            if k < rest.len() {
                assert(kp[k] == rest[k]);
            }
        }
    }
}

/// Where every pair survives, all are kept.
proof fn lemma_kept_pairs_all(ps: Seq<Seq<char>>)
    requires
        forall|k: int| 0 <= k < ps.len() ==> keeps_pair(#[trigger] ps[k]),
    ensures
        kept_pairs(ps) == ps,
    decreases ps.len(),
{
    if ps.len() > 0 {
        let dl = ps.drop_last();
        assert forall|k: int| 0 <= k < dl.len() implies keeps_pair(#[trigger] dl[k]) by {
            assert(dl[k] == ps[k]);
        }
        lemma_kept_pairs_all(dl);
        assert(keeps_pair(ps[ps.len() - 1]));
        assert(dl.push(ps.last()) =~= ps);
    }
}

/// `split_fragment` cuts at the first `#`.
proof fn lemma_split_fragment(url: Seq<char>)
    ensures
        lacks(split_fragment(url).0, '#'),
        split_fragment(url).0 + fragment_text(split_fragment(url).1) == url,
{
    if exists|i: int| is_first_of(url, '#', i) {
        let i = choose|i: int| is_first_of(url, '#', i);
        assert(url.take(i) + (seq!['#'] + url.skip(i + 1)) =~= url);
    } else {
        assert forall|m: int| 0 <= m < url.len() implies url[m] != '#' by {
            if url[m] == '#' {
                lemma_first_exists(url, '#', m);
            }
        }
        assert(url + Seq::<char>::empty() =~= url);
    }
}

/// `split_query` cuts at the first `?`; neither part gains a character.
proof fn lemma_split_query(main: Seq<char>, d: char)
    ensures
        lacks(split_query(main).0, '?'),
        lacks(main, d) ==> lacks(split_query(main).0, d),
        split_query(main).1 matches Some(q) ==> (lacks(main, d) ==> lacks(q, d)),
        split_query(main).1 is None ==> split_query(main).0 == main,
{
    if exists|i: int| is_first_of(main, '?', i) {
        let i = choose|i: int| is_first_of(main, '?', i);
        let q = main.skip(i + 1);
        assert forall|m: int| 0 <= m < q.len() implies q[m] == main[m + i + 1] by {}
    } else {
        assert forall|m: int| 0 <= m < main.len() implies main[m] != '?' by {
            if main[m] == '?' {
                lemma_first_exists(main, '?', m);
            }
        }
    }
}

/// Law: a URL without a query (before its fragment) comes back unchanged.
pub proof fn law_strip_without_query(url: Seq<char>)
    requires
        split_query(split_fragment(url).0).1 is None,
    ensures
        spec_strip_playlist_params(url) == url,
{
    lemma_split_fragment(url);
    lemma_split_query(split_fragment(url).0, '#');
    assert(split_fragment(url).0 + Seq::<char>::empty() =~= split_fragment(url).0);
}

/// Law: a URL without any `?` comes back unchanged.
pub proof fn law_strip_no_question_mark(url: Seq<char>)
    requires
        lacks(url, '?'),
    ensures
        spec_strip_playlist_params(url) == url,
{
    lemma_split_fragment(url);
    let main = split_fragment(url).0;
    assert(lacks(main, '?')) by {
        if exists|i: int| is_first_of(url, '#', i) {
            let i = choose|i: int| is_first_of(url, '#', i);
            assert forall|m: int| 0 <= m < main.len() implies main[m] != '?' by {
                assert(main[m] == url[m]);
            }
        }
    }
    lemma_split_once_absent(main, '?');
    law_strip_without_query(url);
}

/// Law: removing the playlist parameters twice gives what removing them once
/// gives.
pub proof fn law_strip_idempotent(url: Seq<char>)
    ensures
        spec_strip_playlist_params(spec_strip_playlist_params(url)) == spec_strip_playlist_params(url),
{
    let (main, fragment) = split_fragment(url);
    let (base, query) = split_query(main);
    let kept = kept_query_pairs(query);
    let qt = query_text(kept);
    let ft = fragment_text(fragment);
    let r = spec_strip_playlist_params(url);
    lemma_split_fragment(url);
    lemma_split_query(main, '#');
    assert(r == base + qt + ft);
    // The surviving pairs hold no `&` and no `#`, and all survive.
    match query {
        Some(q) => {
            lemma_split_on_pieces(q, '&', '#');
            lemma_kept_pairs_from(split_on(q, '&'), '#');
            lemma_kept_pairs_from(split_on(q, '&'), '&');
        },
        None => {},
    }
    assert(forall|k: int| 0 <= k < kept.len() ==> keeps_pair(#[trigger] kept[k]) && lacks(kept[k], '#')
        && lacks(kept[k], '&'));
    // The rebuilt main part holds no `#`.
    let main2 = base + qt;
    if kept.len() > 0 {
        lemma_join_lacks(kept, '&', '#');
    }
    assert(lacks(main2, '#')) by {
        assert forall|m: int| 0 <= m < main2.len() implies main2[m] != '#' by {
            if m >= base.len() && kept.len() > 0 {
                assert(main2[m] == qt[m - base.len()]);
                if m > base.len() {
                    assert(qt[m - base.len()] == join_with(kept, '&')[m - base.len() - 1]);
                }
            }
        }
    }
    // Fragment of the result.
    match fragment {
        Some(f) => {
            assert(is_first_of(r, '#', main2.len() as int)) by {
                assert forall|m: int| 0 <= m < main2.len() implies r[m] != '#' by {
                    assert(r[m] == main2[m]);
                }
                assert(r[main2.len() as int] == '#');
            }
            lemma_split_once_at(r, '#', main2.len() as int);
            assert(r.take(main2.len() as int) =~= main2);
            assert(r.skip(main2.len() as int + 1) =~= f);
        },
        None => {
            assert(r =~= main2);
            lemma_split_once_absent(r, '#');
        },
    }
    assert(split_fragment(r) == (main2, fragment));
    // Query of the result.
    if kept.len() > 0 {
        let j = join_with(kept, '&');
        assert(is_first_of(main2, '?', base.len() as int)) by {
            assert forall|m: int| 0 <= m < base.len() implies main2[m] != '?' by {
                assert(main2[m] == base[m]);
            }
        }
        lemma_split_once_at(main2, '?', base.len() as int);
        assert(main2.take(base.len() as int) =~= base);
        assert(main2.skip(base.len() as int + 1) =~= j);
        lemma_split_join(kept, '&');
        lemma_kept_pairs_all(kept);
        assert(split_query(main2) == (base, Some(j)));
        assert(kept_query_pairs(Some(j)) == kept);
    } else {
        assert(main2 =~= base);
        lemma_split_once_absent(main2, '?');
    }
}

proof fn lemma_kept_pairs_is_filter(ps: Seq<Seq<char>>, pred: spec_fn(Seq<char>) -> bool)
    requires
        forall|p: Seq<char>| #[trigger] pred(p) == keeps_pair(p),
    ensures
        kept_pairs(ps) == ps.filter(pred),
    decreases ps.len(),
{
    reveal(Seq::filter);
    if ps.len() > 0 {
        lemma_kept_pairs_is_filter(ps.drop_last(), pred);
        assert(keeps_pair(ps.last()) == pred(ps.last()));
    }
}

/// Law: for a URL made of a base (without `?` or `#`), `?`, query pairs
/// (without `&` or `#`) joined by `&`, and an optional `#` fragment, removing
/// the playlist parameters keeps the base, exactly the pairs that are not
/// empty and whose key is not `list`, `index` or `start_radio`, in their
/// order (with `?` before them when any remain), and the fragment.
pub proof fn law_strip_keeps_exactly_other_pairs(
    base: Seq<char>,
    pairs: Seq<Seq<char>>,
    fragment: Option<Seq<char>>,
)
    requires
        lacks(base, '?'),
        lacks(base, '#'),
        pairs.len() > 0,
        forall|k: int| 0 <= k < pairs.len() ==> lacks(#[trigger] pairs[k], '&') && lacks(pairs[k], '#'),
    ensures
        ({
            let url = base + seq!['?'] + join_with(pairs, '&') + fragment_text(fragment);
            let kept = pairs.filter(
                |p: Seq<char>|
                    {
                        let key = match split_once(p, '=') {
                            Some((k, _)) => k,
                            None => p,
                        };
                        p.len() > 0 && !(key == seq!['l', 'i', 's', 't'] || key == seq![
                            'i',
                            'n',
                            'd',
                            'e',
                            'x',
                        ] || key == seq!['s', 't', 'a', 'r', 't', '_', 'r', 'a', 'd', 'i', 'o'])
                    },
            );
            spec_strip_playlist_params(url) == base + (if kept.len() > 0 {
                seq!['?'] + join_with(kept, '&')
            } else {
                Seq::<char>::empty()
            }) + fragment_text(fragment)
        }),
{
    let j = join_with(pairs, '&');
    let main = base + seq!['?'] + j;
    let url = main + fragment_text(fragment);
    assert forall|k: int| 0 <= k < pairs.len() implies lacks(#[trigger] pairs[k], '#') by {}
    lemma_join_lacks(pairs, '&', '#');
    assert(lacks(main, '#')) by {
        assert forall|m: int| 0 <= m < main.len() implies main[m] != '#' by {
            if m > base.len() {
                assert(main[m] == j[m - base.len() - 1]);
            }
        }
    }
    match fragment {
        Some(f) => {
            assert(is_first_of(url, '#', main.len() as int)) by {
                assert forall|m: int| 0 <= m < main.len() implies url[m] != '#' by {
                    assert(url[m] == main[m]);
                }
            }
            lemma_split_once_at(url, '#', main.len() as int);
            assert(url.take(main.len() as int) =~= main);
            assert(url.skip(main.len() as int + 1) =~= f);
        },
        None => {
            assert(url =~= main);
            lemma_split_once_absent(url, '#');
        },
    }
    assert(is_first_of(main, '?', base.len() as int)) by {
        assert forall|m: int| 0 <= m < base.len() implies main[m] != '?' by {
            assert(main[m] == base[m]);
        }
    }
    lemma_split_once_at(main, '?', base.len() as int);
    assert(main.take(base.len() as int) =~= base);
    assert(main.skip(base.len() as int + 1) =~= j);
    assert forall|k: int| 0 <= k < pairs.len() implies lacks(#[trigger] pairs[k], '&') by {}
    lemma_split_join(pairs, '&');
    let pred = |p: Seq<char>|
        {
            let key = match split_once(p, '=') {
                Some((k, _)) => k,
                None => p,
            };
            p.len() > 0 && !(key == seq!['l', 'i', 's', 't'] || key == seq!['i', 'n', 'd', 'e', 'x']
                || key == seq!['s', 't', 'a', 'r', 't', '_', 'r', 'a', 'd', 'i', 'o'])
        };
    lemma_kept_pairs_is_filter(pairs, pred);
}

/// Whether `v[lo..hi]` is one of the playlist keys.
fn is_playlist_key_range(v: &Vec<char>, lo: usize, hi: usize) -> (b: bool)
    requires
        lo <= hi <= v.len(),
    ensures
        b == is_playlist_key(v@.subrange(lo as int, hi as int)),
{
    let list: [char; 4] = ['l', 'i', 's', 't'];
    let index: [char; 5] = ['i', 'n', 'd', 'e', 'x'];
    let radio: [char; 11] = ['s', 't', 'a', 'r', 't', '_', 'r', 'a', 'd', 'i', 'o'];
    assert(list@ =~= list_key());
    assert(index@ =~= index_key());
    assert(radio@ =~= start_radio_key());
    let len = hi - lo;
    let b = (len == 4 && occurs_at_exec(v, &list, lo)) || (len == 5 && occurs_at_exec(v, &index, lo))
        || (len == 11 && occurs_at_exec(v, &radio, lo));
    proof {
        let key = v@.subrange(lo as int, hi as int);
        if key == list_key() {
            assert(occurs_at(v@, list@, lo as int));
        }
        if key == index_key() {
            assert(occurs_at(v@, index@, lo as int));
        }
        if key == start_radio_key() {
            assert(occurs_at(v@, radio@, lo as int));
        }
    }
    b
}

/// Whether the query pair `v[lo..hi]` survives.
fn keeps_pair_range(v: &Vec<char>, lo: usize, hi: usize) -> (b: bool)
    requires
        lo <= hi <= v.len(),
    ensures
        b == keeps_pair(v@.subrange(lo as int, hi as int)),
{
    let ghost pair = v@.subrange(lo as int, hi as int);
    if lo == hi {
        return false;
    }
    let key_end = match find_char(v, '=', lo, hi) {
        Some(k) => {
            proof {
                lemma_split_once_at(pair, '=', k - lo);
                assert(pair.take(k - lo) =~= v@.subrange(lo as int, k as int));
            }
            k
        },
        None => {
            proof {
                lemma_split_once_absent(pair, '=');
            }
            hi
        },
    };
    !is_playlist_key_range(v, lo, key_end)
}

/// Appends the query text for the surviving pairs of the query `v[lo..hi]`.
fn append_kept_query(out: &mut String, v: &Vec<char>, lo: usize, hi: usize)
    requires
        lo <= hi <= v.len(),
    ensures
        final(out)@ == old(out)@ + query_text(kept_pairs(split_on(v@.subrange(lo as int, hi as int), '&'))),
{
    let ghost q = v@.subrange(lo as int, hi as int);
    let ghost mut done: Seq<Seq<char>> = Seq::empty();
    let mut any_kept = false;
    let mut st = lo;
    assert(out@ =~= old(out)@ + query_text(kept_pairs(done)));
    assert(v@.subrange(st as int, hi as int) == q);
    loop
        invariant_except_break
            split_on(q, '&') == done + split_on(v@.subrange(st as int, hi as int), '&'),
        invariant
            lo <= st <= hi <= v.len(),
            q == v@.subrange(lo as int, hi as int),
            any_kept == (kept_pairs(done).len() > 0),
            out@ == old(out)@ + query_text(kept_pairs(done)),
        ensures
            split_on(q, '&') == done,
        decreases hi - st,
    {
        let ghost rest = v@.subrange(st as int, hi as int);
        let found = find_char(v, '&', st, hi);
        let e = match found {
            Some(e) => e,
            None => hi,
        };
        let ghost piece = v@.subrange(st as int, e as int);
        let ghost before = kept_pairs(done);
        let ghost new_done = done.push(piece);
        assert(new_done.drop_last() =~= done);
        if keeps_pair_range(v, st, e) {
            if any_kept {
                push_one(out, '&');
            } else {
                push_one(out, '?');
            }
            push_range(out, v, st, e);
            any_kept = true;
            proof {
                let after = before.push(piece);
                assert(kept_pairs(new_done) == after);
                assert(after.drop_last() =~= before);
                if before.len() == 0 {
                    assert(join_with(after, '&') == piece);
                }
                assert(out@ =~= old(out)@ + query_text(after));
            }
        } else {
            assert(kept_pairs(new_done) == before);
        }
        proof {
            done = new_done;
        }
        match found {
            Some(e) => {
                proof {
                    lemma_split_on_at(rest, '&', e - st);
                    assert(rest.take(e - st) =~= piece);
                    assert(rest.skip(e - st + 1) =~= v@.subrange(e + 1, hi as int));
                    assert(split_on(q, '&') =~= done + split_on(v@.subrange(e + 1, hi as int), '&'));
                }
                st = e + 1;
            },
            None => {
                proof {
                    lemma_split_once_absent(rest, '&');
                    assert(piece =~= rest);
                    assert(split_on(q, '&') =~= done);
                }
                break;
            },
        }
    }
}

/// `url` without its playlist parameters (`list`, `index`, `start_radio`):
/// the other query pairs keep their order, empty pairs are dropped, and the
/// fragment stays.
pub fn strip_playlist_params(url: &str) -> (r: String)
    ensures
        r@ == spec_strip_playlist_params(url@),
{
    let v = chars_of(url);
    let n = v.len();
    assert(v@.subrange(0, n as int) =~= v@);
    let hash = find_char(&v, '#', 0, n);
    let main_end = match hash {
        Some(h) => {
            proof {
                lemma_split_once_at(v@, '#', h as int);
            }
            h
        },
        None => {
            proof {
                lemma_split_once_absent(v@, '#');
            }
            n
        },
    };
    let ghost main = v@.subrange(0, main_end as int);
    assert(split_fragment(url@).0 =~= main);
    let qm = find_char(&v, '?', 0, main_end);
    let base_end = match qm {
        Some(q) => {
            proof {
                lemma_split_once_at(main, '?', q as int);
                assert(main.take(q as int) =~= v@.subrange(0, q as int));
                assert(main.skip(q + 1) =~= v@.subrange(q + 1, main_end as int));
            }
            q
        },
        None => {
            proof {
                lemma_split_once_absent(main, '?');
            }
            main_end
        },
    };
    let mut out = string_of_range(&v, 0, base_end);
    match qm {
        Some(q) => {
            append_kept_query(&mut out, &v, q + 1, main_end);
        },
        None => {
            assert(out@ =~= out@ + query_text(kept_query_pairs(split_query(main).1)));
        },
    }
    match hash {
        Some(h) => {
            push_one(&mut out, '#');
            push_range(&mut out, &v, h + 1, n);
            proof {
                assert(v@.skip(h + 1) =~= v@.subrange(h + 1, n as int));
            }
        },
        None => {},
    }
    assert(out@ =~= spec_strip_playlist_params(url@));
    out
}

} // verus!
