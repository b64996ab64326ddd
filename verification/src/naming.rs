//! Turning a video title into a file name.
use vstd::prelude::*;
use crate::text::{
    chars_of, is_white_space, law_trim_idempotent, lemma_trim_shape, string_of_range, trim, trim_bounds,
};

verus! {

/// The characters that file systems refuse in a name.
pub open spec fn is_reserved(c: char) -> bool {
    c == '/' || c == '\\' || c == ':' || c == '*' || c == '?' || c == '"' || c == '<' || c == '>'
        || c == '|'
}

/// A reserved character becomes `_`; any other stays.
pub open spec fn replace_reserved(c: char) -> char {
    if is_reserved(c) {
        '_'
    } else {
        c
    }
}

/// `name` with each reserved character replaced by `_`, then trimmed of
/// leading and trailing white space.
pub open spec fn spec_sanitize(name: Seq<char>) -> Seq<char> {
    trim(name.map_values(|c: char| replace_reserved(c)))
}

fn replace_reserved_char(c: char) -> (r: char)
    ensures
        r == replace_reserved(c),
{
    if c == '/' || c == '\\' || c == ':' || c == '*' || c == '?' || c == '"' || c == '<' || c == '>'
        || c == '|' {
        '_'
    } else {
        c
    }
}

/// A title made safe to use as a file name.
pub fn sanitize(name: &str) -> (r: String)
    ensures
        r@ == spec_sanitize(name@),
{
    let v = chars_of(name);
    let mut w: Vec<char> = Vec::new();
    let mut i: usize = 0;
    while i < v.len()
        invariant
            i <= v.len(),
            v@ == name@,
            w@ == v@.take(i as int).map_values(|c: char| replace_reserved(c)),
        decreases v.len() - i,
    {
        w.push(replace_reserved_char(v[i]));
        i = i + 1;
        assert(w@ =~= v@.take(i as int).map_values(|c: char| replace_reserved(c)));
    }
    assert(v@.take(i as int) =~= v@);
    let (lo, hi) = trim_bounds(&w);
    string_of_range(&w, lo, hi)
}

/// Law: a sanitised name holds no reserved character, neither starts nor
/// ends with white space, and sanitising it again changes nothing.
pub proof fn law_sanitize_clean(name: Seq<char>)
    ensures
        forall|i: int| 0 <= i < spec_sanitize(name).len() ==> !is_reserved(#[trigger] spec_sanitize(name)[i]),
        spec_sanitize(name).len() > 0 ==> !is_white_space(spec_sanitize(name)[0])
            && !is_white_space(spec_sanitize(name).last()),
        spec_sanitize(spec_sanitize(name)) == spec_sanitize(name),
{
    let m = name.map_values(|c: char| replace_reserved(c));
    let r = spec_sanitize(name);
    let (lo, hi) = lemma_trim_shape(m);
    assert forall|i: int| 0 <= i < r.len() implies !is_reserved(#[trigger] r[i]) by {
        assert(r[i] == m[lo + i]);
    }
    law_trim_idempotent(m);
    assert(r.map_values(|c: char| replace_reserved(c)) =~= r);
}

/// Law: sanitising keeps a stretch `name[lo..hi]` of the title, where only
/// white space lies before `lo` and after `hi` and the stretch neither starts
/// nor ends with white space; in that stretch each of `/ \ : * ? " < > |`
/// becomes `_` and every other character stays as it is, in its place.
pub proof fn law_sanitize_keeps_unreserved(name: Seq<char>) -> (bounds: (int, int))
    ensures
        0 <= bounds.0 <= bounds.1 <= name.len(),
        spec_sanitize(name).len() == bounds.1 - bounds.0,
        forall|j: int| 0 <= j < bounds.0 ==> is_white_space(#[trigger] name[j]),
        forall|j: int| bounds.1 <= j < name.len() ==> is_white_space(#[trigger] name[j]),
        bounds.0 < bounds.1 ==> !is_white_space(name[bounds.0]) && !is_white_space(name[bounds.1 - 1]),
        forall|i: int|
            0 <= i < bounds.1 - bounds.0 ==> #[trigger] spec_sanitize(name)[i] == {
                let c = name[bounds.0 + i];
                if c == '/' || c == '\\' || c == ':' || c == '*' || c == '?' || c == '"' || c == '<'
                    || c == '>' || c == '|' {
                    '_'
                } else {
                    c
                }
            },
{
    let m = name.map_values(|c: char| replace_reserved(c));
    let (lo, hi) = lemma_trim_shape(m);
    let r = spec_sanitize(name);
    assert forall|j: int| 0 <= j < name.len() implies is_white_space(#[trigger] name[j])
        == is_white_space(m[j]) by {}
    assert forall|j: int| 0 <= j < lo implies is_white_space(#[trigger] name[j]) by {
        assert(is_white_space(m[j]));
    }
    assert forall|j: int| hi <= j < name.len() implies is_white_space(#[trigger] name[j]) by {
        assert(is_white_space(m[j]));
    }
    if lo < hi {
        assert(r[0] == m[lo]);
        assert(r.last() == m[hi - 1]);
        assert(is_white_space(name[lo]) == is_white_space(m[lo]));
        assert(is_white_space(name[hi - 1]) == is_white_space(m[hi - 1]));
    }
    assert forall|i: int| 0 <= i < hi - lo implies #[trigger] r[i] == {
        let c = name[lo + i];
        if c == '/' || c == '\\' || c == ':' || c == '*' || c == '?' || c == '"' || c == '<' || c
            == '>' || c == '|' {
            '_'
        } else {
            c
        }
    } by {
        assert(r[i] == m[lo + i]);
    }
    (lo, hi)
}

/// The name of the file a single download is saved under: the sanitised
/// title with `.mp3` for audio, `.mp4` for video.
pub open spec fn spec_media_filename(title: Seq<char>, audio: bool) -> Seq<char> {
    spec_sanitize(title) + if audio {
        ".mp3"@
    } else {
        ".mp4"@
    }
}

/// Law: the file name is the sanitised title followed by `.mp3` for audio
/// and `.mp4` for video.
pub proof fn law_media_filename_extension(title: Seq<char>)
    ensures
        spec_media_filename(title, true) == spec_sanitize(title) + seq!['.', 'm', 'p', '3'],
        spec_media_filename(title, false) == spec_sanitize(title) + seq!['.', 'm', 'p', '4'],
{
    reveal_strlit(".mp3");
    reveal_strlit(".mp4");
    assert(".mp3"@ =~= seq!['.', 'm', 'p', '3']);
    assert(".mp4"@ =~= seq!['.', 'm', 'p', '4']);
}

/// The file name for a single download.
pub fn media_filename(title: &str, audio: bool) -> (r: String)
    ensures
        r@ == spec_media_filename(title@, audio),
{
    let stem = sanitize(title);
    if audio {
        stem.concat(".mp3")
    } else {
        stem.concat(".mp4")
    }
}

} // verus!
