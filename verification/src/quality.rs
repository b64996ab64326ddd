//! Video quality: the choices of the window, and reading a quality from text.
use vstd::prelude::*;
use crate::messages::{digit_char, spec_decimal};
use crate::text::{chars_of, occurs_at, occurs_at_exec};

verus! {

broadcast use vstd::string::group_string_axioms;

/// The video quality a download asks for.
#[derive(Clone, Copy, Debug, PartialEq, Eq, Structural)]
pub enum VideoQuality {
    Best,
    High,
    Medium,
    Low,
    Worst,
    CustomHeight(u32),
    CustomWidth(u32),
}

/// The lower-case form of `s`, as `str::to_lowercase` gives it.
pub uninterp spec fn lowercase(s: Seq<char>) -> Seq<char>;

/// Lower-cases `s` (`str::to_lowercase`).
#[verifier::external_body]
fn to_lowercase(s: &str) -> (r: String)
    ensures
        r@ == lowercase(s@),
{
    s.to_lowercase()
}

/// `best`
pub open spec fn best_word() -> Seq<char> {
    seq!['b', 'e', 's', 't']
}

/// `high`
pub open spec fn high_word() -> Seq<char> {
    seq!['h', 'i', 'g', 'h']
}

/// `medium`
pub open spec fn medium_word() -> Seq<char> {
    seq!['m', 'e', 'd', 'i', 'u', 'm']
}

/// `low`
pub open spec fn low_word() -> Seq<char> {
    seq!['l', 'o', 'w']
}

/// `worst`
pub open spec fn worst_word() -> Seq<char> {
    seq!['w', 'o', 'r', 's', 't']
}

pub open spec fn is_digit(c: char) -> bool {
    '0' <= c <= '9'
}

pub open spec fn digit_value(c: char) -> int {
    c as int - '0' as int
}

/// The number that the decimal digits `s` write.
pub open spec fn digits_value(s: Seq<char>) -> int
    decreases s.len(),
{
    if s.len() == 0 {
        0
    } else {
        digits_value(s.drop_last()) * 10 + digit_value(s.last())
    }
}

pub open spec fn all_digits(s: Seq<char>) -> bool {
    forall|i: int| 0 <= i < s.len() ==> is_digit(#[trigger] s[i])
}

/// `s` without one leading `+`.
pub open spec fn unsigned_part(s: Seq<char>) -> Seq<char> {
    if s.len() > 0 && s[0] == '+' {
        s.drop_first()
    } else {
        s
    }
}

/// What `str::parse::<u32>` accepts: an optional `+`, then one or more
/// decimal digits whose value fits in a `u32`.
pub open spec fn spec_parse_u32(s: Seq<char>) -> Option<u32> {
    let d = unsigned_part(s);
    if d.len() > 0 && all_digits(d) && digits_value(d) <= u32::MAX {
        Some(digits_value(d) as u32)
    } else {
        None
    }
}

/// The quality that a lower-cased quality text names: one of the five
/// words, else a height in pixels, else the best quality.
pub open spec fn spec_quality_from_lowercase(l: Seq<char>) -> VideoQuality {
    if l == best_word() {
        VideoQuality::Best
    } else if l == high_word() {
        VideoQuality::High
    } else if l == medium_word() {
        VideoQuality::Medium
    } else if l == low_word() {
        VideoQuality::Low
    } else if l == worst_word() {
        VideoQuality::Worst
    } else {
        match spec_parse_u32(l) {
            Some(h) => VideoQuality::CustomHeight(h),
            None => VideoQuality::Best,
        }
    }
}

proof fn lemma_digits_value_nonneg(s: Seq<char>)
    requires
        all_digits(s),
    ensures
        digits_value(s) >= 0,
    decreases s.len(),
{
    if s.len() > 0 {
        lemma_digits_value_nonneg(s.drop_last());
        assert(is_digit(s[s.len() - 1]));
    }
}

/// The value of the digits only grows as digits are added.
proof fn lemma_digits_value_grows(s: Seq<char>, k: int)
    requires
        all_digits(s),
        0 <= k <= s.len(),
    ensures
        digits_value(s.take(k)) <= digits_value(s),
    decreases s.len() - k,
{
    if k < s.len() {
        lemma_digits_value_grows(s, k + 1);
        let t = s.take(k + 1);
        assert(t.drop_last() =~= s.take(k));
        assert(is_digit(s[k]));
        lemma_digits_value_nonneg(s.take(k));
    } else {
        assert(s.take(k) =~= s);
    }
}

/// Reads a `u32` from `s` as `str::parse::<u32>` does.
pub fn parse_u32(s: &str) -> (r: Option<u32>)
    ensures
        r == spec_parse_u32(s@),
{
    let v = chars_of(s);
    let start: usize = if v.len() > 0 && v[0] == '+' {
        1
    } else {
        0
    };
    let ghost d = unsigned_part(s@);
    assert(d =~= v@.skip(start as int));
    if start == v.len() {
        return None;
    }
    let mut acc: u64 = 0;
    let mut i = start;
    while i < v.len()
        invariant
            start <= i <= v.len(),
            d == v@.skip(start as int),
            d == unsigned_part(s@),
            v@ == s@,
            acc <= u32::MAX,
            all_digits(d.take(i - start)),
            acc == digits_value(d.take(i - start)),
        decreases v.len() - i,
    {
        let c = v[i];
        if c < '0' || c > '9' {
            proof {
                assert(!is_digit(d[i - start]));
            }
            return None;
        }
        let dv = (c as u32 - '0' as u32) as u64;
        acc = acc * 10 + dv;
        proof {
            let t = d.take(i - start + 1);
            assert(t.drop_last() =~= d.take(i - start));
            assert(t.last() == c);
        }
        if acc > 4294967295 {
            proof {
                if all_digits(d) {
                    lemma_digits_value_grows(d, i - start + 1);
                }
            }
            return None;
        }
        i = i + 1;
    }
    assert(d.take(i - start) =~= d);
    Some(acc as u32)
}

/// Whether `v` is exactly `word`.
fn is_word(v: &Vec<char>, word: &[char]) -> (b: bool)
    ensures
        b == (v@ == word@),
{
    if v.len() != word.len() {
        return false;
    }
    let b = occurs_at_exec(v, word, 0);
    assert(v@.subrange(0, word@.len() as int) =~= v@);
    b
}

/// The quality that an already lower-cased quality text names.
pub fn quality_from_lowercase(l: &str) -> (q: VideoQuality)
    ensures
        q == spec_quality_from_lowercase(l@),
{
    let v = chars_of(l);
    let best: [char; 4] = ['b', 'e', 's', 't'];
    let high: [char; 4] = ['h', 'i', 'g', 'h'];
    let medium: [char; 6] = ['m', 'e', 'd', 'i', 'u', 'm'];
    let low: [char; 3] = ['l', 'o', 'w'];
    let worst: [char; 5] = ['w', 'o', 'r', 's', 't'];
    assert(best@ =~= best_word());
    assert(high@ =~= high_word());
    assert(medium@ =~= medium_word());
    assert(low@ =~= low_word());
    assert(worst@ =~= worst_word());
    if is_word(&v, &best) {
        VideoQuality::Best
    } else if is_word(&v, &high) {
        VideoQuality::High
    } else if is_word(&v, &medium) {
        VideoQuality::Medium
    } else if is_word(&v, &low) {
        VideoQuality::Low
    } else if is_word(&v, &worst) {
        VideoQuality::Worst
    } else {
        match parse_u32(l) {
            Some(h) => VideoQuality::CustomHeight(h),
            None => VideoQuality::Best,
        }
    }
}

/// The quality that a quality text names, in any letter case: `best`,
/// `high`, `medium`, `low`, `worst`, or a height in pixels; anything else
/// asks for the best quality.
pub fn parse_quality(q: &str) -> (r: VideoQuality)
    ensures
        r == spec_quality_from_lowercase(lowercase(q@)),
{
    let l = to_lowercase(q);
    quality_from_lowercase(l.as_str())
}

/// Law: the five words name the five qualities.
pub proof fn law_quality_words()
    ensures
        spec_quality_from_lowercase(seq!['b', 'e', 's', 't']) == VideoQuality::Best,
        spec_quality_from_lowercase(seq!['h', 'i', 'g', 'h']) == VideoQuality::High,
        spec_quality_from_lowercase(seq!['m', 'e', 'd', 'i', 'u', 'm']) == VideoQuality::Medium,
        spec_quality_from_lowercase(seq!['l', 'o', 'w']) == VideoQuality::Low,
        spec_quality_from_lowercase(seq!['w', 'o', 'r', 's', 't']) == VideoQuality::Worst,
{
    assert(seq!['h', 'i', 'g', 'h'][0] != best_word()[0]);
    assert(seq!['m', 'e', 'd', 'i', 'u', 'm'].len() != best_word().len());
    assert(seq!['m', 'e', 'd', 'i', 'u', 'm'].len() != high_word().len());
    assert(seq!['l', 'o', 'w'].len() != best_word().len());
    assert(seq!['l', 'o', 'w'].len() != high_word().len());
    assert(seq!['l', 'o', 'w'].len() != medium_word().len());
    assert(seq!['w', 'o', 'r', 's', 't'].len() != best_word().len());
    assert(seq!['w', 'o', 'r', 's', 't'].len() != high_word().len());
    assert(seq!['w', 'o', 'r', 's', 't'].len() != medium_word().len());
    assert(seq!['w', 'o', 'r', 's', 't'].len() != low_word().len());
}

/// Law: a text that is none of the five words and reads as a `u32` `h`
/// names the height `h`, for every `h`.
pub proof fn law_number_is_height(l: Seq<char>, h: u32)
    requires
        l != seq!['b', 'e', 's', 't'],
        l != seq!['h', 'i', 'g', 'h'],
        l != seq!['m', 'e', 'd', 'i', 'u', 'm'],
        l != seq!['l', 'o', 'w'],
        l != seq!['w', 'o', 'r', 's', 't'],
        spec_parse_u32(l) == Some(h),
    ensures
        spec_quality_from_lowercase(l) == VideoQuality::CustomHeight(h),
{
}

proof fn lemma_decimal_digits(n: nat)
    ensures
        spec_decimal(n).len() > 0,
        all_digits(spec_decimal(n)),
        digits_value(spec_decimal(n)) == n,
    decreases n,
{
    let t = spec_decimal(n);
    if n < 10 {
        assert(digit_value(digit_char(n as int)) == n);
        assert(t.drop_last().len() == 0);
        assert(digits_value(t.drop_last()) == 0);
        assert(t.last() == digit_char(n as int));
        assert(is_digit(t[0]));
    } else {
        lemma_decimal_digits(n / 10);
        assert(t.drop_last() =~= spec_decimal(n / 10));
        assert(digit_value(digit_char((n % 10) as int)) == n % 10);
        assert(t.last() == digit_char((n % 10) as int));
        assert((n / 10) * 10 + n % 10 == n);
        assert forall|i: int| 0 <= i < t.len() implies is_digit(#[trigger] t[i]) by {
            if i < t.len() - 1 {
                assert(t[i] == spec_decimal(n / 10)[i]);
            }
        }
    }
}

/// Law: every height written in decimal digits, with or without a leading
/// `+`, is read back as that height.
pub proof fn law_decimal_height_read_back(h: u32)
    ensures
        spec_quality_from_lowercase(spec_decimal(h as nat)) == VideoQuality::CustomHeight(h),
        spec_quality_from_lowercase(seq!['+'] + spec_decimal(h as nat)) == VideoQuality::CustomHeight(h),
{
    let t = spec_decimal(h as nat);
    lemma_decimal_digits(h as nat);
    assert(is_digit(t[0]));
    let p = seq!['+'] + t;
    assert(p.drop_first() =~= t);
    assert(t[0] != best_word()[0] && t[0] != high_word()[0] && t[0] != medium_word()[0]
        && t[0] != low_word()[0] && t[0] != worst_word()[0]);
    assert(p[0] != best_word()[0] && p[0] != high_word()[0] && p[0] != medium_word()[0]
        && p[0] != low_word()[0] && p[0] != worst_word()[0]);
    assert(unsigned_part(t) == t);
}

/// Law: a number too large for a `u32`, written in decimal digits, reads as
/// no number.
pub proof fn law_too_large_is_no_number(n: nat)
    requires
        n > u32::MAX,
    ensures
        spec_parse_u32(spec_decimal(n)) is None,
{
    lemma_decimal_digits(n);
}

/// Law: a text with a character that is not a decimal digit, other than one
/// leading `+`, reads as no number.
pub proof fn law_non_digit_is_no_number(s: Seq<char>, i: int)
    requires
        0 <= i < s.len(),
        !('0' <= s[i] <= '9'),
        !(i == 0 && s[i] == '+'),
    ensures
        spec_parse_u32(s) is None,
{
    if s.len() > 0 && s[0] == '+' {
        assert(unsigned_part(s)[i - 1] == s[i]);
    }
}

/// The qualities that the window offers.
#[derive(Clone, Copy, Debug, PartialEq, Eq, Structural)]
pub enum Quality {
    Best,
    P1080,
    P720,
    P480,
    Worst,
}

impl Quality {
    /// The text shown beside the choice.
    pub open spec fn label_text(self) -> Seq<char> {
        match self {
            Quality::Best => "Best"@,
            Quality::P1080 => "1080p"@,
            Quality::P720 => "720p"@,
            Quality::P480 => "480p"@,
            Quality::Worst => "Worst"@,
        }
    }

    /// The quality text handed on to the download.
    pub open spec fn quality_text(self) -> Seq<char> {
        match self {
            Quality::Best => "best"@,
            Quality::P1080 => "1080"@,
            Quality::P720 => "720"@,
            Quality::P480 => "480"@,
            Quality::Worst => "worst"@,
        }
    }

    /// The text shown beside the choice.
    pub fn label(self) -> (r: &'static str)
        ensures
            r@ == self.label_text(),
    {
        match self {
            Quality::Best => "Best",
            Quality::P1080 => "1080p",
            Quality::P720 => "720p",
            Quality::P480 => "480p",
            Quality::Worst => "Worst",
        }
    }

    /// The quality text handed on to the download.
    pub fn as_str(self) -> (r: &'static str)
        ensures
            r@ == self.quality_text(),
    {
        match self {
            Quality::Best => "best",
            Quality::P1080 => "1080",
            Quality::P720 => "720",
            Quality::P480 => "480",
            Quality::Worst => "worst",
        }
    }

    /// The video quality that the choice stands for.
    pub open spec fn video_quality(self) -> VideoQuality {
        match self {
            Quality::Best => VideoQuality::Best,
            Quality::P1080 => VideoQuality::CustomHeight(1080),
            Quality::P720 => VideoQuality::CustomHeight(720),
            Quality::P480 => VideoQuality::CustomHeight(480),
            Quality::Worst => VideoQuality::Worst,
        }
    }
}

impl Default for Quality {
    fn default() -> (q: Self)
        ensures
            q == Quality::Best,
    {
        Quality::Best
    }
}

/// Law: the quality text of each choice of the window, once lower-cased
/// (it already is), names the quality that the choice stands for.
pub proof fn law_window_quality_text_is_understood(q: Quality)
    ensures
        spec_quality_from_lowercase(q.quality_text()) == q.video_quality(),
{
    reveal_strlit("best");
    reveal_strlit("1080");
    reveal_strlit("720");
    reveal_strlit("480");
    reveal_strlit("worst");
    let t = q.quality_text();
    match q {
        Quality::Best => {
            assert(t =~= best_word());
        },
        Quality::Worst => {
            assert(t =~= worst_word());
            assert(t[0] != best_word()[0]);
            assert(t[0] != high_word()[0]);
            assert(t.len() != medium_word().len());
            assert(t.len() != low_word().len());
        },
        _ => {
            assert(t[0] != best_word()[0]);
            assert(t[0] != high_word()[0]);
            assert(t[0] != medium_word()[0]);
            assert(t[0] != low_word()[0]);
            assert(t[0] != worst_word()[0]);
            assert(unsigned_part(t) == t);
            assert(all_digits(t));
            let a = t.drop_last();
            let b = a.drop_last();
            let c = b.drop_last();
            if t.len() == 4 {
                let d = c.drop_last();
                assert(d.len() == 0);
                assert(digits_value(d) == 0);
                assert(c.last() == t[0]);
                assert(digits_value(c) == 1);
                assert(b.last() == t[1]);
                assert(digits_value(b) == 10);
                assert(a.last() == t[2]);
                assert(digits_value(a) == 108);
                assert(digits_value(t) == 1080);
            } else {
                assert(c.len() == 0);
                assert(digits_value(c) == 0);
                assert(b.last() == t[0]);
                assert(digits_value(b) == digit_value(t[0]));
                assert(a.last() == t[1]);
                assert(digits_value(a) == digit_value(t[0]) * 10 + digit_value(t[1]));
            }
        },
    }
}

} // verus!
