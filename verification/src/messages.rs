//! The lines of the progress log that depend on what a download found.
use vstd::prelude::*;
use crate::text::push_one;

verus! {

/// The text of an optional value, or `(unknown)` without one.
pub open spec fn or_unknown(value: Option<Seq<char>>) -> Seq<char> {
    match value {
        Some(v) => v,
        None => "(unknown)"@,
    }
}

/// The view of an optional text.
pub open spec fn opt_view(value: Option<&str>) -> Option<Seq<char>> {
    match value {
        Some(v) => Some(v@),
        None => None,
    }
}

/// The character of the decimal digit `d`.
pub open spec fn digit_char(d: int) -> char {
    ('0' as int + d) as char
}

/// The decimal digits of `n`, without leading zeros.
pub open spec fn spec_decimal(n: nat) -> Seq<char>
    decreases n,
{
    if n < 10 {
        seq![digit_char(n as int)]
    } else {
        spec_decimal(n / 10).push(digit_char((n % 10) as int))
    }
}

fn digit(d: usize) -> (c: char)
    requires
        d < 10,
    ensures
        c == digit_char(d as int),
{
    if d == 0 {
        '0'
    } else if d == 1 {
        '1'
    } else if d == 2 {
        '2'
    } else if d == 3 {
        '3'
    } else if d == 4 {
        '4'
    } else if d == 5 {
        '5'
    } else if d == 6 {
        '6'
    } else if d == 7 {
        '7'
    } else if d == 8 {
        '8'
    } else {
        '9'
    }
}

/// Writes `n` in decimal digits.
pub fn decimal_text(n: usize) -> (r: String)
    ensures
        r@ == spec_decimal(n as nat),
    decreases n,
{
    let c = digit(n % 10);
    if n < 10 {
        let mut s = String::new();
        push_one(&mut s, c);
        assert(s@ =~= seq![c]);
        s
    } else {
        let mut s = decimal_text(n / 10);
        push_one(&mut s, c);
        s
    }
}

/// `Title:  ` and the title.
pub fn title_line(title: &str) -> (r: String)
    ensures
        r@ == "Title:  "@ + title@,
{
    String::from_str("Title:  ").concat(title)
}

/// `Channel: ` and the channel, else the uploader, else `(unknown)`.
pub fn channel_line(channel: Option<&str>, uploader: Option<&str>) -> (r: String)
    ensures
        r@ == "Channel: "@ + or_unknown(
            match opt_view(channel) {
                Some(c) => Some(c),
                None => opt_view(uploader),
            },
        ),
{
    let line = String::from_str("Channel: ");
    match channel {
        Some(c) => line.concat(c),
        None => match uploader {
            Some(u) => line.concat(u),
            None => line.concat("(unknown)"),
        },
    }
}

/// `Duration: ` and the duration, else `(unknown)`.
pub fn duration_line(duration: Option<&str>) -> (r: String)
    ensures
        r@ == "Duration: "@ + or_unknown(opt_view(duration)),
{
    let line = String::from_str("Duration: ");
    match duration {
        Some(d) => line.concat(d),
        None => line.concat("(unknown)"),
    }
}

/// The line that announces a single download and its file name.
pub fn download_announcement(filename: &str, audio: bool) -> (r: String)
    ensures
        r@ == (if audio {
            "Downloading audio → "@
        } else {
            "Downloading video → "@
        }) + filename@,
{
    if audio {
        String::from_str("Downloading audio → ").concat(filename)
    } else {
        String::from_str("Downloading video → ").concat(filename)
    }
}

/// `Saved: ` and where the file went.
pub fn saved_line(path: &str) -> (r: String)
    ensures
        r@ == "Saved: "@ + path@,
{
    String::from_str("Saved: ").concat(path)
}

/// The line that names a playlist and how many videos it holds.
pub fn playlist_summary(title: &str, total: usize) -> (r: String)
    ensures
        r@ == "Playlist: "@ + title@ + " ("@ + spec_decimal(total as nat) + " videos) — downloading all…"@,
{
    let count = decimal_text(total);
    String::from_str("Playlist: ").concat(title).concat(" (").concat(count.as_str()).concat(
        " videos) — downloading all…",
    )
}

/// The line that says how many videos of a playlist were saved.
pub fn playlist_done(saved: usize, total: usize) -> (r: String)
    ensures
        r@ == "Done: "@ + spec_decimal(saved as nat) + "/"@ + spec_decimal(total as nat) + " videos."@,
{
    let a = decimal_text(saved);
    let b = decimal_text(total);
    String::from_str("Done: ").concat(a.as_str()).concat("/").concat(b.as_str()).concat(" videos.")
}

/// The line that lists one saved file of a playlist.
pub fn saved_entry_line(path: &str) -> (r: String)
    ensures
        r@ == "  ↳ "@ + path@,
{
    String::from_str("  ↳ ").concat(path)
}

/// The line that opens the log of one download request.
pub fn request_header(url: &str) -> (r: String)
    ensures
        r@ == "——— "@ + url@ + " ———"@,
{
    String::from_str("——— ").concat(url).concat(" ———")
}

/// The line that closes the log of one download request.
pub fn outcome_line(error: Option<&str>) -> (r: String)
    ensures
        r@ == match opt_view(error) {
            None => "✓ Done."@,
            Some(e) => "✗ Error: "@ + e,
        },
{
    match error {
        None => String::from_str("✓ Done."),
        Some(e) => String::from_str("✗ Error: ").concat(e),
    }
}

} // verus!
