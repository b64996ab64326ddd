use ytdl::naming::{media_filename, sanitize};
use ytdl::text::trim_str;

#[test]
fn sanitize_replaces_reserved_characters() {
    assert_eq!(sanitize("a/b\\c:d*e?f\"g<h>i|j"), "a_b_c_d_e_f_g_h_i_j");
}

#[test]
fn sanitize_trims_white_space() {
    assert_eq!(sanitize("  My Video  "), "My Video");
    assert_eq!(sanitize("\t\n title \u{3000}"), "title");
    assert_eq!(sanitize("   "), "");
    assert_eq!(sanitize(""), "");
}

#[test]
fn sanitize_keeps_other_characters() {
    assert_eq!(sanitize("Über – 日本語 (live)"), "Über – 日本語 (live)");
}

#[test]
fn sanitize_is_idempotent() {
    for s in ["  a:b  ", "x", " / ", "ok"] {
        let once = sanitize(s);
        assert_eq!(sanitize(&once), once);
    }
}

#[test]
fn media_filename_picks_extension() {
    assert_eq!(media_filename(" A/B ", true), "A_B.mp3");
    assert_eq!(media_filename(" A/B ", false), "A_B.mp4");
}

#[test]
fn trim_matches_std() {
    for s in ["  a b  ", "\u{85}x\u{a0}", "", "\u{2028}\u{2029}", "no"] {
        assert_eq!(trim_str(s), s.trim());
    }
}
