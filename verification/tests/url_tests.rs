use ytdl::url::{has_video_reference, is_playlist_url, strip_playlist_params};

#[test]
fn test_strip_playlist_params() {
    assert_eq!(
        strip_playlist_params("https://www.youtube.com/watch?v=X&list=Y"),
        "https://www.youtube.com/watch?v=X"
    );
    assert_eq!(
        strip_playlist_params("https://www.youtube.com/watch?v=X&list=Y&index=2&start_radio=1"),
        "https://www.youtube.com/watch?v=X"
    );
    assert_eq!(strip_playlist_params("youtu.be/X?list=Y"), "youtu.be/X");
    assert_eq!(strip_playlist_params("youtu.be/X?list=Y&index=2"), "youtu.be/X");
    assert_eq!(
        strip_playlist_params("https://www.youtube.com/watch?list=Y&v=X"),
        "https://www.youtube.com/watch?v=X"
    );
    assert_eq!(
        strip_playlist_params("https://www.youtube.com/playlist?list=PL123"),
        "https://www.youtube.com/playlist"
    );
}

#[test]
fn test_has_video_reference() {
    assert!(has_video_reference("https://www.youtube.com/watch?v=X"));
    assert!(has_video_reference("youtu.be/X"));
    assert!(has_video_reference("https://youtu.be/abc_123"));
    assert!(!has_video_reference("https://www.youtube.com/playlist"));
    assert!(!has_video_reference("https://youtu.be/playlist"));
    assert!(!has_video_reference("https://youtu.be/"));
}

#[test]
fn strip_keeps_fragment_and_other_pairs_in_order() {
    assert_eq!(
        strip_playlist_params("https://x.com/watch?a=1&list=L&b=2#t=30"),
        "https://x.com/watch?a=1&b=2#t=30"
    );
    assert_eq!(strip_playlist_params("https://x.com/p?list=L#frag"), "https://x.com/p#frag");
}

#[test]
fn strip_drops_empty_pairs_and_bare_keys() {
    assert_eq!(strip_playlist_params("u?&&v=1&&"), "u?v=1");
    assert_eq!(strip_playlist_params("u?list&index&start_radio"), "u");
    assert_eq!(strip_playlist_params("u?listx=1&xlist=2"), "u?listx=1&xlist=2");
    assert_eq!(strip_playlist_params("u?"), "u");
}

#[test]
fn strip_question_mark_after_fragment_is_not_a_query() {
    assert_eq!(strip_playlist_params("u#a?list=1"), "u#a?list=1");
}

#[test]
fn strip_without_query_is_unchanged() {
    assert_eq!(strip_playlist_params("https://youtu.be/abc"), "https://youtu.be/abc");
    assert_eq!(strip_playlist_params(""), "");
    assert_eq!(strip_playlist_params("a#b#c"), "a#b#c");
}

#[test]
fn strip_twice_is_strip_once() {
    for u in [
        "https://www.youtube.com/watch?v=X&list=Y&index=2#t",
        "u?&a&list=1&b=c=d?e#f#g",
        "no query here",
    ] {
        let once = strip_playlist_params(u);
        assert_eq!(strip_playlist_params(&once), once);
    }
}

#[test]
fn strip_keeps_unicode_text() {
    assert_eq!(strip_playlist_params("https://x.com/été?list=1&q=ü"), "https://x.com/été?q=ü");
}

#[test]
fn playlist_urls_are_recognised() {
    assert!(is_playlist_url("https://www.youtube.com/watch?v=X&list=Y"));
    assert!(is_playlist_url("https://www.youtube.com/playlist?foo=1"));
    assert!(!is_playlist_url("https://www.youtube.com/watch?v=X"));
    assert!(!is_playlist_url("https://youtu.be/list"));
    assert!(!is_playlist_url(""));
}

#[test]
fn video_reference_edge_cases() {
    assert!(has_video_reference("https://youtu.be/playlists"));
    assert!(!has_video_reference("https://youtu.be/?v"));
    assert!(!has_video_reference("https://youtu.be/#x"));
    assert!(has_video_reference("https://youtu.be/abc?list=1"));
    assert!(!has_video_reference("https://example.com/watch"));
    assert!(has_video_reference("https://youtu.be/ä"));
}
