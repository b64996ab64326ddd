use ytdl::messages::{
    channel_line, decimal_text, download_announcement, duration_line, outcome_line, playlist_done,
    playlist_summary, request_header, saved_entry_line, saved_line, title_line,
};

#[test]
fn video_lines() {
    assert_eq!(title_line("T"), "Title:  T");
    assert_eq!(channel_line(Some("C"), Some("U")), "Channel: C");
    assert_eq!(channel_line(None, Some("U")), "Channel: U");
    assert_eq!(channel_line(None, None), "Channel: (unknown)");
    assert_eq!(duration_line(Some("3:05")), "Duration: 3:05");
    assert_eq!(duration_line(None), "Duration: (unknown)");
    assert_eq!(download_announcement("a.mp3", true), "Downloading audio → a.mp3");
    assert_eq!(download_announcement("a.mp4", false), "Downloading video → a.mp4");
    assert_eq!(saved_line("/tmp/a.mp4"), "Saved: /tmp/a.mp4");
}

#[test]
fn playlist_lines() {
    assert_eq!(playlist_summary("Mix", 12), "Playlist: Mix (12 videos) — downloading all…");
    assert_eq!(playlist_done(3, 12), "Done: 3/12 videos.");
    assert_eq!(saved_entry_line("x.mp4"), "  ↳ x.mp4");
}

#[test]
fn request_lines() {
    assert_eq!(request_header("u"), "——— u ———");
    assert_eq!(outcome_line(None), "✓ Done.");
    assert_eq!(outcome_line(Some("boom")), "✗ Error: boom");
}

#[test]
fn decimal_matches_std() {
    for n in [0usize, 7, 10, 99, 100, 1234567, usize::MAX] {
        assert_eq!(decimal_text(n), n.to_string());
    }
}
