use ytdl::quality::Quality;
use ytdl::window::{YtdlApp, MAX_LOG_LINES};

#[test]
fn new_window_defaults() {
    let app = YtdlApp::new();
    assert_eq!(app.url, "");
    assert_eq!(app.quality, Quality::Best);
    assert!(!app.audio_only);
    assert!(app.playlist_all);
    assert_eq!(app.output_dir, "downloads");
    assert!(app.log.is_empty());
}

#[test]
fn download_button() {
    let mut app = YtdlApp::new();
    assert!(!app.can_start_download(false));
    app.url = "   ".to_string();
    assert!(!app.can_start_download(false));
    app.url = " https://youtu.be/x ".to_string();
    assert!(app.can_start_download(false));
    assert!(!app.can_start_download(true));
    assert_eq!(YtdlApp::download_button_text(true), "⏳ Downloading…");
    assert_eq!(YtdlApp::download_button_text(false), "⬇  Download");
}

#[test]
fn start_download_builds_request() {
    let mut app = YtdlApp::new();
    app.url = "  https://youtu.be/x\n".to_string();
    app.quality = Quality::P720;
    app.audio_only = true;
    app.playlist_all = false;
    app.output_dir = "out".to_string();
    let req = app.start_download();
    assert_eq!(req.url, "https://youtu.be/x");
    assert_eq!(req.quality, "720");
    assert!(req.audio_only);
    assert!(!req.playlist_all);
    assert_eq!(req.output_dir, "out");
    assert_eq!(app.log, vec!["——— https://youtu.be/x ———".to_string()]);
    assert_eq!(app.url, "  https://youtu.be/x\n");
}

#[test]
fn log_keeps_newest_lines() {
    let mut app = YtdlApp::new();
    let lines: Vec<String> = (0..MAX_LOG_LINES + 5).map(|i| i.to_string()).collect();
    app.receive_log(lines);
    assert_eq!(app.log.len(), MAX_LOG_LINES);
    assert_eq!(app.log[0], "5");
    assert_eq!(app.log[MAX_LOG_LINES - 1], (MAX_LOG_LINES + 4).to_string());
    app.receive_log(vec!["new".to_string()]);
    assert_eq!(app.log.len(), MAX_LOG_LINES);
    assert_eq!(app.log.last().unwrap(), "new");
    assert_eq!(app.log[0], "6");
}

#[test]
fn log_below_limit_is_kept_whole() {
    let mut app = YtdlApp::new();
    app.receive_log(vec!["a".to_string(), "b".to_string()]);
    assert_eq!(app.log, vec!["a".to_string(), "b".to_string()]);
    app.clear_log();
    assert!(app.log.is_empty());
    app.url = "x".to_string();
    app.clear_url();
    assert_eq!(app.url, "");
}
