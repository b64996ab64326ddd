use ytdl::plan::{plan_download, DownloadPlan};

#[test]
fn playlist_with_all() {
    assert_eq!(
        plan_download("https://www.youtube.com/playlist?list=PL1", true),
        DownloadPlan::Playlist("https://www.youtube.com/playlist?list=PL1".to_string())
    );
}

#[test]
fn playlist_video_without_all_downloads_the_video() {
    assert_eq!(
        plan_download("https://www.youtube.com/watch?v=X&list=Y&index=3", false),
        DownloadPlan::Single("https://www.youtube.com/watch?v=X".to_string())
    );
}

#[test]
fn playlist_only_without_all() {
    assert_eq!(
        plan_download("https://www.youtube.com/playlist?list=PL1", false),
        DownloadPlan::PlaylistOnly
    );
}

#[test]
fn plain_video() {
    assert_eq!(
        plan_download("https://youtu.be/abc", true),
        DownloadPlan::Single("https://youtu.be/abc".to_string())
    );
}
