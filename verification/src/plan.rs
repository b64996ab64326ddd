//! What to download for a URL, decided before any network work.
use vstd::prelude::*;
use crate::text::contains_seq;
use crate::url::{
    has_video_reference, is_playlist_url, law_strip_idempotent, spec_has_video_reference,
    spec_is_playlist_url, spec_strip_playlist_params, strip_playlist_params,
};

verus! {

/// What a download request turns into.
#[derive(Debug, PartialEq, Eq)]
pub enum DownloadPlan {
    /// Download every video of the playlist at this URL.
    Playlist(String),
    /// Download the one video at this URL.
    Single(String),
    /// The URL names a playlist and no video, and the whole playlist was not asked for.
    PlaylistOnly,
}

/// The model of a [`DownloadPlan`].
pub enum PlanView {
    Playlist(Seq<char>),
    Single(Seq<char>),
    PlaylistOnly,
}

impl View for DownloadPlan {
    type V = PlanView;

    open spec fn view(&self) -> PlanView {
        match self {
            DownloadPlan::Playlist(u) => PlanView::Playlist(u@),
            DownloadPlan::Single(u) => PlanView::Single(u@),
            DownloadPlan::PlaylistOnly => PlanView::PlaylistOnly,
        }
    }
}

/// A playlist URL downloads the playlist when the whole playlist is asked
/// for; otherwise its playlist parameters are removed and the video it still
/// names is downloaded, or, naming none, nothing is. Any other URL downloads
/// its one video.
pub open spec fn spec_plan_download(url: Seq<char>, playlist_all: bool) -> PlanView {
    if spec_is_playlist_url(url) {
        if playlist_all {
            PlanView::Playlist(url)
        } else {
            let stripped = spec_strip_playlist_params(url);
            if spec_has_video_reference(stripped) {
                PlanView::Single(stripped)
            } else {
                PlanView::PlaylistOnly
            }
        }
    } else {
        PlanView::Single(url)
    }
}

/// Decides what to download for `url`.
pub fn plan_download(url: &str, playlist_all: bool) -> (r: DownloadPlan)
    ensures
        r@ == spec_plan_download(url@, playlist_all),
{
    if is_playlist_url(url) {
        if playlist_all {
            DownloadPlan::Playlist(String::from_str(url))
        } else {
            let stripped = strip_playlist_params(url);
            if has_video_reference(stripped.as_str()) {
                DownloadPlan::Single(stripped)
            } else {
                DownloadPlan::PlaylistOnly
            }
        }
    } else {
        DownloadPlan::Single(String::from_str(url))
    }
}

/// Law: when a playlist URL is planned as a single video, the URL planned
/// carries no playlist parameters any more: removing them again changes
/// nothing.
pub proof fn law_single_from_playlist_is_stripped(url: Seq<char>, playlist_all: bool)
    requires
        spec_is_playlist_url(url),
        spec_plan_download(url, playlist_all) is Single,
    ensures
        spec_plan_download(url, playlist_all) matches PlanView::Single(u)
            && spec_strip_playlist_params(u) == u,
{
    law_strip_idempotent(url);
}

/// Law: a URL that holds `list=` or `/playlist` is, when the whole playlist
/// is asked for, planned as that playlist with the URL unchanged, whether or
/// not it also names a video.
pub proof fn law_whole_playlist_when_asked(url: Seq<char>)
    requires
        contains_seq(url, seq!['l', 'i', 's', 't', '='])
            || contains_seq(url, seq!['/', 'p', 'l', 'a', 'y', 'l', 'i', 's', 't']),
    ensures
        spec_plan_download(url, true) == PlanView::Playlist(url),
{
}

/// Law: a URL that holds neither `list=` nor `/playlist` is planned as one
/// video with the URL unchanged, whatever was asked for.
pub proof fn law_other_url_is_one_video(url: Seq<char>, playlist_all: bool)
    requires
        !contains_seq(url, seq!['l', 'i', 's', 't', '=']),
        !contains_seq(url, seq!['/', 'p', 'l', 'a', 'y', 'l', 'i', 's', 't']),
    ensures
        spec_plan_download(url, playlist_all) == PlanView::Single(url),
{
}

/// Law: without the whole playlist, a playlist URL is planned as the one
/// video its stripped form names (and that form refers to a video), or as
/// nothing when it names none; nothing is planned only in that case.
pub proof fn law_playlist_without_all(url: Seq<char>, playlist_all: bool)
    ensures
        spec_plan_download(url, playlist_all) is PlaylistOnly <==> (spec_is_playlist_url(url)
            && !playlist_all && !spec_has_video_reference(spec_strip_playlist_params(url))),
        spec_is_playlist_url(url) && !playlist_all ==> (spec_plan_download(url, playlist_all)
            matches PlanView::Single(u) ==> u == spec_strip_playlist_params(url)
            && spec_has_video_reference(u)),
{
}

} // verus!
