//! The command-line arguments of the downloader, as plain values.
use vstd::prelude::*;

verus! {

/// The arguments of one run: what to download, where, and how.
pub struct Args {
    /// Video or playlist URL.
    pub url: String,
    /// Output directory for downloaded files (`downloads` unless given).
    pub output: String,
    /// Extract audio only and save it as MP3.
    pub audio: bool,
    /// Video quality: best | high | medium | low | worst | a height in pixels
    /// (`best` unless given).
    pub quality: String,
    /// Print metadata and available formats; do not download.
    pub info: bool,
    /// Directory of the yt-dlp and ffmpeg programs (`libs` unless given).
    pub libs: String,
}

} // verus!
