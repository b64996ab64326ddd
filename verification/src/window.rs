//! The state of the downloader window and the decisions it makes.
use vstd::prelude::*;
use crate::messages::request_header;
use crate::quality::Quality;
use crate::text::{trim, trim_str};

verus! {

broadcast use vstd::string::group_string_axioms;

/// The most log lines the window keeps.
pub const MAX_LOG_LINES: usize = 1000;

/// The last `n` lines of `lines`, or all of them when there are fewer.
pub open spec fn keep_newest(lines: Seq<String>, n: nat) -> Seq<String> {
    if lines.len() > n {
        lines.skip(lines.len() - n)
    } else {
        lines
    }
}

/// What the window holds: the form the user fills in and the progress log.
pub struct YtdlApp {
    pub url: String,
    pub quality: Quality,
    pub audio_only: bool,
    pub playlist_all: bool,
    pub output_dir: String,
    pub log: Vec<String>,
}

/// A download request, as the window hands it to the download task.
pub struct DownloadRequest {
    pub url: String,
    pub quality: String,
    pub audio_only: bool,
    pub playlist_all: bool,
    pub output_dir: String,
}

impl YtdlApp {
    /// A fresh window: no URL, best quality, video with sound, whole
    /// playlists, the `downloads` directory and an empty log.
    pub fn new() -> (app: Self)
        ensures
            app.url@ == Seq::<char>::empty(),
            app.quality == Quality::Best,
            !app.audio_only,
            app.playlist_all,
            app.output_dir@ == "downloads"@,
            app.log@ == Seq::<String>::empty(),
    {
        YtdlApp {
            url: String::new(),
            quality: Quality::default(),
            audio_only: false,
            playlist_all: true,
            output_dir: String::from_str("downloads"),
            log: Vec::new(),
        }
    }

    /// Whether the download button is enabled: no download is running and
    /// the URL holds more than white space.
    pub fn can_start_download(&self, downloading: bool) -> (b: bool)
        ensures
            b == (!downloading && trim(self.url@).len() > 0),
    {
        if downloading {
            return false;
        }
        let t = trim_str(self.url.as_str());
        t.as_str().unicode_len() > 0
    }

    /// The text of the download button.
    pub fn download_button_text(downloading: bool) -> (r: &'static str)
        ensures
            r@ == (if downloading {
                "⏳ Downloading…"@
            } else {
                "⬇  Download"@
            }),
    {
        if downloading {
            "⏳ Downloading…"
        } else {
            "⬇  Download"
        }
    }

    /// Empties the URL field.
    pub fn clear_url(&mut self)
        ensures
            final(self).url@ == Seq::<char>::empty(),
            final(self).quality == old(self).quality,
            final(self).audio_only == old(self).audio_only,
            final(self).playlist_all == old(self).playlist_all,
            final(self).output_dir == old(self).output_dir,
            final(self).log == old(self).log,
    {
        self.url = String::new();
    }

    /// Empties the log.
    pub fn clear_log(&mut self)
        ensures
            final(self).log@ == Seq::<String>::empty(),
            final(self).url == old(self).url,
            final(self).quality == old(self).quality,
            final(self).audio_only == old(self).audio_only,
            final(self).playlist_all == old(self).playlist_all,
            final(self).output_dir == old(self).output_dir,
    {
        self.log = Vec::new();
    }

    /// Starts a download: the request carries the trimmed URL and the
    /// quality text of the chosen quality, and the log gains a header line
    /// for it.
    pub fn start_download(&mut self) -> (req: DownloadRequest)
        ensures
            req.url@ == trim(old(self).url@),
            req.quality@ == old(self).quality.quality_text(),
            req.audio_only == old(self).audio_only,
            req.playlist_all == old(self).playlist_all,
            req.output_dir == old(self).output_dir,
            final(self).log@.len() == old(self).log@.len() + 1,
            final(self).log@.take(old(self).log@.len() as int) == old(self).log@,
            final(self).log@.last()@ == "——— "@ + trim(old(self).url@) + " ———"@,
            final(self).url == old(self).url,
            final(self).quality == old(self).quality,
            final(self).audio_only == old(self).audio_only,
            final(self).playlist_all == old(self).playlist_all,
            final(self).output_dir == old(self).output_dir,
    {
        let url = trim_str(self.url.as_str());
        let quality = String::from_str(self.quality.as_str());
        let header = request_header(url.as_str());
        self.log.push(header);
        assert(self.log@.take(old(self).log@.len() as int) =~= old(self).log@);
        DownloadRequest {
            url,
            quality,
            audio_only: self.audio_only,
            playlist_all: self.playlist_all,
            output_dir: self.output_dir.clone(),
        }
    }

    /// Takes in the lines the download task has sent, then keeps only the
    /// newest `MAX_LOG_LINES` lines.
    pub fn receive_log(&mut self, lines: Vec<String>)
        ensures
            final(self).log@ == keep_newest(old(self).log@ + lines@, MAX_LOG_LINES as nat),
            final(self).url == old(self).url,
            final(self).quality == old(self).quality,
            final(self).audio_only == old(self).audio_only,
            final(self).playlist_all == old(self).playlist_all,
            final(self).output_dir == old(self).output_dir,
    {
        let mut lines = lines;
        self.log.append(&mut lines);
        let n = self.log.len();
        if n > MAX_LOG_LINES {
            let newest = self.log.split_off(n - MAX_LOG_LINES);
            self.log = newest;
        }
    }
}

/// Law: after taking in new lines the log holds at most `MAX_LOG_LINES`
/// lines, and the newest line taken in is the last line of the log.
pub proof fn law_log_bounded(log: Seq<String>, lines: Seq<String>)
    ensures
        keep_newest(log + lines, MAX_LOG_LINES as nat).len() <= MAX_LOG_LINES,
        lines.len() > 0 ==> keep_newest(log + lines, MAX_LOG_LINES as nat).last() == lines.last(),
{
    let all = log + lines;
    if lines.len() > 0 {
        assert(all.last() == lines.last());
    }
}

} // verus!
