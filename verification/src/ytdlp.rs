//! The backend that runs the external downloader.

use crate::backends::YtDlpBackend;
use crate::decimal::{decimal, decimal_text, is_digit};
use crate::formats::{
    by_height, lemma_by_height_descends, lemma_by_height_keeps_all, lemma_by_height_keeps_equals,
    lemma_written_height_reads_back, rank, sort_formats,
};
use crate::json::{
    json_bits, json_items, json_member, json_of, json_read, json_text, json_whole, parse_json, Json,
};
use crate::text::{
    concat2, contains, copy_or, copy_text, last_line, lemma_until_gives_head, same_text,
    text_contains, text_last_line, text_of, text_or, text_trim, text_until, texts, trim, until,
};
use crate::types::{
    failed_info, formats_of, info_outcome, BackendError, DownloadOutput, DownloadView, ErrorView,
    FormatEntry, FormatView, HealthStatus, HealthView, Quantity, QuantityView, VideoInfo,
    VideoInfoView,
};
use crate::urls::{extract_video_id_from_url, known_host, sanitize_url, site_video_id};
use crate::utf8::{lossy_text, utf8_lossy_text, utf8_text};
use vstd::prelude::*;
use vstd::string::*;
use vstd::utf8::*;

verus! {

/// One format in the downloader's listing of a video.
#[derive(Debug)]
pub struct ListedFormat {
    pub format_id: Option<String>,
    pub ext: Option<String>,
    pub vcodec: Option<String>,
    pub acodec: Option<String>,
    pub height: Option<u64>,
    pub filesize: Option<u64>,
    pub filesize_approx: Option<u64>,
    pub fps: Option<u64>,
}

/// The model of a listed format. The rate is given by the bits of a double-precision number.
pub struct ListedFormatView {
    pub format_id: Option<Seq<char>>,
    pub ext: Option<Seq<char>>,
    pub vcodec: Option<Seq<char>>,
    pub acodec: Option<Seq<char>>,
    pub height: Option<u64>,
    pub filesize: Option<u64>,
    pub filesize_approx: Option<u64>,
    pub fps: Option<u64>,
}

impl View for ListedFormat {
    type V = ListedFormatView;

    open spec fn view(&self) -> ListedFormatView {
        ListedFormatView {
            format_id: text_of(self.format_id),
            ext: text_of(self.ext),
            vcodec: text_of(self.vcodec),
            acodec: text_of(self.acodec),
            height: self.height,
            filesize: self.filesize,
            filesize_approx: self.filesize_approx,
            fps: self.fps,
        }
    }
}

/// The downloader's listing of a video.
#[derive(Debug)]
pub struct Listing {
    pub title: Option<String>,
    pub duration: Option<u64>,
    pub thumbnail: Option<String>,
    pub formats: Vec<ListedFormat>,
}

/// The model of a listing. The duration is given by the bits of a double-precision number.
pub struct ListingView {
    pub title: Option<Seq<char>>,
    pub duration: Option<u64>,
    pub thumbnail: Option<Seq<char>>,
    pub formats: Seq<ListedFormatView>,
}

/// The models of a list of listed formats.
pub open spec fn listed_of(list: Seq<ListedFormat>) -> Seq<ListedFormatView> {
    list.map_values(|f: ListedFormat| f@)
}

impl View for Listing {
    type V = ListingView;

    open spec fn view(&self) -> ListingView {
        ListingView {
            title: text_of(self.title),
            duration: self.duration,
            thumbnail: text_of(self.thumbnail),
            formats: listed_of(self.formats@),
        }
    }
}

/// The format that an item of a listing describes.
pub open spec fn listed_format(item: Json) -> ListedFormatView {
    ListedFormatView {
        format_id: item.member("format_id"@).text(),
        ext: item.member("ext"@).text(),
        vcodec: item.member("vcodec"@).text(),
        acodec: item.member("acodec"@).text(),
        height: item.member("height"@).whole(),
        filesize: item.member("filesize"@).whole(),
        filesize_approx: item.member("filesize_approx"@).whole(),
        fps: item.member("fps"@).bits(),
    }
}

/// The listing that the downloader has written as JSON.
pub open spec fn listing_in(json: Json) -> ListingView {
    ListingView {
        title: json.member("title"@).text(),
        duration: json.member("duration"@).bits(),
        thumbnail: json.member("thumbnail"@).text(),
        formats: match json.member("formats"@).items() {
            Some(items) => items.map_values(|item: Json| listed_format(item)),
            None => seq![],
        },
    }
}

/// Reads the text of the member under `key`.
fn member_text(value: &serde_json::Value, key: &str) -> (text: Option<String>)
    ensures
        text_of(text) == json_of(*value).member(key@).text(),
{
    match json_text(json_member(value, key)) {
        Some(text) => Some(text.to_owned()),
        None => None,
    }
}

/// Reads one format of a listing.
fn read_listed_format(item: &serde_json::Value) -> (format: ListedFormat)
    ensures
        format@ == listed_format(json_of(*item)),
{
    ListedFormat {
        format_id: member_text(item, "format_id"),
        ext: member_text(item, "ext"),
        vcodec: member_text(item, "vcodec"),
        acodec: member_text(item, "acodec"),
        height: json_whole(json_member(item, "height")),
        filesize: json_whole(json_member(item, "filesize")),
        filesize_approx: json_whole(json_member(item, "filesize_approx")),
        fps: json_bits(json_member(item, "fps")),
    }
}

/// Reads a listing.
pub fn read_listing(json: &serde_json::Value) -> (listing: Listing)
    ensures
        listing@ == listing_in(json_of(*json)),
{
    let mut formats: Vec<ListedFormat> = Vec::new();
    match json_items(json_member(json, "formats")) {
        Some(items) => {
            let ghost all = items@.map_values(|item: serde_json::Value| json_of(item)).map_values(
                |item: Json| listed_format(item),
            );
            let mut i: usize = 0;
            while i < items.len()
                invariant
                    i <= items@.len(),
                    all == items@.map_values(
                        |item: serde_json::Value| json_of(item),
                    ).map_values(|item: Json| listed_format(item)),
                    listed_of(formats@) =~= all.take(i as int),
                decreases items@.len() - i,
            {
                let ghost before = formats@;
                formats.push(read_listed_format(&items[i]));
                i += 1;
                assert(listed_of(formats@) =~= listed_of(before).push(
                    listed_format(json_of(items@[i - 1])),
                ));
                assert(all.take(i as int) =~= all.take(i - 1).push(all[i - 1]));
            }
            assert(all.take(all.len() as int) =~= all);
        },
        None => {
            assert(listed_of(formats@) =~= seq![]);
        },
    }
    Listing {
        title: member_text(json, "title"),
        duration: json_bits(json_member(json, "duration")),
        thumbnail: member_text(json, "thumbnail"),
        formats,
    }
}

/// The resolution of a format with the given height, with or without sound.
pub open spec fn listed_resolution(height: Option<u64>, has_audio: bool) -> Seq<char> {
    match height {
        Some(h) if h > 0 => if has_audio {
            decimal(h as nat) + "p"@
        } else {
            decimal(h as nat) + "p (video only)"@
        },
        _ => "audio only"@,
    }
}

/// Whether a listed format has pictures.
pub open spec fn has_video(format: ListedFormatView) -> bool {
    text_or(format.vcodec, "none"@) != "none"@
}

/// The entry for a listed format.
pub open spec fn listed_entry(format: ListedFormatView) -> FormatView {
    let acodec = text_or(format.acodec, "none"@);
    FormatView {
        format_id: text_or(format.format_id, seq![]),
        ext: text_or(format.ext, seq![]),
        resolution: listed_resolution(format.height, acodec != "none"@),
        filesize: if format.filesize is Some {
            format.filesize
        } else {
            format.filesize_approx
        },
        fps: match format.fps {
            Some(bits) => Some(QuantityView::Bits(bits)),
            None => None,
        },
        vcodec: text_or(format.vcodec, "none"@),
        acodec,
    }
}

/// The entries for the listed formats with pictures, in the order of the listing.
pub open spec fn listed_entries(formats: Seq<ListedFormatView>) -> Seq<FormatView> {
    formats.filter(|f: ListedFormatView| has_video(f)).map_values(
        |f: ListedFormatView| listed_entry(f),
    )
}

/// What a listing says of a video.
pub open spec fn listing_info(listing: ListingView) -> VideoInfoView {
    VideoInfoView {
        title: text_or(listing.title, "Unknown"@),
        duration: match listing.duration {
            Some(bits) => Some(QuantityView::Bits(bits)),
            None => None,
        },
        thumbnail: listing.thumbnail,
        formats: by_height(listed_entries(listing.formats)),
        error: None,
    }
}

/// Writes the resolution of a format with the given height.
fn resolution_text(height: Option<u64>, has_audio: bool) -> (text: String)
    ensures
        text@ == listed_resolution(height, has_audio),
{
    let h: u64 = match height {
        Some(h) => h,
        None => 0,
    };
    if h > 0 {
        let number = decimal_text(h);
        if has_audio {
            concat2(number.as_str(), "p")
        } else {
            concat2(number.as_str(), "p (video only)")
        }
    } else {
        "audio only".to_owned()
    }
}

/// Makes the entry for a listed format.
fn entry_for(format: &ListedFormat) -> (entry: FormatEntry)
    ensures
        entry@ == listed_entry(format@),
{
    let vcodec = copy_or(&format.vcodec, "none");
    let acodec = copy_or(&format.acodec, "none");
    let has_audio = !same_text(acodec.as_str(), "none");
    proof {
        reveal_strlit("");
        assert(""@ =~= seq![]);
    }
    FormatEntry {
        format_id: copy_or(&format.format_id, ""),
        ext: copy_or(&format.ext, ""),
        resolution: resolution_text(format.height, has_audio),
        filesize: match format.filesize {
            Some(size) => Some(size),
            None => format.filesize_approx,
        },
        fps: match format.fps {
            Some(bits) => Some(Quantity::Bits(bits)),
            None => None,
        },
        vcodec,
        acodec,
    }
}

/// Says what a listing says of a video: its formats with pictures, from the highest to the lowest.
pub fn info_from_listing(listing: Listing) -> (info: VideoInfo)
    ensures
        info@ == listing_info(listing@),
{
    let ghost all = listed_of(listing.formats@);
    let mut formats: Vec<FormatEntry> = Vec::new();
    let mut i: usize = 0;
    proof {
        reveal(Seq::filter);
        assert(all.take(0) =~= seq![]);
        assert(formats_of(formats@) =~= listed_entries(all.take(0)));
    }
    while i < listing.formats.len()
        invariant
            i <= listing.formats@.len(),
            all == listed_of(listing.formats@),
            formats_of(formats@) == listed_entries(all.take(i as int)),
        decreases listing.formats@.len() - i,
    {
        let format = &listing.formats[i];
        let ghost before = formats@;
        let is_video = match &format.vcodec {
            Some(codec) => !same_text(codec.as_str(), "none"),
            None => false,
        };
        proof {
            let done = all.take(i as int);
            let next = all.take(i + 1);
            assert(next =~= done.push(format@));
            done.lemma_filter_push(format@, |f: ListedFormatView| has_video(f));
            let kept = done.filter(|f: ListedFormatView| has_video(f));
            assert(is_video == has_video(format@));
            assert(kept.push(format@).map_values(|f: ListedFormatView| listed_entry(f))
                =~= kept.map_values(|f: ListedFormatView| listed_entry(f)).push(
                listed_entry(format@),
            ));
        }
        if is_video {
            formats.push(entry_for(format));
            assert(formats_of(formats@) =~= formats_of(before).push(listed_entry(format@)));
        }
        i += 1;
    }
    assert(all.take(all.len() as int) =~= all);
    VideoInfo {
        title: copy_or(&listing.title, "Unknown"),
        duration: match listing.duration {
            Some(bits) => Some(Quantity::Bits(bits)),
            None => None,
        },
        thumbnail: copy_text(&listing.thumbnail),
        formats: sort_formats(formats),
        error: None,
    }
}

/// What the downloader's output says of a video.
pub open spec fn output_info(text: Seq<char>) -> Result<VideoInfoView, ErrorView> {
    match json_read(text) {
        Ok(json) => Ok(listing_info(listing_in(json))),
        Err(error) => Err(ErrorView::ExtractionFailed("parse error: "@ + error)),
    }
}

/// Says what the downloader's output says of a video.
pub fn info_from_output(text: &str) -> (info: Result<VideoInfo, BackendError>)
    ensures
        info_outcome(info) == output_info(text@),
{
    match parse_json(text) {
        Ok(json) => Ok(info_from_listing(read_listing(&json))),
        Err(error) => Err(
            BackendError::ExtractionFailed(concat2("parse error: ", error.as_str())),
        ),
    }
}

/// The last line of what the downloader wrote to the error stream.
pub open spec fn complaint(stderr: Seq<u8>) -> Seq<char> {
    text_or(last_line(lossy_text(stderr)), "unknown"@)
}

/// Copies the last line of what the downloader wrote to the error stream.
fn complaint_text(stderr: &[u8]) -> (text: String)
    ensures
        text@ == complaint(stderr@),
{
    let text = utf8_lossy_text(stderr);
    match text_last_line(text.as_str()) {
        Some(line) => line.to_owned(),
        None => "unknown".to_owned(),
    }
}

/// What a finished run of the downloader says of a video.
pub open spec fn run_info(success: bool, stdout: Seq<u8>, stderr: Seq<u8>) -> Result<
    VideoInfoView,
    ErrorView,
> {
    if !success {
        Ok(failed_info("yt-dlp error: "@ + complaint(stderr)))
    } else if !valid_utf8(stdout) {
        Err(ErrorView::ExtractionFailed("invalid utf-8 from yt-dlp"@))
    } else {
        output_info(decode_utf8(stdout))
    }
}

impl YtDlpBackend {
    /// Says whether the downloader and its helper were found, and which version of the
    /// downloader: `ytdlp` and `ffmpeg` tell whether a call of each succeeded, `version_output` is
    /// what the downloader wrote when asked for its version.
    pub fn health(&self, ytdlp: bool, ffmpeg: bool, version_output: Option<Vec<u8>>) -> (status:
        HealthStatus)
        ensures
            status@ == (HealthView {
                backend_name: "yt-dlp + ffmpeg"@,
                available: ytdlp && ffmpeg,
                version: match version_output {
                    Some(bytes) if ytdlp && valid_utf8(bytes@) => Some(
                        if ffmpeg {
                            trim(decode_utf8(bytes@)) + " + ffmpeg"@
                        } else {
                            trim(decode_utf8(bytes@))
                        },
                    ),
                    _ => None,
                },
            }),
    {
        let version: Option<String> = if ytdlp {
            match version_output {
                Some(bytes) => match utf8_text(bytes) {
                    Some(text) => {
                        let mut version: String = text_trim(text.as_str()).to_owned();
                        if ffmpeg {
                            version.append(" + ffmpeg");
                        }
                        Some(version)
                    },
                    None => None,
                },
                None => None,
            }
        } else {
            None
        };
        HealthStatus {
            backend_name: self.name().to_owned(),
            available: ytdlp && ffmpeg,
            version,
        }
    }

    /// The arguments with which the downloader lists a video, or the answer where the address
    /// leads to no known host.
    pub fn info_arguments(&self, url: &str) -> (arguments: Result<Vec<String>, VideoInfo>)
        ensures
            match arguments {
                Ok(list) => known_host(url@) && texts(list@) == seq![
                    "-J"@,
                    "--no-playlist"@,
                    "--flat-playlist"@,
                    url@,
                ],
                Err(info) => !known_host(url@) && info@ == failed_info("invalid youtube url"@),
            },
    {
        if !sanitize_url(url) {
            return Err(VideoInfo::failed("invalid youtube url".to_owned()));
        }
        let mut list: Vec<String> = Vec::new();
        list.push("-J".to_owned());
        list.push("--no-playlist".to_owned());
        list.push("--flat-playlist".to_owned());
        list.push(url.to_owned());
        assert(texts(list@) =~= seq!["-J"@, "--no-playlist"@, "--flat-playlist"@, url@]);
        Ok(list)
    }

    /// Says what a finished run of the downloader says of a video.
    pub fn get_video_info(&self, success: bool, stdout: Vec<u8>, stderr: &[u8]) -> (info: Result<
        VideoInfo,
        BackendError,
    >)
        ensures
            info_outcome(info) == run_info(success, stdout@, stderr@),
    {
        if !success {
            let text = complaint_text(stderr);
            return Ok(VideoInfo::failed(concat2("yt-dlp error: ", text.as_str())));
        }
        match utf8_text(stdout) {
            Some(text) => info_from_output(text.as_str()),
            None => Err(BackendError::ExtractionFailed("invalid utf-8 from yt-dlp".to_owned())),
        }
    }
}

/// The first of the parts of `text` between semicolons that contains `word`.
pub open spec fn first_part_with(text: Seq<char>, word: Seq<char>) -> Option<Seq<char>>
    decreases text.len(),
{
    let part = until(text, ';');
    if contains(part, word) {
        Some(part)
    } else if part.len() >= text.len() {
        None
    } else {
        first_part_with(text.subrange(part.len() as int + 1, text.len() as int), word)
    }
}

proof fn lemma_until_length(text: Seq<char>, stop: char)
    ensures
        until(text, stop).len() <= text.len(),
        until(text, stop).len() < text.len() ==> text[until(text, stop).len() as int] == stop,
    decreases text.len(),
{
    if text.len() > 0 && text[0] != stop {
        lemma_until_length(text.drop_first(), stop);
    }
}

/// Picks the directory of the helper out of the search path.
pub fn ffmpeg_directory(path: &str) -> (directory: Option<String>)
    ensures
        text_of(directory) == first_part_with(path@, "ffmpeg"@),
{
    let total: usize = path.unicode_len();
    let mut from: usize = 0;
    assert(path@.subrange(0, path@.len() as int) =~= path@);
    loop
        invariant
            from <= total,
            total == path@.len(),
            first_part_with(path@.subrange(from as int, total as int), "ffmpeg"@)
                == first_part_with(path@, "ffmpeg"@),
        decreases total - from,
    {
        let rest = path.substring_char(from, total);
        let part = text_until(rest, ';');
        if text_contains(part, "ffmpeg") {
            return Some(part.to_owned());
        }
        let len: usize = part.unicode_len();
        proof {
            lemma_until_length(rest@, ';');
        }
        if len >= total - from {
            return None;
        }
        proof {
            assert(rest@.subrange(len + 1, rest@.len() as int) =~= path@.subrange(
                from + len + 1,
                total as int,
            ));
        }
        from = from + len + 1;
    }
}

/// The name of the file that a download is written to.
pub open spec fn temp_name(url: Seq<char>, format_id: Seq<char>, millis: nat) -> Seq<char> {
    "yt_"@ + text_or(site_video_id(url), "unknown"@) + "_"@ + format_id + "_"@ + decimal(millis)
        + ".mp4"@
}

/// The format that the downloader is asked for.
pub open spec fn format_argument(format_id: Seq<char>, merge_audio: bool) -> Seq<char> {
    if merge_audio {
        format_id + "+bestaudio[ext=m4a]/bestaudio/best"@
    } else {
        format_id
    }
}

/// The arguments with which the downloader fetches a video.
pub open spec fn fetch_arguments(
    url: Seq<char>,
    format_id: Seq<char>,
    merge_audio: bool,
    target: Seq<char>,
    ffmpeg: Option<Seq<char>>,
) -> Seq<Seq<char>> {
    let first = seq![
        "-f"@,
        format_argument(format_id, merge_audio),
        "--merge-output-format"@,
        "mp4"@,
        "--no-playlist"@,
        "-o"@,
        target,
        "--no-part"@,
        "--no-mtime"@,
        "--no-progress"@,
        "-q"@,
    ];
    match ffmpeg {
        Some(directory) => first + seq!["--ffmpeg-location"@, directory, url],
        None => first + seq![url],
    }
}

/// The outcome of a step in terms of the model of its error.
pub open spec fn step_outcome(result: Result<(), BackendError>) -> Result<(), ErrorView> {
    match result {
        Ok(_) => Ok(()),
        Err(error) => Err(error@),
    }
}

impl YtDlpBackend {
    /// Checks that a download may be started, and names the file that it is written to.
    pub fn download_target(&self, url: &str, format_id: &str, millis: u64) -> (name: Result<
        String,
        BackendError,
    >)
        ensures
            match name {
                Ok(text) => known_host(url@) && text@ == temp_name(
                    url@,
                    format_id@,
                    millis as nat,
                ),
                Err(error) => !known_host(url@) && error@ == ErrorView::InvalidUrl(
                    "invalid youtube url"@,
                ),
            },
    {
        if !sanitize_url(url) {
            return Err(BackendError::InvalidUrl("invalid youtube url".to_owned()));
        }
        let mut name: String = "yt_".to_owned();
        match extract_video_id_from_url(url) {
            Some(id) => name.append(id),
            None => name.append("unknown"),
        }
        name.append("_");
        name.append(format_id);
        name.append("_");
        name.append(decimal_text(millis).as_str());
        name.append(".mp4");
        Ok(name)
    }

    /// The arguments with which the downloader fetches a video into the file `target`.
    pub fn download_arguments(
        &self,
        url: &str,
        format_id: &str,
        merge_audio: bool,
        target: &str,
        ffmpeg: Option<String>,
    ) -> (arguments: Vec<String>)
        ensures
            texts(arguments@) == fetch_arguments(
                url@,
                format_id@,
                merge_audio,
                target@,
                text_of(ffmpeg),
            ),
    {
        let mut list: Vec<String> = Vec::new();
        list.push("-f".to_owned());
        if merge_audio {
            list.push(concat2(format_id, "+bestaudio[ext=m4a]/bestaudio/best"));
        } else {
            list.push(format_id.to_owned());
        }
        list.push("--merge-output-format".to_owned());
        list.push("mp4".to_owned());
        list.push("--no-playlist".to_owned());
        list.push("-o".to_owned());
        list.push(target.to_owned());
        list.push("--no-part".to_owned());
        list.push("--no-mtime".to_owned());
        list.push("--no-progress".to_owned());
        list.push("-q".to_owned());
        match ffmpeg {
            Some(directory) => {
                list.push("--ffmpeg-location".to_owned());
                list.push(directory);
            },
            None => {},
        }
        list.push(url.to_owned());
        assert(texts(list@) =~= fetch_arguments(
            url@,
            format_id@,
            merge_audio,
            target@,
            text_of(ffmpeg),
        ));
        list
    }

    /// Judges a finished run of the downloader: it has to have succeeded and to have left the file
    /// `target` behind.
    pub fn download_finished(
        &self,
        success: bool,
        stderr: &[u8],
        target: &str,
        target_exists: bool,
    ) -> (verdict: Result<(), BackendError>)
        ensures
            step_outcome(verdict) == if !success {
                Err::<(), ErrorView>(
                    ErrorView::DownloadFailed("yt-dlp failed: "@ + complaint(stderr@)),
                )
            } else if !target_exists {
                Err(ErrorView::DownloadFailed("yt-dlp output file not found: "@ + target@))
            } else {
                Ok(())
            },
    {
        if !success {
            let text = complaint_text(stderr);
            return Err(BackendError::DownloadFailed(concat2("yt-dlp failed: ", text.as_str())));
        }
        if !target_exists {
            return Err(
                BackendError::DownloadFailed(concat2("yt-dlp output file not found: ", target)),
            );
        }
        Ok(())
    }

    /// Names the download of a video with the title `title`.
    pub fn download_video(&self, title: &str, size: Option<u64>) -> (output: DownloadOutput)
        ensures
            output@ == (DownloadView {
                filename: trim(title@) + ".mp4"@,
                content_type: "video/mp4"@,
                size_hint: size,
            }),
    {
        DownloadOutput {
            filename: concat2(text_trim(title), ".mp4"),
            content_type: "video/mp4".to_owned(),
            size_hint: size,
        }
    }
}

/// The error for a downloader that could not be started to list a video.
pub fn listing_not_started(error: &str) -> (failure: BackendError)
    ensures
        failure@ == ErrorView::ExtractionFailed("failed to run yt-dlp: "@ + error@),
{
    BackendError::ExtractionFailed(concat2("failed to run yt-dlp: ", error))
}

/// The error for a downloader that could not be started to fetch a video.
pub fn download_not_started(error: &str) -> (failure: BackendError)
    ensures
        failure@ == ErrorView::DownloadFailed("failed to run yt-dlp: "@ + error@),
{
    BackendError::DownloadFailed(concat2("failed to run yt-dlp: ", error))
}

/// The error for a downloaded file that could not be opened.
pub fn download_not_opened(error: &str) -> (failure: BackendError)
    ensures
        failure@ == ErrorView::DownloadFailed("failed to open yt-dlp output: "@ + error@),
{
    BackendError::DownloadFailed(concat2("failed to open yt-dlp output: ", error))
}

proof fn lemma_until_whole(text: Seq<char>, stop: char)
    requires
        forall|i: int| 0 <= i < text.len() ==> text[i] != stop,
    ensures
        until(text, stop) == text,
    decreases text.len(),
{
    if text.len() > 0 {
        let rest = text.drop_first();
        assert forall|i: int| 0 <= i < rest.len() implies rest[i] != stop by {
            assert(rest[i] == text[i + 1]);
        }
        lemma_until_whole(rest, stop);
        assert(seq![text[0]] + rest =~= text);
    } else {
        assert(text =~= seq![]);
    }
}

/// The entry for a listed format is put in order by the height that the listing gives, or as if it
/// were zero where the listing gives none.
pub proof fn lemma_listed_rank_is_height(format: ListedFormatView)
    ensures
        rank(listed_entry(format)) == match format.height {
            Some(h) => h as nat,
            None => 0nat,
        },
{
    let resolution = listed_entry(format).resolution;
    if format.height is Some && format.height->0 > 0 {
        let h = format.height->0 as nat;
        reveal_strlit("p");
        reveal_strlit("p (video only)");
        lemma_written_height_reads_back(h, "p"@);
        lemma_written_height_reads_back(h, "p (video only)"@);
    } else {
        reveal_strlit("audio only");
        assert(resolution == "audio only"@);
        lemma_until_whole(resolution, 'p');
        assert(!is_digit(resolution[0]));
    }
}

/// Every entry that is made from a listing has pictures.
pub proof fn lemma_listed_entries_have_video(formats: Seq<ListedFormatView>)
    ensures
        forall|i: int|
            0 <= i < listed_entries(formats).len() ==> (#[trigger] listed_entries(
                formats,
            )[i]).vcodec != "none"@,
{
    let wanted = |f: ListedFormatView| has_video(f);
    let kept = formats.filter(wanted);
    assert forall|i: int| 0 <= i < listed_entries(formats).len() implies (
    #[trigger] listed_entries(formats)[i]).vcodec != "none"@ by {
        formats.lemma_filter_pred(wanted, i);
        assert(listed_entries(formats)[i] == listed_entry(kept[i]));
    }
}

/// Whatever else is asked for, the format behind `-f` is the one asked for, with the best sound
/// joined to it exactly where sound is to be merged.
pub proof fn lemma_format_asked_for(
    url: Seq<char>,
    format_id: Seq<char>,
    merge_audio: bool,
    target: Seq<char>,
    ffmpeg: Option<Seq<char>>,
)
    ensures
        ({
            let arguments = fetch_arguments(url, format_id, merge_audio, target, ffmpeg);
            &&& arguments.len() >= 12
            &&& arguments[0] == "-f"@
            &&& merge_audio ==> arguments[1] == format_id + "+bestaudio[ext=m4a]/bestaudio/best"@
            &&& !merge_audio ==> arguments[1] == format_id
        }),
{
}

/// The other arguments do not depend on the format or on whether sound is merged: an MP4 file is
/// asked for at `target`, of the one video at `url`, which stands last.
pub proof fn lemma_file_asked_for(
    url: Seq<char>,
    format_id: Seq<char>,
    merge_audio: bool,
    target: Seq<char>,
    ffmpeg: Option<Seq<char>>,
)
    ensures
        ({
            let arguments = fetch_arguments(url, format_id, merge_audio, target, ffmpeg);
            &&& arguments.subrange(2, 11) == seq![
                "--merge-output-format"@,
                "mp4"@,
                "--no-playlist"@,
                "-o"@,
                target,
                "--no-part"@,
                "--no-mtime"@,
                "--no-progress"@,
                "-q"@,
            ]
            &&& arguments.last() == url
            &&& ffmpeg is None ==> arguments.len() == 12
        }),
{
    let arguments = fetch_arguments(url, format_id, merge_audio, target, ffmpeg);
    assert(arguments.subrange(2, 11) =~= seq![
        "--merge-output-format"@,
        "mp4"@,
        "--no-playlist"@,
        "-o"@,
        target,
        "--no-part"@,
        "--no-mtime"@,
        "--no-progress"@,
        "-q"@,
    ]);
}

/// Where the directory of the helper is known, two arguments in front of the address say so, and
/// nothing else changes.
pub proof fn lemma_directory_adds_two_arguments(
    url: Seq<char>,
    format_id: Seq<char>,
    merge_audio: bool,
    target: Seq<char>,
    directory: Seq<char>,
)
    ensures
        ({
            let without = fetch_arguments(url, format_id, merge_audio, target, None);
            let with = fetch_arguments(url, format_id, merge_audio, target, Some(directory));
            with == without.drop_last() + seq!["--ffmpeg-location"@, directory, without.last()]
        }),
{
    let without = fetch_arguments(url, format_id, merge_audio, target, None);
    let with = fetch_arguments(url, format_id, merge_audio, target, Some(directory));
    assert(with =~= without.drop_last() + seq!["--ffmpeg-location"@, directory, without.last()]);
}

/// The size of an entry is the size that is listed, else the approximate size that is listed,
/// whatever else is listed: it is missing only where both are.
pub proof fn lemma_listed_size(format: ListedFormatView)
    ensures
        format.filesize is Some ==> listed_entry(format).filesize == format.filesize,
        format.filesize is None ==> listed_entry(format).filesize == format.filesize_approx,
        listed_entry(format).filesize is None <==> format.filesize is None
            && format.filesize_approx is None,
{
}

/// The number, the extension, the codecs and the rate of an entry are those that are listed. A
/// number or an extension that is not listed is empty, and a codec that is not listed is `none`.
pub proof fn lemma_listed_texts(format: ListedFormatView)
    ensures
        ({
            let entry = listed_entry(format);
            &&& format.format_id is Some ==> entry.format_id == format.format_id->0
            &&& format.format_id is None ==> entry.format_id.len() == 0
            &&& format.ext is Some ==> entry.ext == format.ext->0
            &&& format.ext is None ==> entry.ext.len() == 0
            &&& format.vcodec is Some ==> entry.vcodec == format.vcodec->0
            &&& format.vcodec is None ==> entry.vcodec == "none"@
            &&& format.acodec is Some ==> entry.acodec == format.acodec->0
            &&& format.acodec is None ==> entry.acodec == "none"@
            &&& format.fps is Some ==> entry.fps == Some(QuantityView::Bits(format.fps->0))
            &&& format.fps is None ==> entry.fps is None
        }),
{
}

/// The resolution of an entry is the height that is listed; it says where there is no sound, and
/// where no height is listed.
pub proof fn lemma_listed_resolution(format: ListedFormatView)
    ensures
        ({
            let shown = listed_entry(format).resolution;
            let silent = format.acodec is None || format.acodec->0 == "none"@;
            &&& format.height is None || format.height->0 == 0 ==> shown == "audio only"@
            &&& format.height is Some && format.height->0 > 0 && silent ==> shown == decimal(
                format.height->0 as nat,
            ) + "p (video only)"@
            &&& format.height is Some && format.height->0 > 0 && !silent ==> shown == decimal(
                format.height->0 as nat,
            ) + "p"@
        }),
{
}

/// One more listed format adds its entry behind the others, unless it has no pictures; then it adds
/// none.
pub proof fn lemma_listed_one_by_one(formats: Seq<ListedFormatView>, format: ListedFormatView)
    ensures
        listed_entries(Seq::empty()) == Seq::<FormatView>::empty(),
        format.vcodec is None || format.vcodec->0 == "none"@ ==> listed_entries(
            formats.push(format),
        ) == listed_entries(formats),
        format.vcodec is Some && format.vcodec->0 != "none"@ ==> listed_entries(
            formats.push(format),
        ) == listed_entries(formats).push(listed_entry(format)),
{
    let wanted = |f: ListedFormatView| has_video(f);
    let entry = |f: ListedFormatView| listed_entry(f);
    reveal(Seq::filter);
    assert(listed_entries(Seq::empty()) =~= Seq::<FormatView>::empty());
    formats.lemma_filter_push(format, wanted);
    let kept = formats.filter(wanted);
    assert(kept.push(format).map_values(entry) =~= kept.map_values(entry).push(
        listed_entry(format),
    ));
}

/// What is said of a video is what is listed: its title, or `Unknown`, its duration, its thumbnail,
/// and every entry for a format with pictures, from the highest to the lowest; equally high ones
/// keep their order.
pub proof fn lemma_listing_is_said(listing: ListingView, h: nat)
    ensures
        ({
            let info = listing_info(listing);
            let entries = listed_entries(listing.formats);
            &&& listing.title is Some ==> info.title == listing.title->0
            &&& listing.title is None ==> info.title == "Unknown"@
            &&& listing.duration is Some ==> info.duration == Some(
                QuantityView::Bits(listing.duration->0),
            )
            &&& listing.duration is None ==> info.duration is None
            &&& info.thumbnail == listing.thumbnail
            &&& info.error is None
            &&& info.formats.to_multiset() == entries.to_multiset()
            &&& forall|i: int, j: int|
                0 <= i < j < info.formats.len() ==> rank(#[trigger] info.formats[i]) >= rank(
                    #[trigger] info.formats[j],
                )
            &&& info.formats.filter(|f: FormatView| rank(f) == h) == entries.filter(
                |f: FormatView| rank(f) == h,
            )
        }),
{
    lemma_by_height_keeps_equals(listed_entries(listing.formats), h);
    lemma_by_height_keeps_all(listed_entries(listing.formats));
    lemma_by_height_descends(listed_entries(listing.formats));
}

/// The listing is read from the members of the JSON that go by these names, and a list that is
/// missing is empty.
pub proof fn lemma_listing_is_read(json: Json)
    ensures
        ({
            let listing = listing_in(json);
            let items = json.member("formats"@).items();
            &&& listing.title == json.member("title"@).text()
            &&& listing.duration == json.member("duration"@).bits()
            &&& listing.thumbnail == json.member("thumbnail"@).text()
            &&& items is None ==> listing.formats.len() == 0
            &&& items is Some ==> listing.formats.len() == items->0.len()
            &&& items is Some ==> forall|i: int|
                #![trigger listing.formats[i]]
                0 <= i < items->0.len() ==> {
                    let item = items->0[i];
                    let format = listing.formats[i];
                    &&& format.format_id == item.member("format_id"@).text()
                    &&& format.ext == item.member("ext"@).text()
                    &&& format.vcodec == item.member("vcodec"@).text()
                    &&& format.acodec == item.member("acodec"@).text()
                    &&& format.height == item.member("height"@).whole()
                    &&& format.filesize == item.member("filesize"@).whole()
                    &&& format.filesize_approx == item.member("filesize_approx"@).whole()
                    &&& format.fps == item.member("fps"@).bits()
                }
        }),
{
}

/// A run that failed is answered with the last line of its complaint and with nothing else; a run
/// that succeeded is read, whatever it complained of.
pub proof fn lemma_run_is_answered(stdout: Seq<u8>, stderr: Seq<u8>, other: Seq<u8>)
    ensures
        run_info(false, stdout, stderr) matches Ok(info) && {
            &&& info.title.len() == 0 && info.formats.len() == 0
            &&& info.duration is None && info.thumbnail is None
            &&& last_line(lossy_text(stderr)) is Some ==> info.error == Some(
                "yt-dlp error: "@ + last_line(lossy_text(stderr))->0,
            )
            &&& last_line(lossy_text(stderr)) is None ==> info.error == Some(
                "yt-dlp error: "@ + "unknown"@,
            )
        },
        run_info(true, stdout, stderr) == run_info(true, stdout, other),
        !valid_utf8(stdout) ==> run_info(true, stdout, stderr) == Err::<VideoInfoView, ErrorView>(
            ErrorView::ExtractionFailed("invalid utf-8 from yt-dlp"@),
        ),
        valid_utf8(stdout) && json_read(decode_utf8(stdout)) is Ok ==> run_info(
            true,
            stdout,
            stderr,
        ) == Ok::<VideoInfoView, ErrorView>(
            listing_info(listing_in(json_read(decode_utf8(stdout))->Ok_0)),
        ),
        valid_utf8(stdout) && json_read(decode_utf8(stdout)) is Err ==> run_info(
            true,
            stdout,
            stderr,
        ) == Err::<VideoInfoView, ErrorView>(
            ErrorView::ExtractionFailed(
                "parse error: "@ + json_read(decode_utf8(stdout))->Err_0,
            ),
        ),
{
}

/// The search goes through the parts between semicolons one by one, and takes the first that
/// contains the word, whole.
pub proof fn lemma_parts_one_by_one(part: Seq<char>, rest: Seq<char>, word: Seq<char>)
    requires
        !part.contains(';'),
    ensures
        contains(part, word) ==> first_part_with(part, word) == Some(part),
        !contains(part, word) ==> first_part_with(part, word) is None,
        contains(part, word) ==> first_part_with(part + seq![';'] + rest, word) == Some(part),
        !contains(part, word) ==> first_part_with(part + seq![';'] + rest, word) == first_part_with(
            rest,
            word,
        ),
{
    let all = part + seq![';'] + rest;
    lemma_until_gives_head(part, ';', rest);
    assert(all.subrange(part.len() as int + 1, all.len() as int) =~= rest);
}

/// The file that a download is written to is named after the video, the format and the time.
pub proof fn lemma_file_is_named(
    url: Seq<char>,
    format_id: Seq<char>,
    millis: nat,
    id: Seq<char>,
)
    ensures
        site_video_id(url) == Some(id) ==> temp_name(url, format_id, millis) == "yt_"@ + id + "_"@
            + format_id + "_"@ + decimal(millis) + ".mp4"@,
        site_video_id(url) is None ==> temp_name(url, format_id, millis) == "yt_"@ + "unknown"@
            + "_"@ + format_id + "_"@ + decimal(millis) + ".mp4"@,
{
}

} // verus!
