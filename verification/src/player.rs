//! The streams of a video, as one of the site's clients gets them.

use crate::decimal::{decimal, decimal_text, lemma_decimal_reads_back, parsed};
use crate::formats::{
    by_height, lemma_bit_rate_is_no_height, lemma_by_height_descends, lemma_by_height_keeps_all,
    lemma_by_height_keeps_equals, lemma_stream_extensions, lemma_written_height_reads_back, rank,
    sort_formats, stream_extension, stream_format_to_ext,
};
use crate::text::{concat2, contains, copy_or, text_of, text_or};
use crate::thumbnails::{
    areas_fit, best_thumbnail, largest_thumbnail, lemma_largest_thumbnail_is_largest, sides,
    thumbnails_of, Thumbnail, ThumbnailView,
};
use crate::types::{
    formats_of, BackendError, ErrorView, FormatEntry, FormatView, Quantity, QuantityView, VideoInfo,
    VideoInfoView,
};
use crate::urls::{has_token, inject_pot, lemma_token_added_once, url_has_token, with_token};
use vstd::prelude::*;
use vstd::string::*;

verus! {

/// The codec of a stream with pictures.
#[derive(Debug, Clone, Copy, PartialEq, Eq)]
pub enum VideoCodec {
    Unknown,
    Mp4v,
    Avc1,
    Vp9,
    Av01,
}

/// The codec of a stream with sound.
#[derive(Debug, Clone, Copy, PartialEq, Eq)]
pub enum AudioCodec {
    Unknown,
    Mp4a,
    Opus,
    Ac3,
    Ec3,
}

impl VideoCodec {
    /// The name of a codec.
    pub open spec fn spelling(self) -> Seq<char> {
        match self {
            VideoCodec::Unknown => "unknown"@,
            VideoCodec::Mp4v => "mp4v"@,
            VideoCodec::Avc1 => "avc1"@,
            VideoCodec::Vp9 => "vp9"@,
            VideoCodec::Av01 => "av01"@,
        }
    }

    /// Names a codec.
    pub fn name(self) -> (name: &'static str)
        ensures
            name@ == self.spelling(),
    {
        match self {
            VideoCodec::Unknown => "unknown",
            VideoCodec::Mp4v => "mp4v",
            VideoCodec::Avc1 => "avc1",
            VideoCodec::Vp9 => "vp9",
            VideoCodec::Av01 => "av01",
        }
    }
}

impl AudioCodec {
    /// The name of a codec.
    pub open spec fn spelling(self) -> Seq<char> {
        match self {
            AudioCodec::Unknown => "unknown"@,
            AudioCodec::Mp4a => "mp4a"@,
            AudioCodec::Opus => "opus"@,
            AudioCodec::Ac3 => "ac3"@,
            AudioCodec::Ec3 => "ec3"@,
        }
    }

    /// Names a codec.
    pub fn name(self) -> (name: &'static str)
        ensures
            name@ == self.spelling(),
    {
        match self {
            AudioCodec::Unknown => "unknown",
            AudioCodec::Mp4a => "mp4a",
            AudioCodec::Opus => "opus",
            AudioCodec::Ac3 => "ac3",
            AudioCodec::Ec3 => "ec3",
        }
    }
}

/// A stream with pictures.
#[derive(Debug)]
pub struct VideoStream {
    pub url: String,
    pub itag: u32,
    pub size: Option<u64>,
    pub height: u32,
    pub fps: u8,
    pub quality: String,
    pub mime: String,
    pub codec: VideoCodec,
}

/// The model of a stream with pictures.
pub struct VideoStreamView {
    pub url: Seq<char>,
    pub itag: u32,
    pub size: Option<u64>,
    pub height: u32,
    pub fps: u8,
    pub quality: Seq<char>,
    pub mime: Seq<char>,
    pub codec: VideoCodec,
}

impl View for VideoStream {
    type V = VideoStreamView;

    open spec fn view(&self) -> VideoStreamView {
        VideoStreamView {
            url: self.url@,
            itag: self.itag,
            size: self.size,
            height: self.height,
            fps: self.fps,
            quality: self.quality@,
            mime: self.mime@,
            codec: self.codec,
        }
    }
}

/// A stream with sound only.
#[derive(Debug)]
pub struct AudioStream {
    pub url: String,
    pub itag: u32,
    pub bitrate: u32,
    pub size: u64,
    pub mime: String,
    pub codec: AudioCodec,
}

/// The model of a stream with sound only.
pub struct AudioStreamView {
    pub url: Seq<char>,
    pub itag: u32,
    pub bitrate: u32,
    pub size: u64,
    pub mime: Seq<char>,
    pub codec: AudioCodec,
}

impl View for AudioStream {
    type V = AudioStreamView;

    open spec fn view(&self) -> AudioStreamView {
        AudioStreamView {
            url: self.url@,
            itag: self.itag,
            bitrate: self.bitrate,
            size: self.size,
            mime: self.mime@,
            codec: self.codec,
        }
    }
}

/// The models of a list of streams with pictures.
pub open spec fn video_streams_of(list: Seq<VideoStream>) -> Seq<VideoStreamView> {
    list.map_values(|s: VideoStream| s@)
}

/// The models of a list of streams with sound only.
pub open spec fn audio_streams_of(list: Seq<AudioStream>) -> Seq<AudioStreamView> {
    list.map_values(|s: AudioStream| s@)
}

/// A video and its streams: those with pictures and sound, with pictures only, with sound only.
#[derive(Debug)]
pub struct VideoPlayer {
    pub name: Option<String>,
    pub duration: u32,
    pub thumbnails: Vec<Thumbnail>,
    pub video_streams: Vec<VideoStream>,
    pub video_only_streams: Vec<VideoStream>,
    pub audio_streams: Vec<AudioStream>,
    pub visitor_data: Option<String>,
    /// The name of the client that got the streams.
    pub client_type: String,
}

/// The model of a video and its streams.
pub struct VideoPlayerView {
    pub name: Option<Seq<char>>,
    pub duration: u32,
    pub thumbnails: Seq<ThumbnailView>,
    pub video_streams: Seq<VideoStreamView>,
    pub video_only_streams: Seq<VideoStreamView>,
    pub audio_streams: Seq<AudioStreamView>,
    pub visitor_data: Option<Seq<char>>,
    pub client_type: Seq<char>,
}

impl View for VideoPlayer {
    type V = VideoPlayerView;

    open spec fn view(&self) -> VideoPlayerView {
        VideoPlayerView {
            name: text_of(self.name),
            duration: self.duration,
            thumbnails: thumbnails_of(self.thumbnails@),
            video_streams: video_streams_of(self.video_streams@),
            video_only_streams: video_streams_of(self.video_only_streams@),
            audio_streams: audio_streams_of(self.audio_streams@),
            visitor_data: text_of(self.visitor_data),
            client_type: self.client_type@,
        }
    }
}

/// The resolution of a stream with pictures: its height, and its rate where that is known.
pub open spec fn stream_resolution(stream: VideoStreamView) -> Seq<char> {
    if stream.fps > 0 {
        decimal(stream.height as nat) + "p"@ + decimal(stream.fps as nat)
    } else {
        decimal(stream.height as nat) + "p"@
    }
}

/// The entry for a stream with pictures; `silent` says that it has no sound.
pub open spec fn video_entry(stream: VideoStreamView, silent: bool) -> FormatView {
    FormatView {
        format_id: decimal(stream.itag as nat),
        ext: stream_extension(stream.mime),
        resolution: if silent {
            stream_resolution(stream) + " (video only)"@
        } else {
            stream_resolution(stream)
        },
        filesize: stream.size,
        fps: Some(QuantityView::Whole(stream.fps as u64)),
        vcodec: stream.codec.spelling(),
        acodec: if silent {
            "none"@
        } else {
            "aac"@
        },
    }
}

/// The entry for a stream with sound only.
pub open spec fn audio_entry(stream: AudioStreamView) -> FormatView {
    FormatView {
        format_id: decimal(stream.itag as nat),
        ext: stream_extension(stream.mime),
        resolution: decimal((stream.bitrate / 1000) as nat) + "kbps (audio only)"@,
        filesize: Some(stream.size),
        fps: None,
        vcodec: "none"@,
        acodec: stream.codec.spelling(),
    }
}

/// The entries for a list of streams with pictures.
pub open spec fn video_entries(streams: Seq<VideoStreamView>, silent: bool) -> Seq<FormatView> {
    streams.map_values(|s: VideoStreamView| video_entry(s, silent))
}

/// The entries for a list of streams with sound only.
pub open spec fn audio_entries(streams: Seq<AudioStreamView>) -> Seq<FormatView> {
    streams.map_values(|s: AudioStreamView| audio_entry(s))
}

/// What the streams of a video say of it.
pub open spec fn player_info(player: VideoPlayerView) -> VideoInfoView {
    VideoInfoView {
        title: text_or(player.name, seq![]),
        duration: Some(QuantityView::Whole(player.duration as u64)),
        thumbnail: largest_thumbnail(player.thumbnails),
        formats: by_height(
            video_entries(player.video_streams, false) + video_entries(
                player.video_only_streams,
                true,
            ) + audio_entries(player.audio_streams),
        ),
        error: None,
    }
}

/// Makes the entry for a stream with pictures.
fn entry_for_video(stream: &VideoStream, silent: bool) -> (entry: FormatEntry)
    ensures
        entry@ == video_entry(stream@, silent),
{
    let mut resolution: String = concat2(decimal_text(stream.height as u64).as_str(), "p");
    if stream.fps > 0 {
        resolution.append(decimal_text(stream.fps as u64).as_str());
    }
    if silent {
        resolution.append(" (video only)");
    }
    FormatEntry {
        format_id: decimal_text(stream.itag as u64),
        ext: stream_format_to_ext(stream.mime.as_str(), stream.quality.as_str()),
        resolution,
        filesize: stream.size,
        fps: Some(Quantity::Whole(stream.fps as u64)),
        vcodec: stream.codec.name().to_owned(),
        acodec: if silent {
            "none".to_owned()
        } else {
            "aac".to_owned()
        },
    }
}

/// Makes the entry for a stream with sound only.
fn entry_for_audio(stream: &AudioStream) -> (entry: FormatEntry)
    ensures
        entry@ == audio_entry(stream@),
{
    let rate = decimal_text((stream.bitrate / 1000) as u64);
    FormatEntry {
        format_id: decimal_text(stream.itag as u64),
        ext: stream_format_to_ext(stream.mime.as_str(), ""),
        resolution: concat2(rate.as_str(), "kbps (audio only)"),
        filesize: Some(stream.size),
        fps: None,
        vcodec: "none".to_owned(),
        acodec: stream.codec.name().to_owned(),
    }
}

/// Adds the entries for a list of streams with pictures.
fn add_video_entries(streams: &Vec<VideoStream>, silent: bool, entries: &mut Vec<FormatEntry>)
    ensures
        formats_of(final(entries)@) == formats_of(old(entries)@) + video_entries(
            video_streams_of(streams@),
            silent,
        ),
{
    let ghost before = formats_of(entries@);
    let ghost added = video_entries(video_streams_of(streams@), silent);
    let mut i: usize = 0;
    while i < streams.len()
        invariant
            i <= streams@.len(),
            added == video_entries(video_streams_of(streams@), silent),
            formats_of(entries@) =~= before + added.take(i as int),
        decreases streams@.len() - i,
    {
        let ghost done = entries@;
        entries.push(entry_for_video(&streams[i], silent));
        i += 1;
        assert(formats_of(entries@) =~= formats_of(done).push(added[i - 1]));
        assert(added.take(i as int) =~= added.take(i - 1).push(added[i - 1]));
    }
    assert(added.take(i as int) =~= added);
}

/// Adds the entries for a list of streams with sound only.
fn add_audio_entries(streams: &Vec<AudioStream>, entries: &mut Vec<FormatEntry>)
    ensures
        formats_of(final(entries)@) == formats_of(old(entries)@) + audio_entries(
            audio_streams_of(streams@),
        ),
{
    let ghost before = formats_of(entries@);
    let ghost added = audio_entries(audio_streams_of(streams@));
    let mut i: usize = 0;
    while i < streams.len()
        invariant
            i <= streams@.len(),
            added == audio_entries(audio_streams_of(streams@)),
            formats_of(entries@) =~= before + added.take(i as int),
        decreases streams@.len() - i,
    {
        let ghost done = entries@;
        entries.push(entry_for_audio(&streams[i]));
        i += 1;
        assert(formats_of(entries@) =~= formats_of(done).push(added[i - 1]));
        assert(added.take(i as int) =~= added.take(i - 1).push(added[i - 1]));
    }
    assert(added.take(i as int) =~= added);
}

/// Says what the streams of a video say of it: its formats from the highest to the lowest.
pub fn info_from_player(player: &VideoPlayer) -> (info: VideoInfo)
    requires
        areas_fit(player@.thumbnails),
    ensures
        info@ == player_info(player@),
{
    let mut entries: Vec<FormatEntry> = Vec::new();
    assert(formats_of(entries@) =~= seq![]);
    add_video_entries(&player.video_streams, false, &mut entries);
    add_video_entries(&player.video_only_streams, true, &mut entries);
    add_audio_entries(&player.audio_streams, &mut entries);
    proof {
        reveal_strlit("");
        assert(""@ =~= seq![]);
        let none: Seq<FormatView> = seq![];
        let first = video_entries(player@.video_streams, false);
        assert(none + first =~= first);
    }
    VideoInfo {
        title: copy_or(&player.name, ""),
        duration: Some(Quantity::Whole(player.duration as u64)),
        thumbnail: best_thumbnail(&player.thumbnails),
        formats: sort_formats(entries),
        error: None,
    }
}

/// Says what the search for the streams of a video says of it, or why it found none.
pub fn info_after_clients(found: Result<VideoPlayer, String>) -> (info: Result<
    VideoInfo,
    BackendError,
>)
    requires
        found matches Ok(player) ==> areas_fit(player@.thumbnails),
    ensures
        match found {
            Ok(player) => info matches Ok(known) && known@ == player_info(player@),
            Err(error) => info matches Err(failure) && failure@ == ErrorView::ExtractionFailed(
                "player: "@ + error@,
            ),
        },
{
    match found {
        Ok(player) => Ok(info_from_player(&player)),
        Err(error) => Err(BackendError::ExtractionFailed(concat2("player: ", error.as_str()))),
    }
}

/// Whether a video has any stream.
pub open spec fn has_streams(player: VideoPlayerView) -> bool {
    player.video_only_streams.len() > 0 || player.video_streams.len() > 0
        || player.audio_streams.len() > 0
}

/// Whether the address of one of the streams with pictures carries a token.
pub open spec fn some_video_token(streams: Seq<VideoStreamView>) -> bool {
    exists|i: int| 0 <= i < streams.len() && has_token((#[trigger] streams[i]).url)
}

/// Whether the address of one of the streams with sound only carries a token.
pub open spec fn some_audio_token(streams: Seq<AudioStreamView>) -> bool {
    exists|i: int| 0 <= i < streams.len() && has_token((#[trigger] streams[i]).url)
}

/// Whether the address of any stream carries a token.
pub open spec fn some_token(player: VideoPlayerView) -> bool {
    some_video_token(player.video_only_streams) || some_video_token(player.video_streams)
        || some_audio_token(player.audio_streams)
}

/// The streams with pictures with a token added to their addresses.
pub open spec fn video_streams_with_token(
    streams: Seq<VideoStreamView>,
    pot: Seq<char>,
) -> Seq<VideoStreamView> {
    streams.map_values(
        |s: VideoStreamView| VideoStreamView { url: with_token(s.url, pot), ..s },
    )
}

/// The streams with sound only with a token added to their addresses.
pub open spec fn audio_streams_with_token(
    streams: Seq<AudioStreamView>,
    pot: Seq<char>,
) -> Seq<AudioStreamView> {
    streams.map_values(
        |s: AudioStreamView| AudioStreamView { url: with_token(s.url, pot), ..s },
    )
}

/// A video with a token added to the addresses of its streams, and with the data of the visitor
/// that the token was made for.
pub open spec fn player_with_token(
    player: VideoPlayerView,
    pot: Seq<char>,
    visitor_data: Seq<char>,
) -> VideoPlayerView {
    VideoPlayerView {
        video_streams: video_streams_with_token(player.video_streams, pot),
        video_only_streams: video_streams_with_token(player.video_only_streams, pot),
        audio_streams: audio_streams_with_token(player.audio_streams, pot),
        visitor_data: Some(visitor_data),
        ..player
    }
}

/// Reports whether the address of one of the streams with pictures carries a token.
fn find_video_token(streams: &Vec<VideoStream>) -> (found: bool)
    ensures
        found == some_video_token(video_streams_of(streams@)),
{
    let ghost all = video_streams_of(streams@);
    let mut i: usize = 0;
    while i < streams.len()
        invariant
            i <= streams@.len(),
            all == video_streams_of(streams@),
            forall|j: int| 0 <= j < i ==> !has_token((#[trigger] all[j]).url),
        decreases streams@.len() - i,
    {
        if url_has_token(streams[i].url.as_str()) {
            assert(has_token(all[i as int].url));
            return true;
        }
        i += 1;
    }
    false
}

/// Reports whether the address of one of the streams with sound only carries a token.
fn find_audio_token(streams: &Vec<AudioStream>) -> (found: bool)
    ensures
        found == some_audio_token(audio_streams_of(streams@)),
{
    let ghost all = audio_streams_of(streams@);
    let mut i: usize = 0;
    while i < streams.len()
        invariant
            i <= streams@.len(),
            all == audio_streams_of(streams@),
            forall|j: int| 0 <= j < i ==> !has_token((#[trigger] all[j]).url),
        decreases streams@.len() - i,
    {
        if url_has_token(streams[i].url.as_str()) {
            assert(has_token(all[i as int].url));
            return true;
        }
        i += 1;
    }
    false
}

/// Adds a token to the addresses of streams with pictures.
fn add_video_tokens(streams: &mut Vec<VideoStream>, pot: &str)
    ensures
        video_streams_of(final(streams)@) == video_streams_with_token(
            video_streams_of(old(streams)@),
            pot@,
        ),
{
    let ghost before = video_streams_of(streams@);
    let ghost wanted = video_streams_with_token(before, pot@);
    let mut i: usize = 0;
    while i < streams.len()
        invariant
            i <= streams@.len(),
            streams@.len() == before.len(),
            wanted == video_streams_with_token(before, pot@),
            forall|j: int| 0 <= j < i ==> (#[trigger] streams@[j])@ == wanted[j],
            forall|j: int| i <= j < streams@.len() ==> (#[trigger] streams@[j])@ == before[j],
        decreases streams@.len() - i,
    {
        let url = inject_pot(streams[i].url.as_str(), pot);
        streams[i].url = url;
        i += 1;
    }
    assert(video_streams_of(streams@) =~= wanted);
}

/// Adds a token to the addresses of streams with sound only.
fn add_audio_tokens(streams: &mut Vec<AudioStream>, pot: &str)
    ensures
        audio_streams_of(final(streams)@) == audio_streams_with_token(
            audio_streams_of(old(streams)@),
            pot@,
        ),
{
    let ghost before = audio_streams_of(streams@);
    let ghost wanted = audio_streams_with_token(before, pot@);
    let mut i: usize = 0;
    while i < streams.len()
        invariant
            i <= streams@.len(),
            streams@.len() == before.len(),
            wanted == audio_streams_with_token(before, pot@),
            forall|j: int| 0 <= j < i ==> (#[trigger] streams@[j])@ == wanted[j],
            forall|j: int| i <= j < streams@.len() ==> (#[trigger] streams@[j])@ == before[j],
        decreases streams@.len() - i,
    {
        let url = inject_pot(streams[i].url.as_str(), pot);
        streams[i].url = url;
        i += 1;
    }
    assert(audio_streams_of(streams@) =~= wanted);
}

impl VideoPlayer {
    /// Reports whether a video has any stream.
    pub fn has_streams(&self) -> (has: bool)
        ensures
            has == has_streams(self@),
    {
        self.video_only_streams.len() > 0 || self.video_streams.len() > 0
            || self.audio_streams.len() > 0
    }

    /// Reports whether the address of any stream carries a token.
    pub fn has_token(&self) -> (has: bool)
        ensures
            has == some_token(self@),
    {
        find_video_token(&self.video_only_streams) || find_video_token(&self.video_streams)
            || find_audio_token(&self.audio_streams)
    }

    /// Adds a token to the addresses of all streams.
    pub fn add_token(&mut self, pot: &str, visitor_data: String)
        ensures
            final(self)@ == player_with_token(old(self)@, pot@, visitor_data@),
    {
        add_video_tokens(&mut self.video_streams, pot);
        add_video_tokens(&mut self.video_only_streams, pot);
        add_audio_tokens(&mut self.audio_streams, pot);
        self.visitor_data = Some(visitor_data);
    }
}

/// Once a token has been added, the address of every stream carries one.
pub proof fn lemma_every_stream_gets_token(
    player: VideoPlayerView,
    pot: Seq<char>,
    visitor_data: Seq<char>,
)
    ensures
        ({
            let out = player_with_token(player, pot, visitor_data);
            &&& forall|i: int|
                0 <= i < out.video_streams.len() ==> has_token(
                    (#[trigger] out.video_streams[i]).url,
                )
            &&& forall|i: int|
                0 <= i < out.video_only_streams.len() ==> has_token(
                    (#[trigger] out.video_only_streams[i]).url,
                )
            &&& forall|i: int|
                0 <= i < out.audio_streams.len() ==> has_token(
                    (#[trigger] out.audio_streams[i]).url,
                )
        }),
{
    let out = player_with_token(player, pot, visitor_data);
    assert forall|i: int| 0 <= i < out.video_streams.len() implies has_token(
        (#[trigger] out.video_streams[i]).url,
    ) by {
        lemma_token_added_once(player.video_streams[i].url, pot, pot);
    }
    assert forall|i: int| 0 <= i < out.video_only_streams.len() implies has_token(
        (#[trigger] out.video_only_streams[i]).url,
    ) by {
        lemma_token_added_once(player.video_only_streams[i].url, pot, pot);
    }
    assert forall|i: int| 0 <= i < out.audio_streams.len() implies has_token(
        (#[trigger] out.audio_streams[i]).url,
    ) by {
        lemma_token_added_once(player.audio_streams[i].url, pot, pot);
    }
}

/// Adding a second token changes no address.
pub proof fn lemma_second_token_changes_nothing(
    player: VideoPlayerView,
    pot: Seq<char>,
    other: Seq<char>,
    visitor_data: Seq<char>,
)
    ensures
        player_with_token(player_with_token(player, pot, visitor_data), other, visitor_data)
            == player_with_token(player, pot, visitor_data),
{
    let out = player_with_token(player, pot, visitor_data);
    let again = player_with_token(out, other, visitor_data);
    assert forall|i: int| 0 <= i < out.video_streams.len() implies #[trigger] again.video_streams[i]
        == out.video_streams[i] by {
        lemma_token_added_once(player.video_streams[i].url, pot, other);
    }
    assert forall|i: int|
        0 <= i < out.video_only_streams.len() implies #[trigger] again.video_only_streams[i]
        == out.video_only_streams[i] by {
        lemma_token_added_once(player.video_only_streams[i].url, pot, other);
    }
    assert forall|i: int| 0 <= i < out.audio_streams.len() implies #[trigger] again.audio_streams[i]
        == out.audio_streams[i] by {
        lemma_token_added_once(player.audio_streams[i].url, pot, other);
    }
    assert(again.video_streams =~= out.video_streams);
    assert(again.video_only_streams =~= out.video_only_streams);
    assert(again.audio_streams =~= out.audio_streams);
}

/// A stream with pictures is put in order by its height, whatever its rate.
pub proof fn lemma_stream_rank_is_height(stream: VideoStreamView, silent: bool)
    ensures
        rank(video_entry(stream, silent)) == stream.height,
{
    reveal_strlit("p");
    let height = decimal(stream.height as nat);
    let rate = if stream.fps > 0 {
        "p"@ + decimal(stream.fps as nat)
    } else {
        "p"@
    };
    let end = rate + " (video only)"@;
    assert(stream_resolution(stream) =~= height + rate);
    assert(stream_resolution(stream) + " (video only)"@ =~= height + end);
    lemma_written_height_reads_back(stream.height as nat, rate);
    lemma_written_height_reads_back(stream.height as nat, end);
}

/// A stream with sound only is put in order as if it had no height.
pub proof fn lemma_sound_stream_has_no_height(stream: AudioStreamView)
    ensures
        rank(audio_entry(stream)) == 0,
{
    lemma_bit_rate_is_no_height((stream.bitrate / 1000) as nat);
}

/// The entry for a stream with pictures: its number, size and rate are those of the stream, and its
/// sound is AAC unless the stream is silent.
pub proof fn lemma_picture_entry(stream: VideoStreamView, silent: bool)
    ensures
        ({
            let entry = video_entry(stream, silent);
            &&& parsed(entry.format_id, u32::MAX as nat) == Some(stream.itag as nat)
            &&& entry.filesize == stream.size
            &&& entry.fps == Some(QuantityView::Whole(stream.fps as u64))
            &&& silent ==> entry.acodec == "none"@
            &&& !silent ==> entry.acodec == "aac"@
            &&& entry.vcodec != "none"@
            &&& entry.ext == "webm"@ <==> contains(stream.mime, "webm"@) && !contains(
                stream.mime,
                "mp4"@,
            )
            &&& entry.ext == "webm"@ || entry.ext == "mp4"@
        }),
{
    lemma_decimal_reads_back(stream.itag as nat, u32::MAX as nat);
    lemma_stream_extensions(stream.mime);
    lemma_codecs_apart();
}

/// No codec is called `none`.
proof fn lemma_codecs_apart()
    ensures
        forall|codec: VideoCodec| #[trigger] codec.spelling() != "none"@,
        forall|codec: AudioCodec| #[trigger] codec.spelling() != "none"@,
{
    reveal_strlit("none");
    reveal_strlit("unknown");
    reveal_strlit("mp4v");
    reveal_strlit("avc1");
    reveal_strlit("vp9");
    reveal_strlit("av01");
    reveal_strlit("mp4a");
    reveal_strlit("opus");
    reveal_strlit("ac3");
    reveal_strlit("ec3");
    assert("none"@[0] == 'n');
    assert("unknown"@[0] == 'u');
    assert("mp4v"@[0] == 'm');
    assert("avc1"@[0] == 'a');
    assert("vp9"@[0] == 'v');
    assert("av01"@[0] == 'a');
    assert("mp4a"@[0] == 'm');
    assert("opus"@[0] == 'o');
    assert("ac3"@[0] == 'a');
    assert("ec3"@[0] == 'e');
}

/// The codec of a stream is written in lower case, as it is called.
pub proof fn lemma_codecs_by_name()
    ensures
        VideoCodec::Unknown.spelling() == seq!['u', 'n', 'k', 'n', 'o', 'w', 'n'],
        VideoCodec::Mp4v.spelling() == seq!['m', 'p', '4', 'v'],
        VideoCodec::Avc1.spelling() == seq!['a', 'v', 'c', '1'],
        VideoCodec::Vp9.spelling() == seq!['v', 'p', '9'],
        VideoCodec::Av01.spelling() == seq!['a', 'v', '0', '1'],
        AudioCodec::Unknown.spelling() == seq!['u', 'n', 'k', 'n', 'o', 'w', 'n'],
        AudioCodec::Mp4a.spelling() == seq!['m', 'p', '4', 'a'],
        AudioCodec::Opus.spelling() == seq!['o', 'p', 'u', 's'],
        AudioCodec::Ac3.spelling() == seq!['a', 'c', '3'],
        AudioCodec::Ec3.spelling() == seq!['e', 'c', '3'],
{
    reveal_strlit("unknown");
    reveal_strlit("mp4v");
    reveal_strlit("avc1");
    reveal_strlit("vp9");
    reveal_strlit("av01");
    reveal_strlit("mp4a");
    reveal_strlit("opus");
    reveal_strlit("ac3");
    reveal_strlit("ec3");
    assert("unknown"@ =~= seq!['u', 'n', 'k', 'n', 'o', 'w', 'n']);
    assert("mp4v"@ =~= seq!['m', 'p', '4', 'v']);
    assert("avc1"@ =~= seq!['a', 'v', 'c', '1']);
    assert("vp9"@ =~= seq!['v', 'p', '9']);
    assert("av01"@ =~= seq!['a', 'v', '0', '1']);
    assert("mp4a"@ =~= seq!['m', 'p', '4', 'a']);
    assert("opus"@ =~= seq!['o', 'p', 'u', 's']);
    assert("ac3"@ =~= seq!['a', 'c', '3']);
    assert("ec3"@ =~= seq!['e', 'c', '3']);
}

/// The entry of a stream names the codec of that stream.
pub proof fn lemma_entries_name_codecs(video: VideoStreamView, silent: bool, audio: AudioStreamView)
    ensures
        video_entry(video, silent).vcodec == video.codec.spelling(),
        audio_entry(audio).acodec == audio.codec.spelling(),
{
}

/// Pictures are shown with their height and a `p`, then with their rate unless that is zero, then
/// with the remark that there is no sound, where there is none.
pub proof fn lemma_picture_resolution(stream: VideoStreamView, silent: bool)
    ensures
        ({
            let size = decimal(stream.height as nat) + seq!['p'];
            let remark = " (video only)"@;
            let shown = video_entry(stream, silent).resolution;
            &&& stream.fps == 0 && !silent ==> shown == size
            &&& stream.fps == 0 && silent ==> shown == size + remark
            &&& stream.fps != 0 && !silent ==> shown == size + decimal(stream.fps as nat)
            &&& stream.fps != 0 && silent ==> shown == size + decimal(stream.fps as nat) + remark
        }),
{
    reveal_strlit("p");
    assert("p"@ =~= seq!['p']);
}

/// The entry for a stream with sound: its number and size are those of the stream, its rate is
/// shown in thousands of bits, rounded down, and it has no pictures.
pub proof fn lemma_sound_entry(stream: AudioStreamView, thousands: nat, rest: nat)
    requires
        stream.bitrate == 1000 * thousands + rest,
        rest < 1000,
    ensures
        ({
            let entry = audio_entry(stream);
            &&& parsed(entry.format_id, u32::MAX as nat) == Some(stream.itag as nat)
            &&& entry.resolution == decimal(thousands) + "kbps (audio only)"@
            &&& entry.filesize == Some(stream.size)
            &&& entry.fps is None
            &&& entry.vcodec == "none"@
            &&& entry.acodec != "none"@
            &&& entry.ext == "webm"@ <==> contains(stream.mime, "webm"@) && !contains(
                stream.mime,
                "mp4"@,
            )
            &&& entry.ext == "webm"@ || entry.ext == "mp4"@
        }),
{
    assert(stream.bitrate / 1000 == thousands);
    lemma_decimal_reads_back(stream.itag as nat, u32::MAX as nat);
    lemma_stream_extensions(stream.mime);
    lemma_codecs_apart();
}

/// What is shown of a video holds no error. Its title, length and thumbnail are those of the video;
/// a video without a name has an empty title.
pub proof fn lemma_player_details(player: VideoPlayerView)
    requires
        areas_fit(player.thumbnails),
    ensures
        ({
            let info = player_info(player);
            let list = player.thumbnails;
            &&& info.error is None
            &&& player.name is Some ==> info.title == player.name->0
            &&& player.name is None ==> info.title.len() == 0
            &&& info.duration == Some(QuantityView::Whole(player.duration as u64))
            &&& list.len() == 0 ==> info.thumbnail is None
            &&& list.len() > 0 ==> exists|i: int|
                0 <= i < list.len() && info.thumbnail == Some((#[trigger] list[i]).url)
                    && forall|j: int|
                    0 <= j < list.len() ==> sides(#[trigger] list[j]) <= sides(list[i])
        }),
{
    lemma_largest_thumbnail_is_largest(player.thumbnails);
}

/// Every stream is shown, and nothing else: the formats are those of the three lists, from the
/// highest to the lowest; equally high ones stand in the order whole, silent, sound, and within
/// each list in its order.
pub proof fn lemma_player_formats_in_order(player: VideoPlayerView, listed: Seq<FormatView>, h: nat)
    requires
        listed.len() == player.video_streams.len() + player.video_only_streams.len()
            + player.audio_streams.len(),
        forall|i: int|
            0 <= i < player.video_streams.len() ==> #[trigger] listed[i] == video_entry(
                player.video_streams[i],
                false,
            ),
        forall|i: int|
            0 <= i < player.video_only_streams.len() ==> listed[player.video_streams.len() + i]
                == video_entry(#[trigger] player.video_only_streams[i], true),
        forall|i: int|
            0 <= i < player.audio_streams.len() ==> listed[player.video_streams.len()
                + player.video_only_streams.len() + i] == audio_entry(
                #[trigger] player.audio_streams[i],
            ),
    ensures
        ({
            let shown = player_info(player).formats;
            &&& shown.to_multiset() == listed.to_multiset()
            &&& forall|i: int, j: int|
                0 <= i < j < shown.len() ==> rank(#[trigger] shown[i]) >= rank(#[trigger] shown[j])
            &&& shown.filter(|f: FormatView| rank(f) == h) == listed.filter(
                |f: FormatView| rank(f) == h,
            )
        }),
{
    let whole = video_entries(player.video_streams, false);
    let silent = video_entries(player.video_only_streams, true);
    let sound = audio_entries(player.audio_streams);
    let all = whole + silent + sound;
    assert forall|i: int| 0 <= i < listed.len() implies #[trigger] listed[i] == all[i] by {
        if i >= whole.len() + silent.len() {
            assert(sound[i - whole.len() - silent.len()] == audio_entry(
                player.audio_streams[i - whole.len() - silent.len()],
            ));
        } else if i >= whole.len() {
            assert(silent[i - whole.len()] == video_entry(
                player.video_only_streams[i - whole.len()],
                true,
            ));
        }
    }
    assert(listed =~= all);
    lemma_by_height_keeps_all(listed);
    lemma_by_height_descends(listed);
    lemma_by_height_keeps_equals(listed, h);
}

/// A video has streams unless all three lists are empty.
pub proof fn lemma_streams_of_any_kind(player: VideoPlayerView)
    ensures
        !has_streams(player) <==> player.video_streams.len() + player.video_only_streams.len()
            + player.audio_streams.len() == 0,
{
}

/// A video has a token where the address of one of its streams holds `pot=`, whichever list the
/// stream stands in, and nowhere else.
pub proof fn lemma_token_in_any_address(player: VideoPlayerView, addresses: Seq<Seq<char>>)
    requires
        addresses == player.video_streams.map_values(|s: VideoStreamView| s.url)
            + player.video_only_streams.map_values(|s: VideoStreamView| s.url)
            + player.audio_streams.map_values(|s: AudioStreamView| s.url),
    ensures
        some_token(player) <==> exists|i: int|
            0 <= i < addresses.len() && contains(#[trigger] addresses[i], "pot="@),
{
    let whole = player.video_streams;
    let silent = player.video_only_streams;
    let sound = player.audio_streams;
    if some_video_token(whole) {
        let i = choose|i: int| 0 <= i < whole.len() && has_token((#[trigger] whole[i]).url);
        assert(contains(addresses[i], "pot="@));
    }
    if some_video_token(silent) {
        let i = choose|i: int| 0 <= i < silent.len() && has_token((#[trigger] silent[i]).url);
        assert(contains(addresses[whole.len() + i], "pot="@));
    }
    if some_audio_token(sound) {
        let i = choose|i: int| 0 <= i < sound.len() && has_token((#[trigger] sound[i]).url);
        assert(contains(addresses[whole.len() + silent.len() + i], "pot="@));
    }
    assert forall|i: int|
        0 <= i < addresses.len() && contains(#[trigger] addresses[i], "pot="@) implies some_token(
        player,
    ) by {
        if i < whole.len() {
            assert(has_token(whole[i].url));
        } else if i < whole.len() + silent.len() {
            assert(has_token(silent[i - whole.len()].url));
        } else {
            assert(has_token(sound[i - whole.len() - silent.len()].url));
        }
    }
}

/// A token changes the addresses of the streams, and whose data the video carries; it changes
/// nothing else.
pub proof fn lemma_token_changes_addresses_only(
    player: VideoPlayerView,
    pot: Seq<char>,
    visitor_data: Seq<char>,
    i: int,
)
    ensures
        ({
            let out = player_with_token(player, pot, visitor_data);
            &&& out.name == player.name
            &&& out.duration == player.duration
            &&& out.thumbnails == player.thumbnails
            &&& out.client_type == player.client_type
            &&& out.visitor_data == Some(visitor_data)
            &&& out.video_streams.len() == player.video_streams.len()
            &&& out.video_only_streams.len() == player.video_only_streams.len()
            &&& out.audio_streams.len() == player.audio_streams.len()
            &&& 0 <= i < player.video_streams.len() ==> (VideoStreamView {
                url: player.video_streams[i].url,
                ..out.video_streams[i]
            }) == player.video_streams[i]
            &&& 0 <= i < player.video_only_streams.len() ==> (VideoStreamView {
                url: player.video_only_streams[i].url,
                ..out.video_only_streams[i]
            }) == player.video_only_streams[i]
            &&& 0 <= i < player.audio_streams.len() ==> (AudioStreamView {
                url: player.audio_streams[i].url,
                ..out.audio_streams[i]
            }) == player.audio_streams[i]
        }),
{
}

} // verus!
