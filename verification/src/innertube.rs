//! The site's own description of a video, and what it says.

use crate::backends::PureRustBackend;
use crate::decimal::{
    decimal, decimal_text, is_digit, lemma_decimal_grows, lemma_decimal_reads_back, parse_u64,
    parsed,
};
use crate::formats::{
    by_height, lemma_bit_rate_is_no_height, lemma_by_height_descends, lemma_by_height_keeps_all,
    lemma_by_height_keeps_equals, lemma_written_height_reads_back, rank, sort_formats,
};
use crate::text::{
    concat2, contains, copy_or, lemma_first_is_replaced, lemma_nothing_replaced, occurs_at,
    replaced, starts_with, text_contains, text_of, text_or, text_replace,
};
use crate::thumbnails::{
    areas_fit, best_thumbnail, largest_thumbnail, lemma_largest_thumbnail_is_largest, or_zero,
    sides, thumbnail_areas_fit, thumbnails_of, Thumbnail, ThumbnailView,
};
use crate::types::{
    formats_of, FormatEntry, FormatView, Quantity, QuantityView, VideoInfo, VideoInfoView,
};
use vstd::prelude::*;
use vstd::string::*;

verus! {

/// One format in the site's description.
#[derive(Debug)]
pub struct InnertubeFormat {
    pub itag: u32,
    pub url: Option<String>,
    pub mime_type: String,
    pub bitrate: u32,
    pub height: Option<u32>,
    pub quality_label: Option<String>,
    pub fps: Option<u32>,
    pub content_length: Option<String>,
    pub audio_quality: Option<String>,
}

/// The model of a format in the site's description.
pub struct InnertubeFormatView {
    pub itag: u32,
    pub url: Option<Seq<char>>,
    pub mime_type: Seq<char>,
    pub bitrate: u32,
    pub height: Option<u32>,
    pub quality_label: Option<Seq<char>>,
    pub fps: Option<u32>,
    pub content_length: Option<Seq<char>>,
    pub audio_quality: Option<Seq<char>>,
}

impl View for InnertubeFormat {
    type V = InnertubeFormatView;

    open spec fn view(&self) -> InnertubeFormatView {
        InnertubeFormatView {
            itag: self.itag,
            url: text_of(self.url),
            mime_type: self.mime_type@,
            bitrate: self.bitrate,
            height: self.height,
            quality_label: text_of(self.quality_label),
            fps: self.fps,
            content_length: text_of(self.content_length),
            audio_quality: text_of(self.audio_quality),
        }
    }
}

/// The formats in the site's description: those with pictures and sound, and those with one of
/// the two.
#[derive(Debug)]
pub struct InnertubeStreamingData {
    pub formats: Option<Vec<InnertubeFormat>>,
    pub adaptive_formats: Option<Vec<InnertubeFormat>>,
}

/// The models of a list of formats that may be absent.
pub open spec fn innertube_formats_of(list: Option<Vec<InnertubeFormat>>) -> Seq<
    InnertubeFormatView,
> {
    match list {
        Some(formats) => formats@.map_values(|f: InnertubeFormat| f@),
        None => seq![],
    }
}

/// What the site says of the video itself.
#[derive(Debug)]
pub struct InnertubeVideoDetails {
    pub title: Option<String>,
    pub length_seconds: Option<String>,
    pub thumbnails: Option<Vec<Thumbnail>>,
}

/// The model of what the site says of the video itself.
pub struct InnertubeDetailsView {
    pub title: Option<Seq<char>>,
    pub length_seconds: Option<Seq<char>>,
    pub thumbnails: Option<Seq<ThumbnailView>>,
}

impl View for InnertubeVideoDetails {
    type V = InnertubeDetailsView;

    open spec fn view(&self) -> InnertubeDetailsView {
        InnertubeDetailsView {
            title: text_of(self.title),
            length_seconds: text_of(self.length_seconds),
            thumbnails: match self.thumbnails {
                Some(list) => Some(thumbnails_of(list@)),
                None => None,
            },
        }
    }
}

/// The site's description of a video.
#[derive(Debug)]
pub struct InnertubePlayer {
    pub streaming_data: Option<InnertubeStreamingData>,
    pub video_details: Option<InnertubeVideoDetails>,
    pub visitor_data: Option<String>,
}

/// The model of the site's description of a video. The formats with pictures and sound come first.
pub struct InnertubePlayerView {
    pub formats: Seq<InnertubeFormatView>,
    pub details: Option<InnertubeDetailsView>,
    pub visitor_data: Option<Seq<char>>,
}

impl View for InnertubePlayer {
    type V = InnertubePlayerView;

    open spec fn view(&self) -> InnertubePlayerView {
        InnertubePlayerView {
            formats: match self.streaming_data {
                Some(data) => innertube_formats_of(data.formats) + innertube_formats_of(
                    data.adaptive_formats,
                ),
                None => seq![],
            },
            details: match self.video_details {
                Some(details) => Some(details@),
                None => None,
            },
            visitor_data: text_of(self.visitor_data),
        }
    }
}

/// Whether a format has sound only.
pub open spec fn is_audio(format: InnertubeFormatView) -> bool {
    format.audio_quality is Some
}

/// The label of a format with its rate written behind the height.
pub open spec fn label_with_rate(label: Seq<char>, fps: Option<u32>) -> Seq<char> {
    match fps {
        Some(n) => replaced(replaced(label, "p"@, "p"@ + decimal(n as nat)), "p0p"@, "p"@),
        None => label,
    }
}

/// The resolution of a format.
pub open spec fn innertube_resolution(format: InnertubeFormatView) -> Seq<char> {
    if is_audio(format) {
        decimal((format.bitrate / 1000) as nat) + "kbps (audio only)"@
    } else {
        match format.quality_label {
            Some(label) => label_with_rate(label, format.fps) + " (video only)"@,
            None => decimal(or_zero(format.height) as nat) + "p"@,
        }
    }
}

/// The file name extension of a format.
pub open spec fn innertube_extension(mime: Seq<char>) -> Seq<char> {
    if contains(mime, "webm"@) {
        "webm"@
    } else if contains(mime, "mp4"@) {
        "mp4"@
    } else if contains(mime, "3gpp"@) {
        "3gp"@
    } else {
        "mp4"@
    }
}

/// The name of the codec for the pictures of a format.
pub open spec fn picture_codec(mime: Seq<char>) -> Seq<char> {
    if contains(mime, "avc1"@) {
        "avc1"@
    } else if contains(mime, "vp9"@) {
        "vp9"@
    } else if contains(mime, "av01"@) {
        "av01"@
    } else {
        "unknown"@
    }
}

/// The name of the codec for the sound of a format.
pub open spec fn sound_codec(mime: Seq<char>) -> Seq<char> {
    if contains(mime, "mp4a"@) || contains(mime, "aac"@) {
        "mp4a"@
    } else if contains(mime, "opus"@) {
        "opus"@
    } else {
        "unknown"@
    }
}

/// The size that is written in decimal notation.
pub open spec fn size_in(text: Option<Seq<char>>) -> Option<u64> {
    match text {
        Some(t) => match parsed(t, u64::MAX as nat) {
            Some(n) => Some(n as u64),
            None => None,
        },
        None => None,
    }
}

/// The entry for a format in the site's description.
pub open spec fn innertube_entry(format: InnertubeFormatView) -> FormatView {
    FormatView {
        format_id: decimal(format.itag as nat),
        ext: innertube_extension(format.mime_type),
        resolution: innertube_resolution(format),
        filesize: size_in(format.content_length),
        fps: match format.fps {
            Some(n) => Some(QuantityView::Whole(n as u64)),
            None => None,
        },
        vcodec: if is_audio(format) {
            "none"@
        } else {
            picture_codec(format.mime_type)
        },
        acodec: if is_audio(format) {
            sound_codec(format.mime_type)
        } else {
            "none"@
        },
    }
}

/// The entries for the formats in the site's description.
pub open spec fn innertube_entries(formats: Seq<InnertubeFormatView>) -> Seq<FormatView> {
    formats.map_values(|f: InnertubeFormatView| innertube_entry(f))
}

/// Whether the areas of the thumbnails in the site's description fit in 32 bits.
pub open spec fn innertube_areas_fit(player: InnertubePlayerView) -> bool {
    match player.details {
        Some(details) => match details.thumbnails {
            Some(list) => areas_fit(list),
            None => true,
        },
        None => true,
    }
}

/// What the site's description says of a video.
pub open spec fn innertube_info(player: InnertubePlayerView) -> VideoInfoView {
    let formats = by_height(innertube_entries(player.formats));
    match player.details {
        Some(details) => VideoInfoView {
            title: text_or(details.title, seq![]),
            duration: match details.length_seconds {
                Some(text) => Some(QuantityView::Decimal(text)),
                None => None,
            },
            thumbnail: match details.thumbnails {
                Some(list) => largest_thumbnail(list),
                None => None,
            },
            formats,
            error: None,
        },
        None => VideoInfoView {
            title: seq![],
            duration: None,
            thumbnail: None,
            formats,
            error: None,
        },
    }
}

/// Writes the resolution of a format.
fn resolution_text(format: &InnertubeFormat) -> (text: String)
    ensures
        text@ == innertube_resolution(format@),
{
    if format.audio_quality.is_some() {
        let rate = decimal_text((format.bitrate / 1000) as u64);
        concat2(rate.as_str(), "kbps (audio only)")
    } else {
        match &format.quality_label {
            Some(label) => match format.fps {
                Some(fps) => {
                    let rate = concat2("p", decimal_text(fps as u64).as_str());
                    proof {
                        reveal_strlit("p");
                        reveal_strlit("p0p");
                    }
                    let long = text_replace(label.as_str(), "p", rate.as_str());
                    let short = text_replace(long.as_str(), "p0p", "p");
                    concat2(short.as_str(), " (video only)")
                },
                None => concat2(label.as_str(), " (video only)"),
            },
            None => {
                let height: u32 = match format.height {
                    Some(h) => h,
                    None => 0,
                };
                concat2(decimal_text(height as u64).as_str(), "p")
            },
        }
    }
}

/// Picks the file name extension of a format.
fn extension_text(mime: &str) -> (ext: &'static str)
    ensures
        ext@ == innertube_extension(mime@),
{
    if text_contains(mime, "webm") {
        "webm"
    } else if text_contains(mime, "mp4") {
        "mp4"
    } else if text_contains(mime, "3gpp") {
        "3gp"
    } else {
        "mp4"
    }
}

/// Names the codec for the pictures of a format.
fn picture_codec_text(mime: &str) -> (codec: &'static str)
    ensures
        codec@ == picture_codec(mime@),
{
    if text_contains(mime, "avc1") {
        "avc1"
    } else if text_contains(mime, "vp9") {
        "vp9"
    } else if text_contains(mime, "av01") {
        "av01"
    } else {
        "unknown"
    }
}

/// Names the codec for the sound of a format.
fn sound_codec_text(mime: &str) -> (codec: &'static str)
    ensures
        codec@ == sound_codec(mime@),
{
    if text_contains(mime, "mp4a") || text_contains(mime, "aac") {
        "mp4a"
    } else if text_contains(mime, "opus") {
        "opus"
    } else {
        "unknown"
    }
}

/// Makes the entry for a format in the site's description.
fn entry_for(format: &InnertubeFormat) -> (entry: FormatEntry)
    ensures
        entry@ == innertube_entry(format@),
{
    let audio = format.audio_quality.is_some();
    let mime = format.mime_type.as_str();
    FormatEntry {
        format_id: decimal_text(format.itag as u64),
        ext: extension_text(mime).to_owned(),
        resolution: resolution_text(format),
        filesize: match &format.content_length {
            Some(text) => parse_u64(text.as_str()),
            None => None,
        },
        fps: match format.fps {
            Some(fps) => Some(Quantity::Whole(fps as u64)),
            None => None,
        },
        vcodec: if audio {
            "none".to_owned()
        } else {
            picture_codec_text(mime).to_owned()
        },
        acodec: if audio {
            sound_codec_text(mime).to_owned()
        } else {
            "none".to_owned()
        },
    }
}

/// The models of a list of borrowed formats.
pub open spec fn borrowed_formats_of(list: Seq<&InnertubeFormat>) -> Seq<InnertubeFormatView> {
    list.map_values(|f: &InnertubeFormat| f@)
}

/// Adds the formats of a list that may be absent.
fn collect_formats<'a>(list: &'a Option<Vec<InnertubeFormat>>, all: &mut Vec<&'a InnertubeFormat>)
    ensures
        borrowed_formats_of(final(all)@) == borrowed_formats_of(old(all)@) + innertube_formats_of(
            *list,
        ),
{
    match list {
        Some(formats) => {
            let ghost before = borrowed_formats_of(all@);
            let ghost added = innertube_formats_of(*list);
            let mut i: usize = 0;
            while i < formats.len()
                invariant
                    i <= formats@.len(),
                    added =~= formats@.map_values(|f: InnertubeFormat| f@),
                    borrowed_formats_of(all@) =~= before + added.take(i as int),
                decreases formats@.len() - i,
            {
                let ghost done = all@;
                all.push(&formats[i]);
                i += 1;
                assert(borrowed_formats_of(all@) =~= borrowed_formats_of(done).push(added[i - 1]));
                assert(added.take(i as int) =~= added.take(i - 1).push(added[i - 1]));
            }
            assert(added.take(i as int) =~= added);
        },
        None => {},
    }
}

/// Lists the formats in the site's description, those with pictures and sound first.
pub fn all_formats(player: &InnertubePlayer) -> (all: Vec<&InnertubeFormat>)
    ensures
        borrowed_formats_of(all@) == player@.formats,
{
    let mut all: Vec<&InnertubeFormat> = Vec::new();
    assert(borrowed_formats_of(all@) =~= seq![]);
    match &player.streaming_data {
        Some(data) => {
            collect_formats(&data.formats, &mut all);
            collect_formats(&data.adaptive_formats, &mut all);
            assert(borrowed_formats_of(all@) =~= player@.formats);
        },
        None => {},
    }
    all
}

impl PureRustBackend {
    /// Makes the entries for the formats in the site's description.
    pub fn innertube_to_format(player: &InnertubePlayer) -> (entries: Vec<FormatEntry>)
        ensures
            formats_of(entries@) == innertube_entries(player@.formats),
    {
        let all = all_formats(player);
        let ghost wanted = innertube_entries(player@.formats);
        let mut entries: Vec<FormatEntry> = Vec::new();
        let mut i: usize = 0;
        while i < all.len()
            invariant
                i <= all@.len(),
                wanted == innertube_entries(borrowed_formats_of(all@)),
                formats_of(entries@) =~= wanted.take(i as int),
            decreases all@.len() - i,
        {
            let ghost before = entries@;
            entries.push(entry_for(all[i]));
            i += 1;
            assert(formats_of(entries@) =~= formats_of(before).push(wanted[i - 1]));
        }
        assert(wanted.take(i as int) =~= wanted);
        entries
    }
}

/// Reports whether the areas of the thumbnails in the site's description fit in 32 bits.
pub fn innertube_thumbnails_fit(player: &InnertubePlayer) -> (fit: bool)
    ensures
        fit == innertube_areas_fit(player@),
{
    match &player.video_details {
        Some(details) => match &details.thumbnails {
            Some(list) => thumbnail_areas_fit(list),
            None => true,
        },
        None => true,
    }
}

/// Says what the site's description says of a video: its formats from the highest to the lowest.
pub fn info_from_innertube(player: &InnertubePlayer) -> (info: VideoInfo)
    requires
        innertube_areas_fit(player@),
    ensures
        info@ == innertube_info(player@),
{
    let formats = sort_formats(PureRustBackend::innertube_to_format(player));
    proof {
        reveal_strlit("");
        assert(""@ =~= seq![]);
    }
    match &player.video_details {
        Some(details) => VideoInfo {
            title: copy_or(&details.title, ""),
            duration: match &details.length_seconds {
                Some(text) => Some(Quantity::Decimal(text.as_str().to_owned())),
                None => None,
            },
            thumbnail: match &details.thumbnails {
                Some(list) => best_thumbnail(list),
                None => None,
            },
            formats,
            error: None,
        },
        None => VideoInfo {
            title: "".to_owned(),
            duration: None,
            thumbnail: None,
            formats,
            error: None,
        },
    }
}

/// Says what the site's description says of a video, where there is one; else the clients are
/// asked.
pub fn info_after_description(described: &Option<InnertubePlayer>) -> (info: Option<VideoInfo>)
    requires
        described matches Some(player) ==> innertube_areas_fit(player@),
    ensures
        match described {
            Some(player) => info matches Some(known) && known@ == innertube_info(player@),
            None => info is None,
        },
{
    match described {
        Some(player) => Some(info_from_innertube(player)),
        None => None,
    }
}

/// What the site's description says of a video holds no error, and its formats are those of the
/// description, from the highest to the lowest; equally high ones keep their order.
pub proof fn lemma_described_formats_in_order(player: InnertubePlayerView, h: nat)
    ensures
        ({
            let shown = innertube_info(player).formats;
            let listed = innertube_entries(player.formats);
            &&& innertube_info(player).error is None
            &&& shown.to_multiset() == listed.to_multiset()
            &&& forall|i: int, j: int|
                0 <= i < j < shown.len() ==> rank(#[trigger] shown[i]) >= rank(#[trigger] shown[j])
            &&& shown.filter(|f: FormatView| rank(f) == h) == listed.filter(
                |f: FormatView| rank(f) == h,
            )
        }),
{
    let listed = innertube_entries(player.formats);
    lemma_by_height_keeps_all(listed);
    lemma_by_height_descends(listed);
    lemma_by_height_keeps_equals(listed, h);
}

/// Replacing leaves digits in front alone where what is replaced starts with a `p`.
proof fn lemma_replaced_behind_digits(
    digits: Seq<char>,
    rest: Seq<char>,
    part: Seq<char>,
    other: Seq<char>,
)
    requires
        forall|i: int| 0 <= i < digits.len() ==> is_digit(#[trigger] digits[i]),
        part.len() > 0,
        part[0] == 'p',
    ensures
        replaced(digits + rest, part, other) == digits + replaced(rest, part, other),
    decreases digits.len(),
{
    let all = digits + rest;
    if digits.len() == 0 {
        assert(all =~= rest);
        assert(digits + replaced(rest, part, other) =~= replaced(rest, part, other));
    } else {
        let tail = digits.drop_first();
        assert forall|i: int| 0 <= i < tail.len() implies is_digit(#[trigger] tail[i]) by {
            assert(tail[i] == digits[i + 1]);
        }
        lemma_replaced_behind_digits(tail, rest, part, other);
        assert(all.drop_first() =~= tail + rest);
        assert(is_digit(digits[0]));
        if starts_with(all, part) {
            assert(all.subrange(0, part.len() as int)[0] == all[0]);
        }
        assert(replaced(all, part, other) =~= digits + replaced(rest, part, other));
    }
}

/// Text that starts with a `p` still does when something that starts with a `p` has been replaced
/// by something that does.
proof fn lemma_replaced_keeps_first(text: Seq<char>, part: Seq<char>, other: Seq<char>)
    requires
        text.len() > 0,
        text[0] == 'p',
        part.len() > 0,
        other.len() > 0,
        other[0] == 'p',
    ensures
        replaced(text, part, other).len() > 0,
        replaced(text, part, other)[0] == 'p',
{
}

/// A format with pictures is put in order by the height that its label starts with, whatever its
/// rate.
pub proof fn lemma_labelled_height(format: InnertubeFormatView, h: nat, rest: Seq<char>)
    requires
        !is_audio(format),
        h <= u64::MAX,
        rest.len() > 0,
        rest[0] == 'p',
        format.quality_label == Some(decimal(h) + rest),
    ensures
        rank(innertube_entry(format)) == h,
{
    let digits = decimal(h);
    lemma_decimal_reads_back(h, u64::MAX as nat);
    reveal_strlit("p");
    reveal_strlit("p0p");
    let end = " (video only)"@;
    match format.fps {
        Some(n) => {
            let rate = "p"@ + decimal(n as nat);
            let once = replaced(rest, "p"@, rate);
            lemma_replaced_behind_digits(digits, rest, "p"@, rate);
            lemma_replaced_keeps_first(rest, "p"@, rate);
            lemma_replaced_behind_digits(digits, once, "p0p"@, "p"@);
            lemma_replaced_keeps_first(once, "p0p"@, "p"@);
            let twice = replaced(once, "p0p"@, "p"@);
            assert(digits + twice + end =~= digits + (twice + end));
            lemma_written_height_reads_back(h, twice + end);
        },
        None => {
            assert(digits + rest + end =~= digits + (rest + end));
            lemma_written_height_reads_back(h, rest + end);
        },
    }
}

/// A format with pictures and without a label is put in order by its height.
pub proof fn lemma_unlabelled_height(format: InnertubeFormatView)
    requires
        !is_audio(format),
        format.quality_label is None,
    ensures
        rank(innertube_entry(format)) == or_zero(format.height),
{
    reveal_strlit("p");
    lemma_written_height_reads_back(or_zero(format.height) as nat, "p"@);
}

/// A format with sound only is put in order as if it had no height.
pub proof fn lemma_sound_has_no_height(format: InnertubeFormatView)
    requires
        is_audio(format),
    ensures
        rank(innertube_entry(format)) == 0,
{
    lemma_bit_rate_is_no_height((format.bitrate / 1000) as nat);
}

/// The entry for a format names exactly one codec: a format has either pictures or sound.
pub proof fn lemma_one_codec(format: InnertubeFormatView)
    ensures
        (innertube_entry(format).vcodec == "none"@) == is_audio(format),
        (innertube_entry(format).acodec == "none"@) == !is_audio(format),
{
    reveal_strlit("none");
    reveal_strlit("avc1");
    reveal_strlit("vp9");
    reveal_strlit("av01");
    reveal_strlit("unknown");
    reveal_strlit("mp4a");
    reveal_strlit("opus");
    assert("none"@[0] == 'n');
    assert("avc1"@[0] == 'a');
    assert("vp9"@[0] == 'v');
    assert("av01"@[0] == 'a');
    assert("unknown"@[0] == 'u');
    assert("mp4a"@[0] == 'm');
    assert("opus"@[0] == 'o');
}

/// The description holds every format of both lists, those with pictures and sound first; a list
/// that is absent adds none.
pub proof fn lemma_description_holds_both_lists(
    player: InnertubePlayer,
    whole: Seq<InnertubeFormat>,
    parts: Seq<InnertubeFormat>,
)
    requires
        player.streaming_data matches Some(data) && (match data.formats {
            Some(list) => list@ == whole,
            None => whole.len() == 0,
        }) && (match data.adaptive_formats {
            Some(list) => list@ == parts,
            None => parts.len() == 0,
        }),
    ensures
        player@.formats.len() == whole.len() + parts.len(),
        forall|i: int| 0 <= i < whole.len() ==> player@.formats[i] == (#[trigger] whole[i])@,
        forall|i: int|
            0 <= i < parts.len() ==> player@.formats[whole.len() + i] == (#[trigger] parts[i])@,
{
}

/// Each format in the description gets one entry, in the same place: its number, its size where
/// that is written as a number, and its rate come from that format.
pub proof fn lemma_entries_one_by_one(formats: Seq<InnertubeFormatView>, i: int)
    requires
        0 <= i < formats.len(),
    ensures
        ({
            let format = formats[i];
            let entry = innertube_entries(formats)[i];
            &&& innertube_entries(formats).len() == formats.len()
            &&& entry == innertube_entry(format)
            &&& parsed(entry.format_id, u32::MAX as nat) == Some(format.itag as nat)
            &&& entry.filesize is Some ==> format.content_length is Some && parsed(
                format.content_length->0,
                u64::MAX as nat,
            ) == Some(entry.filesize->0 as nat)
            &&& entry.filesize is None && format.content_length is Some ==> parsed(
                format.content_length->0,
                u64::MAX as nat,
            ) is None
            &&& format.fps is None ==> entry.fps is None
            &&& format.fps is Some ==> entry.fps == Some(
                QuantityView::Whole(format.fps->0 as u64),
            )
        }),
{
    let format = formats[i];
    lemma_decimal_reads_back(format.itag as nat, u32::MAX as nat);
}

/// The extension of a format follows from its type: WebM goes before MP4, MP4 before 3GPP, and what
/// is none of them counts as MP4.
pub proof fn lemma_described_extension(format: InnertubeFormatView)
    ensures
        ({
            let mime = format.mime_type;
            let ext = innertube_entry(format).ext;
            &&& ext == "webm"@ <==> contains(mime, "webm"@)
            &&& ext == "3gp"@ <==> contains(mime, "3gpp"@) && !contains(mime, "webm"@) && !contains(
                mime,
                "mp4"@,
            )
            &&& ext == "webm"@ || ext == "3gp"@ || ext == "mp4"@
        }),
{
    reveal_strlit("webm");
    reveal_strlit("mp4");
    reveal_strlit("3gp");
    assert("webm"@.len() == 4);
    assert("mp4"@[0] == 'm');
    assert("3gp"@[0] == '3');
}

/// A format with pictures has the first of the codecs `avc1`, `vp9` and `av01` that its type says,
/// and no sound; what says none of them has an unknown one.
pub proof fn lemma_described_picture_codec(format: InnertubeFormatView)
    requires
        format.audio_quality is None,
    ensures
        ({
            let mime = format.mime_type;
            let entry = innertube_entry(format);
            &&& entry.acodec == "none"@
            &&& contains(mime, "avc1"@) ==> entry.vcodec == "avc1"@
            &&& !contains(mime, "avc1"@) && contains(mime, "vp9"@) ==> entry.vcodec == "vp9"@
            &&& !contains(mime, "avc1"@) && !contains(mime, "vp9"@) && contains(mime, "av01"@)
                ==> entry.vcodec == "av01"@
            &&& !contains(mime, "avc1"@) && !contains(mime, "vp9"@) && !contains(mime, "av01"@)
                ==> entry.vcodec == "unknown"@
        }),
{
}

/// A format with sound has the codec `mp4a` where its type says that or `aac`, else `opus` where it
/// says that, and no pictures; what says none of them has an unknown one.
pub proof fn lemma_described_sound_codec(format: InnertubeFormatView)
    requires
        format.audio_quality is Some,
    ensures
        ({
            let mime = format.mime_type;
            let entry = innertube_entry(format);
            let mp4a = contains(mime, "mp4a"@) || contains(mime, "aac"@);
            &&& entry.vcodec == "none"@
            &&& mp4a ==> entry.acodec == "mp4a"@
            &&& !mp4a && contains(mime, "opus"@) ==> entry.acodec == "opus"@
            &&& !mp4a && !contains(mime, "opus"@) ==> entry.acodec == "unknown"@
        }),
{
}

/// Sound is shown with its rate in thousands of bits, rounded down.
pub proof fn lemma_described_bit_rate(format: InnertubeFormatView, thousands: nat, rest: nat)
    requires
        format.audio_quality is Some,
        format.bitrate == 1000 * thousands + rest,
        rest < 1000,
    ensures
        innertube_entry(format).resolution == decimal(thousands) + "kbps (audio only)"@,
{
    assert(format.bitrate / 1000 == thousands);
}

/// Pictures without a label are shown with their height, or with zero where that is not known.
pub proof fn lemma_described_height(format: InnertubeFormatView, height: nat)
    requires
        format.audio_quality is None,
        format.quality_label is None,
        match format.height {
            Some(h) => h == height,
            None => height == 0,
        },
    ensures
        innertube_entry(format).resolution == decimal(height) + seq!['p'],
{
    reveal_strlit("p");
    assert("p"@ =~= seq!['p']);
}

/// A text without a `p` does not hold what starts with one.
proof fn lemma_no_p(text: Seq<char>, part: Seq<char>)
    requires
        !text.contains('p'),
        part.len() > 0,
        part[0] == 'p',
    ensures
        !contains(text, part),
{
    if contains(text, part) {
        let at = choose|at: int| occurs_at(text, part, at);
        assert(text.subrange(at, at + part.len())[0] == text[at]);
        assert(text.contains(text[at]));
    }
}

/// Pictures with a label and no rate are shown with that label; where there is a rate, it stands
/// behind the `p` of the label, and nothing else of the label changes.
pub proof fn lemma_described_label(
    format: InnertubeFormatView,
    front: Seq<char>,
    back: Seq<char>,
)
    requires
        format.audio_quality is None,
        !front.contains('p'),
        !back.contains('p'),
        format.quality_label == Some(front + seq!['p'] + back),
    ensures
        innertube_entry(format).resolution == match format.fps {
            Some(n) => front + seq!['p'] + decimal(n as nat) + back + " (video only)"@,
            None => front + seq!['p'] + back + " (video only)"@,
        },
{
    reveal_strlit("p");
    reveal_strlit("p0p");
    let p = seq!['p'];
    assert("p"@ =~= p);
    match format.fps {
        Some(n) => {
            let digits = decimal(n as nat);
            lemma_decimal_reads_back(n as nat, u32::MAX as nat);
            assert forall|at: int| 0 <= at < front.len() implies !#[trigger] occurs_at(
                front + p + back,
                p,
                at,
            ) by {
                if occurs_at(front + p + back, p, at) {
                    assert((front + p + back).subrange(at, at + 1)[0] == front[at]);
                    assert(front.contains(front[at]));
                }
            }
            lemma_first_is_replaced(front, p, back, p + digits);
            lemma_no_p(back, p);
            lemma_nothing_replaced(back, p, p + digits);
            let rated = front + p + digits + back;
            assert(front + (p + digits) + back =~= rated);
            let odd = "p0p"@;
            assert(odd.len() == 3 && odd[0] == 'p' && odd[2] == 'p');
            if contains(rated, odd) {
                let at = choose|at: int| occurs_at(rated, odd, at);
                let found = rated.subrange(at, at + 3);
                assert(found[0] == rated[at] && found[2] == rated[at + 2]);
                if at < front.len() {
                    assert(front.contains(rated[at]));
                }
                if at + 2 > front.len() + digits.len() {
                    assert(back[at + 2 - front.len() - 1 - digits.len()] == rated[at + 2]);
                    assert(back.contains(rated[at + 2]));
                } else {
                    assert(is_digit(digits[at + 2 - front.len() - 1]));
                }
            }
            lemma_nothing_replaced(rated, odd, p);
        },
        None => {},
    }
}

/// A rate of zero between two `p` of a label is taken out again.
pub proof fn lemma_no_rate_between(format: InnertubeFormatView, front: Seq<char>, back: Seq<char>)
    requires
        format.audio_quality is None,
        format.fps == Some(0u32),
        !front.contains('p'),
        !back.contains('p'),
        format.quality_label == Some(front + seq!['p', 'p'] + back),
    ensures
        innertube_entry(format).resolution == front + seq!['p', '0'] + back + " (video only)"@,
{
    reveal_strlit("p");
    reveal_strlit("p0p");
    let p = seq!['p'];
    let odd = seq!['p', '0', 'p'];
    assert("p"@ =~= p);
    assert("p0p"@ =~= odd);
    lemma_decimal_grows(0, 0);
    let rate = p + decimal(0);
    assert(rate =~= seq!['p', '0']);
    let label = front + seq!['p', 'p'] + back;
    assert(label =~= front + p + (p + back));
    assert forall|at: int| 0 <= at < front.len() implies !#[trigger] occurs_at(
        front + p + (p + back),
        p,
        at,
    ) by {
        if occurs_at(front + p + (p + back), p, at) {
            assert((front + p + (p + back)).subrange(at, at + 1)[0] == front[at]);
            assert(front.contains(front[at]));
        }
    }
    lemma_first_is_replaced(front, p, p + back, rate);
    let none: Seq<char> = seq![];
    assert(none + p + back =~= p + back);
    lemma_first_is_replaced(none, p, back, rate);
    lemma_no_p(back, p);
    lemma_nothing_replaced(back, p, rate);
    let rest = seq!['0'] + back;
    let rated = front + odd + rest;
    assert(front + rate + (none + rate + back) =~= rated);
    assert forall|at: int| 0 <= at < front.len() implies !#[trigger] occurs_at(
        rated,
        odd,
        at,
    ) by {
        if occurs_at(rated, odd, at) {
            assert(rated.subrange(at, at + 3)[0] == front[at]);
            assert(front.contains(front[at]));
        }
    }
    lemma_first_is_replaced(front, odd, rest, p);
    assert(!rest.contains('p')) by {
        if rest.contains('p') {
            let k = choose|k: int| 0 <= k < rest.len() && rest[k] == 'p';
            assert(back[k - 1] == 'p');
        }
    }
    lemma_no_p(rest, odd);
    lemma_nothing_replaced(rest, odd, p);
    assert(front + p + rest =~= front + seq!['p', '0'] + back);
}

/// The title and the length of a video are those of its description; where it says nothing of one,
/// the title is empty and the length is not known. The thumbnail is one of the description, and
/// none is missing where the description lists any.
pub proof fn lemma_described_details(player: InnertubePlayerView)
    requires
        innertube_areas_fit(player),
    ensures
        ({
            let info = innertube_info(player);
            &&& player.details is None ==> info.title.len() == 0 && info.duration is None
                && info.thumbnail is None
            &&& player.details matches Some(details) ==> {
                &&& details.title is Some ==> info.title == details.title->0
                &&& details.title is None ==> info.title.len() == 0
                &&& details.length_seconds is Some ==> info.duration == Some(
                    QuantityView::Decimal(details.length_seconds->0),
                )
                &&& details.length_seconds is None ==> info.duration is None
                &&& details.thumbnails is None ==> info.thumbnail is None
                &&& details.thumbnails matches Some(list) ==> {
                    &&& list.len() == 0 ==> info.thumbnail is None
                    &&& list.len() > 0 ==> exists|i: int|
                        0 <= i < list.len() && info.thumbnail == Some((#[trigger] list[i]).url)
                            && forall|j: int|
                            0 <= j < list.len() ==> sides(#[trigger] list[j]) <= sides(list[i])
                }
            }
        }),
{
    match player.details {
        Some(details) => match details.thumbnails {
            Some(list) => {
                lemma_largest_thumbnail_is_largest(list);
            },
            None => {},
        },
        None => {},
    }
}

} // verus!
