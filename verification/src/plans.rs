//! Deciding which streams of a video are downloaded.

use crate::backends::PureRustBackend;
use crate::best::{
    find_first, find_last_largest, first_index, has_key, last_largest, lemma_first_index_is_first,
    lemma_last_largest_exists,
};
use crate::decimal::{parse_u32, parsed};
use crate::innertube::{
    all_formats, borrowed_formats_of, info_after_description, innertube_areas_fit, innertube_info,
    is_audio, InnertubeFormat, InnertubeFormatView, InnertubePlayer,
};
use crate::player::{
    audio_streams_of, info_after_clients, player_info, video_streams_of, AudioStream,
    AudioStreamView, VideoPlayer, VideoPlayerView, VideoStream, VideoStreamView,
};
use crate::text::{concat2, concat3, contains, occurs_at, text_contains, text_of, trim};
use crate::thumbnails::areas_fit;
use crate::types::{failed_info, BackendError, ErrorView, VideoInfo};
use crate::urls::{
    extract_video_id, has_token, inject_pot, lemma_token_added_once, url_has_token, video_id,
    with_token,
};
use vstd::prelude::*;
use vstd::string::*;

verus! {

/// What is downloaded: one stream, or a stream with pictures and one with sound to be merged.
/// `mime` is the type of the stream with pictures, or of the one stream.
#[derive(Debug)]
pub enum DownloadPlan {
    Direct { url: String, mime: String },
    Merge { video_url: String, audio_url: String, mime: String },
}

/// The model of what is downloaded.
pub enum DownloadPlanView {
    Direct { url: Seq<char>, mime: Seq<char> },
    Merge { video_url: Seq<char>, audio_url: Seq<char>, mime: Seq<char> },
}

impl View for DownloadPlan {
    type V = DownloadPlanView;

    open spec fn view(&self) -> DownloadPlanView {
        match self {
            DownloadPlan::Direct { url, mime } => DownloadPlanView::Direct {
                url: url@,
                mime: mime@,
            },
            DownloadPlan::Merge { video_url, audio_url, mime } => DownloadPlanView::Merge {
                video_url: video_url@,
                audio_url: audio_url@,
                mime: mime@,
            },
        }
    }
}

/// A decision in terms of the models.
pub open spec fn plan_outcome(result: Result<DownloadPlan, BackendError>) -> Result<
    DownloadPlanView,
    ErrorView,
> {
    match result {
        Ok(plan) => Ok(plan@),
        Err(error) => Err(error@),
    }
}

/// A decision that may be left open, in terms of the models.
pub open spec fn open_plan_outcome(result: Result<Option<DownloadPlan>, BackendError>) -> Result<
    Option<DownloadPlanView>,
    ErrorView,
> {
    match result {
        Ok(Some(plan)) => Ok(Some(plan@)),
        Ok(None) => Ok(None),
        Err(error) => Err(error@),
    }
}

/// Whether sound of the type `sound` goes with pictures of the type `pictures` without another
/// container.
pub open spec fn goes_with(sound: Seq<char>, pictures: Seq<char>) -> bool {
    if contains(pictures, "mp4"@) {
        contains(sound, "mp4"@)
    } else {
        contains(sound, "webm"@)
    }
}

/// The pick among the sound that fits, or among all sound where none fits.
pub open spec fn best_sound(fitting: Seq<Option<u32>>, any: Seq<Option<u32>>) -> Option<int> {
    if last_largest(fitting) is Some {
        last_largest(fitting)
    } else {
        last_largest(any)
    }
}

/// Reports whether sound of the type `sound` goes with pictures of the type `pictures`.
fn sound_goes_with(sound: &str, pictures: &str) -> (fits: bool)
    ensures
        fits == goes_with(sound@, pictures@),
{
    if text_contains(pictures, "mp4") {
        text_contains(sound, "mp4")
    } else {
        text_contains(sound, "webm")
    }
}

/// Picks among the sound that fits, or among all sound where none fits.
fn pick_sound(fitting: &Vec<Option<u32>>, any: &Vec<Option<u32>>) -> (pick: Option<usize>)
    requires
        fitting@.len() == any@.len(),
    ensures
        match pick {
            Some(i) => best_sound(fitting@, any@) == Some(i as int) && i < any@.len(),
            None => best_sound(fitting@, any@) is None,
        },
{
    match find_last_largest(fitting) {
        Some(i) => Some(i),
        None => find_last_largest(any),
    }
}

/// The numbers of the formats in the site's description.
pub open spec fn format_itags(formats: Seq<InnertubeFormatView>) -> Seq<u32> {
    formats.map_values(|f: InnertubeFormatView| f.itag)
}

/// The bit rates of the formats with sound only.
pub open spec fn sound_rates(formats: Seq<InnertubeFormatView>) -> Seq<Option<u32>> {
    formats.map_values(
        |f: InnertubeFormatView|
            if is_audio(f) {
                Some(f.bitrate)
            } else {
                None
            },
    )
}

/// The bit rates of the formats with sound only that go with pictures of the type `pictures`.
pub open spec fn fitting_sound_rates(
    formats: Seq<InnertubeFormatView>,
    pictures: Seq<char>,
) -> Seq<Option<u32>> {
    formats.map_values(
        |f: InnertubeFormatView|
            if is_audio(f) && goes_with(f.mime_type, pictures) {
                Some(f.bitrate)
            } else {
                None
            },
    )
}

/// The format whose sound is merged with pictures of the type `pictures`.
pub open spec fn sound_for(formats: Seq<InnertubeFormatView>, pictures: Seq<char>) -> Option<int> {
    best_sound(fitting_sound_rates(formats, pictures), sound_rates(formats))
}

/// What is downloaded according to the site's description; nothing is decided where it lacks the
/// format that is asked for.
pub open spec fn described_plan(
    formats: Seq<InnertubeFormatView>,
    itag: u32,
    merge_audio: bool,
) -> Result<Option<DownloadPlanView>, ErrorView> {
    match first_index(format_itags(formats), itag) {
        None => Ok(None),
        Some(i) => {
            let format = formats[i];
            match format.url {
                None => Err(ErrorView::DownloadFailed("format has no URL"@)),
                Some(url) => if is_audio(format) || !merge_audio {
                    Ok(Some(DownloadPlanView::Direct { url, mime: format.mime_type }))
                } else {
                    match sound_for(formats, format.mime_type) {
                        None => Err(ErrorView::DownloadFailed("no audio for merge"@)),
                        Some(k) => match formats[k].url {
                            None => Err(ErrorView::DownloadFailed("audio has no URL"@)),
                            Some(audio_url) => Ok(
                                Some(
                                    DownloadPlanView::Merge {
                                        video_url: url,
                                        audio_url,
                                        mime: format.mime_type,
                                    },
                                ),
                            ),
                        },
                    }
                },
            }
        },
    }
}

/// Picks the format whose sound is merged with pictures of the type `pictures`.
fn pick_format_sound(formats: &Vec<&InnertubeFormat>, pictures: &str) -> (pick: Option<usize>)
    ensures
        match pick {
            Some(i) => sound_for(borrowed_formats_of(formats@), pictures@) == Some(i as int) && i
                < formats@.len(),
            None => sound_for(borrowed_formats_of(formats@), pictures@) is None,
        },
{
    let ghost all = borrowed_formats_of(formats@);
    let mut fitting: Vec<Option<u32>> = Vec::new();
    let mut any: Vec<Option<u32>> = Vec::new();
    let mut i: usize = 0;
    while i < formats.len()
        invariant
            i <= formats@.len(),
            all == borrowed_formats_of(formats@),
            fitting@ =~= fitting_sound_rates(all, pictures@).take(i as int),
            any@ =~= sound_rates(all).take(i as int),
        decreases formats@.len() - i,
    {
        let format = formats[i];
        assert(all[i as int] == format@);
        if format.audio_quality.is_some() {
            any.push(Some(format.bitrate));
            if sound_goes_with(format.mime_type.as_str(), pictures) {
                fitting.push(Some(format.bitrate));
            } else {
                fitting.push(None);
            }
        } else {
            any.push(None);
            fitting.push(None);
        }
        i += 1;
    }
    assert(fitting@ =~= fitting_sound_rates(all, pictures@));
    assert(any@ =~= sound_rates(all));
    pick_sound(&fitting, &any)
}

/// Finds the format with the number `itag`.
fn find_format(formats: &Vec<&InnertubeFormat>, itag: u32) -> (found: Option<usize>)
    ensures
        match found {
            Some(i) => first_index(format_itags(borrowed_formats_of(formats@)), itag) == Some(
                i as int,
            ) && i < formats@.len(),
            None => first_index(format_itags(borrowed_formats_of(formats@)), itag) is None,
        },
{
    let ghost all = format_itags(borrowed_formats_of(formats@));
    let mut itags: Vec<u32> = Vec::new();
    let mut i: usize = 0;
    while i < formats.len()
        invariant
            i <= formats@.len(),
            all == format_itags(borrowed_formats_of(formats@)),
            itags@ =~= all.take(i as int),
        decreases formats@.len() - i,
    {
        itags.push(formats[i].itag);
        i += 1;
    }
    assert(itags@ =~= all);
    find_first(&itags, itag)
}

/// Decides what is downloaded according to the site's description.
pub fn plan_from_innertube(player: &InnertubePlayer, itag: u32, merge_audio: bool) -> (plan: Result<
    Option<DownloadPlan>,
    BackendError,
>)
    ensures
        open_plan_outcome(plan) == described_plan(player@.formats, itag, merge_audio),
{
    let formats = all_formats(player);
    match find_format(&formats, itag) {
        None => Ok(None),
        Some(i) => {
            let format = formats[i];
            assert(player@.formats[i as int] == format@);
            match &format.url {
                None => Err(BackendError::DownloadFailed("format has no URL".to_owned())),
                Some(url) => {
                    let url: String = url.as_str().to_owned();
                    let mime: String = format.mime_type.as_str().to_owned();
                    if format.audio_quality.is_some() || !merge_audio {
                        return Ok(Some(DownloadPlan::Direct { url, mime }));
                    }
                    match pick_format_sound(&formats, mime.as_str()) {
                        None => Err(BackendError::DownloadFailed("no audio for merge".to_owned())),
                        Some(k) => {
                            assert(player@.formats[k as int] == formats@[k as int]@);
                            match &formats[k].url {
                                None => Err(
                                    BackendError::DownloadFailed("audio has no URL".to_owned()),
                                ),
                                Some(audio_url) => Ok(
                                    Some(
                                        DownloadPlan::Merge {
                                            video_url: url,
                                            audio_url: audio_url.as_str().to_owned(),
                                            mime,
                                        },
                                    ),
                                ),
                            }
                        },
                    }
                },
            }
        },
    }
}

/// Decides what is downloaded according to the site's description, if there is one. Nothing is
/// decided where there is none or where it lacks the format that is asked for: then the clients are
/// asked.
pub fn described_or_clients(
    described: &Option<InnertubePlayer>,
    itag: u32,
    merge_audio: bool,
) -> (plan: Result<Option<DownloadPlan>, BackendError>)
    ensures
        open_plan_outcome(plan) == match described {
            Some(player) => described_plan(player@.formats, itag, merge_audio),
            None => Ok(None),
        },
{
    match described {
        Some(player) => plan_from_innertube(player, itag, merge_audio),
        None => Ok(None),
    }
}

/// The error for a download whose streams no client found.
pub fn clients_failed(error: &str) -> (failure: BackendError)
    ensures
        failure@ == ErrorView::DownloadFailed("player: "@ + error@),
{
    BackendError::DownloadFailed(concat2("player: ", error))
}

/// The numbers of streams with pictures.
pub open spec fn video_itags(streams: Seq<VideoStreamView>) -> Seq<u32> {
    streams.map_values(|s: VideoStreamView| s.itag)
}

/// The numbers of streams with sound only.
pub open spec fn audio_itags(streams: Seq<AudioStreamView>) -> Seq<u32> {
    streams.map_values(|s: AudioStreamView| s.itag)
}

/// The bit rates of streams with sound only.
pub open spec fn stream_rates(streams: Seq<AudioStreamView>) -> Seq<Option<u32>> {
    streams.map_values(|s: AudioStreamView| Some(s.bitrate))
}

/// The bit rates of the streams with sound only that go with pictures of the type `pictures`.
pub open spec fn fitting_stream_rates(
    streams: Seq<AudioStreamView>,
    pictures: Seq<char>,
) -> Seq<Option<u32>> {
    streams.map_values(
        |s: AudioStreamView|
            if goes_with(s.mime, pictures) {
                Some(s.bitrate)
            } else {
                None
            },
    )
}

/// The stream whose sound is merged with pictures of the type `pictures`.
pub open spec fn stream_for(streams: Seq<AudioStreamView>, pictures: Seq<char>) -> Option<int> {
    best_sound(fitting_stream_rates(streams, pictures), stream_rates(streams))
}

/// The error for a format that no stream has.
pub open spec fn no_such_format(format_id: Seq<char>) -> ErrorView {
    ErrorView::NotFound("format_id "@ + format_id + " not found in player response"@)
}

/// What is downloaded according to the streams of a video.
pub open spec fn stream_plan(
    player: VideoPlayerView,
    itag: u32,
    format_id: Seq<char>,
    merge_audio: bool,
) -> Result<DownloadPlanView, ErrorView> {
    let whole = first_index(video_itags(player.video_streams), itag);
    let silent = first_index(video_itags(player.video_only_streams), itag);
    let sound = first_index(audio_itags(player.audio_streams), itag);
    if whole is Some {
        let stream = player.video_streams[whole->0];
        Ok(DownloadPlanView::Direct { url: stream.url, mime: stream.mime })
    } else if silent is Some {
        let stream = player.video_only_streams[silent->0];
        if !merge_audio {
            Ok(DownloadPlanView::Direct { url: stream.url, mime: stream.mime })
        } else {
            match stream_for(player.audio_streams, stream.mime) {
                Some(k) => Ok(
                    DownloadPlanView::Merge {
                        video_url: stream.url,
                        audio_url: player.audio_streams[k].url,
                        mime: stream.mime,
                    },
                ),
                None => Err(ErrorView::DownloadFailed("no audio for merge"@)),
            }
        }
    } else if sound is Some {
        let stream = player.audio_streams[sound->0];
        Ok(DownloadPlanView::Direct { url: stream.url, mime: stream.mime })
    } else {
        Err(no_such_format(format_id))
    }
}

/// Lists the numbers of streams with pictures.
pub fn list_video_itags(streams: &Vec<VideoStream>) -> (itags: Vec<u32>)
    ensures
        itags@ == video_itags(video_streams_of(streams@)),
{
    let ghost all = video_itags(video_streams_of(streams@));
    let mut itags: Vec<u32> = Vec::new();
    let mut i: usize = 0;
    while i < streams.len()
        invariant
            i <= streams@.len(),
            all == video_itags(video_streams_of(streams@)),
            itags@ =~= all.take(i as int),
        decreases streams@.len() - i,
    {
        itags.push(streams[i].itag);
        i += 1;
    }
    assert(itags@ =~= all);
    itags
}

/// Lists the numbers of streams with sound only.
pub fn list_audio_itags(streams: &Vec<AudioStream>) -> (itags: Vec<u32>)
    ensures
        itags@ == audio_itags(audio_streams_of(streams@)),
{
    let ghost all = audio_itags(audio_streams_of(streams@));
    let mut itags: Vec<u32> = Vec::new();
    let mut i: usize = 0;
    while i < streams.len()
        invariant
            i <= streams@.len(),
            all == audio_itags(audio_streams_of(streams@)),
            itags@ =~= all.take(i as int),
        decreases streams@.len() - i,
    {
        itags.push(streams[i].itag);
        i += 1;
    }
    assert(itags@ =~= all);
    itags
}

/// Lists the bit rates of streams with sound only.
pub fn list_rates(streams: &Vec<AudioStream>) -> (rates: Vec<Option<u32>>)
    ensures
        rates@ == stream_rates(audio_streams_of(streams@)),
{
    let ghost all = stream_rates(audio_streams_of(streams@));
    let mut rates: Vec<Option<u32>> = Vec::new();
    let mut i: usize = 0;
    while i < streams.len()
        invariant
            i <= streams@.len(),
            all == stream_rates(audio_streams_of(streams@)),
            rates@ =~= all.take(i as int),
        decreases streams@.len() - i,
    {
        rates.push(Some(streams[i].bitrate));
        i += 1;
    }
    assert(rates@ =~= all);
    rates
}

/// Picks the stream whose sound is merged with pictures of the type `pictures`.
fn pick_stream_sound(streams: &Vec<AudioStream>, pictures: &str) -> (pick: Option<usize>)
    ensures
        match pick {
            Some(i) => stream_for(audio_streams_of(streams@), pictures@) == Some(i as int) && i
                < streams@.len(),
            None => stream_for(audio_streams_of(streams@), pictures@) is None,
        },
{
    let ghost all = fitting_stream_rates(audio_streams_of(streams@), pictures@);
    let mut fitting: Vec<Option<u32>> = Vec::new();
    let mut i: usize = 0;
    while i < streams.len()
        invariant
            i <= streams@.len(),
            all == fitting_stream_rates(audio_streams_of(streams@), pictures@),
            fitting@ =~= all.take(i as int),
        decreases streams@.len() - i,
    {
        if sound_goes_with(streams[i].mime.as_str(), pictures) {
            fitting.push(Some(streams[i].bitrate));
        } else {
            fitting.push(None);
        }
        i += 1;
    }
    assert(fitting@ =~= all);
    let any = list_rates(streams);
    pick_sound(&fitting, &any)
}

/// Decides what is downloaded according to the streams of a video.
pub fn plan_from_player(
    player: &VideoPlayer,
    itag: u32,
    format_id: &str,
    merge_audio: bool,
) -> (plan: Result<DownloadPlan, BackendError>)
    ensures
        plan_outcome(plan) == stream_plan(player@, itag, format_id@, merge_audio),
{
    match find_first(&list_video_itags(&player.video_streams), itag) {
        Some(i) => {
            let stream = &player.video_streams[i];
            return Ok(
                DownloadPlan::Direct {
                    url: stream.url.as_str().to_owned(),
                    mime: stream.mime.as_str().to_owned(),
                },
            );
        },
        None => {},
    }
    match find_first(&list_video_itags(&player.video_only_streams), itag) {
        Some(i) => {
            let stream = &player.video_only_streams[i];
            let url: String = stream.url.as_str().to_owned();
            let mime: String = stream.mime.as_str().to_owned();
            if !merge_audio {
                return Ok(DownloadPlan::Direct { url, mime });
            }
            return match pick_stream_sound(&player.audio_streams, mime.as_str()) {
                Some(k) => Ok(
                    DownloadPlan::Merge {
                        video_url: url,
                        audio_url: player.audio_streams[k].url.as_str().to_owned(),
                        mime,
                    },
                ),
                None => Err(BackendError::DownloadFailed("no audio for merge".to_owned())),
            };
        },
        None => {},
    }
    match find_first(&list_audio_itags(&player.audio_streams), itag) {
        Some(i) => {
            let stream = &player.audio_streams[i];
            Ok(
                DownloadPlan::Direct {
                    url: stream.url.as_str().to_owned(),
                    mime: stream.mime.as_str().to_owned(),
                },
            )
        },
        None => Err(
            BackendError::NotFound(
                concat3("format_id ", format_id, " not found in player response"),
            ),
        ),
    }
}

/// Whether a token is to be made for the address of a stream.
pub open spec fn wants_token(url: Seq<char>, visitor_data: Seq<char>) -> bool {
    !has_token(url) && visitor_data.len() > 0
}

/// Reports whether a token is to be made for the address of a stream.
pub fn needs_token(url: &str, visitor_data: &str) -> (needed: bool)
    ensures
        needed == wants_token(url@, visitor_data@),
{
    !url_has_token(url) && !visitor_data.is_empty()
}

/// The address of a stream with a token, where one was made for it.
pub open spec fn with_made_token(url: Seq<char>, pot: Option<Seq<char>>) -> Seq<char> {
    match pot {
        Some(token) => with_token(url, token),
        None => url,
    }
}

/// What is downloaded, with tokens added to the addresses for which they were made.
pub open spec fn plan_with_tokens(
    plan: DownloadPlanView,
    stream_pot: Option<Seq<char>>,
    audio_pot: Option<Seq<char>>,
) -> DownloadPlanView {
    match plan {
        DownloadPlanView::Direct { url, mime } => DownloadPlanView::Direct {
            url: with_made_token(url, stream_pot),
            mime,
        },
        DownloadPlanView::Merge { video_url, audio_url, mime } => DownloadPlanView::Merge {
            video_url: with_made_token(video_url, stream_pot),
            audio_url: with_made_token(audio_url, audio_pot),
            mime,
        },
    }
}

/// Adds a token to the address of a stream, where one was made for it.
fn add_made_token(url: String, pot: Option<String>) -> (out: String)
    ensures
        out@ == with_made_token(url@, text_of(pot)),
{
    match pot {
        Some(token) => inject_pot(url.as_str(), token.as_str()),
        None => url,
    }
}

impl DownloadPlan {
    /// Reports for which of the streams a token is to be made: the one with pictures or the only
    /// one, and the one with sound that is merged with it.
    pub fn missing_tokens(&self, visitor_data: &str) -> (missing: (bool, bool))
        ensures
            missing == match self@ {
                DownloadPlanView::Direct { url, mime } => (wants_token(url, visitor_data@), false),
                DownloadPlanView::Merge { video_url, audio_url, mime } => (
                    wants_token(video_url, visitor_data@),
                    wants_token(audio_url, visitor_data@),
                ),
            },
    {
        match self {
            DownloadPlan::Direct { url, .. } => (needs_token(url.as_str(), visitor_data), false),
            DownloadPlan::Merge { video_url, audio_url, .. } => (
                needs_token(video_url.as_str(), visitor_data),
                needs_token(audio_url.as_str(), visitor_data),
            ),
        }
    }

    /// Adds the tokens that were made to the addresses of the streams.
    pub fn with_tokens(self, stream_pot: Option<String>, audio_pot: Option<String>) -> (plan:
        DownloadPlan)
        ensures
            plan@ == plan_with_tokens(self@, text_of(stream_pot), text_of(audio_pot)),
    {
        match self {
            DownloadPlan::Direct { url, mime } => DownloadPlan::Direct {
                url: add_made_token(url, stream_pot),
                mime,
            },
            DownloadPlan::Merge { video_url, audio_url, mime } => DownloadPlan::Merge {
                video_url: add_made_token(video_url, stream_pot),
                audio_url: add_made_token(audio_url, audio_pot),
                mime,
            },
        }
    }
}

/// Whether the addresses of all streams that are downloaded carry tokens.
pub open spec fn has_all_tokens(plan: DownloadPlanView) -> bool {
    match plan {
        DownloadPlanView::Direct { url, mime } => has_token(url),
        DownloadPlanView::Merge { video_url, audio_url, mime } => has_token(video_url) && has_token(
            audio_url,
        ),
    }
}

/// With tokens made for a known visitor wherever they are missing, all streams have tokens.
pub proof fn lemma_made_tokens_suffice(
    plan: DownloadPlanView,
    visitor_data: Seq<char>,
    stream_pot: Option<Seq<char>>,
    audio_pot: Option<Seq<char>>,
)
    requires
        visitor_data.len() > 0,
        plan is Direct ==> wants_token(plan->url, visitor_data) ==> stream_pot is Some,
        plan is Merge ==> wants_token(plan->video_url, visitor_data) ==> stream_pot is Some,
        plan is Merge ==> wants_token(plan->audio_url, visitor_data) ==> audio_pot is Some,
    ensures
        has_all_tokens(plan_with_tokens(plan, stream_pot, audio_pot)),
{
    match plan {
        DownloadPlanView::Direct { url, mime } => {
            if stream_pot is Some {
                lemma_token_added_once(url, stream_pot->0, stream_pot->0);
            }
        },
        DownloadPlanView::Merge { video_url, audio_url, mime } => {
            if stream_pot is Some {
                lemma_token_added_once(video_url, stream_pot->0, stream_pot->0);
            }
            if audio_pot is Some {
                lemma_token_added_once(audio_url, audio_pot->0, audio_pot->0);
            }
        },
    }
}

/// Copies the data of the visitor, unless there is none or it is empty.
pub fn known_visitor(visitor_data: &Option<String>) -> (known: Option<String>)
    ensures
        match known {
            Some(data) => visitor_data is Some && data@ == visitor_data->0@ && data@.len() > 0,
            None => visitor_data is Some ==> visitor_data->0@.len() == 0,
        },
{
    match visitor_data {
        Some(data) => if data.as_str().is_empty() {
            None
        } else {
            Some(data.as_str().to_owned())
        },
        None => None,
    }
}

impl PureRustBackend {
    /// The video that is asked for, or the answer where the address names none.
    pub fn info_request(&self, url: &str) -> (request: Result<String, VideoInfo>)
        ensures
            match request {
                Ok(id) => video_id(trim(url@)) == Some(id@),
                Err(info) => video_id(trim(url@)) is None && info@ == failed_info(
                    "invalid youtube url"@,
                ),
            },
    {
        match extract_video_id(url) {
            Some(id) => Ok(id),
            None => Err(VideoInfo::failed("invalid youtube url".to_owned())),
        }
    }

    /// Says what is known of the video at `url`: from the site's own description, or where there is
    /// none from what the clients found. Nothing is said where they have not been asked yet and are
    /// needed.
    pub fn get_video_info(
        &self,
        url: &str,
        described: &Option<InnertubePlayer>,
        found: Option<Result<VideoPlayer, String>>,
    ) -> (info: Option<Result<VideoInfo, BackendError>>)
        requires
            described matches Some(player) ==> innertube_areas_fit(player@),
            found matches Some(Ok(player)) ==> areas_fit(player@.thumbnails),
        ensures
            if video_id(trim(url@)) is None {
                info matches Some(Ok(known)) && known@ == failed_info("invalid youtube url"@)
            } else {
                match (described, found) {
                    (Some(player), _) => info matches Some(Ok(known)) && known@ == innertube_info(
                        player@,
                    ),
                    (None, Some(Ok(player))) => info matches Some(Ok(known)) && known@
                        == player_info(player@),
                    (None, Some(Err(error))) => info matches Some(Err(failure)) && failure@
                        == ErrorView::ExtractionFailed("player: "@ + error@),
                    (None, None) => info is None,
                }
            },
    {
        match self.info_request(url) {
            Ok(_) => {},
            Err(info) => return Some(Ok(info)),
        }
        match info_after_description(described) {
            Some(info) => return Some(Ok(info)),
            None => {},
        }
        match found {
            Some(outcome) => Some(info_after_clients(outcome)),
            None => None,
        }
    }

    /// The video and the number of the format that are asked for.
    pub fn download_request(&self, url: &str, format_id: &str) -> (request: Result<
        (String, u32),
        BackendError,
    >)
        ensures
            match request {
                Ok((id, itag)) => video_id(trim(url@)) == Some(id@) && parsed(
                    format_id@,
                    u32::MAX as nat,
                ) == Some(itag as nat),
                Err(error) => if video_id(trim(url@)) is None {
                    error@ == ErrorView::InvalidUrl("invalid youtube url"@)
                } else {
                    parsed(format_id@, u32::MAX as nat) is None && error@ == ErrorView::InvalidUrl(
                        "invalid format_id: "@ + format_id@,
                    )
                },
            },
    {
        let id = match extract_video_id(url) {
            Some(id) => id,
            None => return Err(BackendError::InvalidUrl("invalid youtube url".to_owned())),
        };
        match parse_u32(format_id) {
            Some(itag) => Ok((id, itag)),
            None => Err(BackendError::InvalidUrl(concat2("invalid format_id: ", format_id))),
        }
    }
}

/// Sound is found for pictures exactly where some format has sound only. It goes with the pictures
/// where any such format does, and none of those that do has a higher bit rate; where none does,
/// no format with sound only has a higher bit rate.
pub proof fn lemma_sound_for_pictures(formats: Seq<InnertubeFormatView>, pictures: Seq<char>)
    ensures
        match sound_for(formats, pictures) {
            Some(k) => {
                let fits = |f: InnertubeFormatView| is_audio(f) && goes_with(f.mime_type, pictures);
                &&& 0 <= k < formats.len()
                &&& is_audio(formats[k])
                &&& forall|j: int|
                    0 <= j < formats.len() && fits(#[trigger] formats[j]) ==> fits(formats[k])
                        && formats[j].bitrate <= formats[k].bitrate
                &&& !fits(formats[k]) ==> forall|j: int|
                    0 <= j < formats.len() && is_audio(#[trigger] formats[j]) ==> formats[j].bitrate
                        <= formats[k].bitrate
            },
            None => forall|j: int| 0 <= j < formats.len() ==> !is_audio(#[trigger] formats[j]),
        },
{
    let fitting = fitting_sound_rates(formats, pictures);
    let any = sound_rates(formats);
    if has_key(fitting) {
        lemma_last_largest_exists(fitting);
        let k = last_largest(fitting)->0;
        assert forall|j: int|
            0 <= j < formats.len() && is_audio(#[trigger] formats[j]) && goes_with(
                formats[j].mime_type,
                pictures,
            ) implies formats[j].bitrate <= formats[k].bitrate by {
            assert(fitting[j] == Some(formats[j].bitrate));
        }
    } else {
        assert forall|j: int| 0 <= j < formats.len() implies !(is_audio(#[trigger] formats[j])
            && goes_with(formats[j].mime_type, pictures)) by {
            assert(!(fitting[j] is Some));
        }
        if has_key(any) {
            lemma_last_largest_exists(any);
            let k = last_largest(any)->0;
            assert forall|j: int|
                0 <= j < formats.len() && is_audio(
                    #[trigger] formats[j],
                ) implies formats[j].bitrate <= formats[k].bitrate by {
                assert(any[j] == Some(formats[j].bitrate));
            }
        } else {
            assert forall|j: int| 0 <= j < formats.len() implies !is_audio(
                #[trigger] formats[j],
            ) by {
                assert(!(any[j] is Some));
            }
        }
    }
}

/// Sound is found for pictures exactly where there is a stream with sound only. It goes with the
/// pictures where any such stream does, and none of those that do has a higher bit rate; where
/// none does, no stream with sound only has a higher bit rate.
pub proof fn lemma_stream_for_pictures(streams: Seq<AudioStreamView>, pictures: Seq<char>)
    ensures
        match stream_for(streams, pictures) {
            Some(k) => {
                &&& 0 <= k < streams.len()
                &&& forall|j: int|
                    0 <= j < streams.len() && goes_with((#[trigger] streams[j]).mime, pictures)
                        ==> goes_with(streams[k].mime, pictures) && streams[j].bitrate
                        <= streams[k].bitrate
                &&& !goes_with(streams[k].mime, pictures) ==> forall|j: int|
                    0 <= j < streams.len() ==> (#[trigger] streams[j]).bitrate <= streams[k].bitrate
            },
            None => streams.len() == 0,
        },
{
    let fitting = fitting_stream_rates(streams, pictures);
    let any = stream_rates(streams);
    if has_key(fitting) {
        lemma_last_largest_exists(fitting);
        let k = last_largest(fitting)->0;
        assert forall|j: int|
            0 <= j < streams.len() && goes_with(
                (#[trigger] streams[j]).mime,
                pictures,
            ) implies streams[j].bitrate <= streams[k].bitrate by {
            assert(fitting[j] == Some(streams[j].bitrate));
        }
    } else {
        assert forall|j: int| 0 <= j < streams.len() implies !goes_with(
            (#[trigger] streams[j]).mime,
            pictures,
        ) by {
            assert(!(fitting[j] is Some));
        }
        if streams.len() > 0 {
            assert(any[0] is Some);
            lemma_last_largest_exists(any);
            let k = last_largest(any)->0;
            assert forall|j: int| 0 <= j < streams.len() implies (#[trigger] streams[j]).bitrate
                <= streams[k].bitrate by {
                assert(any[j] == Some(streams[j].bitrate));
            }
        }
    }
}

/// Streams are merged only where that is asked for and the format that is asked for has pictures.
pub proof fn lemma_merged_only_on_request(
    formats: Seq<InnertubeFormatView>,
    itag: u32,
    merge_audio: bool,
)
    requires
        described_plan(formats, itag, merge_audio) matches Ok(Some(plan)) && plan is Merge,
    ensures
        merge_audio,
        exists|i: int|
            0 <= i < formats.len() && (#[trigger] formats[i]).itag == itag && !is_audio(formats[i]),
{
    let itags = format_itags(formats);
    lemma_first_index_is_first(itags, itag);
    let i = first_index(itags, itag)->0;
    assert(itags[i] == formats[i].itag);
}

/// What can be merged with pictures: whether it has sound only, its type and its bit rate.
pub struct Candidate {
    pub sound: bool,
    pub mime: Seq<char>,
    pub rate: u32,
}

/// Whether `k` is the last of those with the highest bit rate among the sound whose type contains
/// `word`.
pub open spec fn is_best_with(list: Seq<Candidate>, word: Seq<char>, k: int) -> bool {
    &&& 0 <= k < list.len()
    &&& list[k].sound && contains(list[k].mime, word)
    &&& forall|j: int|
        0 <= j < list.len() && (#[trigger] list[j]).sound && contains(list[j].mime, word)
            ==> list[j].rate <= list[k].rate && (j > k ==> list[j].rate < list[k].rate)
}

/// Whether there is sound whose type contains `word`.
pub open spec fn some_with(list: Seq<Candidate>, word: Seq<char>) -> bool {
    exists|j: int|
        0 <= j < list.len() && (#[trigger] list[j]).sound && contains(list[j].mime, word)
}

/// Whether `k` is the best sound for pictures of the type `pictures`: for MP4 the best MP4 sound,
/// for all other pictures the best WebM sound, and where there is none of that the best of all.
pub open spec fn is_right_sound(list: Seq<Candidate>, pictures: Seq<char>, k: int) -> bool {
    if contains(pictures, "mp4"@) {
        if some_with(list, "mp4"@) {
            is_best_with(list, "mp4"@, k)
        } else {
            is_best_with(list, Seq::empty(), k)
        }
    } else if some_with(list, "webm"@) {
        is_best_with(list, "webm"@, k)
    } else {
        is_best_with(list, Seq::empty(), k)
    }
}

/// The formats of a description as candidates.
pub open spec fn format_candidates(formats: Seq<InnertubeFormatView>) -> Seq<Candidate> {
    formats.map_values(
        |f: InnertubeFormatView|
            Candidate { sound: f.audio_quality is Some, mime: f.mime_type, rate: f.bitrate },
    )
}

/// The streams with sound only as candidates.
pub open spec fn stream_candidates(streams: Seq<AudioStreamView>) -> Seq<Candidate> {
    streams.map_values(
        |s: AudioStreamView| Candidate { sound: true, mime: s.mime, rate: s.bitrate },
    )
}

proof fn lemma_contains_nothing(text: Seq<char>)
    ensures
        contains(text, Seq::empty()),
{
    assert(text.subrange(0, 0) =~= Seq::<char>::empty());
    assert(occurs_at(text, Seq::empty(), 0));
}

proof fn lemma_pick_is_right(
    list: Seq<Candidate>,
    fitting: Seq<Option<u32>>,
    any: Seq<Option<u32>>,
    word: Seq<char>,
)
    requires
        fitting.len() == list.len(),
        any.len() == list.len(),
        forall|j: int|
            0 <= j < list.len() ==> (#[trigger] fitting[j]) == if list[j].sound && contains(
                list[j].mime,
                word,
            ) {
                Some(list[j].rate)
            } else {
                None
            },
        forall|j: int|
            0 <= j < list.len() ==> (#[trigger] any[j]) == if list[j].sound {
                Some(list[j].rate)
            } else {
                None
            },
    ensures
        match best_sound(fitting, any) {
            Some(k) => if some_with(list, word) {
                is_best_with(list, word, k)
            } else {
                is_best_with(list, Seq::empty(), k)
            },
            None => forall|j: int| 0 <= j < list.len() ==> !(#[trigger] list[j]).sound,
        },
{
    if some_with(list, word) {
        let j = choose|j: int|
            0 <= j < list.len() && (#[trigger] list[j]).sound && contains(list[j].mime, word);
        assert(fitting[j] is Some);
        lemma_last_largest_exists(fitting);
        let k = last_largest(fitting)->0;
        assert(fitting[k] is Some);
        assert forall|j: int|
            0 <= j < list.len() && (#[trigger] list[j]).sound && contains(
                list[j].mime,
                word,
            ) implies list[j].rate <= list[k].rate && (j > k ==> list[j].rate < list[k].rate) by {
            assert(fitting[j] is Some);
        }
    } else {
        assert forall|j: int| 0 <= j < list.len() implies !((#[trigger] fitting[j]) is Some) by {
            if fitting[j] is Some {
                assert(list[j].sound && contains(list[j].mime, word));
            }
        }
        assert(!has_key(fitting));
        if has_key(any) {
            lemma_last_largest_exists(any);
            let k = last_largest(any)->0;
            assert(any[k] is Some);
            lemma_contains_nothing(list[k].mime);
            assert forall|j: int|
                0 <= j < list.len() && (#[trigger] list[j]).sound && contains(
                    list[j].mime,
                    Seq::empty(),
                ) implies list[j].rate <= list[k].rate && (j > k ==> list[j].rate
                < list[k].rate) by {
                assert(any[j] is Some);
            }
        } else {
            assert forall|j: int| 0 <= j < list.len() implies !(#[trigger] list[j]).sound by {
                assert(!(any[j] is Some));
            }
        }
    }
}

proof fn lemma_stream_is_right(streams: Seq<AudioStreamView>, pictures: Seq<char>)
    ensures
        match stream_for(streams, pictures) {
            Some(k) => is_right_sound(stream_candidates(streams), pictures, k),
            None => streams.len() == 0,
        },
{
    let list = stream_candidates(streams);
    let word = if contains(pictures, "mp4"@) {
        "mp4"@
    } else {
        "webm"@
    };
    lemma_pick_is_right(list, fitting_stream_rates(streams, pictures), stream_rates(streams), word);
    if stream_for(streams, pictures) is None && streams.len() > 0 {
        assert(!list[0].sound);
    }
}

proof fn lemma_format_is_right(formats: Seq<InnertubeFormatView>, pictures: Seq<char>)
    ensures
        match sound_for(formats, pictures) {
            Some(k) => is_right_sound(format_candidates(formats), pictures, k),
            None => forall|j: int|
                0 <= j < formats.len() ==> (#[trigger] formats[j]).audio_quality is None,
        },
{
    let list = format_candidates(formats);
    let word = if contains(pictures, "mp4"@) {
        "mp4"@
    } else {
        "webm"@
    };
    lemma_pick_is_right(list, fitting_sound_rates(formats, pictures), sound_rates(formats), word);
    if sound_for(formats, pictures) is None {
        assert forall|j: int| 0 <= j < formats.len() implies (
        #[trigger] formats[j]).audio_quality is None by {
            assert(!list[j].sound);
        }
    }
}

/// The first stream with pictures and sound that has the number asked for is downloaded as it is,
/// whether or not sound is to be merged.
pub proof fn lemma_whole_stream_is_taken(
    player: VideoPlayerView,
    itag: u32,
    format_id: Seq<char>,
    merge_audio: bool,
    i: int,
)
    requires
        0 <= i < player.video_streams.len(),
        player.video_streams[i].itag == itag,
        forall|j: int| 0 <= j < i ==> (#[trigger] player.video_streams[j]).itag != itag,
    ensures
        stream_plan(player, itag, format_id, merge_audio) == Ok::<DownloadPlanView, ErrorView>(
            DownloadPlanView::Direct {
                url: player.video_streams[i].url,
                mime: player.video_streams[i].mime,
            },
        ),
{
    lemma_first_is(video_itags(player.video_streams), itag, i);
}

/// Where no stream with pictures and sound has the number asked for, the first one with pictures
/// only that has it is downloaded: as it is, or merged with the right sound where that is asked
/// for. Without any sound there is nothing to merge.
pub proof fn lemma_silent_stream_is_taken(
    player: VideoPlayerView,
    itag: u32,
    format_id: Seq<char>,
    i: int,
)
    requires
        forall|j: int|
            0 <= j < player.video_streams.len() ==> (#[trigger] player.video_streams[j]).itag
                != itag,
        0 <= i < player.video_only_streams.len(),
        player.video_only_streams[i].itag == itag,
        forall|j: int| 0 <= j < i ==> (#[trigger] player.video_only_streams[j]).itag != itag,
    ensures
        ({
            let stream = player.video_only_streams[i];
            let sounds = player.audio_streams;
            &&& stream_plan(player, itag, format_id, false) == Ok::<DownloadPlanView, ErrorView>(
                DownloadPlanView::Direct { url: stream.url, mime: stream.mime },
            )
            &&& sounds.len() == 0 ==> stream_plan(player, itag, format_id, true) == Err::<
                DownloadPlanView,
                ErrorView,
            >(ErrorView::DownloadFailed("no audio for merge"@))
            &&& sounds.len() > 0 ==> exists|k: int|
                #[trigger] is_right_sound(stream_candidates(sounds), stream.mime, k) && stream_plan(
                    player,
                    itag,
                    format_id,
                    true,
                ) == Ok::<DownloadPlanView, ErrorView>(
                    DownloadPlanView::Merge {
                        video_url: stream.url,
                        audio_url: sounds[k].url,
                        mime: stream.mime,
                    },
                )
        }),
{
    let itags = video_itags(player.video_streams);
    lemma_none_is(itags, itag);
    lemma_first_is(video_itags(player.video_only_streams), itag, i);
    lemma_stream_is_right(player.audio_streams, player.video_only_streams[i].mime);
    if player.audio_streams.len() > 0 {
        let k = stream_for(player.audio_streams, player.video_only_streams[i].mime)->0;
        assert(is_right_sound(
            stream_candidates(player.audio_streams),
            player.video_only_streams[i].mime,
            k,
        ));
    }
}

/// Where no stream with pictures has the number asked for, the first one with sound only that has
/// it is downloaded as it is.
pub proof fn lemma_sound_stream_is_taken(
    player: VideoPlayerView,
    itag: u32,
    format_id: Seq<char>,
    merge_audio: bool,
    i: int,
)
    requires
        forall|j: int|
            0 <= j < player.video_streams.len() ==> (#[trigger] player.video_streams[j]).itag
                != itag,
        forall|j: int|
            0 <= j < player.video_only_streams.len() ==> (
            #[trigger] player.video_only_streams[j]).itag != itag,
        0 <= i < player.audio_streams.len(),
        player.audio_streams[i].itag == itag,
        forall|j: int| 0 <= j < i ==> (#[trigger] player.audio_streams[j]).itag != itag,
    ensures
        stream_plan(player, itag, format_id, merge_audio) == Ok::<DownloadPlanView, ErrorView>(
            DownloadPlanView::Direct {
                url: player.audio_streams[i].url,
                mime: player.audio_streams[i].mime,
            },
        ),
{
    lemma_none_is(video_itags(player.video_streams), itag);
    lemma_none_is(video_itags(player.video_only_streams), itag);
    lemma_first_is(audio_itags(player.audio_streams), itag, i);
}

/// Where no stream has the number asked for, nothing is found, and the error names the format as it
/// was asked for.
pub proof fn lemma_missing_stream_is_not_found(
    player: VideoPlayerView,
    itag: u32,
    format_id: Seq<char>,
    merge_audio: bool,
)
    requires
        forall|j: int|
            0 <= j < player.video_streams.len() ==> (#[trigger] player.video_streams[j]).itag
                != itag,
        forall|j: int|
            0 <= j < player.video_only_streams.len() ==> (
            #[trigger] player.video_only_streams[j]).itag != itag,
        forall|j: int|
            0 <= j < player.audio_streams.len() ==> (#[trigger] player.audio_streams[j]).itag
                != itag,
    ensures
        stream_plan(player, itag, format_id, merge_audio) == Err::<DownloadPlanView, ErrorView>(
            ErrorView::NotFound("format_id "@ + format_id + " not found in player response"@),
        ),
{
    lemma_none_is(video_itags(player.video_streams), itag);
    lemma_none_is(video_itags(player.video_only_streams), itag);
    lemma_none_is(audio_itags(player.audio_streams), itag);
}

/// The first format of a description that has the number asked for is downloaded: as it is where it
/// has sound only or nothing is to be merged, and else merged with the right sound. A format or a
/// sound without an address is an error, and so is it where there is no sound.
pub proof fn lemma_described_format_is_taken(
    formats: Seq<InnertubeFormatView>,
    itag: u32,
    i: int,
)
    requires
        0 <= i < formats.len(),
        formats[i].itag == itag,
        forall|j: int| 0 <= j < i ==> (#[trigger] formats[j]).itag != itag,
    ensures
        ({
            let format = formats[i];
            let alone = described_plan(formats, itag, false);
            let merged = described_plan(formats, itag, true);
            let direct = Ok::<Option<DownloadPlanView>, ErrorView>(
                Some(DownloadPlanView::Direct { url: format.url->0, mime: format.mime_type }),
            );
            let failed = |text: Seq<char>|
                Err::<Option<DownloadPlanView>, ErrorView>(ErrorView::DownloadFailed(text));
            &&& format.url is None ==> alone == failed("format has no URL"@) && merged == failed(
                "format has no URL"@,
            )
            &&& format.url is Some ==> alone == direct
            &&& format.url is Some && format.audio_quality is Some ==> merged == direct
            &&& format.url is Some && format.audio_quality is None && (forall|j: int|
                0 <= j < formats.len() ==> (#[trigger] formats[j]).audio_quality is None) ==> merged
                == failed("no audio for merge"@)
            &&& format.url is Some && format.audio_quality is None && (exists|j: int|
                0 <= j < formats.len() && (#[trigger] formats[j]).audio_quality is Some) ==> exists|
                k: int,
            |
                #[trigger] is_right_sound(format_candidates(formats), format.mime_type, k)
                    && merged == match formats[k].url {
                    Some(audio_url) => Ok::<Option<DownloadPlanView>, ErrorView>(
                        Some(
                            DownloadPlanView::Merge {
                                video_url: format.url->0,
                                audio_url,
                                mime: format.mime_type,
                            },
                        ),
                    ),
                    None => failed("audio has no URL"@),
                }
        }),
{
    lemma_first_is(format_itags(formats), itag, i);
    lemma_format_is_right(formats, formats[i].mime_type);
    let picked = sound_for(formats, formats[i].mime_type);
    if picked is Some {
        let k = picked->0;
        assert(is_right_sound(format_candidates(formats), formats[i].mime_type, k));
        assert(format_candidates(formats)[k].sound);
    }
}

/// Where no format of a description has the number asked for, nothing is decided.
pub proof fn lemma_missing_format_is_left_open(
    formats: Seq<InnertubeFormatView>,
    itag: u32,
    merge_audio: bool,
)
    requires
        forall|j: int| 0 <= j < formats.len() ==> (#[trigger] formats[j]).itag != itag,
    ensures
        described_plan(formats, itag, merge_audio) == Ok::<Option<DownloadPlanView>, ErrorView>(
            None,
        ),
{
    lemma_none_is(format_itags(formats), itag);
}

proof fn lemma_first_is(itags: Seq<u32>, itag: u32, i: int)
    requires
        0 <= i < itags.len(),
        itags[i] == itag,
        forall|j: int| 0 <= j < i ==> itags[j] != itag,
    ensures
        first_index(itags, itag) == Some(i),
{
    lemma_first_index_is_first(itags, itag);
    assert(itags.contains(itag));
}

proof fn lemma_none_is(itags: Seq<u32>, itag: u32)
    requires
        forall|j: int| 0 <= j < itags.len() ==> itags[j] != itag,
    ensures
        first_index(itags, itag) is None,
{
    lemma_first_index_is_first(itags, itag);
}

/// Adding tokens keeps which streams are downloaded: an address without a token that was made for
/// it stays as it is, and one with such a token gets that token and no other.
pub proof fn lemma_tokens_keep_streams(
    url: Seq<char>,
    audio_url: Seq<char>,
    mime: Seq<char>,
    pot: Seq<char>,
    audio_pot: Seq<char>,
)
    ensures
        ({
            let direct = DownloadPlanView::Direct { url, mime };
            let merge = DownloadPlanView::Merge { video_url: url, audio_url, mime };
            &&& plan_with_tokens(direct, None, Some(audio_pot)) == direct
            &&& plan_with_tokens(merge, None, None) == merge
            &&& plan_with_tokens(direct, Some(pot), None) == (DownloadPlanView::Direct {
                url: with_token(url, pot),
                mime,
            })
            &&& plan_with_tokens(merge, Some(pot), None) == (DownloadPlanView::Merge {
                video_url: with_token(url, pot),
                audio_url,
                mime,
            })
            &&& plan_with_tokens(direct, Some(pot), Some(audio_pot)) == (DownloadPlanView::Direct {
                url: with_token(url, pot),
                mime,
            })
            &&& plan_with_tokens(merge, None, Some(audio_pot)) == (DownloadPlanView::Merge {
                video_url: url,
                audio_url: with_token(audio_url, audio_pot),
                mime,
            })
            &&& plan_with_tokens(merge, Some(pot), Some(audio_pot)) == (DownloadPlanView::Merge {
                video_url: with_token(url, pot),
                audio_url: with_token(audio_url, audio_pot),
                mime,
            })
        }),
{
}

/// A token is made for an address exactly where it has none and the visitor is known.
pub proof fn lemma_token_wanted(url: Seq<char>, visitor_data: Seq<char>)
    ensures
        wants_token(url, visitor_data) <==> !contains(url, "pot="@) && visitor_data.len() > 0,
{
}

} // verus!
