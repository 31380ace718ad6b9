//! What the server answers to requests.

use crate::backends::{BackendRef, BackendType, PureRustBackend, YtDlpBackend};
use crate::best::{
    find_first, find_last_largest, first_index, last_largest, lemma_first_index_is_first,
    lemma_last_largest_is,
};
use crate::decimal::{decimal, decimal_text, lemma_decimal_reads_back, parse_u32, parsed};
use crate::plans::{
    audio_itags, list_audio_itags, list_rates, list_video_itags, stream_rates, video_itags,
};
use crate::player::{VideoPlayer, VideoPlayerView, VideoStreamView};
use crate::text::{concat2, concat3, contains, copy_text, same_text, text_of, text_or, trim};
use crate::types::{
    failed_info, names_error, BackendError, DownloadOutput, HealthStatus, HealthView, VideoInfo,
};
use crate::urls::{extract_video_id, has_token, url_has_token, video_id};
use vstd::prelude::*;
use vstd::string::*;

verus! {

/// The backends of the server.
pub struct AppState {
    pub ytdlp: YtDlpBackend,
    pub purerust: PureRustBackend,
}

/// The parameters of a request.
#[derive(Debug)]
pub struct Parameters {
    pub backend: Option<String>,
    pub url: Option<String>,
    pub format_id: Option<String>,
    pub title: Option<String>,
    pub merge_audio: Option<String>,
}

/// The model of the parameters of a request.
pub struct ParametersView {
    pub backend: Option<Seq<char>>,
    pub url: Option<Seq<char>>,
    pub format_id: Option<Seq<char>>,
    pub title: Option<Seq<char>>,
    pub merge_audio: Option<Seq<char>>,
}

impl View for Parameters {
    type V = ParametersView;

    open spec fn view(&self) -> ParametersView {
        ParametersView {
            backend: text_of(self.backend),
            url: text_of(self.url),
            format_id: text_of(self.format_id),
            title: text_of(self.title),
            merge_audio: text_of(self.merge_audio),
        }
    }
}

/// Picks the backend that a request asks for; one that asks for none gets the downloader.
pub fn resolve_backend<'a>(state: &'a AppState, params: &Parameters) -> (backend: BackendRef<'a>)
    ensures
        backend == if params@.backend == Some("purerust"@) {
            BackendRef::PureRust(&state.purerust)
        } else {
            BackendRef::YtDlp(&state.ytdlp)
        },
{
    match &params.backend {
        Some(name) => BackendType::from_str(name.as_str()).backend(&state.ytdlp, &state.purerust),
        None => {
            proof {
                reveal_strlit("ytdlp");
                reveal_strlit("purerust");
                assert("ytdlp"@.len() != "purerust"@.len());
            }
            BackendType::from_str("ytdlp").backend(&state.ytdlp, &state.purerust)
        },
    }
}

/// The answer to the question whether the backends can be used.
#[derive(Debug)]
pub enum HealthAnswer {
    YtDlp(HealthStatus),
    PureRust(HealthStatus),
    All { ytdlp: HealthStatus, purerust: HealthStatus },
}

/// The model of that answer.
pub enum HealthAnswerView {
    YtDlp(HealthView),
    PureRust(HealthView),
    All { ytdlp: HealthView, purerust: HealthView },
}

impl View for HealthAnswer {
    type V = HealthAnswerView;

    open spec fn view(&self) -> HealthAnswerView {
        match self {
            HealthAnswer::YtDlp(status) => HealthAnswerView::YtDlp(status@),
            HealthAnswer::PureRust(status) => HealthAnswerView::PureRust(status@),
            HealthAnswer::All { ytdlp, purerust } => HealthAnswerView::All {
                ytdlp: ytdlp@,
                purerust: purerust@,
            },
        }
    }
}

/// Answers whether the backend that a request names can be used, or whether each can where it
/// names none of them.
pub fn health_answer(params: &Parameters, ytdlp: HealthStatus, purerust: HealthStatus) -> (answer:
    HealthAnswer)
    ensures
        answer@ == if params@.backend == Some("ytdlp"@) {
            HealthAnswerView::YtDlp(ytdlp@)
        } else if params@.backend == Some("purerust"@) {
            HealthAnswerView::PureRust(purerust@)
        } else {
            HealthAnswerView::All { ytdlp: ytdlp@, purerust: purerust@ }
        },
{
    match &params.backend {
        Some(name) => if same_text(name.as_str(), "ytdlp") {
            HealthAnswer::YtDlp(ytdlp)
        } else if same_text(name.as_str(), "purerust") {
            HealthAnswer::PureRust(purerust)
        } else {
            HealthAnswer::All { ytdlp, purerust }
        },
        None => HealthAnswer::All { ytdlp, purerust },
    }
}

/// The address that a request for information names, or the answer where it names none.
pub fn info_request(params: &Parameters) -> (request: Result<&str, VideoInfo>)
    ensures
        match request {
            Ok(url) => params@.url == Some(url@),
            Err(info) => params@.url is None && info@ == failed_info("missing url parameter"@),
        },
{
    match &params.url {
        Some(url) => Ok(url.as_str()),
        None => Err(VideoInfo::failed("missing url parameter".to_owned())),
    }
}

/// Answers a request for information with what the backend has found out, or with its error.
pub fn info_answer(result: Result<VideoInfo, BackendError>) -> (info: VideoInfo)
    ensures
        match result {
            Ok(found) => info@ == found@,
            Err(error) => exists|message: Seq<char>|
                names_error(error@, message) && info@ == #[trigger] failed_info(message),
        },
{
    match result {
        Ok(found) => found,
        Err(error) => {
            let message = error.message();
            let ghost text = message@;
            assert(names_error(error@, text));
            VideoInfo::failed(message)
        },
    }
}

/// A request for a download.
#[derive(Debug)]
pub struct DownloadRequest {
    pub url: String,
    pub format_id: String,
    pub title: String,
    pub merge_audio: bool,
}

/// The model of a request for a download.
pub struct DownloadRequestView {
    pub url: Seq<char>,
    pub format_id: Seq<char>,
    pub title: Seq<char>,
    pub merge_audio: bool,
}

impl View for DownloadRequest {
    type V = DownloadRequestView;

    open spec fn view(&self) -> DownloadRequestView {
        DownloadRequestView {
            url: self.url@,
            format_id: self.format_id@,
            title: self.title@,
            merge_audio: self.merge_audio,
        }
    }
}

/// An answer that refuses a request.
#[derive(Debug)]
pub struct Refusal {
    pub status: u16,
    pub text: String,
}

/// The model of an answer that refuses a request.
pub struct RefusalView {
    pub status: u16,
    pub text: Seq<char>,
}

impl View for Refusal {
    type V = RefusalView;

    open spec fn view(&self) -> RefusalView {
        RefusalView { status: self.status, text: self.text@ }
    }
}

/// Reads a request for a download, or says what it lacks. Sound is merged unless the request says
/// otherwise.
pub fn download_request(params: &Parameters) -> (request: Result<DownloadRequest, Refusal>)
    ensures
        match request {
            Ok(wanted) => params@.url is Some && params@.format_id is Some && wanted@ == (
            DownloadRequestView {
                url: params@.url->0,
                format_id: params@.format_id->0,
                title: text_or(params@.title, "video"@),
                merge_audio: params@.merge_audio is None || params@.merge_audio->0 == "true"@,
            }),
            Err(refusal) => if params@.url is None {
                refusal@ == (RefusalView { status: 400, text: "missing url parameter"@ })
            } else {
                params@.format_id is None && refusal@ == (RefusalView {
                    status: 400,
                    text: "missing format_id parameter"@,
                })
            },
        },
{
    let url: String = match &params.url {
        Some(url) => url.as_str().to_owned(),
        None => return Err(Refusal { status: 400, text: "missing url parameter".to_owned() }),
    };
    let format_id: String = match &params.format_id {
        Some(format_id) => format_id.as_str().to_owned(),
        None => {
            return Err(Refusal { status: 400, text: "missing format_id parameter".to_owned() });
        },
    };
    let title: String = match &params.title {
        Some(title) => title.as_str().to_owned(),
        None => "video".to_owned(),
    };
    let merge_audio = match &params.merge_audio {
        Some(answer) => same_text(answer.as_str(), "true"),
        None => true,
    };
    Ok(DownloadRequest { url, format_id, title, merge_audio })
}

/// The header that has a download saved under its name.
pub fn content_disposition(output: &DownloadOutput) -> (header: String)
    ensures
        header@ == "attachment; filename=\""@ + output@.filename + "\""@,
{
    concat3("attachment; filename=\"", output.filename.as_str(), "\"")
}

/// The answer to a download that failed.
pub fn download_failure(error: &BackendError) -> (refusal: Refusal)
    ensures
        refusal@.status == 500,
        exists|message: Seq<char>|
            names_error(error@, message) && refusal@.text == #[trigger] ("download error: "@
                + message),
{
    let message = error.message();
    assert(names_error(error@, message@));
    Refusal { status: 500, text: concat2("download error: ", message.as_str()) }
}

/// The answer to a request that asks how a format would be fetched.
#[derive(Debug)]
pub enum DebugAnswer {
    /// Nothing can be said.
    Error(String),
    /// The format has pictures and sound.
    Whole { url: String, has_pot: bool, client_type: String, visitor_data: Option<String> },
    /// The format has pictures only; beside it stands the sound with the highest bit rate.
    Silent {
        video_url: String,
        video_has_pot: bool,
        audio_url: Option<String>,
        audio_has_pot: Option<bool>,
        client_type: String,
        visitor_data: Option<String>,
    },
    /// No stream with pictures has the number that was asked for.
    Missing {
        error: String,
        client_type: String,
        video_only_itags: Vec<u32>,
        audio_itags: Vec<u32>,
    },
}

/// The model of that answer.
pub enum DebugAnswerView {
    Error(Seq<char>),
    Whole {
        url: Seq<char>,
        has_pot: bool,
        client_type: Seq<char>,
        visitor_data: Option<Seq<char>>,
    },
    Silent {
        video_url: Seq<char>,
        video_has_pot: bool,
        audio_url: Option<Seq<char>>,
        audio_has_pot: Option<bool>,
        client_type: Seq<char>,
        visitor_data: Option<Seq<char>>,
    },
    Missing {
        error: Seq<char>,
        client_type: Seq<char>,
        video_only_itags: Seq<u32>,
        audio_itags: Seq<u32>,
    },
}

impl View for DebugAnswer {
    type V = DebugAnswerView;

    open spec fn view(&self) -> DebugAnswerView {
        match self {
            DebugAnswer::Error(text) => DebugAnswerView::Error(text@),
            DebugAnswer::Whole { url, has_pot, client_type, visitor_data } => {
                DebugAnswerView::Whole {
                    url: url@,
                    has_pot: *has_pot,
                    client_type: client_type@,
                    visitor_data: text_of(*visitor_data),
                }
            },
            DebugAnswer::Silent {
                video_url,
                video_has_pot,
                audio_url,
                audio_has_pot,
                client_type,
                visitor_data,
            } => DebugAnswerView::Silent {
                video_url: video_url@,
                video_has_pot: *video_has_pot,
                audio_url: text_of(*audio_url),
                audio_has_pot: *audio_has_pot,
                client_type: client_type@,
                visitor_data: text_of(*visitor_data),
            },
            DebugAnswer::Missing { error, client_type, video_only_itags, audio_itags } => {
                DebugAnswerView::Missing {
                    error: error@,
                    client_type: client_type@,
                    video_only_itags: video_only_itags@,
                    audio_itags: audio_itags@,
                }
            },
        }
    }
}

/// The number of the format that is asked for; zero where the parameter is no number.
pub open spec fn debug_itag(format_id: Seq<char>) -> nat {
    match parsed(format_id, u32::MAX as nat) {
        Some(itag) => itag,
        None => 0,
    }
}

/// What is said of the format with the number `itag`.
pub open spec fn debug_view(player: VideoPlayerView, itag: u32) -> DebugAnswerView {
    let whole = first_index(video_itags(player.video_streams), itag);
    let silent = first_index(video_itags(player.video_only_streams), itag);
    if whole is Some {
        let stream = player.video_streams[whole->0];
        DebugAnswerView::Whole {
            url: stream.url,
            has_pot: has_token(stream.url),
            client_type: player.client_type,
            visitor_data: player.visitor_data,
        }
    } else if silent is Some {
        let stream = player.video_only_streams[silent->0];
        let sound = last_largest(stream_rates(player.audio_streams));
        DebugAnswerView::Silent {
            video_url: stream.url,
            video_has_pot: has_token(stream.url),
            audio_url: match sound {
                Some(k) => Some(player.audio_streams[k].url),
                None => None,
            },
            audio_has_pot: match sound {
                Some(k) => Some(has_token(player.audio_streams[k].url)),
                None => None,
            },
            client_type: player.client_type,
            visitor_data: player.visitor_data,
        }
    } else {
        DebugAnswerView::Missing {
            error: "itag "@ + decimal(itag as nat) + " not found"@,
            client_type: player.client_type,
            video_only_itags: video_itags(player.video_only_streams),
            audio_itags: audio_itags(player.audio_streams),
        }
    }
}

/// The video and the number of the format that a request asks about, or the answer where it does
/// not say.
pub fn debug_request(params: &Parameters) -> (request: Result<(String, u32), DebugAnswer>)
    ensures
        match request {
            Ok((id, itag)) => params@.url is Some && params@.format_id is Some && video_id(
                trim(params@.url->0),
            ) == Some(id@) && itag == debug_itag(params@.format_id->0),
            Err(answer) => if params@.url is None {
                answer@ == DebugAnswerView::Error("missing url"@)
            } else if params@.format_id is None {
                answer@ == DebugAnswerView::Error("missing format_id"@)
            } else {
                video_id(trim(params@.url->0)) is None && answer@ == DebugAnswerView::Error(
                    "could not get url"@,
                )
            },
        },
{
    let url = match &params.url {
        Some(url) => url.as_str(),
        None => return Err(DebugAnswer::Error("missing url".to_owned())),
    };
    let format_id = match &params.format_id {
        Some(format_id) => format_id.as_str(),
        None => return Err(DebugAnswer::Error("missing format_id".to_owned())),
    };
    match extract_video_id(url) {
        Some(id) => {
            let itag: u32 = match parse_u32(format_id) {
                Some(itag) => itag,
                None => 0,
            };
            Ok((id, itag))
        },
        None => Err(DebugAnswer::Error("could not get url".to_owned())),
    }
}

/// Says how the format with the number `itag` would be fetched.
pub fn debug_answer(player: &VideoPlayer, itag: u32) -> (answer: DebugAnswer)
    ensures
        answer@ == debug_view(player@, itag),
{
    let silent_itags = list_video_itags(&player.video_only_streams);
    let sound_itags = list_audio_itags(&player.audio_streams);
    let client_type: String = player.client_type.as_str().to_owned();
    match find_first(&list_video_itags(&player.video_streams), itag) {
        Some(i) => {
            let url = player.video_streams[i].url.as_str();
            return DebugAnswer::Whole {
                url: url.to_owned(),
                has_pot: url_has_token(url),
                client_type,
                visitor_data: copy_text(&player.visitor_data),
            };
        },
        None => {},
    }
    match find_first(&silent_itags, itag) {
        Some(i) => {
            let url = player.video_only_streams[i].url.as_str();
            let (audio_url, audio_has_pot) = match find_last_largest(
                &list_rates(&player.audio_streams),
            ) {
                Some(k) => {
                    let audio_url = player.audio_streams[k].url.as_str();
                    (Some(audio_url.to_owned()), Some(url_has_token(audio_url)))
                },
                None => (None, None),
            };
            DebugAnswer::Silent {
                video_url: url.to_owned(),
                video_has_pot: url_has_token(url),
                audio_url,
                audio_has_pot,
                client_type,
                visitor_data: copy_text(&player.visitor_data),
            }
        },
        None => DebugAnswer::Missing {
            error: concat3("itag ", decimal_text(itag as u64).as_str(), " not found"),
            client_type,
            video_only_itags: silent_itags,
            audio_itags: sound_itags,
        },
    }
}

/// The name and value of the header that every such answer carries.
pub fn debug_header() -> (header: (&'static str, &'static str))
    ensures
        header.0@ == "X-Debug-Handler"@,
        header.1@ == "HIT"@,
{
    ("X-Debug-Handler", "HIT")
}

/// Says why the streams of a video were not found.
pub fn debug_failure(error: &str) -> (answer: DebugAnswer)
    ensures
        answer@ == DebugAnswerView::Error("player error: "@ + error@),
{
    DebugAnswer::Error(concat2("player error: ", error))
}

/// Of the first stream with pictures and sound that has the number, its address is said, and
/// whether that holds `pot=`.
pub proof fn lemma_debug_whole(player: VideoPlayerView, itag: u32, i: int)
    requires
        0 <= i < player.video_streams.len(),
        player.video_streams[i].itag == itag,
        forall|j: int| 0 <= j < i ==> (#[trigger] player.video_streams[j]).itag != itag,
    ensures
        debug_view(player, itag) matches DebugAnswerView::Whole {
            url,
            has_pot,
            client_type,
            visitor_data,
        } && url == player.video_streams[i].url && has_pot == contains(url, "pot="@) && client_type
            == player.client_type && visitor_data == player.visitor_data,
{
    lemma_number_found(player.video_streams, itag, i);
}

/// The first stream with a number is found under it.
proof fn lemma_number_found(streams: Seq<VideoStreamView>, itag: u32, i: int)
    requires
        0 <= i < streams.len(),
        streams[i].itag == itag,
        forall|j: int| 0 <= j < i ==> (#[trigger] streams[j]).itag != itag,
    ensures
        first_index(video_itags(streams), itag) == Some(i),
{
    let list = video_itags(streams);
    lemma_first_index_is_first(list, itag);
    assert(list[i] == itag);
    assert(list.contains(itag));
    let k = first_index(list, itag)->0;
    assert(list[k] == streams[k].itag);
    if i < k {
        assert(list[i] != itag);
    }
}

/// A number that no stream has is not found.
proof fn lemma_number_missing(streams: Seq<VideoStreamView>, itag: u32)
    requires
        forall|j: int| 0 <= j < streams.len() ==> (#[trigger] streams[j]).itag != itag,
    ensures
        first_index(video_itags(streams), itag) is None,
{
    let list = video_itags(streams);
    lemma_first_index_is_first(list, itag);
    if first_index(list, itag) is Some {
        let k = first_index(list, itag)->0;
        assert(list[k] == streams[k].itag);
    }
}

/// Where no such stream has the number, the same is said of the first stream with pictures only
/// that has it, and of the sound with the highest bit rate, the last of equals. Where there is no
/// sound, nothing is said of it.
pub proof fn lemma_debug_silent(player: VideoPlayerView, itag: u32, i: int, k: int)
    requires
        forall|j: int|
            0 <= j < player.video_streams.len() ==> (#[trigger] player.video_streams[j]).itag
                != itag,
        0 <= i < player.video_only_streams.len(),
        player.video_only_streams[i].itag == itag,
        forall|j: int| 0 <= j < i ==> (#[trigger] player.video_only_streams[j]).itag != itag,
        player.audio_streams.len() > 0 ==> 0 <= k < player.audio_streams.len(),
        forall|j: int|
            0 <= j < player.audio_streams.len() ==> (#[trigger] player.audio_streams[j]).bitrate
                <= player.audio_streams[k].bitrate && (j > k ==> player.audio_streams[j].bitrate
                < player.audio_streams[k].bitrate),
    ensures
        debug_view(player, itag) matches DebugAnswerView::Silent {
            video_url,
            video_has_pot,
            audio_url,
            audio_has_pot,
            client_type,
            visitor_data,
        } && {
            &&& video_url == player.video_only_streams[i].url
            &&& video_has_pot == contains(video_url, "pot="@)
            &&& client_type == player.client_type
            &&& visitor_data == player.visitor_data
            &&& player.audio_streams.len() == 0 ==> audio_url is None && audio_has_pot is None
            &&& player.audio_streams.len() > 0 ==> audio_url == Some(player.audio_streams[k].url)
                && audio_has_pot == Some(contains(player.audio_streams[k].url, "pot="@))
        },
{
    lemma_number_missing(player.video_streams, itag);
    lemma_number_found(player.video_only_streams, itag, i);
    let rates = stream_rates(player.audio_streams);
    if player.audio_streams.len() > 0 {
        assert forall|j: int| 0 <= j < rates.len() && (#[trigger] rates[j]) is Some implies if j
            > k {
            rates[j]->0 < rates[k]->0
        } else {
            rates[j]->0 <= rates[k]->0
        } by {
            assert(rates[j] == Some(player.audio_streams[j].bitrate));
        }
        assert(rates[k] == Some(player.audio_streams[k].bitrate));
        lemma_last_largest_is(rates, k);
    }
}

/// Where no stream with pictures has the number, that is said, and the numbers that there are: of
/// the streams with pictures only and of those with sound only, one by one.
pub proof fn lemma_debug_missing(player: VideoPlayerView, itag: u32)
    requires
        forall|j: int|
            0 <= j < player.video_streams.len() ==> (#[trigger] player.video_streams[j]).itag
                != itag,
        forall|j: int|
            0 <= j < player.video_only_streams.len() ==> (
            #[trigger] player.video_only_streams[j]).itag != itag,
    ensures
        debug_view(player, itag) matches DebugAnswerView::Missing {
            error,
            client_type,
            video_only_itags,
            audio_itags,
        } && {
            &&& error == "itag "@ + decimal(itag as nat) + " not found"@
            &&& client_type == player.client_type
            &&& video_only_itags.len() == player.video_only_streams.len()
            &&& forall|j: int|
                0 <= j < video_only_itags.len() ==> #[trigger] video_only_itags[j]
                    == player.video_only_streams[j].itag
            &&& audio_itags.len() == player.audio_streams.len()
            &&& forall|j: int|
                0 <= j < audio_itags.len() ==> #[trigger] audio_itags[j]
                    == player.audio_streams[j].itag
        },
{
    lemma_number_missing(player.video_streams, itag);
    lemma_number_missing(player.video_only_streams, itag);
}

/// A number is asked for by writing it down; what is no number of 32 bits asks for zero.
pub proof fn lemma_debug_number(itag: u32, other: Seq<char>)
    ensures
        debug_itag(decimal(itag as nat)) == itag,
        parsed(other, u32::MAX as nat) is None ==> debug_itag(other) == 0,
        parsed(other, u32::MAX as nat) is Some ==> debug_itag(other) == parsed(
            other,
            u32::MAX as nat,
        )->0,
{
    lemma_decimal_reads_back(itag as nat, u32::MAX as nat);
}

} // verus!
