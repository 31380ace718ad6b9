use youtubeopen::backends::PureRustBackend;
use youtubeopen::innertube::{InnertubeFormat, InnertubePlayer, InnertubeStreamingData};
use youtubeopen::plans::{
    clients_failed, described_or_clients, known_visitor, list_audio_itags, list_rates, list_video_itags, needs_token,
    plan_from_innertube, plan_from_player, DownloadPlan,
};
use youtubeopen::player::{AudioCodec, AudioStream, VideoCodec, VideoPlayer, VideoStream};
use youtubeopen::types::BackendError;

fn picture(itag: u32, mime: &str) -> InnertubeFormat {
    InnertubeFormat {
        itag,
        url: Some(format!("u{}", itag)),
        mime_type: mime.to_string(),
        bitrate: 5_000_000,
        height: None,
        quality_label: None,
        fps: None,
        content_length: None,
        audio_quality: None,
    }
}

fn sound(itag: u32, mime: &str, bitrate: u32) -> InnertubeFormat {
    let mut format = picture(itag, mime);
    format.bitrate = bitrate;
    format.audio_quality = Some("x".to_string());
    format
}

fn described(formats: Vec<InnertubeFormat>) -> InnertubePlayer {
    InnertubePlayer {
        streaming_data: Some(InnertubeStreamingData {
            formats: None,
            adaptive_formats: Some(formats),
        }),
        video_details: None,
        visitor_data: None,
    }
}

fn direct(plan: DownloadPlan) -> (String, String) {
    match plan {
        DownloadPlan::Direct { url, mime } => (url, mime),
        DownloadPlan::Merge { .. } => panic!("nothing is to be merged"),
    }
}

fn merged(plan: DownloadPlan) -> (String, String, String) {
    match plan {
        DownloadPlan::Merge { video_url, audio_url, mime } => (video_url, audio_url, mime),
        DownloadPlan::Direct { .. } => panic!("streams are to be merged"),
    }
}

fn failure(error: BackendError) -> String {
    match error {
        BackendError::DownloadFailed(text) => text,
        _ => panic!("another kind of error"),
    }
}

fn owned(a: &str, b: &str) -> (String, String) {
    (a.to_string(), b.to_string())
}

#[test]
fn a_missing_format_leaves_it_open() {
    assert!(plan_from_innertube(&described(vec![]), 22, true).unwrap().is_none());
    let player = described(vec![picture(18, "video/mp4")]);
    assert!(plan_from_innertube(&player, 22, true).unwrap().is_none());
}

#[test]
fn sound_is_downloaded_as_it_is() {
    let player = described(vec![picture(1, "video/mp4"), sound(140, "audio/mp4", 9)]);
    let plan = plan_from_innertube(&player, 140, true).unwrap().unwrap();
    assert_eq!(direct(plan), owned("u140", "audio/mp4"));
}

#[test]
fn pictures_are_merged_on_request() {
    let player = described(vec![picture(1, "video/mp4"), sound(140, "audio/mp4", 9)]);
    let plan = plan_from_innertube(&player, 1, false).unwrap().unwrap();
    assert_eq!(direct(plan), owned("u1", "video/mp4"));
    let plan = plan_from_innertube(&player, 1, true).unwrap().unwrap();
    assert_eq!(
        merged(plan),
        ("u1".to_string(), "u140".to_string(), "video/mp4".to_string())
    );
}

#[test]
fn sound_that_fits_is_preferred() {
    let player = described(vec![
        picture(1, "video/mp4"),
        picture(2, "video/webm"),
        sound(10, "audio/webm", 300),
        sound(11, "audio/mp4", 100),
        sound(12, "audio/mp4", 200),
        sound(13, "audio/mp4", 200),
    ]);
    let plan = plan_from_innertube(&player, 1, true).unwrap().unwrap();
    assert_eq!(merged(plan).1, "u13");
    let plan = plan_from_innertube(&player, 2, true).unwrap().unwrap();
    assert_eq!(merged(plan).1, "u10");
}

#[test]
fn other_sound_is_better_than_none() {
    let player = described(vec![
        picture(1, "video/mp4"),
        sound(10, "audio/webm", 300),
        sound(11, "audio/webm", 400),
        sound(12, "audio/webm", 100),
    ]);
    let plan = plan_from_innertube(&player, 1, true).unwrap().unwrap();
    assert_eq!(merged(plan).1, "u11");
}

#[test]
fn the_first_of_equal_numbers_is_taken() {
    let mut second = picture(1, "video/webm");
    second.url = Some("second".to_string());
    let player = described(vec![picture(1, "video/mp4"), second]);
    let plan = plan_from_innertube(&player, 1, false).unwrap().unwrap();
    assert_eq!(direct(plan), owned("u1", "video/mp4"));
}

#[test]
fn formats_without_addresses_are_errors() {
    let mut bare = picture(1, "video/mp4");
    bare.url = None;
    let error = plan_from_innertube(&described(vec![bare]), 1, true).unwrap_err();
    assert_eq!(failure(error), "format has no URL");

    let silent = described(vec![picture(1, "video/mp4")]);
    let error = plan_from_innertube(&silent, 1, true).unwrap_err();
    assert_eq!(failure(error), "no audio for merge");

    let mut bare = sound(140, "audio/mp4", 9);
    bare.url = None;
    let player = described(vec![picture(1, "video/mp4"), bare]);
    let error = plan_from_innertube(&player, 1, true).unwrap_err();
    assert_eq!(failure(error), "audio has no URL");
    assert!(plan_from_innertube(&player, 1, false).is_ok());
}

fn stream(itag: u32, mime: &str, mark: &str) -> VideoStream {
    VideoStream {
        url: format!("{}{}", mark, itag),
        itag,
        size: None,
        height: 1,
        fps: 1,
        quality: String::new(),
        mime: mime.to_string(),
        codec: VideoCodec::Unknown,
    }
}

fn tone(itag: u32, mime: &str, bitrate: u32) -> AudioStream {
    AudioStream {
        url: format!("a{}", itag),
        itag,
        bitrate,
        size: 1,
        mime: mime.to_string(),
        codec: AudioCodec::Opus,
    }
}

fn streams() -> VideoPlayer {
    VideoPlayer {
        name: None,
        duration: 0,
        thumbnails: vec![],
        video_streams: vec![stream(18, "video/mp4", "w")],
        video_only_streams: vec![
            stream(18, "video/mp4", "s"),
            stream(137, "video/mp4", "s"),
            stream(248, "video/webm", "s"),
        ],
        audio_streams: vec![
            tone(140, "audio/mp4", 128),
            tone(251, "audio/webm", 160),
            tone(139, "audio/mp4", 48),
            tone(137, "audio/mp4", 1),
        ],
        visitor_data: None,
        client_type: "Tv".to_string(),
    }
}

#[test]
fn streams_with_pictures_and_sound_come_first() {
    let plan = plan_from_player(&streams(), 18, "18", true).unwrap();
    assert_eq!(direct(plan), owned("w18", "video/mp4"));
}

#[test]
fn silent_streams_are_merged_on_request() {
    let plan = plan_from_player(&streams(), 137, "137", false).unwrap();
    assert_eq!(direct(plan), owned("s137", "video/mp4"));
    let plan = plan_from_player(&streams(), 137, "137", true).unwrap();
    assert_eq!(
        merged(plan),
        ("s137".to_string(), "a140".to_string(), "video/mp4".to_string())
    );
    let plan = plan_from_player(&streams(), 248, "248", true).unwrap();
    assert_eq!(merged(plan).1, "a251");
}

#[test]
fn streams_with_sound_come_last() {
    let plan = plan_from_player(&streams(), 251, "251", true).unwrap();
    assert_eq!(direct(plan), owned("a251", "audio/webm"));
}

#[test]
fn merging_falls_back_on_any_sound() {
    let mut player = streams();
    player.audio_streams = vec![tone(250, "audio/webm", 70), tone(251, "audio/webm", 70)];
    let plan = plan_from_player(&player, 137, "137", true).unwrap();
    assert_eq!(merged(plan).1, "a251");
    player.audio_streams.clear();
    let error = plan_from_player(&player, 137, "137", true).unwrap_err();
    assert_eq!(failure(error), "no audio for merge");
}

#[test]
fn an_unknown_number_is_not_found() {
    match plan_from_player(&streams(), 7, "007", true) {
        Err(BackendError::NotFound(text)) => {
            assert_eq!(text, "format_id 007 not found in player response")
        }
        _ => panic!("there is no such stream"),
    }
}

#[test]
fn numbers_and_rates_are_listed() {
    let player = streams();
    assert_eq!(list_video_itags(&player.video_only_streams), vec![18, 137, 248]);
    assert_eq!(list_audio_itags(&player.audio_streams), vec![140, 251, 139, 137]);
    assert_eq!(list_rates(&player.audio_streams), vec![Some(128), Some(160), Some(48), Some(1)]);
}

#[test]
fn tokens_are_made_for_known_visitors() {
    assert!(needs_token("https://cdn", "visitor"));
    assert!(!needs_token("https://cdn", ""));
    assert!(!needs_token("https://cdn?pot=1", "visitor"));
    assert_eq!(known_visitor(&None), None);
    assert_eq!(known_visitor(&Some(String::new())), None);
    assert_eq!(known_visitor(&Some("v".to_string())), Some("v".to_string()));
}

#[test]
fn requests_name_a_video_and_a_number() {
    let backend = PureRustBackend::new(false, false);
    assert_eq!(
        backend.download_request("https://youtu.be/abc", "22").unwrap(),
        ("abc".to_string(), 22)
    );
    match backend.download_request("abc", "x") {
        Err(BackendError::InvalidUrl(text)) => assert_eq!(text, "invalid youtube url"),
        _ => panic!("no video is named"),
    }
    for id in ["x", "", "4294967296", "-1"] {
        match backend.download_request("https://youtu.be/abc", id) {
            Err(BackendError::InvalidUrl(text)) => {
                assert_eq!(text, format!("invalid format_id: {}", id))
            }
            _ => panic!("no number is named"),
        }
    }
    assert_eq!(backend.info_request(" https://youtu.be/abc").unwrap(), "abc");
    let info = backend.info_request("abc").unwrap_err();
    assert_eq!(info.error.as_deref(), Some("invalid youtube url"));
    assert!(info.title.is_empty() && info.formats.is_empty());
}

#[test]
fn tokens_are_added_where_they_were_made() {
    let merge = || DownloadPlan::Merge {
        video_url: "v".to_string(),
        audio_url: "a?pot=old".to_string(),
        mime: "video/mp4".to_string(),
    };
    assert_eq!(merge().missing_tokens("visitor"), (true, false));
    assert_eq!(merge().missing_tokens(""), (false, false));
    let plan = merge().with_tokens(Some("T".to_string()), None);
    assert_eq!(
        merged(plan),
        ("v?pot=T".to_string(), "a?pot=old".to_string(), "video/mp4".to_string())
    );
    let plan = merge().with_tokens(None, Some("T".to_string()));
    assert_eq!(merged(plan).0, "v");
    let single = DownloadPlan::Direct { url: "u?x".to_string(), mime: "m".to_string() };
    assert_eq!(single.missing_tokens("visitor"), (true, false));
    let plan = single.with_tokens(Some("T".to_string()), Some("U".to_string()));
    assert_eq!(direct(plan), owned("u?x&pot=T", "m"));
}

#[test]
fn without_a_description_the_clients_are_asked() {
    assert!(described_or_clients(&None, 22, true).unwrap().is_none());
    let player = Some(described(vec![picture(1, "video/mp4")]));
    assert!(described_or_clients(&player, 22, true).unwrap().is_none());
    let plan = described_or_clients(&player, 1, false).unwrap().unwrap();
    assert_eq!(direct(plan), owned("u1", "video/mp4"));
    let error = described_or_clients(&player, 1, true).unwrap_err();
    assert_eq!(failure(error), "no audio for merge");
    assert_eq!(failure(clients_failed("gone")), "player: gone");
}

#[test]
fn information_from_whatever_was_found() {
    let backend = PureRustBackend::new(false, false);
    let url = "https://youtu.be/abc";
    let description = Some(described(vec![picture(1, "video/mp4")]));
    let info = backend.get_video_info("abc", &None, None).unwrap().unwrap();
    assert_eq!(info.error.as_deref(), Some("invalid youtube url"));
    let info = backend.get_video_info(url, &description, None).unwrap().unwrap();
    assert_eq!(info.formats.len(), 1);
    assert!(backend.get_video_info(url, &None, None).is_none());
    let info = backend.get_video_info(url, &None, Some(Ok(streams()))).unwrap().unwrap();
    assert_eq!(info.formats.len(), 8);
    match backend.get_video_info(url, &None, Some(Err("gone".to_string()))) {
        Some(Err(BackendError::ExtractionFailed(text))) => assert_eq!(text, "player: gone"),
        _ => panic!("no client found the streams"),
    }
}
