use youtubeopen::backends::{BackendRef, BackendType, PureRustBackend, YtDlpBackend};
use youtubeopen::player::{AudioCodec, AudioStream, VideoCodec, VideoPlayer, VideoStream};
use youtubeopen::routes::{
    content_disposition, debug_answer, debug_failure, debug_header, debug_request, download_failure,
    download_request, health_answer, info_answer, info_request, resolve_backend, AppState,
    DebugAnswer, HealthAnswer, Parameters,
};
use youtubeopen::types::{
    io_error_message, BackendError, DownloadOutput, HealthStatus, VideoInfo,
};

fn nothing() -> Parameters {
    Parameters { backend: None, url: None, format_id: None, title: None, merge_audio: None }
}

fn some(text: &str) -> Option<String> {
    Some(text.to_string())
}

fn health(name: &str) -> HealthStatus {
    HealthStatus { backend_name: name.to_string(), available: true, version: None }
}

#[test]
fn backends_go_by_their_names() {
    let state = AppState { ytdlp: YtDlpBackend, purerust: PureRustBackend::new(false, false) };
    let mut params = nothing();
    assert!(matches!(resolve_backend(&state, &params), BackendRef::YtDlp(_)));
    params.backend = some("purerust");
    assert!(matches!(resolve_backend(&state, &params), BackendRef::PureRust(_)));
    for name in ["ytdlp", "PURERUST", ""] {
        params.backend = some(name);
        assert!(matches!(resolve_backend(&state, &params), BackendRef::YtDlp(_)));
    }
    assert!(matches!(BackendType::from_str("purerust"), BackendType::PureRust));
    assert!(matches!(BackendType::from_str("x"), BackendType::YtDlp));
    assert_eq!(state.ytdlp.name(), "yt-dlp + ffmpeg");
    assert_eq!(state.ytdlp.backend_id(), "ytdlp");
    assert_eq!(state.purerust.name(), "Pure Rust (rustypipe)");
    assert_eq!(state.purerust.backend_id(), "purerust");
}

#[test]
fn health_of_one_or_all() {
    let mut params = nothing();
    match health_answer(&params, health("a"), health("b")) {
        HealthAnswer::All { ytdlp, purerust } => {
            assert_eq!(ytdlp.backend_name, "a");
            assert_eq!(purerust.backend_name, "b");
        }
        _ => panic!("no backend is named"),
    }
    params.backend = some("ytdlp");
    match health_answer(&params, health("a"), health("b")) {
        HealthAnswer::YtDlp(status) => assert_eq!(status.backend_name, "a"),
        _ => panic!("one backend is named"),
    }
    params.backend = some("purerust");
    match health_answer(&params, health("a"), health("b")) {
        HealthAnswer::PureRust(status) => assert_eq!(status.backend_name, "b"),
        _ => panic!("one backend is named"),
    }
    params.backend = some("other");
    assert!(matches!(
        health_answer(&params, health("a"), health("b")),
        HealthAnswer::All { .. }
    ));
}

#[test]
fn information_needs_an_address() {
    let mut params = nothing();
    let info = info_request(&params).unwrap_err();
    assert_eq!(info.error.as_deref(), Some("missing url parameter"));
    params.url = some("u");
    assert_eq!(info_request(&params).unwrap(), "u");
}

#[test]
fn errors_become_answers() {
    for (error, text) in [
        (BackendError::NotFound("x".to_string()), "not found: x"),
        (BackendError::InvalidUrl("x".to_string()), "invalid url: x"),
        (BackendError::ExtractionFailed("x".to_string()), "extraction failed: x"),
        (BackendError::DownloadFailed("x".to_string()), "download failed: x"),
        (
            BackendError::from(std::io::Error::new(std::io::ErrorKind::Other, "disk")),
            "io error: disk",
        ),
    ] {
        assert_eq!(error.message(), text);
        let refusal = download_failure(&error);
        assert_eq!(refusal.status, 500);
        assert_eq!(refusal.text, format!("download error: {}", text));
        let info = info_answer(Err(error));
        assert_eq!(info.error.as_deref(), Some(text));
        assert!(info.title.is_empty() && info.formats.is_empty());
    }
    assert_eq!(io_error_message("disk"), "io error: disk");
    let mut found = VideoInfo::failed("e".to_string());
    found.title = "T".to_string();
    assert_eq!(info_answer(Ok(found)).title, "T");
}

#[test]
fn downloads_need_an_address_and_a_format() {
    let mut params = nothing();
    params.format_id = some("22");
    let refusal = download_request(&params).unwrap_err();
    assert_eq!((refusal.status, refusal.text.as_str()), (400, "missing url parameter"));
    params.url = some("u");
    params.format_id = None;
    let refusal = download_request(&params).unwrap_err();
    assert_eq!((refusal.status, refusal.text.as_str()), (400, "missing format_id parameter"));
    params.format_id = some("22");
    let request = download_request(&params).unwrap();
    assert_eq!(request.url, "u");
    assert_eq!(request.format_id, "22");
    assert_eq!(request.title, "video");
    assert!(request.merge_audio);
    params.title = some("T");
    params.merge_audio = some("false");
    let request = download_request(&params).unwrap();
    assert_eq!(request.title, "T");
    assert!(!request.merge_audio);
    for (text, merged) in [("true", true), ("TRUE", false), ("1", false), ("", false)] {
        params.merge_audio = some(text);
        assert_eq!(download_request(&params).unwrap().merge_audio, merged);
    }
}

#[test]
fn downloads_are_saved_under_their_name() {
    let output = DownloadOutput {
        filename: "T.mp4".to_string(),
        content_type: "video/mp4".to_string(),
        size_hint: None,
    };
    assert_eq!(content_disposition(&output), "attachment; filename=\"T.mp4\"");
}

fn streams() -> VideoPlayer {
    let video = |url: &str, itag: u32| VideoStream {
        url: url.to_string(),
        itag,
        size: None,
        height: 1,
        fps: 1,
        quality: String::new(),
        mime: "video/mp4".to_string(),
        codec: VideoCodec::Unknown,
    };
    let audio = |url: &str, itag: u32, bitrate: u32| AudioStream {
        url: url.to_string(),
        itag,
        bitrate,
        size: 1,
        mime: "audio/webm".to_string(),
        codec: AudioCodec::Opus,
    };
    VideoPlayer {
        name: None,
        duration: 0,
        thumbnails: vec![],
        video_streams: vec![video("w?pot=1", 18)],
        video_only_streams: vec![video("s", 137)],
        audio_streams: vec![audio("a", 140, 5), audio("b?pot=1", 251, 7)],
        visitor_data: some("v"),
        client_type: "Desktop".to_string(),
    }
}

fn error_text(answer: DebugAnswer) -> String {
    match answer {
        DebugAnswer::Error(text) => text,
        _ => panic!("no error"),
    }
}

#[test]
fn debug_requests_name_a_video_and_a_format() {
    let mut params = nothing();
    assert_eq!(error_text(debug_request(&params).unwrap_err()), "missing url");
    params.url = some("x");
    assert_eq!(error_text(debug_request(&params).unwrap_err()), "missing format_id");
    params.format_id = some("nan");
    assert_eq!(error_text(debug_request(&params).unwrap_err()), "could not get url");
    params.url = some("https://youtu.be/abc");
    assert_eq!(debug_request(&params).unwrap(), ("abc".to_string(), 0));
    params.format_id = some("137");
    assert_eq!(debug_request(&params).unwrap(), ("abc".to_string(), 137));
    assert_eq!(error_text(debug_failure("gone")), "player error: gone");
    assert_eq!(debug_header(), ("X-Debug-Handler", "HIT"));
}

#[test]
fn debug_answers_for_whole_formats() {
    match debug_answer(&streams(), 18) {
        DebugAnswer::Whole { url, has_pot, client_type, visitor_data } => {
            assert_eq!(url, "w?pot=1");
            assert!(has_pot);
            assert_eq!(client_type, "Desktop");
            assert_eq!(visitor_data.as_deref(), Some("v"));
        }
        _ => panic!("the format has pictures and sound"),
    }
}

#[test]
fn debug_answers_for_silent_formats() {
    match debug_answer(&streams(), 137) {
        DebugAnswer::Silent { video_url, video_has_pot, audio_url, audio_has_pot, .. } => {
            assert_eq!(video_url, "s");
            assert!(!video_has_pot);
            assert_eq!(audio_url.as_deref(), Some("b?pot=1"));
            assert_eq!(audio_has_pot, Some(true));
        }
        _ => panic!("the format has pictures only"),
    }
    let mut player = streams();
    player.audio_streams.clear();
    match debug_answer(&player, 137) {
        DebugAnswer::Silent { audio_url, audio_has_pot, .. } => {
            assert_eq!(audio_url, None);
            assert_eq!(audio_has_pot, None);
        }
        _ => panic!("the format has pictures only"),
    }
}

#[test]
fn debug_answers_for_missing_formats() {
    match debug_answer(&streams(), 140) {
        DebugAnswer::Missing { error, client_type, video_only_itags, audio_itags } => {
            assert_eq!(error, "itag 140 not found");
            assert_eq!(client_type, "Desktop");
            assert_eq!(video_only_itags, vec![137]);
            assert_eq!(audio_itags, vec![140, 251]);
        }
        _ => panic!("no stream with pictures has that number"),
    }
}
