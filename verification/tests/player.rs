use rustypipe::model::{AudioCodec as OutsideAudio, VideoCodec as OutsideVideo};
use youtubeopen::player::{
    info_after_clients, info_from_player, AudioCodec, AudioStream, VideoCodec, VideoPlayer, VideoStream,
};
use youtubeopen::thumbnails::Thumbnail;
use youtubeopen::types::{BackendError, Quantity};

fn video(itag: u32, height: u32, fps: u8, codec: VideoCodec) -> VideoStream {
    VideoStream {
        url: format!("https://cdn/{}", itag),
        itag,
        size: Some(1000),
        height,
        fps,
        quality: "q".to_string(),
        mime: "video/webm".to_string(),
        codec,
    }
}

fn audio(itag: u32, bitrate: u32, codec: AudioCodec) -> AudioStream {
    AudioStream {
        url: format!("https://cdn/{}?x=1", itag),
        itag,
        bitrate,
        size: 50,
        mime: "audio/mp4".to_string(),
        codec,
    }
}

fn example() -> VideoPlayer {
    VideoPlayer {
        name: Some("Name".to_string()),
        duration: 90,
        thumbnails: vec![Thumbnail { url: "t".to_string(), width: Some(1), height: Some(1) }],
        video_streams: vec![video(18, 360, 30, VideoCodec::Avc1)],
        video_only_streams: vec![video(137, 1080, 0, VideoCodec::Vp9), video(136, 720, 60, VideoCodec::Av01)],
        audio_streams: vec![audio(140, 129500, AudioCodec::Mp4a)],
        visitor_data: None,
        client_type: "Ios".to_string(),
    }
}

#[test]
fn codecs_are_named_in_lower_case() {
    for codec in
        [VideoCodec::Unknown, VideoCodec::Mp4v, VideoCodec::Avc1, VideoCodec::Vp9, VideoCodec::Av01]
    {
        assert_eq!(codec.name(), format!("{:?}", codec).to_lowercase());
    }
    for codec in
        [AudioCodec::Unknown, AudioCodec::Mp4a, AudioCodec::Opus, AudioCodec::Ac3, AudioCodec::Ec3]
    {
        assert_eq!(codec.name(), format!("{:?}", codec).to_lowercase());
    }
}

#[test]
fn codecs_are_named_as_the_outside_ones() {
    for (own, outside) in [
        (VideoCodec::Unknown, OutsideVideo::Unknown),
        (VideoCodec::Mp4v, OutsideVideo::Mp4v),
        (VideoCodec::Avc1, OutsideVideo::Avc1),
        (VideoCodec::Vp9, OutsideVideo::Vp9),
        (VideoCodec::Av01, OutsideVideo::Av01),
    ] {
        assert_eq!(own.name(), format!("{:?}", outside).to_lowercase());
    }
    for (own, outside) in [
        (AudioCodec::Unknown, OutsideAudio::Unknown),
        (AudioCodec::Mp4a, OutsideAudio::Mp4a),
        (AudioCodec::Opus, OutsideAudio::Opus),
        (AudioCodec::Ac3, OutsideAudio::Ac3),
        (AudioCodec::Ec3, OutsideAudio::Ec3),
    ] {
        assert_eq!(own.name(), format!("{:?}", outside).to_lowercase());
    }
}

#[test]
fn information_from_streams() {
    let info = info_from_player(&example());
    assert_eq!(info.title, "Name");
    assert!(matches!(info.duration, Some(Quantity::Whole(90))));
    assert_eq!(info.thumbnail.as_deref(), Some("t"));
    assert_eq!(info.error, None);
    let shown: Vec<(&str, &str, &str, &str, &str)> = info
        .formats
        .iter()
        .map(|f| {
            (
                f.format_id.as_str(),
                f.resolution.as_str(),
                f.ext.as_str(),
                f.vcodec.as_str(),
                f.acodec.as_str(),
            )
        })
        .collect();
    assert_eq!(
        shown,
        vec![
            ("137", "1080p (video only)", "webm", "vp9", "none"),
            ("136", "720p60 (video only)", "webm", "av01", "none"),
            ("18", "360p30", "webm", "avc1", "aac"),
            ("140", "129kbps (audio only)", "mp4", "none", "mp4a"),
        ]
    );
    assert!(matches!(info.formats[0].fps, Some(Quantity::Whole(0))));
    assert!(info.formats[3].fps.is_none());
    assert_eq!(info.formats[3].filesize, Some(50));
    assert_eq!(info.formats[2].filesize, Some(1000));
}

#[test]
fn a_player_without_a_name() {
    let mut player = example();
    player.name = None;
    player.thumbnails.clear();
    let info = info_from_player(&player);
    assert_eq!(info.title, "");
    assert_eq!(info.thumbnail, None);
}

#[test]
fn streams_are_looked_for_in_all_lists() {
    let mut player = example();
    assert!(player.has_streams());
    player.video_streams.clear();
    player.video_only_streams.clear();
    assert!(player.has_streams());
    player.audio_streams.clear();
    assert!(!player.has_streams());
    player.video_streams.push(video(1, 1, 1, VideoCodec::Unknown));
    assert!(player.has_streams());
}

#[test]
fn tokens_are_looked_for_in_all_lists() {
    assert!(!example().has_token());
    let mut player = example();
    player.audio_streams[0].url.push_str("&pot=x");
    assert!(player.has_token());
    let mut player = example();
    player.video_only_streams[1].url.push_str("?pot=x");
    assert!(player.has_token());
    let mut player = example();
    player.video_streams[0].url.push_str("?pot=x");
    assert!(player.has_token());
}

#[test]
fn every_stream_gets_a_token() {
    let mut player = example();
    player.video_only_streams[1].url = "https://cdn/?pot=old".to_string();
    player.add_token("T", "visitor".to_string());
    assert_eq!(player.video_streams[0].url, "https://cdn/18?pot=T");
    assert_eq!(player.video_only_streams[0].url, "https://cdn/137?pot=T");
    assert_eq!(player.video_only_streams[1].url, "https://cdn/?pot=old");
    assert_eq!(player.audio_streams[0].url, "https://cdn/140?x=1&pot=T");
    assert_eq!(player.visitor_data.as_deref(), Some("visitor"));
    assert_eq!(player.video_streams[0].itag, 18);
    assert_eq!(player.duration, 90);

    player.add_token("U", "visitor".to_string());
    assert_eq!(player.video_streams[0].url, "https://cdn/18?pot=T");
}

#[test]
fn information_after_the_clients_were_asked() {
    let info = info_after_clients(Ok(example())).unwrap();
    assert_eq!(info.title, "Name");
    assert_eq!(info.formats.len(), 4);
    match info_after_clients(Err("gone".to_string())) {
        Err(BackendError::ExtractionFailed(text)) => assert_eq!(text, "player: gone"),
        _ => panic!("no client found the streams"),
    }
}
