use youtubeopen::backends::PureRustBackend;
use youtubeopen::innertube::{
    all_formats, info_after_description, info_from_innertube, innertube_thumbnails_fit, InnertubeFormat, InnertubePlayer,
    InnertubeStreamingData, InnertubeVideoDetails,
};
use youtubeopen::thumbnails::{best_thumbnail, thumbnail_areas_fit, Thumbnail};
use youtubeopen::types::Quantity;

fn format(itag: u32, mime: &str) -> InnertubeFormat {
    InnertubeFormat {
        itag,
        url: Some(format!("https://cdn/{}", itag)),
        mime_type: mime.to_string(),
        bitrate: 128999,
        height: Some(480),
        quality_label: None,
        fps: None,
        content_length: None,
        audio_quality: None,
    }
}

fn player(formats: Vec<InnertubeFormat>, adaptive: Vec<InnertubeFormat>) -> InnertubePlayer {
    InnertubePlayer {
        streaming_data: Some(InnertubeStreamingData {
            formats: Some(formats),
            adaptive_formats: Some(adaptive),
        }),
        video_details: None,
        visitor_data: None,
    }
}

fn thumb(url: &str, width: Option<u32>, height: Option<u32>) -> Thumbnail {
    Thumbnail { url: url.to_string(), width, height }
}

fn resolution(label: Option<&str>, fps: Option<u32>) -> String {
    let mut one = format(1, "video/mp4");
    one.quality_label = label.map(|s| s.to_string());
    one.fps = fps;
    PureRustBackend::innertube_to_format(&player(vec![one], vec![]))[0].resolution.clone()
}

#[test]
fn resolutions_from_labels_and_rates() {
    assert_eq!(resolution(Some("1080p"), Some(60)), "1080p60 (video only)");
    assert_eq!(resolution(Some("1080p60"), Some(60)), "1080p6060 (video only)");
    assert_eq!(resolution(Some("1080p"), None), "1080p (video only)");
    assert_eq!(resolution(Some("1080p"), Some(0)), "1080p0 (video only)");
    assert_eq!(resolution(Some("pp"), Some(0)), "p0 (video only)");
    assert_eq!(resolution(None, Some(30)), "480p");
}

#[test]
fn labels_are_rewritten_as_by_std() {
    for label in ["", "p", "144p", "1080p50", "ppp", "p0p0p", "hd720"] {
        for fps in [0, 1, 25, 60] {
            let wanted = label.replace("p", &format!("p{}", fps)).replace("p0p", "p");
            assert_eq!(resolution(Some(label), Some(fps)), wanted + " (video only)");
        }
    }
}

#[test]
fn a_format_without_a_height_is_zero_high() {
    let mut one = format(1, "video/mp4");
    one.height = None;
    assert_eq!(PureRustBackend::innertube_to_format(&player(vec![one], vec![]))[0].resolution, "0p");
}

#[test]
fn entries_for_pictures() {
    for (mime, ext, codec) in [
        ("video/mp4; codecs=\"avc1.64\"", "mp4", "avc1"),
        ("video/webm; codecs=\"vp9\"", "webm", "vp9"),
        ("video/mp4; codecs=\"av01.0\"", "mp4", "av01"),
        ("video/3gpp", "3gp", "unknown"),
        ("video/x", "mp4", "unknown"),
    ] {
        let mut one = format(22, mime);
        one.content_length = Some("123".to_string());
        one.fps = Some(30);
        let entries = PureRustBackend::innertube_to_format(&player(vec![], vec![one]));
        assert_eq!(entries.len(), 1);
        assert_eq!(entries[0].format_id, "22");
        assert_eq!(entries[0].ext, ext);
        assert_eq!(entries[0].vcodec, codec);
        assert_eq!(entries[0].acodec, "none");
        assert_eq!(entries[0].filesize, Some(123));
        assert!(matches!(entries[0].fps, Some(Quantity::Whole(30))));
    }
}

#[test]
fn entries_for_sound() {
    for (mime, ext, codec) in [
        ("audio/mp4; codecs=\"mp4a.40\"", "mp4", "mp4a"),
        ("audio/aac", "mp4", "mp4a"),
        ("audio/webm; codecs=\"opus\"", "webm", "opus"),
        ("audio/x", "mp4", "unknown"),
    ] {
        let mut one = format(140, mime);
        one.audio_quality = Some("AUDIO_QUALITY_LOW".to_string());
        one.content_length = Some("many".to_string());
        let entries = PureRustBackend::innertube_to_format(&player(vec![], vec![one]));
        assert_eq!(entries[0].ext, ext);
        assert_eq!(entries[0].vcodec, "none");
        assert_eq!(entries[0].acodec, codec);
        assert_eq!(entries[0].resolution, "128kbps (audio only)");
        assert_eq!(entries[0].filesize, None);
        assert!(entries[0].fps.is_none());
    }
}

#[test]
fn whole_formats_come_first() {
    let both = player(vec![format(1, "video/mp4")], vec![format(2, "video/mp4")]);
    assert_eq!(all_formats(&both).iter().map(|f| f.itag).collect::<Vec<u32>>(), vec![1, 2]);
    let none = InnertubePlayer { streaming_data: None, video_details: None, visitor_data: None };
    assert!(all_formats(&none).is_empty());
    let empty = InnertubePlayer {
        streaming_data: Some(InnertubeStreamingData { formats: None, adaptive_formats: None }),
        video_details: None,
        visitor_data: None,
    };
    assert!(PureRustBackend::innertube_to_format(&empty).is_empty());
}

#[test]
fn information_from_the_description() {
    let mut sound = format(140, "audio/mp4");
    sound.audio_quality = Some("x".to_string());
    let mut high = format(137, "video/mp4");
    high.quality_label = Some("1080p".to_string());
    let mut described = player(vec![format(18, "video/mp4")], vec![sound, high]);
    described.video_details = Some(InnertubeVideoDetails {
        title: Some("Title".to_string()),
        length_seconds: Some("61.5".to_string()),
        thumbnails: Some(vec![
            thumb("small", Some(10), Some(10)),
            thumb("large", Some(20), Some(20)),
            thumb("same", Some(40), Some(10)),
            thumb("none", None, Some(9999)),
        ]),
    });
    assert!(innertube_thumbnails_fit(&described));
    let info = info_from_innertube(&described);
    assert_eq!(info.title, "Title");
    match &info.duration {
        Some(Quantity::Decimal(text)) => assert_eq!(text, "61.5"),
        _ => panic!("the duration is text"),
    }
    assert_eq!(info.thumbnail.as_deref(), Some("same"));
    assert_eq!(info.error, None);
    let ids: Vec<&str> = info.formats.iter().map(|f| f.format_id.as_str()).collect();
    assert_eq!(ids, vec!["137", "18", "140"]);
}

#[test]
fn a_description_without_details() {
    let info = info_from_innertube(&player(vec![], vec![]));
    assert_eq!(info.title, "");
    assert!(info.duration.is_none() && info.thumbnail.is_none() && info.error.is_none());
    let mut described = player(vec![], vec![]);
    described.video_details =
        Some(InnertubeVideoDetails { title: None, length_seconds: None, thumbnails: None });
    assert!(innertube_thumbnails_fit(&described));
    assert_eq!(info_from_innertube(&described).title, "");
}

#[test]
fn the_largest_thumbnail_is_picked() {
    assert_eq!(best_thumbnail(&vec![]), None);
    let list = vec![thumb("a", Some(2), Some(3)), thumb("b", Some(3), Some(2)), thumb("c", None, None)];
    assert_eq!(best_thumbnail(&list).as_deref(), Some("b"));
    assert_eq!(best_thumbnail(&vec![thumb("c", None, None)]).as_deref(), Some("c"));
    assert!(thumbnail_areas_fit(&vec![thumb("a", Some(65535), Some(65537))]));
    assert!(!thumbnail_areas_fit(&vec![thumb("a", Some(65536), Some(65536))]));
}

#[test]
fn information_after_the_description() {
    assert!(info_after_description(&None).is_none());
    let described = Some(player(vec![format(18, "video/mp4")], vec![]));
    let info = info_after_description(&described).unwrap();
    assert_eq!(info.formats.len(), 1);
    assert_eq!(info.error, None);
}
