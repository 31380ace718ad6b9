use youtubeopen::backends::YtDlpBackend;
use youtubeopen::types::{BackendError, Quantity, VideoInfo};
use youtubeopen::ytdlp::{
    download_not_opened, download_not_started, ffmpeg_directory, info_from_listing,
    info_from_output, listing_not_started, read_listing, ListedFormat, Listing,
};

fn listed(id: &str, vcodec: Option<&str>, acodec: Option<&str>, height: Option<u64>) -> ListedFormat {
    ListedFormat {
        format_id: Some(id.to_string()),
        ext: Some("mp4".to_string()),
        vcodec: vcodec.map(|s| s.to_string()),
        acodec: acodec.map(|s| s.to_string()),
        height,
        filesize: None,
        filesize_approx: Some(77),
        fps: None,
    }
}

fn bits(quantity: &Option<Quantity>) -> Option<f64> {
    match quantity {
        Some(Quantity::Bits(bits)) => Some(f64::from_bits(*bits)),
        Some(_) => panic!("the listing gives bits"),
        None => None,
    }
}

fn error_of(info: &VideoInfo) -> &str {
    assert!(info.title.is_empty() && info.formats.is_empty());
    assert!(info.duration.is_none() && info.thumbnail.is_none());
    info.error.as_deref().unwrap()
}

#[test]
fn reads_the_output_of_the_downloader() {
    let text = r#"{"title": "A \u00e9", "duration": 12.5, "thumbnail": "http://t", "formats": [
        {"format_id": "1", "ext": "webm", "vcodec": "vp9", "acodec": "none", "height": 720,
         "filesize": 5, "filesize_approx": 6, "fps": 29.97},
        {"format_id": "2", "vcodec": "none", "acodec": "opus"},
        {"format_id": "3", "ext": "mp4", "vcodec": "avc1", "acodec": "mp4a", "height": 1080,
         "filesize_approx": 8, "fps": 30},
        {"format_id": 4, "vcodec": "av01", "height": -5, "filesize": 1.5}
    ]}"#;
    let info = info_from_output(text).unwrap();
    assert_eq!(info.title, "A \u{e9}");
    assert_eq!(bits(&info.duration), Some(12.5));
    assert_eq!(info.thumbnail.as_deref(), Some("http://t"));
    assert_eq!(info.error, None);
    assert_eq!(info.formats.len(), 3);

    let first = &info.formats[0];
    assert_eq!(first.format_id, "3");
    assert_eq!(first.ext, "mp4");
    assert_eq!(first.resolution, "1080p");
    assert_eq!(first.filesize, Some(8));
    assert_eq!(bits(&first.fps), Some(30.0));
    assert_eq!(first.vcodec, "avc1");
    assert_eq!(first.acodec, "mp4a");

    let second = &info.formats[1];
    assert_eq!(second.format_id, "1");
    assert_eq!(second.resolution, "720p (video only)");
    assert_eq!(second.filesize, Some(5));
    assert_eq!(bits(&second.fps), Some(29.97));

    let third = &info.formats[2];
    assert_eq!(third.format_id, "");
    assert_eq!(third.ext, "");
    assert_eq!(third.resolution, "audio only");
    assert_eq!(third.filesize, None);
    assert_eq!(third.acodec, "none");
}

#[test]
fn an_empty_listing_has_defaults() {
    for text in ["{}", "[]", "null", r#"{"title": 5, "formats": {}}"#] {
        let info = info_from_output(text).unwrap();
        assert_eq!(info.title, "Unknown");
        assert!(info.duration.is_none() && info.thumbnail.is_none() && info.formats.is_empty());
        assert_eq!(info.error, None);
    }
}

#[test]
fn output_that_is_no_json_is_an_error() {
    let error = serde_json::from_str::<serde_json::Value>("{oops").unwrap_err();
    match info_from_output("{oops") {
        Err(BackendError::ExtractionFailed(text)) => {
            assert_eq!(text, format!("parse error: {}", error))
        }
        _ => panic!("no JSON"),
    }
}

#[test]
fn a_listing_is_read_member_by_member() {
    let value: serde_json::Value =
        serde_json::from_str(r#"{"title": "T", "duration": 3, "formats": [{"height": 9}]}"#).unwrap();
    let listing = read_listing(&value);
    assert_eq!(listing.title.as_deref(), Some("T"));
    assert_eq!(listing.duration.map(f64::from_bits), Some(3.0));
    assert_eq!(listing.formats.len(), 1);
    assert_eq!(listing.formats[0].height, Some(9));
    assert_eq!(listing.formats[0].vcodec, None);
}

#[test]
fn entries_have_pictures_and_go_by_height() {
    let info = info_from_listing(Listing {
        title: None,
        duration: None,
        thumbnail: None,
        formats: vec![
            listed("a", Some("avc1"), None, Some(360)),
            listed("b", Some("none"), Some("opus"), None),
            listed("c", None, Some("opus"), Some(1)),
            listed("d", Some("vp9"), Some("opus"), Some(0)),
            listed("e", Some("vp9"), Some("opus"), Some(2160)),
        ],
    });
    let shown: Vec<(&str, &str)> =
        info.formats.iter().map(|f| (f.format_id.as_str(), f.resolution.as_str())).collect();
    assert_eq!(shown, vec![("e", "2160p"), ("a", "360p (video only)"), ("d", "audio only")]);
    assert!(info.formats.iter().all(|f| f.vcodec != "none"));
    assert_eq!(info.formats[0].filesize, Some(77));
}

#[test]
fn a_failed_run_is_quoted() {
    let backend = YtDlpBackend;
    let info = backend.get_video_info(false, vec![], b"WARNING: x\nERROR: gone\n \n").unwrap();
    assert_eq!(error_of(&info), "yt-dlp error: ERROR: gone");
    let info = backend.get_video_info(false, vec![], b" ").unwrap();
    assert_eq!(error_of(&info), "yt-dlp error: unknown");
    let info = backend.get_video_info(false, vec![], b"bad \xff").unwrap();
    assert_eq!(error_of(&info), "yt-dlp error: bad \u{fffd}");
}

#[test]
fn a_finished_run_is_read() {
    let backend = YtDlpBackend;
    let info = backend.get_video_info(true, br#"{"title": "T"}"#.to_vec(), b"noise").unwrap();
    assert_eq!(info.title, "T");
    match backend.get_video_info(true, vec![0xff], b"") {
        Err(BackendError::ExtractionFailed(text)) => {
            assert_eq!(text, "invalid utf-8 from yt-dlp")
        }
        _ => panic!("not UTF-8"),
    }
}

#[test]
fn health_needs_both_programs() {
    let backend = YtDlpBackend;
    let version = || Some(b" 2025.01.01 \n".to_vec());
    let both = backend.health(true, true, version());
    assert_eq!(both.backend_name, "yt-dlp + ffmpeg");
    assert!(both.available);
    assert_eq!(both.version.as_deref(), Some("2025.01.01 + ffmpeg"));
    let alone = backend.health(true, false, version());
    assert!(!alone.available);
    assert_eq!(alone.version.as_deref(), Some("2025.01.01"));
    let helper = backend.health(false, true, version());
    assert!(!helper.available);
    assert_eq!(helper.version, None);
    assert_eq!(backend.health(true, true, None).version, None);
    assert_eq!(backend.health(true, true, Some(vec![0xff])).version, None);
}

#[test]
fn arguments_that_list_a_video() {
    let backend = YtDlpBackend;
    assert_eq!(
        backend.info_arguments("https://youtu.be/abc").unwrap(),
        vec!["-J", "--no-playlist", "--flat-playlist", "https://youtu.be/abc"]
    );
    let info = backend.info_arguments("https://example.com/").unwrap_err();
    assert_eq!(error_of(&info), "invalid youtube url");
}

#[test]
fn arguments_that_fetch_a_video() {
    let backend = YtDlpBackend;
    let url = "https://youtu.be/abc";
    assert_eq!(
        backend.download_arguments(url, "22", true, "/tmp/x.mp4", Some("C:\\ffmpeg".to_string())),
        vec![
            "-f",
            "22+bestaudio[ext=m4a]/bestaudio/best",
            "--merge-output-format",
            "mp4",
            "--no-playlist",
            "-o",
            "/tmp/x.mp4",
            "--no-part",
            "--no-mtime",
            "--no-progress",
            "-q",
            "--ffmpeg-location",
            "C:\\ffmpeg",
            url,
        ]
    );
    let alone = backend.download_arguments(url, "22", false, "t", None);
    assert_eq!(alone[1], "22");
    assert_eq!(alone.len(), 12);
    assert_eq!(alone[11], url);
}

#[test]
fn downloads_are_written_to_their_own_file() {
    let backend = YtDlpBackend;
    let url = "https://youtu.be/abc?t=1";
    assert_eq!(backend.download_target(url, "22", 1234).unwrap(), "yt_abc_22_1234.mp4");
    assert_eq!(
        backend.download_target("https://www.youtube.com/x", "22", 0).unwrap(),
        "yt_unknown_22_0.mp4"
    );
    match backend.download_target("ftp://x", "22", 0) {
        Err(BackendError::InvalidUrl(text)) => assert_eq!(text, "invalid youtube url"),
        _ => panic!("no known host"),
    }
}

#[test]
fn a_finished_download_has_to_leave_its_file() {
    let backend = YtDlpBackend;
    assert!(backend.download_finished(true, b"noise", "t.mp4", true).is_ok());
    match backend.download_finished(false, b"a\nb", "t.mp4", true) {
        Err(BackendError::DownloadFailed(text)) => assert_eq!(text, "yt-dlp failed: b"),
        _ => panic!("the run failed"),
    }
    match backend.download_finished(true, b"", "t.mp4", false) {
        Err(BackendError::DownloadFailed(text)) => {
            assert_eq!(text, "yt-dlp output file not found: t.mp4")
        }
        _ => panic!("there is no file"),
    }
    let output = backend.download_video(" Title ", Some(9));
    assert_eq!(output.filename, "Title.mp4");
    assert_eq!(output.content_type, "video/mp4");
    assert_eq!(output.size_hint, Some(9));
}

#[test]
fn the_helper_is_found_in_the_search_path() {
    assert_eq!(ffmpeg_directory("C:\\a;C:\\ffmpeg\\bin;D:\\ffmpeg"), Some("C:\\ffmpeg\\bin".to_string()));
    assert_eq!(ffmpeg_directory("/opt/ffmpeg"), Some("/opt/ffmpeg".to_string()));
    assert_eq!(ffmpeg_directory("a;b;"), None);
    assert_eq!(ffmpeg_directory(""), None);
}

#[test]
fn errors_of_a_downloader_that_did_not_start() {
    match listing_not_started("no file") {
        BackendError::ExtractionFailed(text) => assert_eq!(text, "failed to run yt-dlp: no file"),
        _ => panic!("another kind of error"),
    }
    match download_not_started("no file") {
        BackendError::DownloadFailed(text) => assert_eq!(text, "failed to run yt-dlp: no file"),
        _ => panic!("another kind of error"),
    }
    match download_not_opened("no file") {
        BackendError::DownloadFailed(text) => {
            assert_eq!(text, "failed to open yt-dlp output: no file")
        }
        _ => panic!("another kind of error"),
    }
}
