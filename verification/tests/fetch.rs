use youtubeopen::fetch::{
    build_cdn_headers, file_not_fetched, refused, status_is_success, stream_broken,
    stream_not_fetched, stream_output, Retry,
};
use youtubeopen::types::BackendError;

fn text_of(error: BackendError) -> String {
    match error {
        BackendError::DownloadFailed(text) => text,
        _ => panic!("another kind of error"),
    }
}

#[test]
fn headers_of_a_fetch() {
    assert_eq!(
        build_cdn_headers("visitor", "SOCS=x"),
        vec![
            ("range", "bytes=0-"),
            ("origin", "https://www.youtube.com"),
            ("referer", "https://www.youtube.com/"),
            ("X-Goog-Visitor-Id", "visitor"),
            ("cookie", "SOCS=x"),
        ]
    );
}

#[test]
fn success_is_that_of_the_outside_status() {
    for status in 100..1000u16 {
        let outside = reqwest::StatusCode::from_u16(status).unwrap();
        let success = outside.is_success() || outside == reqwest::StatusCode::PARTIAL_CONTENT;
        assert_eq!(status_is_success(status), success);
    }
}

#[test]
fn refusals_are_quoted_in_part() {
    assert_eq!(text_of(refused("403 Forbidden", "no")), "HTTP 403 Forbidden - no");
    let long = "x".repeat(201);
    assert_eq!(
        text_of(refused("404 Not Found", &long)),
        format!("HTTP 404 Not Found - {}...", "x".repeat(200))
    );
}

#[test]
fn three_attempts_with_growing_waits() {
    let mut retry = Retry::new();
    assert!(retry.may_try());
    assert_eq!(retry.unreachable("reset"), 500);
    assert_eq!(
        text_of(retry.error()),
        "stream unreachable after retries: network: reset"
    );
    assert!(retry.may_try());
    assert_eq!(retry.refused("403 Forbidden", "denied"), 1000);
    assert!(retry.may_try());
    assert_eq!(retry.refused("503 Service Unavailable", ""), 2000);
    assert!(!retry.may_try());
    assert_eq!(
        text_of(retry.error()),
        "stream unreachable after retries: HTTP 503 Service Unavailable - "
    );
}

#[test]
fn downloads_are_named_by_title_and_type() {
    let output = stream_output(" My video\n", "video/webm; codecs=vp9", Some(5));
    assert_eq!(output.filename, "My video.webm");
    assert_eq!(output.content_type, "video/webm");
    assert_eq!(output.size_hint, Some(5));
    let output = stream_output("x", "audio/mp4", None);
    assert_eq!(output.filename, "x.mp4");
    assert_eq!(output.content_type, "video/mp4");
    assert_eq!(output.size_hint, None);
}

#[test]
fn errors_of_a_fetch() {
    assert_eq!(text_of(stream_not_fetched("x")), "failed to fetch stream: x");
    assert_eq!(text_of(file_not_fetched("x")), "fetch: x");
    assert_eq!(text_of(stream_broken("x")), "stream: x");
}
