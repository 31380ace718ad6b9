use youtubeopen::page::{
    download_address, format_button, health_address, info_address, FetchEvent, FetchedInfo,
    HealthEvent, HealthResponse, Page,
};
use youtubeopen::types::FormatEntry;

fn entry(id: &str, vcodec: &str) -> FormatEntry {
    FormatEntry {
        format_id: id.to_string(),
        ext: "mp4".to_string(),
        resolution: "720p".to_string(),
        filesize: None,
        fps: None,
        vcodec: vcodec.to_string(),
        acodec: "none".to_string(),
    }
}

fn response(name: Option<&str>, available: Option<bool>, version: Option<&str>) -> HealthEvent {
    HealthEvent::Answered(HealthResponse {
        name: name.map(|s| s.to_string()),
        available,
        version: version.map(|s| s.to_string()),
    })
}

fn answer(duration: Option<u64>, error: Option<&str>) -> FetchEvent {
    FetchEvent::Answered(FetchedInfo {
        title: "Title".to_string(),
        duration,
        formats: vec![entry("a", "avc1"), entry("b", "none"), entry("c", "vp9")],
        error: error.map(|s| s.to_string()),
    })
}

#[test]
fn the_first_page() {
    let page = Page::new();
    assert_eq!(page.status, "READY");
    assert_eq!(page.status_class, "");
    assert_eq!(page.health_text, "checking...");
    assert_eq!(page.health_class, "");
    assert!(page.fetch_disabled && !page.loading && !page.info_visible);
    assert!(page.error_msg.is_empty() && page.formats.is_empty());
}

#[test]
fn a_healthy_backend_enables_requests() {
    let mut page = Page::new();
    page.show_health(response(Some("n"), Some(true), Some("2025")));
    assert_eq!(page.health_text, "2025");
    assert_eq!(page.health_class, "health healthy");
    assert!(!page.fetch_disabled);
    assert_eq!(page.status, "READY");
    page.show_health(response(None, Some(true), None));
    assert_eq!(page.health_text, "healthy");
}

#[test]
fn an_unavailable_backend_disables_requests() {
    for (name, available, status) in [
        (Some("yt-dlp"), Some(false), "yt-dlp NOT AVAILABLE"),
        (None, None, "Backend NOT AVAILABLE"),
    ] {
        let mut page = Page::new();
        page.show_health(response(name, available, Some("2025")));
        assert_eq!(page.health_text, "unavailable");
        assert_eq!(page.health_class, "health unhealthy");
        assert_eq!(page.status, status);
        assert_eq!(page.status_class, "error");
        assert!(page.fetch_disabled);
    }
}

#[test]
fn an_absent_server_is_offline() {
    let mut page = Page::new();
    page.show_health(HealthEvent::Offline);
    assert_eq!(page.health_text, "offline");
    assert_eq!(page.health_class, "health unhealthy");
    assert_eq!(page.status, "SERVER OFFLINE");
    assert_eq!(page.status_class, "error");
    assert!(page.fetch_disabled);
    let mut page = Page::new();
    page.show_health(HealthEvent::Unreadable);
    assert_eq!(page.health_text, "checking...");
}

#[test]
fn requests_need_an_address() {
    let mut page = Page::new();
    assert_eq!(page.start_fetch(" \n"), None);
    assert_eq!(page.status, "ENTER A VALID URL");
    assert_eq!(page.status_class, "error");
    assert!(!page.loading);
    page.error_msg = "old".to_string();
    page.info_visible = true;
    assert_eq!(page.start_fetch(" u "), Some("u".to_string()));
    assert_eq!(page.status, "FETCHING VIDEO INFO...");
    assert_eq!(page.status_class, "info");
    assert_eq!(page.error_msg, "");
    assert!(page.loading && page.fetch_disabled && !page.info_visible);
}

#[test]
fn a_found_video_is_shown() {
    let mut page = Page::new();
    page.start_fetch("u");
    page.show_fetched(answer(Some(3661), None));
    assert_eq!(page.video_title, "Title");
    assert_eq!(page.video_duration, "1:01:01");
    let ids: Vec<&str> = page.formats.iter().map(|f| f.format_id.as_str()).collect();
    assert_eq!(ids, vec!["a", "c"]);
    assert_eq!(page.status, "VIDEO FOUND");
    assert_eq!(page.status_class, "");
    assert!(page.info_visible && !page.loading && !page.fetch_disabled);
    page.show_fetched(answer(None, None));
    assert_eq!(page.video_duration, "");
}

#[test]
fn failures_are_shown() {
    let mut page = Page::new();
    page.start_fetch("u");
    page.show_fetched(answer(Some(1), Some("gone")));
    assert_eq!(page.error_msg, "gone");
    assert_eq!(page.status, "FETCH FAILED");
    assert_eq!(page.status_class, "error");
    assert!(!page.info_visible && !page.loading && !page.fetch_disabled);
    assert_eq!(page.video_title, "");

    page.start_fetch("u");
    page.show_fetched(FetchEvent::Failed("timeout".to_string()));
    assert_eq!(page.error_msg, "NETWORK ERROR: timeout");
    assert_eq!(page.status, "CONNECTION FAILED");
    assert!(!page.loading && !page.fetch_disabled);

    page.start_fetch("u");
    page.show_fetched(FetchEvent::Unreadable);
    assert_eq!(page.status, "FETCHING VIDEO INFO...");
    assert!(!page.loading && !page.fetch_disabled && !page.info_visible);
}

#[test]
fn downloads_are_announced() {
    let mut page = Page::new();
    page.show_download();
    assert_eq!(page.status, "DOWNLOAD STARTED - CHECK BROWSER DOWNLOADS");
}

#[test]
fn buttons_show_size_and_rate() {
    assert_eq!(format_button(Some(1536), Some(60)), "1.5 KB 60fps");
    assert_eq!(format_button(Some(10), None), "10 B");
    assert_eq!(format_button(None, Some(0)), "-- 0fps");
    assert_eq!(format_button(None, None), "--");
}

#[test]
fn addresses_of_the_server() {
    assert_eq!(health_address(), "/api/health?backend=ytdlp");
    assert_eq!(info_address("u%20x"), "/api/info?url=u%20x&backend=ytdlp");
    assert_eq!(
        download_address("u", "22"),
        "/api/download?url=u&format_id=22&merge_audio=true&backend=ytdlp"
    );
}
