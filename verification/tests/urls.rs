use youtubeopen::urls::{
    extract_video_id, extract_video_id_from_url, inject_pot, sanitize_url, url_has_token,
};

#[test]
fn videos_are_named_by_their_addresses() {
    for (url, id) in [
        ("https://www.youtube.com/watch?v=abc&t=10", "abc"),
        ("https://youtube.com/watch?v=abc", "abc"),
        ("https://m.youtube.com/watch?v=abc&list=x", "abc"),
        ("https://youtu.be/abc?t=10", "abc"),
        ("https://youtu.be/abc&t=10", "abc&t=10"),
        ("https://www.yout-ube.com/watch?v=abc&x", "abc"),
        ("https://yout-ube.com/watch?v=abc", "abc"),
        ("  https://youtu.be/abc \n", "abc"),
        ("https://youtu.be/", ""),
    ] {
        assert_eq!(extract_video_id(url), Some(id.to_string()), "{}", url);
    }
}

#[test]
fn other_addresses_name_none() {
    for url in [
        "",
        "abc",
        "http://www.youtube.com/watch?v=abc",
        "https://www.youtube.com/embed/abc",
        "https://www.youtube.com/watch?list=x&v=abc",
        "https://example.com/?u=https://youtu.be/abc",
    ] {
        assert_eq!(extract_video_id(url), None, "{}", url);
    }
}

#[test]
fn the_downloader_knows_fewer_spellings() {
    assert_eq!(extract_video_id_from_url("https://youtu.be/abc?x"), Some("abc"));
    assert_eq!(extract_video_id_from_url("https://www.youtube.com/watch?v=abc&x"), Some("abc"));
    assert_eq!(extract_video_id_from_url("https://yout-ube.com/watch?v=abc"), None);
    assert_eq!(extract_video_id_from_url(" https://youtu.be/abc"), None);
}

#[test]
fn known_hosts() {
    for url in [
        "https://www.youtube.com/",
        "https://youtube.com/x",
        "https://youtu.be/abc",
        "https://m.youtube.com/watch",
        "https://www.yout-ube.com/watch?v=abc",
        "https://yout-ube.com/watch?v=abc",
    ] {
        assert!(sanitize_url(url), "{}", url);
    }
    for url in ["", "https://www.youtube.com", "http://youtu.be/abc", " https://youtu.be/abc"] {
        assert!(!sanitize_url(url), "{}", url);
    }
}

#[test]
fn a_named_video_is_on_a_known_host() {
    for url in ["https://youtu.be/abc", "https://yout-ube.com/watch?v=abc"] {
        assert!(extract_video_id(url).is_some() && sanitize_url(url));
    }
}

#[test]
fn tokens_are_added_once() {
    assert_eq!(inject_pot("https://cdn/x", "T"), "https://cdn/x?pot=T");
    assert_eq!(inject_pot("https://cdn/x?a=1", "T"), "https://cdn/x?a=1&pot=T");
    assert_eq!(inject_pot("https://cdn/x?pot=S", "T"), "https://cdn/x?pot=S");
    let once = inject_pot("https://cdn/x", "T");
    assert!(url_has_token(&once));
    assert_eq!(inject_pot(&once, "U"), once);
    assert!(!url_has_token("https://cdn/x?po=t"));
}

#[test]
fn a_further_parameter_leaves_the_video() {
    for url in ["https://www.youtube.com/watch?v=abc", "https://yout-ube.com/watch?v=abc&t=1"] {
        assert_eq!(extract_video_id(&format!("{}&x=y", url)), extract_video_id(url));
    }
    let short = "https://youtu.be/abc";
    assert_eq!(extract_video_id(&format!("{}?x=y", short)), extract_video_id(short));
}
