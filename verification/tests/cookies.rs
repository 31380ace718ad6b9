use youtubeopen::cookies::{
    combine_cookies, cookie_is_fresh, keep_fetched, next_cookie, CookieStep, CONSENT_COOKIE,
};
use youtubeopen::types::BackendError;

fn headers(list: &[&str]) -> Vec<String> {
    list.iter().map(|s| s.to_string()).collect()
}

#[test]
fn cookies_are_used_for_half_an_hour() {
    assert!(cookie_is_fresh(0));
    assert!(cookie_is_fresh(1799));
    assert!(!cookie_is_fresh(1800));
}

#[test]
fn without_cookies_there_is_consent() {
    assert_eq!(CONSENT_COOKIE, "SOCS=CAISAiAD");
    assert_eq!(combine_cookies(&vec![]), "SOCS=CAISAiAD; SOCS=CAISAiAD");
    assert_eq!(combine_cookies(&headers(&["A=1; Path=/"])), "SOCS=CAISAiAD; SOCS=CAISAiAD");
}

#[test]
fn one_cookie_may_name_the_visitor() {
    assert_eq!(
        combine_cookies(&headers(&["__Secure-YEC=abc ; Secure"])),
        "SOCS=CAISAiAD; __Secure-YEC=abc"
    );
    assert_eq!(
        combine_cookies(&headers(&[" __Secure-YEC=abc; Secure"])),
        "SOCS=CAISAiAD; SOCS=CAISAiAD"
    );
}

#[test]
fn several_cookies_are_joined() {
    assert_eq!(
        combine_cookies(&headers(&["A=1; Path=/", " B=2 ", "__Secure-YEC=abc; Secure"])),
        "A=1; B=2; __Secure-YEC=abc"
    );
    assert_eq!(combine_cookies(&headers(&["A=1", ""])), "A=1; ");
}

fn kept(cookie: &str, at: u64) -> Option<(String, u64)> {
    Some((cookie.to_string(), at))
}

#[test]
fn a_fresh_cookie_is_used_again() {
    assert!(matches!(next_cookie(&None, 5), CookieStep::Fetch));
    for now in [100, 101, 1899] {
        match next_cookie(&kept("c", 100), now) {
            CookieStep::Use(cookie) => assert_eq!(cookie, "c"),
            CookieStep::Fetch => panic!("the cookie is fresh"),
        }
    }
    for now in [1900, u64::MAX, 99, 0] {
        assert!(matches!(next_cookie(&kept("c", 100), now), CookieStep::Fetch));
    }
}

#[test]
fn a_fetched_cookie_is_kept() {
    let mut stored = None;
    let fetched = keep_fetched(&mut stored, 100, Ok(headers(&["A=1; x", "B=2"]))).unwrap();
    assert_eq!(fetched, "A=1; B=2");
    assert_eq!(stored, kept("A=1; B=2", 100));
    match next_cookie(&stored, 1899) {
        CookieStep::Use(cookie) => assert_eq!(cookie, fetched),
        CookieStep::Fetch => panic!("the cookie is fresh"),
    }
    assert_eq!(stored, kept("A=1; B=2", 100));
}

#[test]
fn a_failed_fetch_changes_nothing() {
    let mut stored = kept("c", 1);
    match keep_fetched(&mut stored, 5000, Err("timeout".to_string())) {
        Err(BackendError::DownloadFailed(text)) => {
            assert_eq!(text, "cookie fetch failed: timeout")
        }
        _ => panic!("the fetch failed"),
    }
    assert_eq!(stored, kept("c", 1));
}
