use youtubeopen::backends::{BotguardPlace, PureRustBackend};

#[test]
fn the_program_beside_this_one_is_preferred() {
    assert_eq!(PureRustBackend::new(true, true).botguard, BotguardPlace::BesideProgram);
    assert_eq!(PureRustBackend::new(true, false).botguard, BotguardPlace::BesideProgram);
    assert_eq!(PureRustBackend::new(false, true).botguard, BotguardPlace::WorkingDirectory);
    assert_eq!(PureRustBackend::new(false, false).botguard, BotguardPlace::Nowhere);
    assert!(PureRustBackend::new(false, true).makes_tokens());
    assert!(!PureRustBackend::new(false, false).makes_tokens());
}

#[test]
fn arguments_of_the_program() {
    let backend = PureRustBackend::new(true, false);
    assert_eq!(
        backend.token_arguments(Some("f.bin"), "visitor", Some("abc")),
        vec!["--snapshot-file", "f.bin", "--", "visitor", "abc"]
    );
    assert_eq!(backend.token_arguments(None, "visitor", None), vec!["--", "visitor"]);
}

#[test]
fn tokens_are_first_words() {
    let backend = PureRustBackend::new(true, false);
    let text = || b" token rest\n".to_vec();
    assert_eq!(backend.generate_po_token_safe(true, &text()), Some("token".to_string()));
    assert_eq!(backend.generate_po_token(true, text()), Some("token".to_string()));
    assert_eq!(backend.generate_po_token_safe(false, &text()), None);
    assert_eq!(backend.generate_po_token(false, text()), None);
    assert_eq!(backend.generate_po_token_safe(true, b" \n"), None);
    assert_eq!(backend.generate_po_token(true, b"".to_vec()), None);
}

#[test]
fn only_tokens_for_a_video_are_read_leniently() {
    let backend = PureRustBackend::new(true, false);
    let text = || b"to\xffken".to_vec();
    assert_eq!(
        backend.generate_po_token_safe(true, &text()),
        Some("to\u{fffd}ken".to_string())
    );
    assert_eq!(backend.generate_po_token(true, text()), None);
}

#[test]
fn no_program_no_token() {
    let backend = PureRustBackend::new(false, false);
    assert_eq!(backend.generate_po_token_safe(true, b"token"), None);
    assert_eq!(backend.generate_po_token(true, b"token".to_vec()), None);
}

#[test]
fn requests_for_the_description() {
    let backend = PureRustBackend::new(false, false);
    let request = backend.player_request("abc", Some("T".to_string()));
    assert_eq!(request.video_id, "abc");
    assert!(request.content_check_ok && request.racy_check_ok);
    assert_eq!(request.po_token.as_deref(), Some("T"));
    assert_eq!(backend.player_request("abc", None).po_token, None);
}

#[test]
fn health_names_the_version() {
    let backend = PureRustBackend::new(false, false);
    let status = backend.health();
    assert_eq!(status.backend_name, "Pure Rust (rustypipe)");
    assert!(status.available);
    assert_eq!(status.version, Some(format!("rustypipe {}", rustypipe::VERSION)));
    assert_eq!(status.version.as_deref(), Some("rustypipe 0.11.4"));
    assert_eq!(backend.health_with("1.2").version.as_deref(), Some("rustypipe 1.2"));
}

#[test]
fn tokens_are_made_for_one_visitor() {
    let backend = PureRustBackend::new(true, false);
    let some = |text: &str| Some(text.to_string());
    assert_eq!(backend.token_visitor(&some("known"), some("fetched")), some("known"));
    assert_eq!(backend.token_visitor(&some(""), some("fetched")), some("fetched"));
    assert_eq!(backend.token_visitor(&None, some("fetched")), some("fetched"));
    assert_eq!(backend.token_visitor(&None, some("")), None);
    assert_eq!(backend.token_visitor(&None, None), None);
}
