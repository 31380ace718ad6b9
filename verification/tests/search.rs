use youtubeopen::player::{AudioCodec, AudioStream, VideoPlayer};
use youtubeopen::search::{
    description_not_given, description_not_read, raw_client, raw_client_error, PlayerClient,
    PlayerSearch, SearchStep,
};
use youtubeopen::types::BackendError;

fn player(urls: &[&str]) -> VideoPlayer {
    VideoPlayer {
        name: None,
        duration: 0,
        thumbnails: vec![],
        video_streams: vec![],
        video_only_streams: vec![],
        audio_streams: urls
            .iter()
            .map(|url| AudioStream {
                url: url.to_string(),
                itag: 1,
                bitrate: 1,
                size: 1,
                mime: String::new(),
                codec: AudioCodec::Unknown,
            })
            .collect(),
        visitor_data: None,
        client_type: String::new(),
    }
}

#[test]
fn clients_are_asked_in_order() {
    let mut search = PlayerSearch::new();
    let mut asked = Vec::new();
    while let Some(client) = search.client() {
        asked.push(client);
        search.failed(format!("error of {}", client.name()));
    }
    assert_eq!(
        asked,
        vec![PlayerClient::Desktop, PlayerClient::Android, PlayerClient::Ios, PlayerClient::Tv]
    );
    assert_eq!(search.error(), "error of Tv");
}

#[test]
fn an_answer_without_streams_is_an_error() {
    let mut search = PlayerSearch::new();
    assert_eq!(search.answered(PlayerClient::Desktop, &player(&[])), SearchStep::Next);
    assert_eq!(search.client(), Some(PlayerClient::Android));
    assert_eq!(search.error(), "error: Desktop returned no streams");
}

#[test]
fn the_text_of_an_empty_answer_is_that_of_the_outside_error() {
    let mut search = PlayerSearch::new();
    search.answered(PlayerClient::Ios, &player(&[]));
    let outside = rustypipe::error::Error::Other(
        format!("{:?} returned no streams", rustypipe::client::ClientType::Ios).into(),
    );
    assert_eq!(search.error(), outside.to_string());
    let outside = rustypipe::error::Error::Other("no clients available".into());
    assert_eq!(PlayerSearch::new().error(), outside.to_string());
}

#[test]
fn an_answer_with_streams_is_taken() {
    let mut search = PlayerSearch::new();
    assert_eq!(search.answered(PlayerClient::Desktop, &player(&["u"])), SearchStep::AddToken);
    let with_token = player(&["u", "u?pot=1"]);
    assert_eq!(search.answered(PlayerClient::Desktop, &with_token), SearchStep::Take);
    assert_eq!(search.client(), Some(PlayerClient::Desktop));
}

#[test]
fn a_search_without_clients_says_so() {
    assert_eq!(PlayerSearch::new().error(), "error: no clients available");
}

#[test]
fn descriptions_come_from_one_of_two_clients() {
    assert_eq!(raw_client(None), Some(PlayerClient::Android));
    assert_eq!(raw_client(Some(PlayerClient::Android)), Some(PlayerClient::Ios));
    assert_eq!(raw_client(Some(PlayerClient::Ios)), None);
    match raw_client_error(PlayerClient::Ios, "gone") {
        BackendError::ExtractionFailed(text) => assert_eq!(text, "Ios raw player error: gone"),
        _ => panic!("another kind of error"),
    }
}

#[test]
fn errors_of_a_description() {
    for (error, wanted) in [
        (description_not_given("gone"), "raw player: gone"),
        (description_not_read("gone"), "parse player: gone"),
    ] {
        match error {
            BackendError::ExtractionFailed(text) => assert_eq!(text, wanted),
            _ => panic!("another kind of error"),
        }
    }
}
