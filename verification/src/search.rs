//! Asking one client of the site after another for the streams of a video.

use crate::player::{has_streams, some_token, VideoPlayer};
use crate::text::{concat2, concat3, text_of};
use crate::types::{BackendError, ErrorView};
use vstd::prelude::*;
use vstd::string::*;

verus! {

/// A client of the site.
#[derive(Debug, Clone, Copy, PartialEq, Eq)]
pub enum PlayerClient {
    Desktop,
    Android,
    Ios,
    Tv,
}

impl PlayerClient {
    /// The name of a client.
    pub open spec fn spelling(self) -> Seq<char> {
        match self {
            PlayerClient::Desktop => "Desktop"@,
            PlayerClient::Android => "Android"@,
            PlayerClient::Ios => "Ios"@,
            PlayerClient::Tv => "Tv"@,
        }
    }

    /// Names a client.
    pub fn name(self) -> (name: &'static str)
        ensures
            name@ == self.spelling(),
    {
        match self {
            PlayerClient::Desktop => "Desktop",
            PlayerClient::Android => "Android",
            PlayerClient::Ios => "Ios",
            PlayerClient::Tv => "Tv",
        }
    }
}

/// The clients in the order in which they are asked.
pub open spec fn clients() -> Seq<PlayerClient> {
    seq![PlayerClient::Desktop, PlayerClient::Android, PlayerClient::Ios, PlayerClient::Tv]
}

/// How far a search for the streams of a video has come.
#[derive(Debug)]
pub struct PlayerSearch {
    /// How many clients have been asked in vain.
    asked: usize,
    /// Why the last of them was no help.
    last_error: Option<String>,
}

/// The model of a search.
pub struct SearchView {
    pub asked: nat,
    pub last_error: Option<Seq<char>>,
}

impl View for PlayerSearch {
    type V = SearchView;

    closed spec fn view(&self) -> SearchView {
        SearchView { asked: self.asked as nat, last_error: text_of(self.last_error) }
    }
}

/// What is done with what a client has answered.
#[derive(Debug, Clone, Copy, PartialEq, Eq)]
pub enum SearchStep {
    /// The answer holds no streams: go on with the next client.
    Next,
    /// The streams lack tokens: add some if that is possible, and take the answer.
    AddToken,
    /// Take the answer as it is.
    Take,
}

/// The search once a client has been asked in vain.
pub open spec fn after_failure(search: SearchView, error: Seq<char>) -> SearchView {
    SearchView { asked: search.asked + 1, last_error: Some(error) }
}

/// The error that a search ends with.
pub open spec fn search_error(search: SearchView) -> Seq<char> {
    match search.last_error {
        Some(error) => error,
        None => "error: no clients available"@,
    }
}

impl PlayerSearch {
    /// A search for which no client has been asked yet.
    pub fn new() -> (search: PlayerSearch)
        ensures
            search@ == (SearchView { asked: 0, last_error: None }),
    {
        PlayerSearch { asked: 0, last_error: None }
    }

    /// The client that is asked next, if there is one left.
    pub fn client(&self) -> (client: Option<PlayerClient>)
        ensures
            client == if self@.asked < clients().len() {
                Some(clients()[self@.asked as int])
            } else {
                None
            },
    {
        match self.asked {
            0 => Some(PlayerClient::Desktop),
            1 => Some(PlayerClient::Android),
            2 => Some(PlayerClient::Ios),
            3 => Some(PlayerClient::Tv),
            _ => None,
        }
    }

    /// Notes that the client that was asked has failed, and why.
    pub fn failed(&mut self, error: String)
        requires
            old(self)@.asked < clients().len(),
        ensures
            final(self)@ == after_failure(old(self)@, error@),
    {
        self.asked = self.asked + 1;
        self.last_error = Some(error);
    }

    /// Judges what the client `client` has answered.
    pub fn answered(&mut self, client: PlayerClient, player: &VideoPlayer) -> (step: SearchStep)
        requires
            old(self)@.asked < clients().len(),
        ensures
            step == if !has_streams(player@) {
                SearchStep::Next
            } else if !some_token(player@) {
                SearchStep::AddToken
            } else {
                SearchStep::Take
            },
            final(self)@ == if has_streams(player@) {
                old(self)@
            } else {
                after_failure(
                    old(self)@,
                    "error: "@ + client.spelling() + " returned no streams"@,
                )
            },
    {
        if !player.has_streams() {
            self.failed(concat3("error: ", client.name(), " returned no streams"));
            return SearchStep::Next;
        }
        if player.has_token() {
            SearchStep::Take
        } else {
            SearchStep::AddToken
        }
    }

    /// The error that the search ends with once no client is left.
    pub fn error(self) -> (error: String)
        ensures
            error@ == search_error(self@),
    {
        match self.last_error {
            Some(error) => error,
            None => "error: no clients available".to_owned(),
        }
    }
}

/// The client that is asked for the site's own description of a video once `failed` has been asked
/// in vain.
pub open spec fn next_raw_client(failed: Option<PlayerClient>) -> Option<PlayerClient> {
    match failed {
        None => Some(PlayerClient::Android),
        Some(PlayerClient::Android) => Some(PlayerClient::Ios),
        Some(_) => None,
    }
}

/// Picks the client that is asked for the site's own description of a video once `failed` has been
/// asked in vain.
pub fn raw_client(failed: Option<PlayerClient>) -> (client: Option<PlayerClient>)
    ensures
        client == next_raw_client(failed),
{
    match failed {
        None => Some(PlayerClient::Android),
        Some(PlayerClient::Android) => Some(PlayerClient::Ios),
        Some(_) => None,
    }
}

/// The error for a client that gave no description of a video.
pub fn raw_client_error(client: PlayerClient, error: &str) -> (failure: BackendError)
    ensures
        failure@ == ErrorView::ExtractionFailed(
            client.spelling() + " raw player error: "@ + error@,
        ),
{
    BackendError::ExtractionFailed(concat3(client.name(), " raw player error: ", error))
}

/// The error for a description of a video that the site did not give.
pub fn description_not_given(error: &str) -> (failure: BackendError)
    ensures
        failure@ == ErrorView::ExtractionFailed("raw player: "@ + error@),
{
    BackendError::ExtractionFailed(concat2("raw player: ", error))
}

/// The error for a description of a video that could not be read.
pub fn description_not_read(error: &str) -> (failure: BackendError)
    ensures
        failure@ == ErrorView::ExtractionFailed("parse player: "@ + error@),
{
    BackendError::ExtractionFailed(concat2("parse player: ", error))
}

/// The search once clients have failed one after the other.
pub open spec fn after_failures(errors: Seq<Seq<char>>) -> SearchView
    decreases errors.len(),
{
    if errors.len() == 0 {
        SearchView { asked: 0, last_error: None }
    } else {
        after_failure(after_failures(errors.drop_last()), errors.last())
    }
}

/// A search goes through the clients one by one, and the error that it ends with is that of the
/// client that failed last.
pub proof fn lemma_search_ends_with_last_error(errors: Seq<Seq<char>>)
    requires
        errors.len() > 0,
    ensures
        after_failures(errors).asked == errors.len(),
        search_error(after_failures(errors)) == errors.last(),
    decreases errors.len(),
{
    if errors.len() > 1 {
        lemma_search_ends_with_last_error(errors.drop_last());
    } else {
        assert(after_failures(errors.drop_last()).asked == 0);
    }
}

/// Each client is asked once: the desktop first, then both telephones, the television last.
pub proof fn lemma_every_client_is_asked(client: PlayerClient)
    ensures
        clients().contains(client),
        clients().no_duplicates(),
        clients().len() == 4,
        clients().first() == PlayerClient::Desktop,
        clients().last() == PlayerClient::Tv,
        clients().index_of(PlayerClient::Android) < clients().index_of(PlayerClient::Ios),
{
    let all = clients();
    assert(all[0] == PlayerClient::Desktop);
    assert(all[1] == PlayerClient::Android);
    assert(all[2] == PlayerClient::Ios);
    assert(all[3] == PlayerClient::Tv);
    assert(all.contains(all[0]) && all.contains(all[1]) && all.contains(all[2]) && all.contains(
        all[3],
    ));
}

/// Clients are called by their names, with a capital letter.
pub proof fn lemma_clients_by_name()
    ensures
        PlayerClient::Desktop.spelling() == seq!['D', 'e', 's', 'k', 't', 'o', 'p'],
        PlayerClient::Android.spelling() == seq!['A', 'n', 'd', 'r', 'o', 'i', 'd'],
        PlayerClient::Ios.spelling() == seq!['I', 'o', 's'],
        PlayerClient::Tv.spelling() == seq!['T', 'v'],
{
    reveal_strlit("Desktop");
    reveal_strlit("Android");
    reveal_strlit("Ios");
    reveal_strlit("Tv");
    assert("Desktop"@ =~= seq!['D', 'e', 's', 'k', 't', 'o', 'p']);
    assert("Android"@ =~= seq!['A', 'n', 'd', 'r', 'o', 'i', 'd']);
    assert("Ios"@ =~= seq!['I', 'o', 's']);
    assert("Tv"@ =~= seq!['T', 'v']);
}

/// For the site's own description both telephones are asked, Android first, and nobody else.
pub proof fn lemma_telephones_describe(failed: PlayerClient)
    ensures
        next_raw_client(None) == Some(PlayerClient::Android),
        next_raw_client(next_raw_client(None)) == Some(PlayerClient::Ios),
        failed != PlayerClient::Android ==> next_raw_client(Some(failed)) is None,
{
}

/// One failure takes the search one client further and replaces the error before it; a search
/// without a failure ends with an error of its own.
pub proof fn lemma_failure_is_noted(search: SearchView, error: Seq<char>, asked: nat)
    ensures
        after_failure(search, error).asked == search.asked + 1,
        search_error(after_failure(search, error)) == error,
        search_error(SearchView { asked, last_error: None }) == "error: no clients available"@,
{
}

} // verus!
