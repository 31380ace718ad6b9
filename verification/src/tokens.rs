//! Tokens that show the site that a visitor is genuine.

use crate::backends::{BotguardPlace, PureRustBackend};
use crate::plans::known_visitor;
use crate::text::{concat2, first_word, str_of, text_first_word, text_of, texts};
use crate::types::{HealthStatus, HealthView};
use crate::utf8::{lossy_text, utf8_lossy_text, utf8_text};
use vstd::prelude::*;
use vstd::string::*;
use vstd::utf8::*;

verus! {

/// The arguments with which the program that makes tokens is run.
pub open spec fn token_arguments(
    snapshot: Option<Seq<char>>,
    visitor_data: Seq<char>,
    video_id: Option<Seq<char>>,
) -> Seq<Seq<char>> {
    let first = match snapshot {
        Some(file) => seq!["--snapshot-file"@, file, "--"@, visitor_data],
        None => seq!["--"@, visitor_data],
    };
    match video_id {
        Some(id) => first.push(id),
        None => first,
    }
}

/// The text, unless there is none or it is empty.
pub open spec fn non_empty(text: Option<Seq<char>>) -> Option<Seq<char>> {
    match text {
        Some(t) if t.len() > 0 => Some(t),
        _ => None,
    }
}

/// The data of the visitor for whom a token is made.
pub open spec fn token_visitor(known: Option<Seq<char>>, fetched: Option<Seq<char>>) -> Option<
    Seq<char>,
> {
    if non_empty(known) is Some {
        non_empty(known)
    } else {
        non_empty(fetched)
    }
}

/// The request for the site's description of a video.
#[derive(Debug)]
pub struct PlayerRequest {
    pub video_id: String,
    pub content_check_ok: bool,
    pub racy_check_ok: bool,
    pub po_token: Option<String>,
}

/// The model of a request for the site's description of a video.
pub struct PlayerRequestView {
    pub video_id: Seq<char>,
    pub content_check_ok: bool,
    pub racy_check_ok: bool,
    pub po_token: Option<Seq<char>>,
}

impl View for PlayerRequest {
    type V = PlayerRequestView;

    open spec fn view(&self) -> PlayerRequestView {
        PlayerRequestView {
            video_id: self.video_id@,
            content_check_ok: self.content_check_ok,
            racy_check_ok: self.racy_check_ok,
            po_token: text_of(self.po_token),
        }
    }
}

/// Copies `rustypipe::VERSION`. Claims that it is the version of that crate which this one is bound
/// to.
#[verifier::external_body]
fn rustypipe_version() -> (version: String)
    ensures
        version@ == "0.11.4"@,
{
    rustypipe::VERSION.to_string()
}

impl PureRustBackend {
    /// Reports whether there is a program that makes tokens.
    pub fn makes_tokens(&self) -> (makes: bool)
        ensures
            makes == (self.botguard != BotguardPlace::Nowhere),
    {
        match self.botguard {
            BotguardPlace::Nowhere => false,
            _ => true,
        }
    }

    /// The data of the visitor for whom a token is made: what is known of them, or else what was
    /// fetched. No token is made where that is empty.
    pub fn token_visitor(
        &self,
        known: &Option<String>,
        fetched: Option<String>,
    ) -> (visitor: Option<String>)
        ensures
            text_of(visitor) == token_visitor(text_of(*known), text_of(fetched)),
    {
        match known_visitor(known) {
            Some(data) => Some(data),
            None => known_visitor(&fetched),
        }
    }

    /// Lists the arguments with which the program that makes tokens is run: for one video, or for
    /// a whole session where no video is given.
    pub fn token_arguments(
        &self,
        snapshot: Option<&str>,
        visitor_data: &str,
        video_id: Option<&str>,
    ) -> (arguments: Vec<String>)
        ensures
            texts(arguments@) == token_arguments(
                str_of(snapshot),
                visitor_data@,
                str_of(video_id),
            ),
    {
        let mut list: Vec<String> = Vec::new();
        if let Some(file) = snapshot {
            list.push("--snapshot-file".to_owned());
            list.push(file.to_owned());
        }
        list.push("--".to_owned());
        list.push(visitor_data.to_owned());
        if let Some(id) = video_id {
            list.push(id.to_owned());
        }
        assert(texts(list@) =~= token_arguments(str_of(snapshot), visitor_data@, str_of(video_id)));
        list
    }

    /// The token for a video, which a finished run of the program that makes tokens has written:
    /// its first word, if there is such a program and the run succeeded.
    pub fn generate_po_token_safe(&self, success: bool, stdout: &[u8]) -> (token: Option<String>)
        ensures
            text_of(token) == if self.botguard != BotguardPlace::Nowhere && success {
                first_word(lossy_text(stdout@))
            } else {
                None
            },
    {
        if !self.makes_tokens() || !success {
            return None;
        }
        let text = utf8_lossy_text(stdout);
        match text_first_word(text.as_str()) {
            Some(word) => Some(word.to_owned()),
            None => None,
        }
    }

    /// The token for a session, which a finished run of the program that makes tokens has written:
    /// its first word, if there is such a program and the run succeeded and wrote UTF-8.
    pub fn generate_po_token(&self, success: bool, stdout: Vec<u8>) -> (token: Option<String>)
        ensures
            text_of(token) == if self.botguard != BotguardPlace::Nowhere && success && valid_utf8(
                stdout@,
            ) {
                first_word(decode_utf8(stdout@))
            } else {
                None
            },
    {
        if !self.makes_tokens() || !success {
            return None;
        }
        match utf8_text(stdout) {
            Some(text) => match text_first_word(text.as_str()) {
                Some(word) => Some(word.to_owned()),
                None => None,
            },
            None => None,
        }
    }

    /// The request for the site's description of a video, with a token where one was made.
    pub fn player_request(&self, video_id: &str, token: Option<String>) -> (request: PlayerRequest)
        ensures
            request@ == (PlayerRequestView {
                video_id: video_id@,
                content_check_ok: true,
                racy_check_ok: true,
                po_token: text_of(token),
            }),
    {
        PlayerRequest {
            video_id: video_id.to_owned(),
            content_check_ok: true,
            racy_check_ok: true,
            po_token: token,
        }
    }

    /// Says that this backend can be used, with the library of the given version.
    pub fn health_with(&self, version: &str) -> (status: HealthStatus)
        ensures
            status@ == (HealthView {
                backend_name: "Pure Rust (rustypipe)"@,
                available: true,
                version: Some("rustypipe "@ + version@),
            }),
    {
        HealthStatus {
            backend_name: self.name().to_owned(),
            available: true,
            version: Some(concat2("rustypipe ", version)),
        }
    }

    /// Says that this backend can be used.
    pub fn health(&self) -> (status: HealthStatus)
        ensures
            status@ == (HealthView {
                backend_name: "Pure Rust (rustypipe)"@,
                available: true,
                version: Some("rustypipe "@ + "0.11.4"@),
            }),
    {
        let version = rustypipe_version();
        self.health_with(version.as_str())
    }
}

/// The program is given the visitor behind two dashes. A snapshot adds two arguments in front, and
/// a video adds one at the end.
pub proof fn lemma_token_arguments_grow(
    snapshot: Option<Seq<char>>,
    file: Seq<char>,
    visitor_data: Seq<char>,
    video_id: Option<Seq<char>>,
    id: Seq<char>,
)
    ensures
        token_arguments(None, visitor_data, None) == seq![seq!['-', '-'], visitor_data],
        token_arguments(Some(file), visitor_data, video_id) == seq!["--snapshot-file"@, file]
            + token_arguments(None, visitor_data, video_id),
        token_arguments(snapshot, visitor_data, Some(id)) == token_arguments(
            snapshot,
            visitor_data,
            None,
        ).push(id),
{
    reveal_strlit("--");
    assert("--"@ =~= seq!['-', '-']);
    assert(token_arguments(Some(file), visitor_data, video_id) =~= seq!["--snapshot-file"@, file]
        + token_arguments(None, visitor_data, video_id));
}

/// A token is made for the visitor that is known, else for the one that was fetched; data that is
/// empty names no visitor.
pub proof fn lemma_known_visitor_first(known: Option<Seq<char>>, fetched: Option<Seq<char>>)
    ensures
        ({
            let visitor = token_visitor(known, fetched);
            let nobody = Seq::<char>::empty();
            &&& known is Some && known != Some(nobody) ==> visitor == known
            &&& (known is None || known == Some(nobody)) && fetched is Some && fetched != Some(
                nobody,
            ) ==> visitor == fetched
            &&& (known is None || known == Some(nobody)) && (fetched is None || fetched == Some(
                nobody,
            )) ==> visitor is None
        }),
{
    if known is Some && known->0.len() == 0 {
        assert(known->0 =~= Seq::empty());
    }
    if fetched is Some && fetched->0.len() == 0 {
        assert(fetched->0 =~= Seq::empty());
    }
}

} // verus!
