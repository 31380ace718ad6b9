//! Fetching streams: headers, answers, and trying again.

use crate::formats::{
    can_truncate, ext_for_mime, lemma_truncated_keeps_start, truncate_str, truncated,
};
use crate::merger::extension;
use crate::text::{concat2, concat3, text_trim, trim};
use crate::types::{BackendError, DownloadOutput, DownloadView, ErrorView};
use vstd::arithmetic::power2::{lemma2_to64, pow2};
use vstd::prelude::*;
use vstd::string::*;
use vstd::utf8::*;

verus! {

/// Calls `as_str` on `reqwest::header::RANGE`. Claims that the name of that header is `range`.
#[verifier::external_body]
fn range_header() -> (name: &'static str)
    ensures
        name@ == "range"@,
{
    reqwest::header::RANGE.as_str()
}

/// Calls `as_str` on `reqwest::header::ORIGIN`. Claims that the name of that header is `origin`.
#[verifier::external_body]
fn origin_header() -> (name: &'static str)
    ensures
        name@ == "origin"@,
{
    reqwest::header::ORIGIN.as_str()
}

/// Calls `as_str` on `reqwest::header::REFERER`. Claims that the name of that header is `referer`.
#[verifier::external_body]
fn referer_header() -> (name: &'static str)
    ensures
        name@ == "referer"@,
{
    reqwest::header::REFERER.as_str()
}

/// Calls `as_str` on `reqwest::header::COOKIE`. Claims that the name of that header is `cookie`.
#[verifier::external_body]
fn cookie_header() -> (name: &'static str)
    ensures
        name@ == "cookie"@,
{
    reqwest::header::COOKIE.as_str()
}

/// The names and values of headers.
pub open spec fn headers_of(list: Seq<(&str, &str)>) -> Seq<(Seq<char>, Seq<char>)> {
    list.map_values(|h: (&str, &str)| (h.0@, h.1@))
}

/// The headers with which streams are fetched: the whole stream is asked for, from the site's own
/// pages, for the given visitor.
pub fn build_cdn_headers<'a>(visitor_data: &'a str, cookie: &'a str) -> (headers: Vec<
    (&'a str, &'a str),
>)
    ensures
        headers_of(headers@) == seq![
            ("range"@, "bytes=0-"@),
            ("origin"@, "https://www.youtube.com"@),
            ("referer"@, "https://www.youtube.com/"@),
            ("X-Goog-Visitor-Id"@, visitor_data@),
            ("cookie"@, cookie@),
        ],
{
    let mut headers: Vec<(&'a str, &'a str)> = Vec::new();
    headers.push((range_header(), "bytes=0-"));
    headers.push((origin_header(), "https://www.youtube.com"));
    headers.push((referer_header(), "https://www.youtube.com/"));
    headers.push(("X-Goog-Visitor-Id", visitor_data));
    headers.push((cookie_header(), cookie));
    assert(headers_of(headers@) =~= seq![
        ("range"@, "bytes=0-"@),
        ("origin"@, "https://www.youtube.com"@),
        ("referer"@, "https://www.youtube.com/"@),
        ("X-Goog-Visitor-Id"@, visitor_data@),
        ("cookie"@, cookie@),
    ]);
    headers
}

/// Whether an answer with the given status brings the stream.
pub open spec fn is_success(status: u16) -> bool {
    200 <= status < 300
}

/// Reports whether an answer with the given status brings the stream.
pub fn status_is_success(status: u16) -> (success: bool)
    ensures
        success == is_success(status),
{
    200 <= status && status < 300
}

/// How many bytes of a refusal are quoted.
pub const QUOTED: usize = 200;

/// The text for an answer that refuses the stream.
pub open spec fn refusal(status: Seq<char>, body: Seq<char>) -> Seq<char> {
    "HTTP "@ + status + " - "@ + truncated(body, 200)
}

/// Writes the text for an answer that refuses the stream.
fn refusal_text(status: &str, body: &str) -> (text: String)
    requires
        can_truncate(body@, 200),
    ensures
        text@ == refusal(status@, body@),
{
    let mut text: String = concat3("HTTP ", status, " - ");
    text.append(truncate_str(body, QUOTED).as_str());
    text
}

/// The error for an answer that refuses the stream; `status` is the text of its status.
pub fn refused(status: &str, body: &str) -> (error: BackendError)
    requires
        can_truncate(body@, 200),
    ensures
        error@ == ErrorView::DownloadFailed(refusal(status@, body@)),
{
    BackendError::DownloadFailed(refusal_text(status, body))
}

/// The error for a stream that could not be asked for in order to hand it on.
pub fn stream_not_fetched(error: &str) -> (failure: BackendError)
    ensures
        failure@ == ErrorView::DownloadFailed("failed to fetch stream: "@ + error@),
{
    BackendError::DownloadFailed(concat2("failed to fetch stream: ", error))
}

/// The error for a stream that could not be asked for in order to store it.
pub fn file_not_fetched(error: &str) -> (failure: BackendError)
    ensures
        failure@ == ErrorView::DownloadFailed("fetch: "@ + error@),
{
    BackendError::DownloadFailed(concat2("fetch: ", error))
}

/// The error for a stream that broke off.
pub fn stream_broken(error: &str) -> (failure: BackendError)
    ensures
        failure@ == ErrorView::DownloadFailed("stream: "@ + error@),
{
    BackendError::DownloadFailed(concat2("stream: ", error))
}

/// How often a stream is asked for.
pub const ATTEMPTS: u32 = 3;

/// The milliseconds to wait after the attempt with the given number has failed.
pub open spec fn delay(attempt: nat) -> nat {
    500 * pow2(attempt)
}

/// How far the attempts to reach a stream have come.
#[derive(Debug)]
pub struct Retry {
    /// How many attempts have failed.
    failures: u32,
    /// Why the last of them failed.
    last_error: String,
}

/// The model of the attempts to reach a stream.
pub struct RetryView {
    pub failures: nat,
    pub last_error: Seq<char>,
}

impl View for Retry {
    type V = RetryView;

    closed spec fn view(&self) -> RetryView {
        RetryView { failures: self.failures as nat, last_error: self.last_error@ }
    }
}

impl Retry {
    /// No attempt has been made yet.
    pub fn new() -> (retry: Retry)
        ensures
            retry@ == (RetryView { failures: 0, last_error: seq![] }),
    {
        let retry = Retry { failures: 0, last_error: String::new() };
        assert(retry@.last_error =~= seq![]);
        retry
    }

    /// Reports whether there is an attempt left.
    pub fn may_try(&self) -> (may: bool)
        ensures
            may == (self@.failures < 3),
    {
        self.failures < ATTEMPTS
    }

    /// Notes why an attempt failed, and says how many milliseconds to wait.
    fn note(&mut self, error: String) -> (wait: u64)
        requires
            old(self)@.failures < 3,
        ensures
            final(self)@ == (RetryView { failures: old(self)@.failures + 1, last_error: error@ }),
            wait == delay(old(self)@.failures),
    {
        proof {
            lemma2_to64();
        }
        let wait: u64 = if self.failures == 0 {
            500
        } else if self.failures == 1 {
            1000
        } else {
            2000
        };
        self.failures = self.failures + 1;
        self.last_error = error;
        wait
    }

    /// Notes that the stream could not be asked for, and says how many milliseconds to wait.
    pub fn unreachable(&mut self, error: &str) -> (wait: u64)
        requires
            old(self)@.failures < 3,
        ensures
            final(self)@ == (RetryView {
                failures: old(self)@.failures + 1,
                last_error: "network: "@ + error@,
            }),
            wait == delay(old(self)@.failures),
    {
        self.note(concat2("network: ", error))
    }

    /// Notes that the stream was refused, and says how many milliseconds to wait; `status` is the
    /// text of the status.
    pub fn refused(&mut self, status: &str, body: &str) -> (wait: u64)
        requires
            old(self)@.failures < 3,
            can_truncate(body@, 200),
        ensures
            final(self)@ == (RetryView {
                failures: old(self)@.failures + 1,
                last_error: refusal(status@, body@),
            }),
            wait == delay(old(self)@.failures),
    {
        self.note(refusal_text(status, body))
    }

    /// The error once no attempt is left.
    pub fn error(&self) -> (error: BackendError)
        ensures
            error@ == ErrorView::DownloadFailed(
                "stream unreachable after retries: "@ + self@.last_error,
            ),
    {
        BackendError::DownloadFailed(
            concat2("stream unreachable after retries: ", self.last_error.as_str()),
        )
    }
}

/// Names the download of a stream of the type `mime` for a video with the title `title`.
pub fn stream_output(title: &str, mime: &str, size: Option<u64>) -> (output: DownloadOutput)
    ensures
        output@ == (DownloadView {
            filename: trim(title@) + "."@ + extension(mime@),
            content_type: "video/"@ + extension(mime@),
            size_hint: size,
        }),
{
    let ext = ext_for_mime(mime);
    DownloadOutput {
        filename: concat3(text_trim(title), ".", ext),
        content_type: concat2("video/", ext),
        size_hint: size,
    }
}

/// The milliseconds that are waited in all while `failures` attempts fail.
pub open spec fn waited(failures: nat) -> nat
    decreases failures,
{
    if failures == 0 {
        0
    } else {
        waited((failures - 1) as nat) + delay((failures - 1) as nat)
    }
}

/// Each wait is longer than all waits before it together.
pub proof fn lemma_waits_grow(failures: nat)
    ensures
        waited(failures) + 500 == delay(failures),
    decreases failures,
{
    lemma2_to64();
    if failures > 0 {
        let before = (failures - 1) as nat;
        lemma_waits_grow(before);
        vstd::arithmetic::power2::lemma_pow2_unfold(failures);
    }
}

/// The stream comes with those statuses whose first of three digits is a two.
pub proof fn lemma_success_starts_with_two(status: u16)
    ensures
        is_success(status) <==> status / 100 == 2,
{
}

/// The first wait takes half a second, and each wait twice as long as the one before it.
pub proof fn lemma_waits_double(attempt: nat)
    ensures
        delay(0) == 500,
        delay(attempt + 1) == 2 * delay(attempt),
{
    lemma2_to64();
    vstd::arithmetic::power2::lemma_pow2_unfold(attempt + 1);
}

/// A refusal is told with its status and its text: all of a text of at most two hundred bytes, and
/// else the first two hundred bytes and three dots.
pub proof fn lemma_refusal_is_quoted(status: Seq<char>, body: Seq<char>)
    requires
        can_truncate(body, 200),
    ensures
        encode_utf8(body).len() <= 200 ==> refusal(status, body) == "HTTP "@ + status + " - "@
            + body,
        encode_utf8(body).len() > 200 ==> exists|head: Seq<char>|
            head.is_prefix_of(body) && encode_utf8(head).len() == 200 && refusal(status, body)
                == "HTTP "@ + status + " - "@ + #[trigger] (head + "..."@),
{
    lemma_truncated_keeps_start(body, 200);
}

} // verus!
