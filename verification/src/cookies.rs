//! The cookie that is sent along when streams are fetched.

use crate::text::{
    all_white, concat2, concat3, is_white, joined, lemma_joined_grows, lemma_trim_takes_white_only,
    lemma_until_gives_head, starts_with, text_join, text_starts_with, text_trim, text_until, texts,
    trim, until,
};
use crate::types::{BackendError, ErrorView};
use vstd::prelude::*;
use vstd::string::*;

verus! {

/// The cookie that says that the visitor has consented.
pub const CONSENT_COOKIE: &'static str = "SOCS=CAISAiAD";

/// For how many seconds a fetched cookie is used.
pub const COOKIE_LIFETIME: u64 = 1800;

/// Reports whether a cookie that was fetched `age` whole seconds ago is still used.
pub fn cookie_is_fresh(age: u64) -> (fresh: bool)
    ensures
        fresh == (age < 1800),
{
    age < COOKIE_LIFETIME
}

/// The name and value of the cookie that a header sets.
pub open spec fn cookie_pair(header: Seq<char>) -> Seq<char> {
    trim(until(header, ';'))
}

/// Whether a header sets the cookie that names the visitor.
pub open spec fn names_visitor(header: Seq<char>) -> bool {
    starts_with(until(header, ';'), "__Secure-YEC="@)
}

/// The last cookie that names the visitor, or the consent where none does.
pub open spec fn visitor_cookie(headers: Seq<Seq<char>>) -> Seq<char>
    decreases headers.len(),
{
    if headers.len() == 0 {
        "SOCS=CAISAiAD"@
    } else if names_visitor(headers.last()) {
        cookie_pair(headers.last())
    } else {
        visitor_cookie(headers.drop_last())
    }
}

/// The cookies that the headers set, put together; where there are not at least two of them, the
/// consent and the cookie that names the visitor.
pub open spec fn combined_cookies(headers: Seq<Seq<char>>) -> Seq<char> {
    if headers.len() > 1 {
        joined(headers.map_values(|h: Seq<char>| cookie_pair(h)), "; "@)
    } else {
        "SOCS=CAISAiAD"@ + "; "@ + visitor_cookie(headers)
    }
}

/// Puts together the cookies that the headers set.
pub fn combine_cookies(headers: &Vec<String>) -> (cookie: String)
    ensures
        cookie@ == combined_cookies(texts(headers@)),
{
    let ghost all = texts(headers@);
    let ghost pairs = all.map_values(|h: Seq<char>| cookie_pair(h));
    let mut cookies: Vec<String> = Vec::new();
    let mut visitor: String = CONSENT_COOKIE.to_owned();
    let mut i: usize = 0;
    while i < headers.len()
        invariant
            i <= headers@.len(),
            all == texts(headers@),
            pairs == all.map_values(|h: Seq<char>| cookie_pair(h)),
            texts(cookies@) =~= pairs.take(i as int),
            visitor@ == visitor_cookie(all.take(i as int)),
        decreases headers@.len() - i,
    {
        let ghost done = cookies@;
        let pair = text_until(headers[i].as_str(), ';');
        assert(all.take(i + 1).drop_last() =~= all.take(i as int));
        assert(all.take(i + 1).last() == headers@[i as int]@);
        cookies.push(text_trim(pair).to_owned());
        if text_starts_with(pair, "__Secure-YEC=") {
            visitor = text_trim(pair).to_owned();
        }
        i += 1;
        assert(texts(cookies@) =~= texts(done).push(pairs[i - 1]));
        assert(pairs.take(i as int) =~= pairs.take(i - 1).push(pairs[i - 1]));
    }
    assert(pairs.take(i as int) =~= pairs);
    assert(all.take(i as int) =~= all);
    if cookies.len() > 1 {
        text_join(&cookies, "; ")
    } else {
        concat3(CONSENT_COOKIE, "; ", visitor.as_str())
    }
}

/// What is done when the cookie is asked for.
#[derive(Debug)]
pub enum CookieStep {
    /// Use the cookie that is stored.
    Use(String),
    /// Fetch a new one.
    Fetch,
}

/// The model of what is done when the cookie is asked for.
pub enum CookieStepView {
    Use(Seq<char>),
    Fetch,
}

impl View for CookieStep {
    type V = CookieStepView;

    open spec fn view(&self) -> CookieStepView {
        match self {
            CookieStep::Use(cookie) => CookieStepView::Use(cookie@),
            CookieStep::Fetch => CookieStepView::Fetch,
        }
    }
}

/// The model of the stored cookie and the second at which it was fetched.
pub open spec fn stored_of(stored: Option<(String, u64)>) -> Option<(Seq<char>, u64)> {
    match stored {
        Some(kept) => Some((kept.0@, kept.1)),
        None => None,
    }
}

/// What is done when the cookie is asked for in the second `now`: one that was fetched less than
/// half an hour ago is used again.
pub open spec fn cookie_step(stored: Option<(Seq<char>, u64)>, now: u64) -> CookieStepView {
    match stored {
        Some(kept) if kept.1 <= now && now - kept.1 < 1800 => CookieStepView::Use(kept.0),
        _ => CookieStepView::Fetch,
    }
}

/// Decides what is done when the cookie is asked for in the second `now`. With the stored cookie
/// stands the second at which it was fetched.
pub fn next_cookie(stored: &Option<(String, u64)>, now: u64) -> (step: CookieStep)
    ensures
        step@ == cookie_step(stored_of(*stored), now),
{
    match stored {
        Some((cookie, fetched)) => if *fetched <= now && cookie_is_fresh(now - *fetched) {
            CookieStep::Use(cookie.as_str().to_owned())
        } else {
            CookieStep::Fetch
        },
        None => CookieStep::Fetch,
    }
}

/// The cookie that a fetch gives: what the headers of the answer set, or the error where the fetch
/// failed for the given reason.
pub open spec fn fetched_cookie(fetched: Result<Seq<Seq<char>>, Seq<char>>) -> Result<
    Seq<char>,
    ErrorView,
> {
    match fetched {
        Ok(headers) => Ok(combined_cookies(headers)),
        Err(reason) => Err(ErrorView::DownloadFailed("cookie fetch failed: "@ + reason)),
    }
}

/// What is stored once a fetch has ended in the second `now`: a failed one changes nothing.
pub open spec fn stored_after_fetch(
    stored: Option<(Seq<char>, u64)>,
    now: u64,
    fetched: Result<Seq<Seq<char>>, Seq<char>>,
) -> Option<(Seq<char>, u64)> {
    match fetched {
        Ok(headers) => Some((combined_cookies(headers), now)),
        Err(_) => stored,
    }
}

/// The model of how a fetch has ended.
pub open spec fn fetch_of(fetched: Result<Vec<String>, String>) -> Result<
    Seq<Seq<char>>,
    Seq<char>,
> {
    match fetched {
        Ok(headers) => Ok(texts(headers@)),
        Err(reason) => Err(reason@),
    }
}

/// The outcome of asking for the cookie in terms of the models.
pub open spec fn cookie_outcome(result: Result<String, BackendError>) -> Result<
    Seq<char>,
    ErrorView,
> {
    match result {
        Ok(cookie) => Ok(cookie@),
        Err(error) => Err(error@),
    }
}

/// Stores the cookie that a fetch gives, and hands it out.
pub fn keep_fetched(
    stored: &mut Option<(String, u64)>,
    now: u64,
    fetched: Result<Vec<String>, String>,
) -> (cookie: Result<String, BackendError>)
    ensures
        cookie_outcome(cookie) == fetched_cookie(fetch_of(fetched)),
        stored_of(*final(stored)) == stored_after_fetch(
            stored_of(*old(stored)),
            now,
            fetch_of(fetched),
        ),
{
    match fetched {
        Ok(headers) => {
            let cookie = combine_cookies(&headers);
            *stored = Some((cookie.as_str().to_owned(), now));
            Ok(cookie)
        },
        Err(reason) => Err(
            BackendError::DownloadFailed(concat2("cookie fetch failed: ", reason.as_str())),
        ),
    }
}

/// What asking for the cookie in the second `now` gives, and what is stored afterwards. `fetched`
/// is how a fetch ends, should one be made.
pub open spec fn cookie_call(
    stored: Option<(Seq<char>, u64)>,
    now: u64,
    fetched: Result<Seq<Seq<char>>, Seq<char>>,
) -> (Result<Seq<char>, ErrorView>, Option<(Seq<char>, u64)>) {
    match cookie_step(stored, now) {
        CookieStepView::Use(cookie) => (Ok(cookie), stored),
        CookieStepView::Fetch => (
            fetched_cookie(fetched),
            stored_after_fetch(stored, now, fetched),
        ),
    }
}

/// A cookie that was fetched less than 1800 seconds ago is handed out again: nothing is fetched,
/// and what is stored stays as it is.
pub proof fn lemma_fetched_cookie_is_used(
    stored: Option<(Seq<char>, u64)>,
    at: u64,
    fetched: Result<Seq<Seq<char>>, Seq<char>>,
    now: u64,
    other: Result<Seq<Seq<char>>, Seq<char>>,
)
    requires
        cookie_step(stored, at) is Fetch,
        fetched is Ok,
        at <= now,
        now - at < 1800,
    ensures
        ({
            let first = cookie_call(stored, at, fetched);
            &&& first.0 is Ok
            &&& cookie_step(first.1, now) == CookieStepView::Use(first.0->Ok_0)
            &&& cookie_call(first.1, now, other) == first
        }),
{
}

/// A stored cookie is used up to half an hour after it was fetched, and then a new one is fetched.
pub proof fn lemma_cookie_expires(cookie: Seq<char>, fetched: u64, age: u64, now: u64)
    requires
        now == fetched + age,
    ensures
        cookie_step(None, now) is Fetch,
        age < 30 * 60 ==> cookie_step(Some((cookie, fetched)), now) == CookieStepView::Use(cookie),
        age >= 30 * 60 ==> cookie_step(Some((cookie, fetched)), now) is Fetch,
{
}

/// A fetch that fails is reported with its reason, and leaves what is stored alone. One that
/// succeeds is stored under the second in which it ended, and what is stored is handed out.
pub proof fn lemma_fetch_is_kept(
    stored: Option<(Seq<char>, u64)>,
    now: u64,
    headers: Seq<Seq<char>>,
    reason: Seq<char>,
)
    requires
        cookie_step(stored, now) is Fetch,
    ensures
        ({
            let failed = cookie_call(stored, now, Err(reason));
            let done = cookie_call(stored, now, Ok(headers));
            &&& failed.0 == Err::<Seq<char>, ErrorView>(
                ErrorView::DownloadFailed("cookie fetch failed: "@ + reason),
            )
            &&& failed.1 == stored
            &&& done.0 is Ok
            &&& done.0->Ok_0 == combined_cookies(headers)
            &&& done.1 == Some((combined_cookies(headers), now))
        }),
{
}

/// Of a header the name and the value of the cookie are kept, whole: what stands in front of the
/// first semicolon, without the white space around it.
pub proof fn lemma_pair_is_kept(
    left: Seq<char>,
    pair: Seq<char>,
    right: Seq<char>,
    rest: Seq<char>,
)
    requires
        all_white(left),
        all_white(right),
        pair.len() > 0 ==> !is_white(pair[0]) && !is_white(pair.last()),
        !pair.contains(';'),
    ensures
        cookie_pair(left + pair + right) == pair,
        cookie_pair(left + pair + right + seq![';'] + rest) == pair,
{
    let front = left + pair + right;
    assert(!front.contains(';')) by {
        if front.contains(';') {
            let k = choose|k: int| 0 <= k < front.len() && front[k] == ';';
            if k < left.len() {
                assert(is_white(left[k]));
            } else if k < left.len() + pair.len() {
                assert(pair[k - left.len()] == ';');
            } else {
                assert(is_white(right[k - left.len() - pair.len()]));
            }
        }
    }
    lemma_until_gives_head(front, ';', rest);
    lemma_trim_takes_white_only(left, pair, right);
}

/// Two cookies or more are all sent, in the order of their headers, with a semicolon and a blank
/// between them.
pub proof fn lemma_cookies_one_by_one(headers: Seq<Seq<char>>, first: Seq<char>, next: Seq<char>)
    ensures
        combined_cookies(seq![first, next]) == cookie_pair(first) + seq![';', ' '] + cookie_pair(
            next,
        ),
        headers.len() >= 2 ==> combined_cookies(headers.push(next)) == combined_cookies(headers)
            + seq![';', ' '] + cookie_pair(next),
{
    reveal_strlit("; ");
    let glue = seq![';', ' '];
    assert("; "@ =~= glue);
    let pair = |h: Seq<char>| cookie_pair(h);
    let one = seq![cookie_pair(first)];
    lemma_joined_grows(one, cookie_pair(next), glue);
    lemma_joined_grows(seq![], cookie_pair(first), glue);
    assert(seq![first, next].map_values(pair) =~= one.push(cookie_pair(next)));
    lemma_joined_grows(headers.map_values(pair), cookie_pair(next), glue);
    assert(headers.push(next).map_values(pair) =~= headers.map_values(pair).push(
        cookie_pair(next),
    ));
}

/// Where one header at most sets a cookie, the consent is sent, and behind it the cookie that names
/// the visitor, or the consent again where there is none.
pub proof fn lemma_lone_cookie(header: Seq<char>, value: Seq<char>, rest: Seq<char>)
    requires
        value.len() > 0 ==> !is_white(value.last()),
        !value.contains(';'),
    ensures
        ({
            let consent = "SOCS=CAISAiAD"@;
            let visitor = "__Secure-YEC="@ + value;
            &&& combined_cookies(Seq::empty()) == consent + seq![';', ' '] + consent
            &&& combined_cookies(seq![visitor]) == consent + seq![';', ' '] + visitor
            &&& combined_cookies(seq![visitor + seq![';'] + rest]) == consent + seq![';', ' ']
                + visitor
            &&& !starts_with(header, "__Secure-YEC="@) ==> combined_cookies(seq![header]) == consent
                + seq![';', ' '] + consent
        }),
{
    reveal_strlit("; ");
    assert("; "@ =~= seq![';', ' ']);
    reveal_strlit("__Secure-YEC=");
    let name = "__Secure-YEC="@;
    let visitor = name + value;
    let none: Seq<char> = seq![];
    assert(visitor.last() == if value.len() > 0 {
        value.last()
    } else {
        '='
    });
    assert(!visitor.contains(';')) by {
        if visitor.contains(';') {
            let k = choose|k: int| 0 <= k < visitor.len() && visitor[k] == ';';
            if k >= name.len() {
                assert(value[k - name.len()] == ';');
            }
        }
    }
    assert(none + visitor + none =~= visitor);
    lemma_pair_is_kept(none, visitor, none, rest);
    lemma_until_gives_head(visitor, ';', rest);
    assert(visitor.subrange(0, name.len() as int) =~= name);
    let empty = Seq::<Seq<char>>::empty();
    let alone = seq![visitor];
    let more = seq![visitor + seq![';'] + rest];
    assert(alone.last() == visitor && more.last() == visitor + seq![';'] + rest);
    assert(visitor_cookie(alone) == visitor);
    assert(visitor_cookie(more) == visitor);
    let other = seq![header];
    assert(other.last() == header);
    assert(other.drop_last() =~= empty);
    if names_visitor(header) {
        lemma_until_is_prefix(header, ';');
        let front = until(header, ';');
        assert(header.subrange(0, name.len() as int) =~= front.subrange(0, name.len() as int));
    }
}

/// What stands in front of the first `stop` is what the text starts with.
proof fn lemma_until_is_prefix(text: Seq<char>, stop: char)
    ensures
        until(text, stop).len() <= text.len(),
        until(text, stop) == text.subrange(0, until(text, stop).len() as int),
    decreases text.len(),
{
    if text.len() > 0 && text[0] != stop {
        let tail = text.drop_first();
        lemma_until_is_prefix(tail, stop);
        let front = until(tail, stop);
        assert(until(text, stop) =~= text.subrange(0, (front.len() + 1) as int)) by {
            assert forall|i: int| 0 <= i < front.len() implies front[i] == text[i + 1] by {
                assert(front[i] == tail.subrange(0, front.len() as int)[i]);
            }
        }
    }
}

} // verus!
