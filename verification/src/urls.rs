//! The addresses of videos and of their streams.

use crate::text::{
    contains, lemma_starts_with_is_split, lemma_until_gives_head, occurs_at, starts_with, str_of,
    text_contains, text_of, text_starts_with, text_strip_prefix, text_trim, text_until, trim, until,
};
use vstd::prelude::*;
use vstd::string::*;

verus! {

/// What follows `prefix` in `url`, up to the first `stop`.
pub open spec fn id_behind(url: Seq<char>, prefix: Seq<char>, stop: char) -> Seq<char> {
    until(url.subrange(prefix.len() as int, url.len() as int), stop)
}

/// The video that an address of the site itself names.
pub open spec fn site_video_id(url: Seq<char>) -> Option<Seq<char>> {
    if starts_with(url, "https://www.youtube.com/watch?v="@) {
        Some(id_behind(url, "https://www.youtube.com/watch?v="@, '&'))
    } else if starts_with(url, "https://youtube.com/watch?v="@) {
        Some(id_behind(url, "https://youtube.com/watch?v="@, '&'))
    } else if starts_with(url, "https://m.youtube.com/watch?v="@) {
        Some(id_behind(url, "https://m.youtube.com/watch?v="@, '&'))
    } else if starts_with(url, "https://youtu.be/"@) {
        Some(id_behind(url, "https://youtu.be/"@, '?'))
    } else {
        None
    }
}

/// The video that an address names, the spelling with a hyphen included.
pub open spec fn video_id(url: Seq<char>) -> Option<Seq<char>> {
    if site_video_id(url) is Some {
        site_video_id(url)
    } else if starts_with(url, "https://www.yout-ube.com/watch?v="@) {
        Some(id_behind(url, "https://www.yout-ube.com/watch?v="@, '&'))
    } else if starts_with(url, "https://yout-ube.com/watch?v="@) {
        Some(id_behind(url, "https://yout-ube.com/watch?v="@, '&'))
    } else {
        None
    }
}

/// Whether an address leads to one of the known hosts.
pub open spec fn known_host(url: Seq<char>) -> bool {
    ||| starts_with(url, "https://www.youtube.com/"@)
    ||| starts_with(url, "https://youtube.com/"@)
    ||| starts_with(url, "https://youtu.be/"@)
    ||| starts_with(url, "https://m.youtube.com/"@)
    ||| starts_with(url, "https://www.yout-ube.com/"@)
    ||| starts_with(url, "https://yout-ube.com/"@)
}

/// Whether the address of a stream carries a token.
pub open spec fn has_token(url: Seq<char>) -> bool {
    contains(url, "pot="@)
}

/// The address of a stream with the token `pot` added, unless it carries one already.
pub open spec fn with_token(url: Seq<char>, pot: Seq<char>) -> Seq<char> {
    if has_token(url) {
        url
    } else if contains(url, "?"@) {
        url + "&"@ + "pot="@ + pot
    } else {
        url + "?"@ + "pot="@ + pot
    }
}

/// Reports whether an address leads to one of the known hosts.
pub fn sanitize_url(url: &str) -> (sane: bool)
    ensures
        sane == known_host(url@),
{
    text_starts_with(url, "https://www.youtube.com/") || text_starts_with(
        url,
        "https://youtube.com/",
    ) || text_starts_with(url, "https://youtu.be/") || text_starts_with(
        url,
        "https://m.youtube.com/",
    ) || text_starts_with(url, "https://www.yout-ube.com/") || text_starts_with(
        url,
        "https://yout-ube.com/",
    )
}

/// The video that an address of the site itself names.
pub fn extract_video_id_from_url<'a>(url: &'a str) -> (id: Option<&'a str>)
    ensures
        str_of(id) == site_video_id(url@),
{
    if let Some(rest) = text_strip_prefix(url, "https://www.youtube.com/watch?v=") {
        return Some(text_until(rest, '&'));
    }
    if let Some(rest) = text_strip_prefix(url, "https://youtube.com/watch?v=") {
        return Some(text_until(rest, '&'));
    }
    if let Some(rest) = text_strip_prefix(url, "https://m.youtube.com/watch?v=") {
        return Some(text_until(rest, '&'));
    }
    if let Some(rest) = text_strip_prefix(url, "https://youtu.be/") {
        return Some(text_until(rest, '?'));
    }
    None
}

/// The video that an address names once the white space around it is gone.
pub fn extract_video_id(url: &str) -> (id: Option<String>)
    ensures
        text_of(id) == video_id(trim(url@)),
{
    let url = text_trim(url);
    if let Some(id) = extract_video_id_from_url(url) {
        return Some(id.to_owned());
    }
    if let Some(rest) = text_strip_prefix(url, "https://www.yout-ube.com/watch?v=") {
        return Some(text_until(rest, '&').to_owned());
    }
    if let Some(rest) = text_strip_prefix(url, "https://yout-ube.com/watch?v=") {
        return Some(text_until(rest, '&').to_owned());
    }
    None
}

/// Reports whether the address of a stream carries a token.
pub fn url_has_token(url: &str) -> (has: bool)
    ensures
        has == has_token(url@),
{
    text_contains(url, "pot=")
}

/// Adds the token `pot` to the address of a stream, unless it carries one already.
pub fn inject_pot(url: &str, pot: &str) -> (out: String)
    ensures
        out@ == with_token(url@, pot@),
{
    let mut out: String = url.to_owned();
    if url_has_token(url) {
        return out;
    }
    if text_contains(url, "?") {
        out.append("&");
    } else {
        out.append("?");
    }
    out.append("pot=");
    out.append(pot);
    out
}

/// An address that has been given a token carries one, and is left alone from then on.
pub proof fn lemma_token_added_once(url: Seq<char>, pot: Seq<char>, other: Seq<char>)
    ensures
        has_token(with_token(url, pot)),
        with_token(with_token(url, pot), other) == with_token(url, pot),
{
    reveal_strlit("pot=");
    reveal_strlit("?");
    reveal_strlit("&");
    let out = with_token(url, pot);
    if !has_token(url) {
        let at = url.len() as int + 1;
        assert(out.subrange(at, at + 4) =~= "pot="@);
        assert(occurs_at(out, "pot="@, at));
    }
}

/// Text that starts with a longer prefix starts with each prefix of it.
proof fn lemma_shorter_prefix(text: Seq<char>, long: Seq<char>, short: Seq<char>)
    requires
        starts_with(text, long),
        starts_with(long, short),
    ensures
        starts_with(text, short),
{
    assert(text.subrange(0, short.len() as int) =~= long.subrange(0, short.len() as int)) by {
        assert forall|i: int| 0 <= i < short.len() implies text[i] == long[i] by {
            assert(text.subrange(0, long.len() as int)[i] == text[i]);
        }
    }
}

/// Every address that names a video leads to one of the known hosts.
pub proof fn lemma_named_video_is_on_known_host(url: Seq<char>)
    requires
        video_id(url) is Some,
    ensures
        known_host(url),
{
    reveal_strlit("https://www.youtube.com/watch?v=");
    reveal_strlit("https://youtube.com/watch?v=");
    reveal_strlit("https://m.youtube.com/watch?v=");
    reveal_strlit("https://www.yout-ube.com/watch?v=");
    reveal_strlit("https://yout-ube.com/watch?v=");
    reveal_strlit("https://www.youtube.com/");
    reveal_strlit("https://youtube.com/");
    reveal_strlit("https://m.youtube.com/");
    reveal_strlit("https://www.yout-ube.com/");
    reveal_strlit("https://yout-ube.com/");
    if starts_with(url, "https://www.youtube.com/watch?v="@) {
        assert("https://www.youtube.com/watch?v="@.subrange(0, 24) =~= "https://www.youtube.com/"@);
        lemma_shorter_prefix(
            url,
            "https://www.youtube.com/watch?v="@,
            "https://www.youtube.com/"@,
        );
    } else if starts_with(url, "https://youtube.com/watch?v="@) {
        assert("https://youtube.com/watch?v="@.subrange(0, 20) =~= "https://youtube.com/"@);
        lemma_shorter_prefix(url, "https://youtube.com/watch?v="@, "https://youtube.com/"@);
    } else if starts_with(url, "https://m.youtube.com/watch?v="@) {
        assert("https://m.youtube.com/watch?v="@.subrange(0, 22) =~= "https://m.youtube.com/"@);
        lemma_shorter_prefix(url, "https://m.youtube.com/watch?v="@, "https://m.youtube.com/"@);
    } else if starts_with(url, "https://www.yout-ube.com/watch?v="@) {
        assert("https://www.yout-ube.com/watch?v="@.subrange(0, 25)
            =~= "https://www.yout-ube.com/"@);
        lemma_shorter_prefix(
            url,
            "https://www.yout-ube.com/watch?v="@,
            "https://www.yout-ube.com/"@,
        );
    } else if starts_with(url, "https://yout-ube.com/watch?v="@) {
        assert("https://yout-ube.com/watch?v="@.subrange(0, 21) =~= "https://yout-ube.com/"@);
        lemma_shorter_prefix(url, "https://yout-ube.com/watch?v="@, "https://yout-ube.com/"@);
    }
}

proof fn lemma_until_lacks(text: Seq<char>, stop: char)
    ensures
        !until(text, stop).contains(stop),
    decreases text.len(),
{
    if text.len() > 0 && text[0] != stop {
        lemma_until_lacks(text.drop_first(), stop);
        let rest = until(text.drop_first(), stop);
        let all = seq![text[0]] + rest;
        assert(until(text, stop) == all);
        assert forall|i: int| 0 <= i < all.len() implies all[i] != stop by {
            if i > 0 {
                assert(all[i] == rest[i - 1]);
            }
        }
    }
}

/// The name of a video holds no further query parameter: it ends in front of the first `?` where
/// the address has the short host, and in front of the first `&` elsewhere.
pub proof fn lemma_video_id_ends_at_parameter(url: Seq<char>)
    requires
        video_id(url) is Some,
    ensures
        !video_id(url)->0.contains(
            if starts_with(url, "https://youtu.be/"@) {
                '?'
            } else {
                '&'
            },
        ),
{
    let after = |prefix: Seq<char>| url.subrange(prefix.len() as int, url.len() as int);
    lemma_until_lacks(after("https://www.youtube.com/watch?v="@), '&');
    lemma_until_lacks(after("https://youtube.com/watch?v="@), '&');
    lemma_until_lacks(after("https://m.youtube.com/watch?v="@), '&');
    lemma_until_lacks(after("https://youtu.be/"@), '?');
    lemma_until_lacks(after("https://www.yout-ube.com/watch?v="@), '&');
    lemma_until_lacks(after("https://yout-ube.com/watch?v="@), '&');
    reveal_strlit("https://www.youtube.com/watch?v=");
    reveal_strlit("https://youtube.com/watch?v=");
    reveal_strlit("https://m.youtube.com/watch?v=");
    reveal_strlit("https://youtu.be/");
    if starts_with(url, "https://youtu.be/"@) {
        assert(url.subrange(0, 17)[8] == url[8] && url.subrange(0, 17)[13] == url[13]);
        assert(url[8] == 'y' && url[13] == '.');
        if starts_with(url, "https://www.youtube.com/watch?v="@) {
            assert(url.subrange(0, 32)[8] == url[8]);
        }
        if starts_with(url, "https://youtube.com/watch?v="@) {
            assert(url.subrange(0, 28)[13] == url[13]);
        }
        if starts_with(url, "https://m.youtube.com/watch?v="@) {
            assert(url.subrange(0, 30)[8] == url[8]);
        }
    }
}

/// Where an address of the site itself names a video, `extract_video_id` names the same one for
/// it, provided that no white space stands around the address.
pub proof fn lemma_site_id_is_video_id(url: Seq<char>)
    requires
        site_video_id(url) is Some,
        trim(url) == url,
    ensures
        video_id(trim(url)) == site_video_id(url),
{
}

proof fn lemma_until_before_stop(text: Seq<char>, stop: char, rest: Seq<char>)
    ensures
        until(text + seq![stop] + rest, stop) == until(text, stop),
    decreases text.len(),
{
    let all = text + seq![stop] + rest;
    if text.len() == 0 {
        assert(all[0] == stop);
    } else if text[0] != stop {
        lemma_until_before_stop(text.drop_first(), stop, rest);
        assert(all.drop_first() =~= text.drop_first() + seq![stop] + rest);
        assert(all[0] == text[0]);
    } else {
        assert(all[0] == stop);
    }
}

proof fn lemma_same_id(url: Seq<char>, prefix: Seq<char>, stop: char, rest: Seq<char>)
    requires
        starts_with(url, prefix),
    ensures
        starts_with(url + seq![stop] + rest, prefix),
        id_behind(url + seq![stop] + rest, prefix, stop) == id_behind(url, prefix, stop),
{
    let all = url + seq![stop] + rest;
    let n = prefix.len() as int;
    let behind = url.subrange(n, url.len() as int);
    assert(all.subrange(0, n) =~= url.subrange(0, n));
    assert(all.subrange(n, all.len() as int) =~= behind + seq![stop] + rest);
    lemma_until_before_stop(behind, stop, rest);
}

proof fn lemma_other_prefix(url: Seq<char>, prefix: Seq<char>, other: Seq<char>, k: int)
    requires
        starts_with(url, prefix),
        0 <= k < prefix.len(),
        k < other.len(),
        prefix[k] != other[k],
    ensures
        !starts_with(url, other),
{
    assert(url.subrange(0, prefix.len() as int)[k] == url[k]);
    if starts_with(url, other) {
        assert(url.subrange(0, other.len() as int)[k] == url[k]);
    }
}

/// A further query parameter behind an address leaves the name of its video as it is. It is put
/// behind a `?` where the address has the short host, and behind a `&` elsewhere.
pub proof fn lemma_parameter_keeps_video_id(url: Seq<char>, rest: Seq<char>)
    requires
        video_id(url) is Some,
    ensures
        ({
            let stop = if starts_with(url, "https://youtu.be/"@) {
                '?'
            } else {
                '&'
            };
            video_id(url + seq![stop] + rest) == video_id(url)
        }),
{
    let stop = if starts_with(url, "https://youtu.be/"@) {
        '?'
    } else {
        '&'
    };
    let all = url + seq![stop] + rest;
    let www = "https://www.youtube.com/watch?v="@;
    let plain = "https://youtube.com/watch?v="@;
    let mobile = "https://m.youtube.com/watch?v="@;
    let short = "https://youtu.be/"@;
    let www_hyphen = "https://www.yout-ube.com/watch?v="@;
    let hyphen = "https://yout-ube.com/watch?v="@;
    reveal_strlit("https://www.youtube.com/watch?v=");
    reveal_strlit("https://youtube.com/watch?v=");
    reveal_strlit("https://m.youtube.com/watch?v=");
    reveal_strlit("https://youtu.be/");
    reveal_strlit("https://www.yout-ube.com/watch?v=");
    reveal_strlit("https://yout-ube.com/watch?v=");
    if starts_with(url, www) {
        lemma_same_id(url, www, stop, rest);
        lemma_other_prefix(all, www, short, 8);
        lemma_other_prefix(url, www, short, 8);
    } else if starts_with(url, plain) {
        lemma_same_id(url, plain, stop, rest);
        lemma_other_prefix(all, plain, www, 8);
        lemma_other_prefix(all, plain, short, 13);
        lemma_other_prefix(url, plain, short, 13);
    } else if starts_with(url, mobile) {
        lemma_same_id(url, mobile, stop, rest);
        lemma_other_prefix(all, mobile, www, 8);
        lemma_other_prefix(all, mobile, plain, 8);
        lemma_other_prefix(all, mobile, short, 8);
        lemma_other_prefix(url, mobile, short, 8);
    } else if starts_with(url, short) {
        lemma_same_id(url, short, stop, rest);
        lemma_other_prefix(all, short, www, 8);
        lemma_other_prefix(all, short, plain, 13);
        lemma_other_prefix(all, short, mobile, 8);
    } else if starts_with(url, www_hyphen) {
        lemma_same_id(url, www_hyphen, stop, rest);
        lemma_other_prefix(all, www_hyphen, www, 16);
        lemma_other_prefix(all, www_hyphen, plain, 8);
        lemma_other_prefix(all, www_hyphen, mobile, 8);
        lemma_other_prefix(all, www_hyphen, short, 8);
        lemma_other_prefix(url, www_hyphen, short, 8);
    } else if starts_with(url, hyphen) {
        lemma_same_id(url, hyphen, stop, rest);
        lemma_other_prefix(all, hyphen, www, 8);
        lemma_other_prefix(all, hyphen, plain, 12);
        lemma_other_prefix(all, hyphen, mobile, 8);
        lemma_other_prefix(all, hyphen, short, 12);
        lemma_other_prefix(url, hyphen, short, 12);
        lemma_other_prefix(all, hyphen, www_hyphen, 8);
    }
}

proof fn lemma_id_behind(prefix: Seq<char>, id: Seq<char>, stop: char, rest: Seq<char>)
    requires
        !id.contains(stop),
    ensures
        starts_with(prefix + id, prefix),
        id_behind(prefix + id, prefix, stop) == id,
        starts_with(prefix + id + seq![stop] + rest, prefix),
        id_behind(prefix + id + seq![stop] + rest, prefix, stop) == id,
{
    let n = prefix.len() as int;
    let url = prefix + id;
    let long = url + seq![stop] + rest;
    assert(url.subrange(0, n) =~= prefix);
    assert(long.subrange(0, n) =~= prefix);
    assert(url.subrange(n, url.len() as int) =~= id);
    assert(long.subrange(n, long.len() as int) =~= id + seq![stop] + rest);
    lemma_until_gives_head(id, stop, rest);
}

/// The whole name of a video comes back from its address on a watch page, with or without further
/// parameters behind it.
pub proof fn lemma_watched_id_is_whole(id: Seq<char>, rest: Seq<char>)
    requires
        !id.contains('&'),
    ensures
        video_id("https://www.youtube.com/watch?v="@ + id) == Some(id),
        video_id("https://www.youtube.com/watch?v="@ + id + seq!['&'] + rest) == Some(id),
        site_video_id("https://www.youtube.com/watch?v="@ + id) == Some(id),
        site_video_id("https://www.youtube.com/watch?v="@ + id + seq!['&'] + rest) == Some(id),
        video_id("https://youtube.com/watch?v="@ + id) == Some(id),
        video_id("https://youtube.com/watch?v="@ + id + seq!['&'] + rest) == Some(id),
        site_video_id("https://youtube.com/watch?v="@ + id) == Some(id),
        site_video_id("https://youtube.com/watch?v="@ + id + seq!['&'] + rest) == Some(id),
        video_id("https://m.youtube.com/watch?v="@ + id) == Some(id),
        video_id("https://m.youtube.com/watch?v="@ + id + seq!['&'] + rest) == Some(id),
        site_video_id("https://m.youtube.com/watch?v="@ + id) == Some(id),
        site_video_id("https://m.youtube.com/watch?v="@ + id + seq!['&'] + rest) == Some(id),
        video_id("https://www.yout-ube.com/watch?v="@ + id) == Some(id),
        video_id("https://www.yout-ube.com/watch?v="@ + id + seq!['&'] + rest) == Some(id),
        video_id("https://yout-ube.com/watch?v="@ + id) == Some(id),
        video_id("https://yout-ube.com/watch?v="@ + id + seq!['&'] + rest) == Some(id),
{
    let www = "https://www.youtube.com/watch?v="@;
    let plain = "https://youtube.com/watch?v="@;
    let mobile = "https://m.youtube.com/watch?v="@;
    let short = "https://youtu.be/"@;
    let www_hyphen = "https://www.yout-ube.com/watch?v="@;
    let hyphen = "https://yout-ube.com/watch?v="@;
    reveal_strlit("https://www.youtube.com/watch?v=");
    reveal_strlit("https://youtube.com/watch?v=");
    reveal_strlit("https://m.youtube.com/watch?v=");
    reveal_strlit("https://youtu.be/");
    reveal_strlit("https://www.yout-ube.com/watch?v=");
    reveal_strlit("https://yout-ube.com/watch?v=");
    lemma_id_behind(www, id, '&', rest);
    lemma_id_behind(plain, id, '&', rest);
    lemma_id_behind(mobile, id, '&', rest);
    lemma_id_behind(www_hyphen, id, '&', rest);
    lemma_id_behind(hyphen, id, '&', rest);
    lemma_other_prefix(plain + id, plain, www, 8);
    lemma_other_prefix(plain + id + seq!['&'] + rest, plain, www, 8);
    lemma_other_prefix(mobile + id, mobile, www, 8);
    lemma_other_prefix(mobile + id + seq!['&'] + rest, mobile, www, 8);
    lemma_other_prefix(mobile + id, mobile, plain, 8);
    lemma_other_prefix(mobile + id + seq!['&'] + rest, mobile, plain, 8);
    lemma_other_prefix(www_hyphen + id, www_hyphen, www, 16);
    lemma_other_prefix(www_hyphen + id + seq!['&'] + rest, www_hyphen, www, 16);
    lemma_other_prefix(www_hyphen + id, www_hyphen, plain, 8);
    lemma_other_prefix(www_hyphen + id + seq!['&'] + rest, www_hyphen, plain, 8);
    lemma_other_prefix(www_hyphen + id, www_hyphen, mobile, 8);
    lemma_other_prefix(www_hyphen + id + seq!['&'] + rest, www_hyphen, mobile, 8);
    lemma_other_prefix(www_hyphen + id, www_hyphen, short, 8);
    lemma_other_prefix(www_hyphen + id + seq!['&'] + rest, www_hyphen, short, 8);
    lemma_other_prefix(hyphen + id, hyphen, www, 8);
    lemma_other_prefix(hyphen + id + seq!['&'] + rest, hyphen, www, 8);
    lemma_other_prefix(hyphen + id, hyphen, plain, 12);
    lemma_other_prefix(hyphen + id + seq!['&'] + rest, hyphen, plain, 12);
    lemma_other_prefix(hyphen + id, hyphen, mobile, 8);
    lemma_other_prefix(hyphen + id + seq!['&'] + rest, hyphen, mobile, 8);
    lemma_other_prefix(hyphen + id, hyphen, short, 12);
    lemma_other_prefix(hyphen + id + seq!['&'] + rest, hyphen, short, 12);
    lemma_other_prefix(hyphen + id, hyphen, www_hyphen, 8);
    lemma_other_prefix(hyphen + id + seq!['&'] + rest, hyphen, www_hyphen, 8);
}

/// The whole name of a video comes back from its short address, with or without parameters behind
/// it.
pub proof fn lemma_short_id_is_whole(id: Seq<char>, rest: Seq<char>)
    requires
        !id.contains('?'),
    ensures
        video_id("https://youtu.be/"@ + id) == Some(id),
        video_id("https://youtu.be/"@ + id + seq!['?'] + rest) == Some(id),
        site_video_id("https://youtu.be/"@ + id) == Some(id),
        site_video_id("https://youtu.be/"@ + id + seq!['?'] + rest) == Some(id),
{
    let www = "https://www.youtube.com/watch?v="@;
    let plain = "https://youtube.com/watch?v="@;
    let mobile = "https://m.youtube.com/watch?v="@;
    let short = "https://youtu.be/"@;
    let www_hyphen = "https://www.yout-ube.com/watch?v="@;
    let hyphen = "https://yout-ube.com/watch?v="@;
    reveal_strlit("https://www.youtube.com/watch?v=");
    reveal_strlit("https://youtube.com/watch?v=");
    reveal_strlit("https://m.youtube.com/watch?v=");
    reveal_strlit("https://youtu.be/");
    reveal_strlit("https://www.yout-ube.com/watch?v=");
    reveal_strlit("https://yout-ube.com/watch?v=");
    lemma_id_behind(short, id, '?', rest);
    lemma_other_prefix(short + id, short, www, 8);
    lemma_other_prefix(short + id + seq!['?'] + rest, short, www, 8);
    lemma_other_prefix(short + id, short, plain, 13);
    lemma_other_prefix(short + id + seq!['?'] + rest, short, plain, 13);
    lemma_other_prefix(short + id, short, mobile, 8);
    lemma_other_prefix(short + id + seq!['?'] + rest, short, mobile, 8);
}

/// A video is named by addresses on these pages and by no others.
pub proof fn lemma_only_known_pages_name_videos(url: Seq<char>)
    ensures
        video_id(url) is Some <==> {
            ||| starts_with(url, "https://www.youtube.com/watch?v="@)
            ||| starts_with(url, "https://youtube.com/watch?v="@)
            ||| starts_with(url, "https://m.youtube.com/watch?v="@)
            ||| starts_with(url, "https://youtu.be/"@)
            ||| starts_with(url, "https://www.yout-ube.com/watch?v="@)
            ||| starts_with(url, "https://yout-ube.com/watch?v="@)
        },
        site_video_id(url) is Some <==> {
            ||| starts_with(url, "https://www.youtube.com/watch?v="@)
            ||| starts_with(url, "https://youtube.com/watch?v="@)
            ||| starts_with(url, "https://m.youtube.com/watch?v="@)
            ||| starts_with(url, "https://youtu.be/"@)
        },
{
}

/// A text starts with what it was put together from first.
proof fn lemma_starts_with_front(front: Seq<char>, rest: Seq<char>)
    ensures
        starts_with(front + rest, front),
{
    assert((front + rest).subrange(0, front.len() as int) =~= front);
}

/// Whatever stands behind one of these hosts, the address leads to a known host.
pub proof fn lemma_pages_of_known_hosts(rest: Seq<char>)
    ensures
        known_host("https://www.youtube.com/"@ + rest),
        known_host("https://youtube.com/"@ + rest),
        known_host("https://youtu.be/"@ + rest),
        known_host("https://m.youtube.com/"@ + rest),
        known_host("https://www.yout-ube.com/"@ + rest),
        known_host("https://yout-ube.com/"@ + rest),
{
    lemma_starts_with_front("https://www.youtube.com/"@, rest);
    lemma_starts_with_front("https://youtube.com/"@, rest);
    lemma_starts_with_front("https://youtu.be/"@, rest);
    lemma_starts_with_front("https://m.youtube.com/"@, rest);
    lemma_starts_with_front("https://www.yout-ube.com/"@, rest);
    lemma_starts_with_front("https://yout-ube.com/"@, rest);
}

/// No other address leads to a known host.
pub proof fn lemma_no_other_hosts(url: Seq<char>)
    requires
        known_host(url),
    ensures
        (exists|rest: Seq<char>| url == #[trigger] ("https://www.youtube.com/"@ + rest))
            || (exists|rest: Seq<char>| url == #[trigger] ("https://youtube.com/"@ + rest))
            || (exists|rest: Seq<char>| url == #[trigger] ("https://youtu.be/"@ + rest))
            || (exists|rest: Seq<char>| url == #[trigger] ("https://m.youtube.com/"@ + rest))
            || (exists|rest: Seq<char>| url == #[trigger] ("https://www.yout-ube.com/"@ + rest))
            || (exists|rest: Seq<char>| url == #[trigger] ("https://yout-ube.com/"@ + rest)),
{
    lemma_starts_with_is_split(url, "https://www.youtube.com/"@);
    lemma_starts_with_is_split(url, "https://youtube.com/"@);
    lemma_starts_with_is_split(url, "https://youtu.be/"@);
    lemma_starts_with_is_split(url, "https://m.youtube.com/"@);
    lemma_starts_with_is_split(url, "https://www.yout-ube.com/"@);
    lemma_starts_with_is_split(url, "https://yout-ube.com/"@);
}

/// An address without a token gets the token, whole, behind everything that it held: as the first
/// parameter where it has none, and else as one more. An address with a token stays as it is.
pub proof fn lemma_token_stands_behind(url: Seq<char>, pot: Seq<char>)
    ensures
        contains(url, "pot="@) ==> with_token(url, pot) == url,
        !contains(url, "pot="@) && url.contains('?') ==> with_token(url, pot) == url
            + seq!['&', 'p', 'o', 't', '='] + pot,
        !contains(url, "pot="@) && !url.contains('?') ==> with_token(url, pot) == url
            + seq!['?', 'p', 'o', 't', '='] + pot,
{
    reveal_strlit("?");
    reveal_strlit("&");
    reveal_strlit("pot=");
    if url.contains('?') {
        let at = choose|at: int| 0 <= at < url.len() && url[at] == '?';
        assert(url.subrange(at, at + 1) =~= "?"@);
        assert(occurs_at(url, "?"@, at));
    }
    if contains(url, "?"@) {
        let at = choose|at: int| occurs_at(url, "?"@, at);
        assert(url.subrange(at, at + 1)[0] == url[at]);
    }
    assert(url + "&"@ + "pot="@ + pot =~= url + seq!['&', 'p', 'o', 't', '='] + pot);
    assert(url + "?"@ + "pot="@ + pot =~= url + seq!['?', 'p', 'o', 't', '='] + pot);
}

} // verus!
