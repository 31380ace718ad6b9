//! Text as a sequence of characters: searching, splitting, trimming and joining.

use vstd::prelude::*;
use vstd::string::*;

verus! {

/// Whether Unicode counts `c` as white space.
pub open spec fn is_white(c: char) -> bool {
    let n = c as u32;
    ||| 0x09 <= n <= 0x0d
    ||| n == 0x20
    ||| n == 0x85
    ||| n == 0xa0
    ||| n == 0x1680
    ||| 0x2000 <= n <= 0x200a
    ||| n == 0x2028
    ||| n == 0x2029
    ||| n == 0x202f
    ||| n == 0x205f
    ||| n == 0x3000
}

/// Whether `part` stands in `text` from index `at` on.
pub open spec fn occurs_at(text: Seq<char>, part: Seq<char>, at: int) -> bool {
    0 <= at && at + part.len() <= text.len() && text.subrange(at, at + part.len()) == part
}

/// Whether `part` stands somewhere in `text`.
pub open spec fn contains(text: Seq<char>, part: Seq<char>) -> bool {
    exists|at: int| occurs_at(text, part, at)
}

/// Whether `text` starts with `part`.
pub open spec fn starts_with(text: Seq<char>, part: Seq<char>) -> bool {
    occurs_at(text, part, 0)
}

/// `text` up to the first `stop`, or all of it where there is none.
pub open spec fn until(text: Seq<char>, stop: char) -> Seq<char>
    decreases text.len(),
{
    if text.len() == 0 || text[0] == stop {
        seq![]
    } else {
        seq![text[0]] + until(text.drop_first(), stop)
    }
}

/// `text` without the white space that it starts with.
pub open spec fn trim_start(text: Seq<char>) -> Seq<char>
    decreases text.len(),
{
    if text.len() > 0 && is_white(text[0]) {
        trim_start(text.drop_first())
    } else {
        text
    }
}

/// `text` without the white space that it ends with.
pub open spec fn trim_end(text: Seq<char>) -> Seq<char>
    decreases text.len(),
{
    if text.len() > 0 && is_white(text.last()) {
        trim_end(text.drop_last())
    } else {
        text
    }
}

/// `text` without the white space around it.
pub open spec fn trim(text: Seq<char>) -> Seq<char> {
    trim_end(trim_start(text))
}

/// `text` up to its first white space, or all of it where there is none.
pub open spec fn until_white(text: Seq<char>) -> Seq<char>
    decreases text.len(),
{
    if text.len() == 0 || is_white(text[0]) {
        seq![]
    } else {
        seq![text[0]] + until_white(text.drop_first())
    }
}

/// The first run of characters in `text` that are not white space.
pub open spec fn first_word(text: Seq<char>) -> Option<Seq<char>> {
    let word = until_white(trim_start(text));
    if word.len() == 0 {
        None
    } else {
        Some(word)
    }
}

/// What follows the last line feed of `text`, or all of it where there is none.
pub open spec fn after_last_feed(text: Seq<char>) -> Seq<char>
    decreases text.len(),
{
    if text.len() == 0 || text.last() == '\n' {
        seq![]
    } else {
        after_last_feed(text.drop_last()).push(text.last())
    }
}

/// The last line of `text` once the white space around it is gone.
pub open spec fn last_line(text: Seq<char>) -> Option<Seq<char>> {
    if trim(text).len() == 0 {
        None
    } else {
        Some(after_last_feed(trim(text)))
    }
}

/// `text` with each `part` in it, found from left to right, replaced by `other`.
pub open spec fn replaced(text: Seq<char>, part: Seq<char>, other: Seq<char>) -> Seq<char>
    decreases text.len(),
{
    if part.len() == 0 || text.len() == 0 {
        text
    } else if starts_with(text, part) {
        other + replaced(text.subrange(part.len() as int, text.len() as int), part, other)
    } else {
        seq![text[0]] + replaced(text.drop_first(), part, other)
    }
}

/// The texts of `parts` one behind the other, with `glue` between them.
pub open spec fn joined(parts: Seq<Seq<char>>, glue: Seq<char>) -> Seq<char>
    decreases parts.len(),
{
    if parts.len() == 0 {
        seq![]
    } else if parts.len() == 1 {
        parts[0]
    } else {
        joined(parts.drop_last(), glue) + glue + parts.last()
    }
}

/// The texts of a list of strings.
pub open spec fn texts(list: Seq<String>) -> Seq<Seq<char>> {
    list.map_values(|s: String| s@)
}

/// The text, or `other` where there is none.
pub open spec fn text_or(text: Option<Seq<char>>, other: Seq<char>) -> Seq<char> {
    match text {
        Some(t) => t,
        None => other,
    }
}

/// The text of an optional string.
pub open spec fn text_of(s: Option<String>) -> Option<Seq<char>> {
    match s {
        Some(t) => Some(t@),
        None => None,
    }
}

/// The text of an optional string slice.
pub open spec fn str_of(s: Option<&str>) -> Option<Seq<char>> {
    match s {
        Some(t) => Some(t@),
        None => None,
    }
}

/// Reports whether Unicode counts `c` as white space.
pub fn is_white_char(c: char) -> (white: bool)
    ensures
        white == is_white(c),
{
    let n: u32 = c as u32;
    (0x09 <= n && n <= 0x0d) || n == 0x20 || n == 0x85 || n == 0xa0 || n == 0x1680 || (0x2000 <= n
        && n <= 0x200a) || n == 0x2028 || n == 0x2029 || n == 0x202f || n == 0x205f || n == 0x3000
}

/// Lists the characters of `s`.
pub fn to_chars(s: &str) -> (chars: Vec<char>)
    ensures
        chars@ == s@,
{
    let mut chars: Vec<char> = Vec::new();
    for c in it: s.chars()
        invariant
            it.seq() == s@,
            chars@ == s@.take(it.index()),
    {
        chars.push(c);
    }
    chars
}

/// Reports whether `part` stands in `text` from index `at` on.
fn chars_occur_at(text: &Vec<char>, part: &Vec<char>, at: usize) -> (found: bool)
    ensures
        found == occurs_at(text@, part@, at as int),
{
    if at > text.len() || part.len() > text.len() - at {
        return false;
    }
    let mut i: usize = 0;
    while i < part.len()
        invariant
            i <= part@.len(),
            at + part@.len() <= text@.len(),
            text@.len() <= usize::MAX,
            forall|j: int| 0 <= j < i ==> text@[at + j] == part@[j],
        decreases part@.len() - i,
    {
        if text[at + i] != part[i] {
            proof {
                if text@.subrange(at as int, at + part@.len()) == part@ {
                    assert(text@.subrange(at as int, at + part@.len())[i as int] == text@[at + i]);
                }
            }
            return false;
        }
        i += 1;
    }
    assert(text@.subrange(at as int, at + part@.len()) =~= part@);
    true
}

/// Reports whether two texts are the same.
pub fn same_text(a: &str, b: &str) -> (same: bool)
    ensures
        same == (a@ == b@),
{
    let a_chars = to_chars(a);
    let b_chars = to_chars(b);
    let same = a_chars.len() == b_chars.len() && chars_occur_at(&a_chars, &b_chars, 0);
    proof {
        if a@.len() == b@.len() {
            assert(a@.subrange(0, b@.len() as int) =~= a@);
        }
    }
    same
}

/// Reports whether `s` starts with `part`.
pub fn text_starts_with(s: &str, part: &str) -> (found: bool)
    ensures
        found == starts_with(s@, part@),
{
    chars_occur_at(&to_chars(s), &to_chars(part), 0)
}

/// Reports whether `part` stands somewhere in `s`.
pub fn text_contains(s: &str, part: &str) -> (found: bool)
    ensures
        found == contains(s@, part@),
{
    let text = to_chars(s);
    let wanted = to_chars(part);
    let mut at: usize = 0;
    while at <= text.len()
        invariant
            text@ == s@,
            wanted@ == part@,
            at <= text@.len() + 1,
            forall|j: int| 0 <= j < at ==> !occurs_at(s@, part@, j),
        decreases text@.len() + 1 - at,
    {
        if chars_occur_at(&text, &wanted, at) {
            return true;
        }
        if at == text.len() {
            return false;
        }
        at += 1;
    }
    false
}

/// What follows `part` at the start of `s`, or `None` where `s` does not start with `part`.
pub fn text_strip_prefix<'a>(s: &'a str, part: &str) -> (rest: Option<&'a str>)
    ensures
        str_of(rest) == if starts_with(s@, part@) {
            Some(s@.subrange(part@.len() as int, s@.len() as int))
        } else {
            None
        },
{
    if text_starts_with(s, part) {
        Some(s.substring_char(part.unicode_len(), s.unicode_len()))
    } else {
        None
    }
}

proof fn lemma_until_prefix(text: Seq<char>, stop: char, n: int)
    requires
        0 <= n <= text.len(),
        forall|j: int| 0 <= j < n ==> text[j] != stop,
        n == text.len() || text[n] == stop,
    ensures
        until(text, stop) == text.subrange(0, n),
    decreases text.len(),
{
    if n == 0 {
        assert(text.subrange(0, n) =~= seq![]);
    } else {
        let rest = text.drop_first();
        assert forall|j: int| 0 <= j < n - 1 implies rest[j] != stop by {
            assert(rest[j] == text[j + 1]);
        }
        lemma_until_prefix(rest, stop, n - 1);
        assert(text.subrange(0, n) =~= seq![text[0]] + rest.subrange(0, n - 1));
    }
}

/// The part of `s` in front of the first `stop`, or all of it where there is none.
pub fn text_until<'a>(s: &'a str, stop: char) -> (head: &'a str)
    ensures
        head@ == until(s@, stop),
{
    let chars = to_chars(s);
    let mut n: usize = 0;
    while n < chars.len() && chars[n] != stop
        invariant
            chars@ == s@,
            n <= s@.len(),
            forall|j: int| 0 <= j < n ==> s@[j] != stop,
        decreases s@.len() - n,
    {
        n += 1;
    }
    proof {
        lemma_until_prefix(s@, stop, n as int);
    }
    s.substring_char(0, n)
}

proof fn lemma_trim_start_suffix(text: Seq<char>, n: int)
    requires
        0 <= n <= text.len(),
        forall|j: int| 0 <= j < n ==> is_white(text[j]),
        n == text.len() || !is_white(text[n]),
    ensures
        trim_start(text) == text.subrange(n, text.len() as int),
    decreases text.len(),
{
    if n == 0 {
        assert(text.subrange(0, text.len() as int) =~= text);
    } else {
        let rest = text.drop_first();
        assert forall|j: int| 0 <= j < n - 1 implies is_white(rest[j]) by {
            assert(rest[j] == text[j + 1]);
        }
        assert(is_white(text[0]));
        lemma_trim_start_suffix(rest, n - 1);
        assert(rest.subrange(n - 1, rest.len() as int) =~= text.subrange(n, text.len() as int));
    }
}

proof fn lemma_trim_end_prefix(text: Seq<char>, n: int)
    requires
        0 <= n <= text.len(),
        forall|j: int| n <= j < text.len() ==> is_white(text[j]),
        n == 0 || !is_white(text[n - 1]),
    ensures
        trim_end(text) == text.subrange(0, n),
    decreases text.len(),
{
    if n == text.len() {
        assert(text.subrange(0, n) =~= text);
    } else {
        let rest = text.drop_last();
        lemma_trim_end_prefix(rest, n);
        assert(rest.subrange(0, n) =~= text.subrange(0, n));
    }
}

/// `s` without the white space around it.
pub fn text_trim<'a>(s: &'a str) -> (inner: &'a str)
    ensures
        inner@ == trim(s@),
{
    let chars = to_chars(s);
    let mut from: usize = 0;
    while from < chars.len() && is_white_char(chars[from])
        invariant
            chars@ == s@,
            from <= s@.len(),
            forall|j: int| 0 <= j < from ==> is_white(s@[j]),
        decreases s@.len() - from,
    {
        from += 1;
    }
    proof {
        lemma_trim_start_suffix(s@, from as int);
    }
    let mut to: usize = chars.len();
    while to > from && is_white_char(chars[to - 1])
        invariant
            chars@ == s@,
            from <= to <= s@.len(),
            forall|j: int| to <= j < s@.len() ==> is_white(s@[j]),
        decreases to - from,
    {
        to -= 1;
    }
    proof {
        let rest = s@.subrange(from as int, s@.len() as int);
        lemma_trim_end_prefix(rest, to - from);
        assert(rest.subrange(0, to - from) =~= s@.subrange(from as int, to as int));
    }
    s.substring_char(from, to)
}

proof fn lemma_until_white_prefix(text: Seq<char>, n: int)
    requires
        0 <= n <= text.len(),
        forall|j: int| 0 <= j < n ==> !is_white(text[j]),
        n == text.len() || is_white(text[n]),
    ensures
        until_white(text) == text.subrange(0, n),
    decreases text.len(),
{
    if n == 0 {
        assert(text.subrange(0, n) =~= seq![]);
    } else {
        let rest = text.drop_first();
        assert forall|j: int| 0 <= j < n - 1 implies !is_white(rest[j]) by {
            assert(rest[j] == text[j + 1]);
        }
        assert(!is_white(text[0]));
        lemma_until_white_prefix(rest, n - 1);
        assert(text.subrange(0, n) =~= seq![text[0]] + rest.subrange(0, n - 1));
    }
}

/// The first run of characters in `s` that are not white space.
pub fn text_first_word<'a>(s: &'a str) -> (word: Option<&'a str>)
    ensures
        str_of(word) == first_word(s@),
{
    let chars = to_chars(s);
    let mut from: usize = 0;
    while from < chars.len() && is_white_char(chars[from])
        invariant
            chars@ == s@,
            from <= s@.len(),
            forall|j: int| 0 <= j < from ==> is_white(s@[j]),
        decreases s@.len() - from,
    {
        from += 1;
    }
    proof {
        lemma_trim_start_suffix(s@, from as int);
    }
    let mut to: usize = from;
    while to < chars.len() && !is_white_char(chars[to])
        invariant
            chars@ == s@,
            from <= to <= s@.len(),
            forall|j: int| from <= j < to ==> !is_white(s@[j]),
        decreases s@.len() - to,
    {
        to += 1;
    }
    proof {
        let rest = s@.subrange(from as int, s@.len() as int);
        lemma_until_white_prefix(rest, to - from);
        assert(rest.subrange(0, to - from) =~= s@.subrange(from as int, to as int));
    }
    if to == from {
        None
    } else {
        Some(s.substring_char(from, to))
    }
}

proof fn lemma_after_last_feed_suffix(text: Seq<char>, n: int)
    requires
        0 <= n <= text.len(),
        forall|j: int| n <= j < text.len() ==> text[j] != '\n',
        n == 0 || text[n - 1] == '\n',
    ensures
        after_last_feed(text) == text.subrange(n, text.len() as int),
    decreases text.len(),
{
    if n == text.len() {
        assert(text.subrange(n, text.len() as int) =~= seq![]);
    } else {
        let rest = text.drop_last();
        lemma_after_last_feed_suffix(rest, n);
        assert(text.subrange(n, text.len() as int) =~= rest.subrange(n, rest.len() as int).push(
            text.last(),
        ));
    }
}

/// The last line of `s` once the white space around it is gone.
pub fn text_last_line<'a>(s: &'a str) -> (line: Option<&'a str>)
    ensures
        str_of(line) == last_line(s@),
{
    let inner = text_trim(s);
    let chars = to_chars(inner);
    if chars.len() == 0 {
        return None;
    }
    let mut from: usize = chars.len();
    while from > 0 && chars[from - 1] != '\n'
        invariant
            chars@ == inner@,
            from <= inner@.len(),
            forall|j: int| from <= j < inner@.len() ==> inner@[j] != '\n',
        decreases from,
    {
        from -= 1;
    }
    proof {
        lemma_after_last_feed_suffix(inner@, from as int);
    }
    Some(inner.substring_char(from, chars.len()))
}

/// `s` with each `part` in it, found from left to right, replaced by `other`.
pub fn text_replace(s: &str, part: &str, other: &str) -> (out: String)
    requires
        part@.len() > 0,
    ensures
        out@ == replaced(s@, part@, other@),
{
    let text = to_chars(s);
    let wanted = to_chars(part);
    let mut out: String = String::new();
    let mut at: usize = 0;
    assert(s@.subrange(0, s@.len() as int) =~= s@);
    while at < text.len()
        invariant
            text@ == s@,
            wanted@ == part@,
            part@.len() > 0,
            at <= s@.len(),
            out@ + replaced(s@.subrange(at as int, s@.len() as int), part@, other@) =~= replaced(
                s@,
                part@,
                other@,
            ),
        decreases s@.len() - at,
    {
        let ghost rest = s@.subrange(at as int, s@.len() as int);
        if chars_occur_at(&text, &wanted, at) {
            proof {
                assert(rest.subrange(0, part@.len() as int) =~= s@.subrange(
                    at as int,
                    at + part@.len(),
                ));
                assert(starts_with(rest, part@));
                assert(rest.subrange(part@.len() as int, rest.len() as int) =~= s@.subrange(
                    at + part@.len(),
                    s@.len() as int,
                ));
            }
            out.append(other);
            at = at + wanted.len();
        } else {
            proof {
                if starts_with(rest, part@) {
                    assert(rest.subrange(0, part@.len() as int) =~= s@.subrange(
                        at as int,
                        at + part@.len(),
                    ));
                    assert(false);
                }
                assert(rest.drop_first() =~= s@.subrange(at + 1, s@.len() as int));
                assert(s@.subrange(at as int, at + 1) =~= seq![rest[0]]);
            }
            out.append(s.substring_char(at, at + 1));
            at = at + 1;
        }
    }
    proof {
        assert(s@.subrange(at as int, s@.len() as int) =~= seq![]);
    }
    out
}

/// The texts of `parts` one behind the other, with `glue` between them.
pub fn text_join(parts: &Vec<String>, glue: &str) -> (out: String)
    ensures
        out@ == joined(texts(parts@), glue@),
{
    let mut out: String = String::new();
    let mut i: usize = 0;
    while i < parts.len()
        invariant
            i <= parts@.len(),
            out@ =~= joined(texts(parts@).take(i as int), glue@),
        decreases parts@.len() - i,
    {
        let ghost done = texts(parts@).take(i as int);
        let ghost next = texts(parts@).take(i + 1);
        assert(next.drop_last() =~= done);
        assert(next.last() == parts@[i as int]@);
        if i > 0 {
            out.append(glue);
        }
        out.append(parts[i].as_str());
        i += 1;
    }
    assert(texts(parts@).take(parts@.len() as int) =~= texts(parts@));
    out
}

/// The text of `a` followed by that of `b`.
pub fn concat2(a: &str, b: &str) -> (out: String)
    ensures
        out@ == a@ + b@,
{
    let mut out: String = a.to_owned();
    out.append(b);
    out
}

/// The texts of `a`, `b` and `c` one behind the other.
pub fn concat3(a: &str, b: &str, c: &str) -> (out: String)
    ensures
        out@ == a@ + b@ + c@,
{
    let mut out: String = a.to_owned();
    out.append(b);
    out.append(c);
    out
}

/// A copy of an optional string.
pub fn copy_text(s: &Option<String>) -> (copy: Option<String>)
    ensures
        text_of(copy) == text_of(*s),
{
    match s {
        Some(t) => Some(t.as_str().to_owned()),
        None => None,
    }
}

/// Copies a text, or `other` where there is none.
pub fn copy_or(text: &Option<String>, other: &str) -> (copy: String)
    ensures
        copy@ == text_or(text_of(*text), other@),
{
    match text {
        Some(t) => t.as_str().to_owned(),
        None => other.to_owned(),
    }
}

proof fn lemma_until_white_has_none(text: Seq<char>)
    ensures
        forall|i: int|
            0 <= i < until_white(text).len() ==> !is_white(#[trigger] until_white(text)[i]),
    decreases text.len(),
{
    if text.len() > 0 && !is_white(text[0]) {
        let rest = until_white(text.drop_first());
        lemma_until_white_has_none(text.drop_first());
        assert forall|i: int| 0 <= i < until_white(text).len() implies !is_white(
            #[trigger] until_white(text)[i],
        ) by {
            if i > 0 {
                assert(until_white(text)[i] == rest[i - 1]);
            }
        }
    }
}

/// A first word is not empty and holds no white space.
pub proof fn lemma_first_word_is_word(text: Seq<char>)
    requires
        first_word(text) is Some,
    ensures
        first_word(text)->0.len() > 0,
        forall|i: int|
            0 <= i < first_word(text)->0.len() ==> !is_white(#[trigger] first_word(text)->0[i]),
{
    lemma_until_white_has_none(trim_start(text));
}

/// A text contains another exactly where it is that text with something in front of it and
/// something behind it.
pub proof fn lemma_contains_is_split(text: Seq<char>, part: Seq<char>)
    ensures
        contains(text, part) <==> exists|a: Seq<char>, b: Seq<char>|
            text == #[trigger] (a + part + b),
{
    if contains(text, part) {
        let at = choose|at: int| occurs_at(text, part, at);
        let a = text.subrange(0, at);
        let b = text.subrange(at + part.len(), text.len() as int);
        assert(text.subrange(at, at + part.len()) == part);
        assert forall|i: int| 0 <= i < part.len() implies text[at + i] == part[i] by {
            assert(text.subrange(at, at + part.len())[i] == text[at + i]);
        }
        assert(text =~= a + part + b);
    }
    if exists|a: Seq<char>, b: Seq<char>| text == #[trigger] (a + part + b) {
        let (a, b) = choose|a: Seq<char>, b: Seq<char>| text == #[trigger] (a + part + b);
        assert(text.subrange(a.len() as int, (a.len() + part.len()) as int) =~= part);
        assert(occurs_at(text, part, a.len() as int));
    }
}

/// A text starts with another exactly where it is that text with something behind it.
pub proof fn lemma_starts_with_is_split(text: Seq<char>, part: Seq<char>)
    ensures
        starts_with(text, part) <==> exists|b: Seq<char>| text == #[trigger] (part + b),
{
    if starts_with(text, part) {
        let b = text.subrange(part.len() as int, text.len() as int);
        assert forall|i: int| 0 <= i < part.len() implies text[i] == part[i] by {
            assert(text.subrange(0, part.len() as int)[i] == text[i]);
        }
        assert(text =~= part + b);
    }
    if exists|b: Seq<char>| text == #[trigger] (part + b) {
        let b = choose|b: Seq<char>| text == #[trigger] (part + b);
        assert(text.subrange(0, part.len() as int) =~= part);
    }
}

/// What stands in front of the first stop comes back whole, and all of a text without one does.
pub proof fn lemma_until_gives_head(head: Seq<char>, stop: char, rest: Seq<char>)
    requires
        !head.contains(stop),
    ensures
        until(head, stop) == head,
        until(head + seq![stop] + rest, stop) == head,
    decreases head.len(),
{
    let all = head + seq![stop] + rest;
    if head.len() == 0 {
        assert(all[0] == stop);
        assert(head =~= seq![]);
    } else {
        let tail = head.drop_first();
        assert(head[0] != stop);
        assert forall|i: int| 0 <= i < tail.len() implies tail[i] != stop by {
            assert(tail[i] == head[i + 1]);
        }
        lemma_until_gives_head(tail, stop, rest);
        assert(all.drop_first() =~= tail + seq![stop] + rest);
        assert(seq![head[0]] + tail =~= head);
    }
}

/// Whether every character of a text is white space.
pub open spec fn all_white(text: Seq<char>) -> bool {
    forall|i: int| 0 <= i < text.len() ==> is_white(#[trigger] text[i])
}

proof fn lemma_trim_start_drops(left: Seq<char>, rest: Seq<char>)
    requires
        all_white(left),
        rest.len() == 0 || !is_white(rest[0]),
    ensures
        trim_start(left + rest) == rest,
    decreases left.len(),
{
    let all = left + rest;
    if left.len() == 0 {
        assert(all =~= rest);
    } else {
        assert(is_white(left[0]));
        assert(all.drop_first() =~= left.drop_first() + rest);
        assert forall|i: int| 0 <= i < left.drop_first().len() implies is_white(
            #[trigger] left.drop_first()[i],
        ) by {
            assert(left.drop_first()[i] == left[i + 1]);
        }
        lemma_trim_start_drops(left.drop_first(), rest);
    }
}

proof fn lemma_trim_end_drops(front: Seq<char>, right: Seq<char>)
    requires
        all_white(right),
        front.len() == 0 || !is_white(front.last()),
    ensures
        trim_end(front + right) == front,
    decreases right.len(),
{
    let all = front + right;
    if right.len() == 0 {
        assert(all =~= front);
    } else {
        assert(is_white(right.last()));
        assert(all.drop_last() =~= front + right.drop_last());
        assert forall|i: int| 0 <= i < right.drop_last().len() implies is_white(
            #[trigger] right.drop_last()[i],
        ) by {
            assert(right.drop_last()[i] == right[i]);
        }
        lemma_trim_end_drops(front, right.drop_last());
    }
}

/// Trimming takes away the white space on both sides and nothing else.
pub proof fn lemma_trim_takes_white_only(left: Seq<char>, core: Seq<char>, right: Seq<char>)
    requires
        all_white(left),
        all_white(right),
        core.len() > 0 ==> !is_white(core[0]) && !is_white(core.last()),
    ensures
        trim(left + core + right) == core,
{
    let all = left + core + right;
    if core.len() == 0 {
        assert(all =~= (left + right) + seq![]);
        assert forall|i: int| 0 <= i < (left + right).len() implies is_white(
            #[trigger] (left + right)[i],
        ) by {
            if i < left.len() {
                assert(is_white(left[i]));
            } else {
                assert(is_white(right[i - left.len()]));
            }
        }
        lemma_trim_start_drops(left + right, seq![]);
        assert(core =~= seq![]);
    } else {
        assert(all =~= left + (core + right));
        assert((core + right)[0] == core[0]);
        lemma_trim_start_drops(left, core + right);
        lemma_trim_end_drops(core, right);
    }
}

proof fn lemma_until_white_gives_head(word: Seq<char>, rest: Seq<char>)
    requires
        forall|i: int| 0 <= i < word.len() ==> !is_white(#[trigger] word[i]),
        rest.len() == 0 || is_white(rest[0]),
    ensures
        until_white(word + rest) == word,
    decreases word.len(),
{
    let all = word + rest;
    if word.len() == 0 {
        assert(all =~= rest);
        assert(word =~= seq![]);
    } else {
        let tail = word.drop_first();
        assert(!is_white(word[0]));
        assert forall|i: int| 0 <= i < tail.len() implies !is_white(#[trigger] tail[i]) by {
            assert(tail[i] == word[i + 1]);
        }
        lemma_until_white_gives_head(tail, rest);
        assert(all.drop_first() =~= tail + rest);
        assert(seq![word[0]] + tail =~= word);
    }
}

/// The first word comes back whole, whatever white space precedes it; white space alone holds none.
pub proof fn lemma_first_word_is_found(left: Seq<char>, word: Seq<char>, rest: Seq<char>)
    requires
        all_white(left),
        word.len() > 0,
        forall|i: int| 0 <= i < word.len() ==> !is_white(#[trigger] word[i]),
        rest.len() == 0 || is_white(rest[0]),
    ensures
        first_word(left + word + rest) == Some(word),
        first_word(left) is None,
{
    assert(left + word + rest =~= left + (word + rest));
    assert(!is_white(word[0]));
    assert((word + rest)[0] == word[0]);
    lemma_trim_start_drops(left, word + rest);
    lemma_until_white_gives_head(word, rest);
    lemma_trim_start_drops(left, seq![]);
    assert(left + seq![] =~= left);
}

proof fn lemma_after_feed(front: Seq<char>, line: Seq<char>)
    requires
        !line.contains('\n'),
        front.len() == 0 || front.last() == '\n',
    ensures
        after_last_feed(front + line) == line,
    decreases line.len(),
{
    let all = front + line;
    if line.len() == 0 {
        assert(all =~= front);
        assert(line =~= seq![]);
    } else {
        let rest = line.drop_last();
        assert(line[line.len() - 1] != '\n');
        assert forall|i: int| 0 <= i < rest.len() implies rest[i] != '\n' by {
            assert(rest[i] == line[i]);
        }
        lemma_after_feed(front, rest);
        assert(all.drop_last() =~= front + rest);
        assert(rest.push(line.last()) =~= line);
    }
}

/// The last line comes back whole, whatever lines stand in front of it and whatever white space
/// stands around the text.
pub proof fn lemma_last_line_is_found(
    left: Seq<char>,
    front: Seq<char>,
    line: Seq<char>,
    right: Seq<char>,
)
    requires
        all_white(left),
        all_white(right),
        line.len() > 0,
        !line.contains('\n'),
        !is_white(line.last()),
        front.len() == 0 ==> !is_white(line[0]),
        front.len() > 0 ==> !is_white(front[0]) && front.last() == '\n',
    ensures
        last_line(left + front + line + right) == Some(line),
{
    let core = front + line;
    assert(left + front + line + right =~= left + core + right);
    assert(core.last() == line.last());
    if front.len() > 0 {
        assert(core[0] == front[0]);
    } else {
        assert(core[0] == line[0]);
    }
    lemma_trim_takes_white_only(left, core, right);
    lemma_after_feed(front, line);
}

/// A text that does not contain what is replaced stays as it is.
pub proof fn lemma_nothing_replaced(text: Seq<char>, part: Seq<char>, other: Seq<char>)
    requires
        !contains(text, part),
    ensures
        replaced(text, part, other) == text,
    decreases text.len(),
{
    if part.len() > 0 && text.len() > 0 {
        assert(!occurs_at(text, part, 0));
        let rest = text.drop_first();
        if contains(rest, part) {
            let at = choose|at: int| occurs_at(rest, part, at);
            assert(text.subrange(at + 1, at + 1 + part.len()) =~= rest.subrange(
                at,
                at + part.len(),
            ));
            assert(occurs_at(text, part, at + 1));
        }
        lemma_nothing_replaced(rest, part, other);
        assert(seq![text[0]] + rest =~= text);
    }
}

/// The first occurrence is replaced, what stands in front of it stays, and the search goes on
/// behind it.
pub proof fn lemma_first_is_replaced(
    front: Seq<char>,
    part: Seq<char>,
    rest: Seq<char>,
    other: Seq<char>,
)
    requires
        part.len() > 0,
        forall|at: int|
            0 <= at < front.len() ==> !#[trigger] occurs_at(front + part + rest, part, at),
    ensures
        replaced(front + part + rest, part, other) == front + other + replaced(rest, part, other),
    decreases front.len(),
{
    let all = front + part + rest;
    if front.len() == 0 {
        assert(all.subrange(0, part.len() as int) =~= part);
        assert(all.subrange(part.len() as int, all.len() as int) =~= rest);
        assert(front + other + replaced(rest, part, other) =~= other + replaced(rest, part, other));
    } else {
        let tail = front.drop_first();
        let less = tail + part + rest;
        assert(all.drop_first() =~= less);
        assert(!occurs_at(all, part, 0));
        assert forall|at: int| 0 <= at < tail.len() implies !#[trigger] occurs_at(
            less,
            part,
            at,
        ) by {
            assert(!occurs_at(all, part, at + 1));
            if at + part.len() <= less.len() {
                assert(all.subrange(at + 1, at + 1 + part.len()) =~= less.subrange(
                    at,
                    at + part.len(),
                ));
            }
        }
        lemma_first_is_replaced(tail, part, rest, other);
        assert(seq![front[0]] + (tail + other + replaced(rest, part, other)) =~= front + other
            + replaced(rest, part, other));
    }
}

/// One more text is joined on behind the glue; a single text is joined to itself, and no text to
/// nothing.
pub proof fn lemma_joined_grows(parts: Seq<Seq<char>>, last: Seq<char>, glue: Seq<char>)
    ensures
        joined(Seq::empty(), glue) == Seq::<char>::empty(),
        joined(seq![last], glue) == last,
        parts.len() > 0 ==> joined(parts.push(last), glue) == joined(parts, glue) + glue + last,
{
    assert(parts.push(last).drop_last() =~= parts);
}

/// The characters that are white, by number.
pub open spec fn white_numbers() -> Seq<u32> {
    seq![
        0x09u32,
        0x0au32,
        0x0bu32,
        0x0cu32,
        0x0du32,
        0x20u32,
        0x85u32,
        0xa0u32,
        0x1680u32,
        0x2000u32,
        0x2001u32,
        0x2002u32,
        0x2003u32,
        0x2004u32,
        0x2005u32,
        0x2006u32,
        0x2007u32,
        0x2008u32,
        0x2009u32,
        0x200au32,
        0x2028u32,
        0x2029u32,
        0x202fu32,
        0x205fu32,
        0x3000u32,
    ]
}

/// Exactly these characters are white; blanks, tabs and line ends are among them.
pub proof fn lemma_white_characters(c: char)
    ensures
        is_white(c) <==> white_numbers().contains(c as u32),
        is_white(' ') && is_white('\t') && is_white('\n') && is_white('\r'),
{
    let all = white_numbers();
    let n = c as u32;
    if is_white(c) {
        if n <= 0x0d {
            assert(all[n - 0x09] == n);
        } else if 0x2000 <= n <= 0x200a {
            assert(all[9 + (n - 0x2000)] == n);
        } else {
            assert(all[5] == 0x20 && all[6] == 0x85 && all[7] == 0xa0 && all[8] == 0x1680);
            assert(all[20] == 0x2028 && all[21] == 0x2029 && all[22] == 0x202f);
            assert(all[23] == 0x205f && all[24] == 0x3000);
        }
    }
}

/// Nothing is left of a text without the white space around it exactly where all of it is white.
pub proof fn lemma_trim_empties_white_only(text: Seq<char>)
    ensures
        trim(text).len() == 0 <==> all_white(text),
    decreases text.len(),
{
    if all_white(text) {
        assert(text + seq![] + seq![] =~= text);
        lemma_trim_takes_white_only(text, seq![], seq![]);
    } else if is_white(text[0]) {
        let rest = text.drop_first();
        if all_white(rest) {
            assert forall|i: int| 0 <= i < text.len() implies is_white(#[trigger] text[i]) by {
                if i > 0 {
                    assert(is_white(rest[i - 1]));
                }
            }
        }
        lemma_trim_empties_white_only(rest);
    } else {
        lemma_trim_end_keeps(text);
    }
}

/// What does not start with white space does not vanish when the white space at its end does.
proof fn lemma_trim_end_keeps(text: Seq<char>)
    requires
        text.len() > 0,
        !is_white(text[0]),
    ensures
        trim_end(text).len() > 0,
    decreases text.len(),
{
    if is_white(text.last()) {
        assert(text.drop_last()[0] == text[0]);
        lemma_trim_end_keeps(text.drop_last());
    }
}

} // verus!
