//! Describing formats and putting them in order.

use crate::decimal::{
    decimal, is_digit, lemma_decimal_reads_back, parse_u64, parsed, unsigned_part,
};
use crate::merger::extension;
use crate::text::{contains, lemma_until_gives_head, text_contains, text_until, until};
use crate::types::{formats_of, FormatEntry, FormatView};
use vstd::prelude::*;
use vstd::string::*;
use vstd::utf8::*;

verus! {

/// The file name extension for a stream of the type `mime`.
pub open spec fn stream_extension(mime: Seq<char>) -> Seq<char> {
    if contains(mime, "mp4"@) {
        "mp4"@
    } else if contains(mime, "webm"@) {
        "webm"@
    } else {
        "mp4"@
    }
}

/// The file name extension for a stream of the type `mime`, whatever its quality.
pub fn stream_format_to_ext(mime: &str, _quality: &str) -> (ext: String)
    ensures
        ext@ == stream_extension(mime@),
{
    if text_contains(mime, "mp4") {
        "mp4".to_owned()
    } else if text_contains(mime, "webm") {
        "webm".to_owned()
    } else {
        "mp4".to_owned()
    }
}

/// The file name extension for a download of the type `mime`.
pub fn ext_for_mime(mime: &str) -> (ext: &'static str)
    ensures
        ext@ == extension(mime@),
{
    if text_contains(mime, "webm") {
        "webm"
    } else {
        "mp4"
    }
}

/// The height that a resolution such as `1080p60` starts with.
pub open spec fn height(resolution: Seq<char>) -> Option<nat> {
    parsed(until(resolution, 'p'), u64::MAX as nat)
}

/// The height by which a format is put in order; zero where its resolution gives none.
pub open spec fn rank(format: FormatView) -> nat {
    match height(format.resolution) {
        Some(h) => h,
        None => 0,
    }
}

/// Reads the height that a resolution starts with.
pub fn parse_height(res: &str) -> (number: Option<u64>)
    ensures
        match number {
            Some(h) => height(res@) == Some(h as nat),
            None => height(res@) is None,
        },
{
    parse_u64(text_until(res, 'p'))
}

/// Text cut behind `max` bytes, with three dots in place of the rest, or all of it where it is no
/// longer than that.
pub open spec fn truncated(text: Seq<char>, max: nat) -> Seq<char> {
    let bytes = encode_utf8(text);
    if bytes.len() <= max {
        text
    } else {
        decode_utf8(bytes.subrange(0, max as int)) + "..."@
    }
}

/// Whether text can be cut behind `max` bytes without splitting a character.
pub open spec fn can_truncate(text: Seq<char>, max: nat) -> bool {
    encode_utf8(text).len() > max ==> is_char_boundary(encode_utf8(text), max as int)
}

/// Reports whether `truncate_str` can cut `s` behind `max` bytes.
pub fn truncates_cleanly(s: &str, max: usize) -> (clean: bool)
    ensures
        clean == can_truncate(s@, max as nat),
{
    s.as_bytes().len() <= max || s.is_char_boundary(max)
}

/// Cuts `s` behind `max` bytes.
pub fn truncate_str(s: &str, max: usize) -> (out: String)
    requires
        can_truncate(s@, max as nat),
    ensures
        out@ == truncated(s@, max as nat),
{
    if s.as_bytes().len() <= max {
        s.to_owned()
    } else {
        let (head, _) = s.split_at(max);
        proof {
            encode_utf8_decode_utf8(head@);
        }
        let mut out: String = head.to_owned();
        out.append("...");
        out
    }
}

/// A text of at most `max` bytes stays whole. Of a longer one the first `max` bytes stand in front
/// of the dots as they were.
pub proof fn lemma_truncated_keeps_start(text: Seq<char>, max: nat)
    requires
        can_truncate(text, max),
    ensures
        encode_utf8(text).len() <= max ==> truncated(text, max) == text,
        encode_utf8(text).len() > max ==> exists|head: Seq<char>|
            head.is_prefix_of(text) && encode_utf8(head).len() == max && truncated(text, max)
                == #[trigger] (head + "..."@),
{
    let bytes = encode_utf8(text);
    encode_utf8_valid_utf8(text);
    encode_utf8_decode_utf8(text);
    if bytes.len() > max {
        decode_utf8_split(bytes, max as int);
        valid_utf8_split(bytes, max as int);
        let first = bytes.subrange(0, max as int);
        let head = decode_utf8(first);
        let tail = decode_utf8(bytes.subrange(max as int, bytes.len() as int));
        decode_utf8_encode_utf8(first);
        assert(text =~= head + tail);
        assert(head =~= text.subrange(0, head.len() as int));
        assert(truncated(text, max) == head + "..."@);
    }
}

/// ASCII text can be cut anywhere, and keeps as many characters as bytes were asked for.
pub proof fn lemma_ascii_is_cut_anywhere(text: Seq<char>, max: nat)
    requires
        is_ascii_chars(text),
    ensures
        can_truncate(text, max),
        truncated(text, max) == if text.len() <= max {
            text
        } else {
            text.take(max as int) + "..."@
        },
{
    let bytes = encode_utf8(text);
    encode_utf8_valid_utf8(text);
    is_ascii_chars_encode_utf8(text);
    if text.len() > max {
        let n = max as int;
        let b = bytes[n];
        assert(b == text[n] as u8);
        assert(b < 0x80);
        assert(!is_continuation_byte(b)) by {
            assert(b < 0x80 ==> b & 0xc0 != 0x80) by (bit_vector);
        }
        is_char_boundary_iff_not_is_continuation_byte(bytes, n);
        let head = text.take(n);
        assert(is_ascii_chars(head));
        is_ascii_chars_encode_utf8(head);
        assert(encode_utf8(head) =~= bytes.subrange(0, n)) by {
            assert forall|i: int| 0 <= i < n implies encode_utf8(head)[i] == bytes[i] by {
                assert(head[i] == text[i]);
            }
        }
        encode_utf8_decode_utf8(head);
    }
}

/// The list `sorted` with `format` placed behind all formats that are at least as high, seen from
/// the end.
pub open spec fn placed(sorted: Seq<FormatView>, format: FormatView) -> Seq<FormatView>
    decreases sorted.len(),
{
    if sorted.len() == 0 || rank(sorted.last()) >= rank(format) {
        sorted.push(format)
    } else {
        placed(sorted.drop_last(), format).push(sorted.last())
    }
}

/// The formats from the highest to the lowest; equally high ones keep their order.
pub open spec fn by_height(formats: Seq<FormatView>) -> Seq<FormatView>
    decreases formats.len(),
{
    if formats.len() == 0 {
        seq![]
    } else {
        placed(by_height(formats.drop_last()), formats.last())
    }
}

proof fn lemma_placed_at(sorted: Seq<FormatView>, format: FormatView, at: int)
    requires
        0 <= at <= sorted.len(),
        forall|j: int| at <= j < sorted.len() ==> rank(#[trigger] sorted[j]) < rank(format),
        at == 0 || rank(sorted[at - 1]) >= rank(format),
    ensures
        placed(sorted, format) == sorted.insert(at, format),
    decreases sorted.len(),
{
    if at == sorted.len() {
        assert(sorted.insert(at, format) =~= sorted.push(format));
    } else {
        let rest = sorted.drop_last();
        assert(rank(sorted.last()) < rank(format));
        assert forall|j: int| at <= j < rest.len() implies rank(#[trigger] rest[j]) < rank(
            format,
        ) by {
            assert(rest[j] == sorted[j]);
        }
        lemma_placed_at(rest, format, at);
        assert(sorted.insert(at, format) =~= rest.insert(at, format).push(sorted.last()));
    }
}

/// Puts formats in order, from the highest to the lowest; equally high ones keep their order.
pub fn sort_formats(formats: Vec<FormatEntry>) -> (sorted: Vec<FormatEntry>)
    ensures
        formats_of(sorted@) == by_height(formats_of(formats@)),
{
    let ghost all = formats_of(formats@);
    let mut rest: Vec<FormatEntry> = formats;
    let mut sorted: Vec<FormatEntry> = Vec::new();
    let mut ranks: Vec<u64> = Vec::new();
    let ghost mut done: int = 0;
    assert(all.take(0) =~= seq![]);
    assert(formats_of(sorted@) =~= seq![]);
    assert(formats_of(rest@) =~= all.skip(0));
    while rest.len() > 0
        invariant
            0 <= done <= all.len(),
            formats_of(rest@) =~= all.skip(done),
            formats_of(sorted@) == by_height(all.take(done)),
            ranks@.len() == sorted@.len(),
            forall|j: int| 0 <= j < ranks@.len() ==> ranks@[j] == rank(#[trigger] sorted@[j]@),
        decreases rest@.len(),
    {
        let ghost left = rest@;
        let format = rest.remove(0);
        proof {
            assert(formats_of(left)[0] == format@);
            assert(formats_of(rest@) =~= formats_of(left).drop_first());
            assert(all.skip(done).drop_first() =~= all.skip(done + 1));
        }
        let key: u64 = match parse_height(format.resolution.as_str()) {
            Some(h) => h,
            None => 0,
        };
        let mut at: usize = ranks.len();
        while at > 0 && ranks[at - 1] < key
            invariant
                at <= ranks@.len(),
                forall|j: int| at <= j < ranks@.len() ==> ranks@[j] < key,
            decreases at,
        {
            at -= 1;
        }
        proof {
            let before = formats_of(sorted@);
            assert forall|j: int| at <= j < before.len() implies rank(#[trigger] before[j]) < rank(
                format@,
            ) by {
                assert(before[j] == sorted@[j]@);
            }
            if at > 0 {
                assert(before[at - 1] == sorted@[at - 1]@);
            }
            lemma_placed_at(before, format@, at as int);
            assert(all.take(done + 1).drop_last() =~= all.take(done));
            assert(all.take(done + 1).last() == format@);
            assert(formats_of(sorted@.insert(at as int, format)) =~= before.insert(
                at as int,
                format@,
            ));
        }
        sorted.insert(at, format);
        ranks.insert(at, key);
        proof {
            done = done + 1;
        }
    }
    assert(all.take(done) =~= all);
    sorted
}

/// Formats in order are not higher than those in front of them.
pub proof fn lemma_by_height_descends(formats: Seq<FormatView>)
    ensures
        by_height(formats).len() == formats.len(),
        forall|i: int, j: int|
            0 <= i < j < formats.len() ==> rank(#[trigger] by_height(formats)[i]) >= rank(
                #[trigger] by_height(formats)[j],
            ),
    decreases formats.len(),
{
    if formats.len() > 0 {
        lemma_by_height_descends(formats.drop_last());
        lemma_placed_descends(by_height(formats.drop_last()), formats.last());
    }
}

proof fn lemma_placed_descends(sorted: Seq<FormatView>, format: FormatView)
    requires
        forall|i: int, j: int|
            0 <= i < j < sorted.len() ==> rank(#[trigger] sorted[i]) >= rank(#[trigger] sorted[j]),
    ensures
        placed(sorted, format).len() == sorted.len() + 1,
        forall|i: int, j: int|
            0 <= i < j < placed(sorted, format).len() ==> rank(
                #[trigger] placed(sorted, format)[i],
            ) >= rank(#[trigger] placed(sorted, format)[j]),
        forall|i: int|
            0 <= i < placed(sorted, format).len() ==> #[trigger] placed(sorted, format)[i] == format
                || exists|j: int|
                0 <= j < sorted.len() && sorted[j] == placed(sorted, format)[i],
    decreases sorted.len(),
{
    let out = placed(sorted, format);
    if sorted.len() == 0 || rank(sorted.last()) >= rank(format) {
        assert forall|i: int, j: int| 0 <= i < j < out.len() implies rank(#[trigger] out[i])
            >= rank(#[trigger] out[j]) by {
            if j == sorted.len() {
                assert(out[i] == sorted[i]);
                assert(rank(sorted[i]) >= rank(sorted.last()));
            } else {
                assert(out[i] == sorted[i] && out[j] == sorted[j]);
            }
        }
    } else {
        let rest = sorted.drop_last();
        assert forall|i: int, j: int| 0 <= i < j < rest.len() implies rank(#[trigger] rest[i])
            >= rank(#[trigger] rest[j]) by {
            assert(rest[i] == sorted[i] && rest[j] == sorted[j]);
        }
        lemma_placed_descends(rest, format);
        let inner = placed(rest, format);
        assert forall|i: int, j: int| 0 <= i < j < out.len() implies rank(#[trigger] out[i])
            >= rank(#[trigger] out[j]) by {
            assert(out[i] == inner[i]);
            if j < inner.len() {
                assert(out[j] == inner[j]);
            } else if inner[i] != format {
                let k = choose|k: int| 0 <= k < rest.len() && rest[k] == inner[i];
                assert(sorted[k] == rest[k]);
            }
        }
        assert forall|i: int| 0 <= i < out.len() implies #[trigger] out[i] == format || exists|
            j: int,
        | 0 <= j < sorted.len() && sorted[j] == out[i] by {
            if i == inner.len() {
                assert(sorted[sorted.len() - 1] == out[i]);
            } else if inner[i] != format {
                let k = choose|k: int| 0 <= k < rest.len() && rest[k] == inner[i];
                assert(sorted[k] == out[i]);
            }
        }
    }
}

proof fn lemma_placed_keeps_all(sorted: Seq<FormatView>, format: FormatView)
    ensures
        placed(sorted, format).to_multiset() == sorted.to_multiset().insert(format),
    decreases sorted.len(),
{
    sorted.to_multiset_ensures();
    if sorted.len() > 0 && rank(sorted.last()) < rank(format) {
        let rest = sorted.drop_last();
        lemma_placed_keeps_all(rest, format);
        rest.to_multiset_ensures();
        placed(rest, format).to_multiset_ensures();
        assert(sorted =~= rest.push(sorted.last()));
        assert(placed(sorted, format).to_multiset() =~= sorted.to_multiset().insert(format));
    }
}

/// Putting formats in order loses none and adds none.
pub proof fn lemma_by_height_keeps_all(formats: Seq<FormatView>)
    ensures
        by_height(formats).to_multiset() == formats.to_multiset(),
    decreases formats.len(),
{
    if formats.len() > 0 {
        let rest = formats.drop_last();
        lemma_by_height_keeps_all(rest);
        lemma_placed_keeps_all(by_height(rest), formats.last());
        rest.to_multiset_ensures();
        assert(formats =~= rest.push(formats.last()));
    } else {
        assert(formats =~= seq![]);
    }
}

/// The formats of one height are the same before and after, in the same order: nothing is lost,
/// added or reordered among equals.
pub proof fn lemma_by_height_keeps_equals(formats: Seq<FormatView>, h: nat)
    ensures
        by_height(formats).filter(|f: FormatView| rank(f) == h) == formats.filter(
            |f: FormatView| rank(f) == h,
        ),
    decreases formats.len(),
{
    let has = |f: FormatView| rank(f) == h;
    if formats.len() > 0 {
        let rest = formats.drop_last();
        lemma_by_height_keeps_equals(rest, h);
        lemma_placed_keeps_equals(by_height(rest), formats.last(), h);
        assert(formats =~= rest.push(formats.last()));
        by_height(rest).lemma_filter_push(formats.last(), has);
        rest.lemma_filter_push(formats.last(), has);
    }
}

proof fn lemma_placed_keeps_equals(sorted: Seq<FormatView>, format: FormatView, h: nat)
    ensures
        placed(sorted, format).filter(|f: FormatView| rank(f) == h) == sorted.push(format).filter(
            |f: FormatView| rank(f) == h,
        ),
    decreases sorted.len(),
{
    let has = |f: FormatView| rank(f) == h;
    if sorted.len() > 0 && rank(sorted.last()) < rank(format) {
        let rest = sorted.drop_last();
        lemma_placed_keeps_equals(rest, format, h);
        let inner = placed(rest, format);
        inner.lemma_filter_push(sorted.last(), has);
        rest.lemma_filter_push(format, has);
        sorted.lemma_filter_push(format, has);
        assert(sorted =~= rest.push(sorted.last()));
        rest.lemma_filter_push(sorted.last(), has);
    }
}

proof fn lemma_until_behind_digits(digits: Seq<char>, rest: Seq<char>)
    requires
        forall|i: int| 0 <= i < digits.len() ==> is_digit(#[trigger] digits[i]),
        rest.len() > 0,
        rest[0] == 'p',
    ensures
        until(digits + rest, 'p') == digits,
    decreases digits.len(),
{
    let all = digits + rest;
    if digits.len() == 0 {
        assert(all[0] == 'p');
    } else {
        let tail = digits.drop_first();
        assert forall|i: int| 0 <= i < tail.len() implies is_digit(#[trigger] tail[i]) by {
            assert(tail[i] == digits[i + 1]);
        }
        lemma_until_behind_digits(tail, rest);
        assert(all.drop_first() =~= tail + rest);
        assert(is_digit(digits[0]));
        assert(until(all, 'p') =~= digits);
    }
}

/// A resolution that was written as a height, a `p` and anything behind it has that height.
pub proof fn lemma_written_height_reads_back(h: nat, rest: Seq<char>)
    requires
        h <= u64::MAX,
        rest.len() > 0,
        rest[0] == 'p',
    ensures
        height(decimal(h) + rest) == Some(h),
{
    lemma_decimal_reads_back(h, u64::MAX as nat);
    lemma_until_behind_digits(decimal(h), rest);
}

proof fn lemma_until_reaches(text: Seq<char>, stop: char, k: int)
    requires
        0 <= k < text.len(),
        forall|j: int| 0 <= j <= k ==> text[j] != stop,
    ensures
        until(text, stop).len() > k,
        until(text, stop)[k] == text[k],
    decreases k,
{
    assert(text[0] != stop);
    if k > 0 {
        let rest = text.drop_first();
        assert forall|j: int| 0 <= j <= k - 1 implies rest[j] != stop by {
            assert(rest[j] == text[j + 1]);
        }
        lemma_until_reaches(rest, stop, k - 1);
        assert(until(text, stop)[k] == until(rest, stop)[k - 1]);
    }
}

/// A bit rate is no height: formats with sound only are put in order behind all that have a
/// height.
pub proof fn lemma_bit_rate_is_no_height(rate: nat)
    ensures
        height(decimal(rate) + "kbps (audio only)"@) is None,
{
    let digits = decimal(rate);
    let text = digits + "kbps (audio only)"@;
    lemma_decimal_reads_back(rate, rate);
    reveal_strlit("kbps (audio only)");
    let k = digits.len() as int;
    assert(text[k] == 'k');
    assert forall|j: int| 0 <= j <= k implies text[j] != 'p' by {
        if j < k {
            assert(is_digit(digits[j]));
        }
    }
    lemma_until_reaches(text, 'p', k);
    let head = until(text, 'p');
    lemma_until_reaches(text, 'p', 0);
    assert(is_digit(digits[0]));
    assert(unsigned_part(head) == head);
    assert(!is_digit(head[k]));
}

/// The height of a resolution is the number in front of its first `p`, or all of it where there is
/// none; without such a number it counts as zero when formats are put in order.
pub proof fn lemma_height_stands_in_front(format: FormatView, front: Seq<char>, rest: Seq<char>)
    requires
        !front.contains('p'),
        format.resolution == front || format.resolution == front + seq!['p'] + rest,
    ensures
        height(format.resolution) == parsed(front, u64::MAX as nat),
        parsed(front, u64::MAX as nat) is Some ==> rank(format) == parsed(
            front,
            u64::MAX as nat,
        )->0,
        parsed(front, u64::MAX as nat) is None ==> rank(format) == 0,
{
    lemma_until_gives_head(front, 'p', rest);
}

/// Streams are MP4 unless their type says WebM and does not say MP4.
pub proof fn lemma_stream_extensions(mime: Seq<char>)
    ensures
        stream_extension(mime) == "webm"@ <==> contains(mime, "webm"@) && !contains(mime, "mp4"@),
        stream_extension(mime) == "mp4"@ <==> contains(mime, "mp4"@) || !contains(mime, "webm"@),
{
    reveal_strlit("webm");
    reveal_strlit("mp4");
    assert("webm"@.len() != "mp4"@.len());
}

/// Downloads are WebM where their type says so, and MP4 elsewhere.
pub proof fn lemma_download_extensions(mime: Seq<char>)
    ensures
        extension(mime) == "webm"@ <==> contains(mime, "webm"@),
        extension(mime) == "mp4"@ <==> !contains(mime, "webm"@),
{
    reveal_strlit("webm");
    reveal_strlit("mp4");
    assert("webm"@.len() != "mp4"@.len());
}

} // verus!
