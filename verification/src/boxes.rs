//! The box structure of MP4 data.
//!
//! An MP4 file is a row of boxes. A box starts with a header of eight bytes: its size as a
//! big-endian number of four bytes, header included, and a tag of four bytes.

use vstd::prelude::*;

verus! {

/// Tag of the file type box.
pub const FTYP: [u8; 4] = [0x66, 0x74, 0x79, 0x70];

/// Tag of the box that describes the tracks.
pub const MOOV: [u8; 4] = [0x6d, 0x6f, 0x6f, 0x76];

/// Tag of the header of a movie fragment.
pub const MOOF: [u8; 4] = [0x6d, 0x6f, 0x6f, 0x66];

/// Tag of a box of media data.
pub const MDAT: [u8; 4] = [0x6d, 0x64, 0x61, 0x74];

/// Tag of the box that describes one track.
pub const TRAK: [u8; 4] = [0x74, 0x72, 0x61, 0x6b];

/// Tag of a track's header.
pub const TKHD: [u8; 4] = [0x74, 0x6b, 0x68, 0x64];

/// Tag of a track fragment's header.
pub const TFHD: [u8; 4] = [0x74, 0x66, 0x68, 0x64];

/// How a walk along a row of boxes treats the sizes that it reads.
pub enum Walk {
    /// A size below eight ends the row; the last box may run past the end of the data.
    Open,
    /// A size below eight ends the row, and so does a box that runs past the end of the data.
    Closed,
    /// A size below eight counts as eight; a box that runs past the end of the data ends the row.
    Padded,
}

/// The number that the four bytes from `at` on spell, most significant byte first.
pub open spec fn be32(data: Seq<u8>, at: int) -> int {
    data[at] * 0x100_0000 + data[at + 1] * 0x1_0000 + data[at + 2] * 0x100 + data[at + 3]
}

/// The four bytes that spell `n`, most significant byte first; higher bits are dropped.
pub open spec fn be32_bytes(n: int) -> Seq<u8> {
    seq![
        (n / 0x100_0000 % 0x100) as u8,
        (n / 0x1_0000 % 0x100) as u8,
        (n / 0x100 % 0x100) as u8,
        (n % 0x100) as u8,
    ]
}

/// The tag of the box at `pos`.
pub open spec fn box_tag(data: Seq<u8>, pos: int) -> Seq<u8> {
    data.subrange(pos + 4, pos + 8)
}

/// The size that the walk takes the box at `pos` to have.
pub open spec fn box_size(data: Seq<u8>, pos: int, walk: Walk) -> int {
    let size = be32(data, pos);
    if walk is Padded && size < 8 {
        8
    } else {
        size
    }
}

/// Whether the walk finds a box at `pos`.
pub open spec fn box_at(data: Seq<u8>, pos: int, walk: Walk) -> bool {
    &&& 0 <= pos
    &&& pos + 8 <= data.len()
    &&& box_size(data, pos, walk) >= 8
    &&& walk is Open || pos + box_size(data, pos, walk) <= data.len()
}

/// The boxes from `pos` on, each as its position and its size.
pub open spec fn boxes_from(data: Seq<u8>, pos: int, walk: Walk) -> Seq<(int, int)>
    decreases
            if pos <= data.len() {
                data.len() - pos
            } else {
                0
            },
{
    if box_at(data, pos, walk) {
        let size = box_size(data, pos, walk);
        seq![(pos, size)] + boxes_from(data, pos + size, walk)
    } else {
        seq![]
    }
}

/// Those of the boxes from `pos` on that carry the tag `tag`, in order.
pub open spec fn tagged_from(data: Seq<u8>, pos: int, walk: Walk, tag: Seq<u8>) -> Seq<(int, int)> {
    boxes_from(data, pos, walk).filter(|b: (int, int)| box_tag(data, b.0) == tag)
}

/// The boxes of `data` that carry the tag `tag`, in order.
pub open spec fn tagged(data: Seq<u8>, walk: Walk, tag: Seq<u8>) -> Seq<(int, int)> {
    tagged_from(data, 0, walk, tag)
}

/// The first box of `data` that carries the tag `tag`.
pub open spec fn first_tagged(data: Seq<u8>, walk: Walk, tag: Seq<u8>) -> Option<(int, int)> {
    let found = tagged(data, walk, tag);
    if found.len() == 0 {
        None
    } else {
        Some(found[0])
    }
}

/// A position and a size as mathematical numbers.
pub open spec fn span_of(found: Option<(usize, usize)>) -> Option<(int, int)> {
    match found {
        Some(span) => Some((span.0 as int, span.1 as int)),
        None => None,
    }
}

/// What a walk finds at `pos` stands before what it finds behind the box at `pos`.
pub proof fn lemma_tagged_step(data: Seq<u8>, pos: int, walk: Walk, tag: Seq<u8>)
    ensures
        !box_at(data, pos, walk) ==> tagged_from(data, pos, walk, tag) == Seq::<(int, int)>::empty(),
        box_at(data, pos, walk) ==> {
            let size = box_size(data, pos, walk);
            let rest = tagged_from(data, pos + size, walk, tag);
            tagged_from(data, pos, walk, tag) == if box_tag(data, pos) == tag {
                seq![(pos, size)] + rest
            } else {
                rest
            }
        },
{
    let has = |b: (int, int)| box_tag(data, b.0) == tag;
    if box_at(data, pos, walk) {
        let size = box_size(data, pos, walk);
        let rest = boxes_from(data, pos + size, walk);
        let first = seq![(pos, size)];
        Seq::filter_distributes_over_add(first, rest, has);
        assert(first.drop_last() =~= seq![]);
        reveal_with_fuel(Seq::filter, 2);
        assert(first.filter(has) =~= if has((pos, size)) { first } else { seq![] });
        assert(boxes_from(data, pos, walk).filter(has) =~= first.filter(has) + rest.filter(has));
    } else {
        reveal_with_fuel(Seq::filter, 1);
        assert(boxes_from(data, pos, walk) =~= seq![]);
    }
}

/// Where the row of boxes from `pos` on ends.
pub open spec fn row_end(data: Seq<u8>, pos: int, walk: Walk) -> int
    decreases
            if pos <= data.len() {
                data.len() - pos
            } else {
                0
            },
{
    if box_at(data, pos, walk) {
        row_end(data, pos + box_size(data, pos, walk), walk)
    } else {
        pos
    }
}

/// The boxes of a row stand one behind the other without a gap, from the start of the row to its
/// end, and the walk finds a box at each of their positions.
pub proof fn lemma_boxes_tile(data: Seq<u8>, pos: int, walk: Walk)
    ensures
        ({
            let row = boxes_from(data, pos, walk);
            &&& forall|i: int|
                #![trigger row[i]]
                0 <= i < row.len() ==> {
                    &&& box_at(data, row[i].0, walk)
                    &&& row[i].1 == box_size(data, row[i].0, walk)
                    &&& pos <= row[i].0
                }
            &&& row.len() == 0 ==> row_end(data, pos, walk) == pos
            &&& row.len() > 0 ==> row[0].0 == pos && row_end(data, pos, walk) == row.last().0
                + row.last().1
            &&& forall|i: int, j: int|
                #![trigger row[i], row[j]]
                0 <= i && j == i + 1 && j < row.len() ==> row[j].0 == row[i].0 + row[i].1
        }),
    decreases
            if pos <= data.len() {
                data.len() - pos
            } else {
                0
            },
{
    let row = boxes_from(data, pos, walk);
    if box_at(data, pos, walk) {
        let size = box_size(data, pos, walk);
        let rest = boxes_from(data, pos + size, walk);
        lemma_boxes_tile(data, pos + size, walk);
        assert(row =~= seq![(pos, size)] + rest);
        assert forall|i: int| #![trigger row[i]] 0 <= i < row.len() implies {
            &&& box_at(data, row[i].0, walk)
            &&& row[i].1 == box_size(data, row[i].0, walk)
            &&& pos <= row[i].0
        } by {
            if i > 0 {
                assert(row[i] == rest[i - 1]);
            }
        }
        if rest.len() > 0 {
            assert(row.last() == rest.last());
        }
        assert forall|i: int, j: int|
            #![trigger row[i], row[j]]
            0 <= i && j == i + 1 && j < row.len() implies row[j].0 == row[i].0 + row[i].1 by {
            assert(row[j] == rest[j - 1]);
            if i > 0 {
                assert(row[i] == rest[i - 1]);
            }
        }
    }
}

/// Each box that a walk finds under a tag is one of the row and carries that tag.
pub proof fn lemma_tagged_are_boxes(data: Seq<u8>, walk: Walk, tag: Seq<u8>)
    ensures
        forall|i: int|
            #![trigger tagged(data, walk, tag)[i]]
            0 <= i < tagged(data, walk, tag).len() ==> {
                let found = tagged(data, walk, tag)[i];
                &&& boxes_from(data, 0, walk).contains(found)
                &&& box_at(data, found.0, walk)
                &&& found.1 == box_size(data, found.0, walk)
                &&& box_tag(data, found.0) == tag
            },
{
    let has = |b: (int, int)| box_tag(data, b.0) == tag;
    let row = boxes_from(data, 0, walk);
    let found = tagged(data, walk, tag);
    lemma_boxes_tile(data, 0, walk);
    assert forall|i: int| #![trigger found[i]] 0 <= i < found.len() implies {
        &&& row.contains(found[i])
        &&& box_at(data, found[i].0, walk)
        &&& found[i].1 == box_size(data, found[i].0, walk)
        &&& box_tag(data, found[i].0) == tag
    } by {
        row.lemma_filter_pred(has, i);
        row.lemma_filter_contains_rev(has, found[i]);
        let j = choose|j: int| 0 <= j < row.len() && row[j] == found[i];
        assert(row[j] == found[i]);
    }
}

/// Data that is one whole box under another tag holds no box under `tag`.
pub proof fn lemma_lone_box(data: Seq<u8>, tag: Seq<u8>)
    requires
        data.len() >= 8,
        be32(data, 0) == data.len() || be32(data, 0) < 8,
        box_tag(data, 0) != tag,
    ensures
        first_tagged(data, Walk::Open, tag) is None,
{
    lemma_tagged_step(data, 0, Walk::Open, tag);
    if be32(data, 0) >= 8 {
        lemma_tagged_step(data, data.len() as int, Walk::Open, tag);
    }
}

/// Where the first box under `tag` starts is settled by the bytes up to the end of its header:
/// other data with the same bytes there has the same first box.
pub proof fn lemma_first_tagged_agrees(a: Seq<u8>, b: Seq<u8>, tag: Seq<u8>)
    requires
        first_tagged(a, Walk::Open, tag) matches Some(found) && found.0 + 8 <= b.len() && a.subrange(
            0,
            found.0 + 8,
        ) == b.subrange(0, found.0 + 8),
    ensures
        first_tagged(b, Walk::Open, tag) == first_tagged(a, Walk::Open, tag),
{
    let found = first_tagged(a, Walk::Open, tag)->0;
    lemma_tagged_are_boxes(a, Walk::Open, tag);
    lemma_tagged_agrees_from(a, b, tag, 0, found);
}

proof fn lemma_tagged_agrees_from(
    a: Seq<u8>,
    b: Seq<u8>,
    tag: Seq<u8>,
    pos: int,
    found: (int, int),
)
    requires
        0 <= pos,
        tagged_from(a, pos, Walk::Open, tag).len() > 0,
        tagged_from(a, pos, Walk::Open, tag)[0] == found,
        found.0 + 8 <= a.len(),
        found.0 + 8 <= b.len(),
        a.subrange(0, found.0 + 8) == b.subrange(0, found.0 + 8),
    ensures
        tagged_from(b, pos, Walk::Open, tag).len() > 0,
        tagged_from(b, pos, Walk::Open, tag)[0] == found,
    decreases
            if pos <= a.len() {
                a.len() - pos
            } else {
                0
            },
{
    lemma_tagged_step(a, pos, Walk::Open, tag);
    lemma_tagged_step(b, pos, Walk::Open, tag);
    lemma_tagged_not_before(a, pos, Walk::Open, tag);
    assert(box_at(a, pos, Walk::Open));
    assert(pos <= found.0);
    assert forall|i: int| 0 <= i < found.0 + 8 implies a[i] == b[i] by {
        assert(a.subrange(0, found.0 + 8)[i] == a[i]);
        assert(b.subrange(0, found.0 + 8)[i] == b[i]);
    }
    assert(box_tag(a, pos) =~= box_tag(b, pos));
    if box_tag(a, pos) != tag {
        lemma_tagged_agrees_from(a, b, tag, pos + box_size(a, pos, Walk::Open), found);
    }
}

/// No box that a walk finds from `pos` on stands in front of `pos`.
pub proof fn lemma_tagged_not_before(data: Seq<u8>, pos: int, walk: Walk, tag: Seq<u8>)
    ensures
        forall|i: int|
            #![trigger tagged_from(data, pos, walk, tag)[i]]
            0 <= i < tagged_from(data, pos, walk, tag).len() ==> tagged_from(
                data,
                pos,
                walk,
                tag,
            )[i].0 >= pos,
{
    let has = |b: (int, int)| box_tag(data, b.0) == tag;
    let row = boxes_from(data, pos, walk);
    lemma_boxes_tile(data, pos, walk);
    let found = tagged_from(data, pos, walk, tag);
    assert forall|i: int| #![trigger found[i]] 0 <= i < found.len() implies found[i].0 >= pos by {
        row.lemma_filter_contains_rev(has, found[i]);
        let j = choose|j: int| 0 <= j < row.len() && row[j] == found[i];
        assert(row[j] == found[i]);
    }
}

/// Reads the number that the four bytes from `at` on spell.
pub fn read_be32(data: &[u8], at: usize) -> (n: u32)
    requires
        at + 4 <= data@.len(),
    ensures
        n == be32(data@, at as int),
{
    data[at] as u32 * 0x100_0000 + data[at + 1] as u32 * 0x1_0000 + data[at + 2] as u32 * 0x100
        + data[at + 3] as u32
}

/// Reports whether the box at `pos` carries the tag `tag`.
pub fn has_tag(data: &[u8], pos: usize, tag: &[u8; 4]) -> (same: bool)
    requires
        pos + 8 <= data@.len(),
    ensures
        same == (box_tag(data@, pos as int) == tag@),
{
    assert(data.len() == data@.len());
    let same = data[pos + 4] == tag[0] && data[pos + 5] == tag[1] && data[pos + 6] == tag[2]
        && data[pos + 7] == tag[3];
    proof {
        let found = box_tag(data@, pos as int);
        assert(found[0] == data@[pos + 4] && found[1] == data@[pos + 5] && found[2] == data@[pos
            + 6] && found[3] == data@[pos + 7]);
        if same {
            assert(found =~= tag@);
        }
    }
    same
}

/// Finds the first box of `data` that carries the tag `target`: its position and its size.
///
/// The box may run past the end of the data.
pub fn find_box(data: &[u8], target: &[u8; 4]) -> (found: Option<(usize, usize)>)
    ensures
        span_of(found) == first_tagged(data@, Walk::Open, target@),
{
    let mut pos: usize = 0;
    while data.len() - pos >= 8
        invariant
            pos <= data@.len(),
            tagged_from(data@, pos as int, Walk::Open, target@) == tagged(
                data@,
                Walk::Open,
                target@,
            ),
        decreases data@.len() - pos,
    {
        proof {
            lemma_tagged_step(data@, pos as int, Walk::Open, target@);
        }
        let size: usize = read_be32(data, pos) as usize;
        if size < 8 {
            return None;
        }
        if has_tag(data, pos, target) {
            return Some((pos, size));
        }
        if size > data.len() - pos {
            proof {
                lemma_tagged_step(data@, pos + size, Walk::Open, target@);
            }
            return None;
        }
        pos = pos + size;
    }
    proof {
        lemma_tagged_step(data@, pos as int, Walk::Open, target@);
    }
    None
}

/// The end of the first `moov` box of data that starts with a file type box, as its size says.
pub open spec fn init_end(data: Seq<u8>) -> Option<int> {
    if data.len() < 8 || box_tag(data, 0) != FTYP@ {
        None
    } else {
        match first_tagged(data, Walk::Open, MOOV@) {
            Some(moov) => Some(moov.0 + moov.1),
            None => None,
        }
    }
}

/// Reports whether a `usize` can hold what `find_init_size` returns for `data`.
pub fn init_size_fits(data: &[u8]) -> (fits: bool)
    ensures
        fits == (init_end(data@) matches Some(end) ==> end <= usize::MAX),
{
    if data.len() < 8 || !has_tag(data, 0, &FTYP) {
        return true;
    }
    match find_box(data, &MOOV) {
        Some((pos, size)) => size <= usize::MAX - pos,
        None => true,
    }
}

/// Finds the size of the part of fragmented MP4 data that precedes the media: everything up to
/// the end of the first `moov` box. `None` where the data does not start with a file type box or
/// holds no `moov` box.
pub fn find_init_size(data: &[u8]) -> (size: Option<usize>)
    requires
        init_end(data@) matches Some(end) ==> end <= usize::MAX,
    ensures
        match size {
            Some(n) => init_end(data@) == Some(n as int),
            None => init_end(data@) is None,
        },
{
    if data.len() < 8 || !has_tag(data, 0, &FTYP) {
        return None;
    }
    match find_box(data, &MOOV) {
        Some((pos, size)) => Some(pos + size),
        None => None,
    }
}

/// The part of the data that precedes the media holds at least the headers of its file type box and
/// of its `moov` box.
pub proof fn lemma_init_holds_two_headers(data: Seq<u8>)
    ensures
        init_end(data) matches Some(end) ==> end >= 16,
{
    if init_end(data) is Some {
        lemma_tagged_step(data, 0, Walk::Open, MOOV@);
        lemma_tagged_are_boxes(data, Walk::Open, MOOV@);
        assert(FTYP@[0] != MOOV@[0]);
        lemma_tagged_not_before(data, box_size(data, 0, Walk::Open), Walk::Open, MOOV@);
    }
}

/// A list of positions and sizes as mathematical numbers.
pub open spec fn spans_of(found: Seq<(u64, u32)>) -> Seq<(int, int)> {
    found.map_values(|b: (u64, u32)| (b.0 as int, b.1 as int))
}

/// Lists the boxes of `data` that carry the tag `tag`.
fn scan_media(data: &[u8], tag: &[u8; 4]) -> (found: Vec<(u64, u32)>)
    ensures
        spans_of(found@) == tagged(data@, Walk::Padded, tag@),
{
    let mut results: Vec<(u64, u32)> = Vec::new();
    let mut pos: usize = 0;
    while data.len() - pos >= 8
        invariant
            pos <= data@.len(),
            spans_of(results@) + tagged_from(data@, pos as int, Walk::Padded, tag@) =~= tagged(
                data@,
                Walk::Padded,
                tag@,
            ),
        decreases data@.len() - pos,
    {
        proof {
            lemma_tagged_step(data@, pos as int, Walk::Padded, tag@);
        }
        let raw: u32 = read_be32(data, pos);
        let size: u32 = if raw < 8 {
            8
        } else {
            raw
        };
        if size as usize > data.len() - pos {
            return results;
        }
        if has_tag(data, pos, tag) {
            let ghost before = results@;
            results.push((pos as u64, size));
            assert(spans_of(results@) =~= spans_of(before) + seq![(pos as int, size as int)]);
        }
        pos = pos + size as usize;
    }
    proof {
        lemma_tagged_step(data@, pos as int, Walk::Padded, tag@);
    }
    results
}

/// Lists the fragment headers of `data`: the position and the size of each.
pub fn scan_media_moofs(data: &[u8]) -> (found: Vec<(u64, u32)>)
    ensures
        spans_of(found@) == tagged(data@, Walk::Padded, MOOF@),
{
    scan_media(data, &MOOF)
}

/// Lists the boxes of media data in `data`: the position and the size of each.
pub fn scan_media_dat(data: &[u8]) -> (found: Vec<(u64, u32)>)
    ensures
        spans_of(found@) == tagged(data@, Walk::Padded, MDAT@),
{
    scan_media(data, &MDAT)
}

/// `data` with the four bytes from `at` on replaced by those that spell `n`.
pub open spec fn with_be32(data: Seq<u8>, at: int, n: int) -> Seq<u8> {
    data.subrange(0, at) + be32_bytes(n) + data.subrange(at + 4, data.len() as int)
}

/// `data` with the track number of a track fragment's header set to two, where a walk along
/// `data` finds such a header with room for the number.
pub open spec fn audio_track_fixed(data: Seq<u8>, walk: Walk) -> Seq<u8> {
    match first_tagged(data, walk, TFHD@) {
        Some(tfhd) => if tfhd.0 + 12 <= data.len() {
            with_be32(data, tfhd.0 + 8, 2)
        } else {
            data
        },
        None => data,
    }
}

/// Writes the number two into the four bytes from `at` on.
pub fn put_track_two(data: &mut [u8], at: usize)
    requires
        at + 4 <= old(data)@.len(),
    ensures
        final(data)@ == with_be32(old(data)@, at as int, 2),
{
    assert(data.len() == data@.len());
    data[at] = 0;
    data[at + 1] = 0;
    data[at + 2] = 0;
    data[at + 3] = 2;
    assert(data@ =~= with_be32(old(data)@, at as int, 2));
}

/// Sets the track number in the first track fragment's header of `data` to two.
pub fn fix_audio_track_id(data: &mut [u8])
    ensures
        final(data)@ == audio_track_fixed(old(data)@, Walk::Open),
{
    if let Some((tfhd_pos, _)) = find_box(data, &TFHD) {
        if tfhd_pos <= data.len() && data.len() - tfhd_pos >= 12 {
            put_track_two(data, tfhd_pos + 8);
        }
    }
}

/// Boxes moved by `by`.
pub open spec fn moved(row: Seq<(int, int)>, by: int) -> Seq<(int, int)> {
    row.map_values(|b: (int, int)| (b.0 + by, b.1))
}

proof fn lemma_row_moves(first: Seq<u8>, rest: Seq<u8>, pos: int, walk: Walk)
    requires
        0 <= pos,
    ensures
        boxes_from(first + rest, first.len() + pos, walk) == moved(
            boxes_from(rest, pos, walk),
            first.len() as int,
        ),
    decreases
            if pos <= rest.len() {
                rest.len() - pos
            } else {
                0
            },
{
    let all = first + rest;
    let n = first.len() as int;
    if pos + 8 <= rest.len() {
        assert(forall|i: int| 0 <= i < rest.len() ==> all[n + i] == rest[i]);
        assert(be32(all, n + pos) == be32(rest, pos));
        assert(box_at(all, n + pos, walk) == box_at(rest, pos, walk));
        if box_at(rest, pos, walk) {
            let size = box_size(rest, pos, walk);
            lemma_row_moves(first, rest, pos + size, walk);
            assert(boxes_from(all, n + pos, walk) =~= moved(boxes_from(rest, pos, walk), n));
        } else {
            assert(boxes_from(all, n + pos, walk) =~= moved(boxes_from(rest, pos, walk), n));
        }
    } else {
        assert(boxes_from(all, n + pos, walk) =~= moved(boxes_from(rest, pos, walk), n));
    }
}

/// A whole box in front of other data is the first of the row, and the boxes of that data follow
/// it, where they were but for its size. Data too short for a header holds no box.
pub proof fn lemma_row_of_whole_boxes(first: Seq<u8>, rest: Seq<u8>, walk: Walk)
    requires
        first.len() >= 8,
        first[0] * 0x100_0000 + first[1] * 0x1_0000 + first[2] * 0x100 + first[3] == first.len(),
    ensures
        boxes_from(first + rest, 0, walk) == seq![(0int, first.len() as int)] + moved(
            boxes_from(rest, 0, walk),
            first.len() as int,
        ),
        rest.len() < 8 ==> boxes_from(rest, 0, walk) == Seq::<(int, int)>::empty(),
{
    let all = first + rest;
    assert(be32(all, 0) == first.len());
    assert(box_at(all, 0, walk));
    lemma_row_moves(first, rest, 0, walk);
    assert(boxes_from(all, 0, walk) =~= seq![(0int, first.len() as int)] + boxes_from(
        all,
        first.len() as int,
        walk,
    ));
}

/// A header whose size is below eight ends the row, or counts as a box of eight bytes; one whose
/// box runs past the end of the data ends the row, or counts as a box of the size that it says.
pub proof fn lemma_odd_sizes(data: Seq<u8>)
    requires
        data.len() >= 8,
    ensures
        ({
            let size = data[0] * 0x100_0000 + data[1] * 0x1_0000 + data[2] * 0x100 + data[3];
            &&& size < 8 ==> boxes_from(data, 0, Walk::Open).len() == 0
            &&& size < 8 ==> boxes_from(data, 0, Walk::Closed).len() == 0
            &&& size < 8 ==> boxes_from(data, 0, Walk::Padded) == seq![(0int, 8int)] + boxes_from(
                data,
                8,
                Walk::Padded,
            )
            &&& size > data.len() ==> boxes_from(data, 0, Walk::Open) == seq![(0int, size)]
            &&& size > data.len() ==> boxes_from(data, 0, Walk::Closed).len() == 0
            &&& size > data.len() ==> boxes_from(data, 0, Walk::Padded).len() == 0
        }),
{
    let size = be32(data, 0);
    if size > data.len() {
        assert(boxes_from(data, size, Walk::Open) =~= Seq::<(int, int)>::empty());
        assert(boxes_from(data, 0, Walk::Open) =~= seq![(0int, size)]);
    }
}

/// The first box under a tag is the first whole box of the data where that carries the tag, and
/// else the first one behind it.
pub proof fn lemma_first_under_tag(first: Seq<u8>, rest: Seq<u8>, walk: Walk, tag: Seq<u8>)
    requires
        first.len() >= 8,
        first[0] * 0x100_0000 + first[1] * 0x1_0000 + first[2] * 0x100 + first[3] == first.len(),
    ensures
        first.subrange(4, 8) == tag ==> first_tagged(first + rest, walk, tag) == Some(
            (0int, first.len() as int),
        ),
        first.subrange(4, 8) != tag ==> first_tagged(first + rest, walk, tag) == match first_tagged(
            rest,
            walk,
            tag,
        ) {
            Some(found) => Some((found.0 + first.len(), found.1)),
            None => None,
        },
        rest.len() < 8 ==> first_tagged(rest, walk, tag) is None,
{
    let all = first + rest;
    let n = first.len() as int;
    assert(be32(all, 0) == n);
    assert(all.subrange(4, 8) =~= first.subrange(4, 8));
    lemma_tagged_step(all, 0, walk, tag);
    lemma_tagged_step(rest, 0, walk, tag);
    lemma_tagged_moves(first, rest, 0, walk, tag);
}

proof fn lemma_tagged_moves(
    first: Seq<u8>,
    rest: Seq<u8>,
    pos: int,
    walk: Walk,
    tag: Seq<u8>,
)
    requires
        0 <= pos,
    ensures
        tagged_from(first + rest, first.len() + pos, walk, tag) == moved(
            tagged_from(rest, pos, walk, tag),
            first.len() as int,
        ),
    decreases
            if pos <= rest.len() {
                rest.len() - pos
            } else {
                0
            },
{
    let all = first + rest;
    let n = first.len() as int;
    lemma_tagged_step(all, n + pos, walk, tag);
    lemma_tagged_step(rest, pos, walk, tag);
    if pos + 8 <= rest.len() {
        assert(forall|i: int| 0 <= i < rest.len() ==> all[n + i] == rest[i]);
        assert(be32(all, n + pos) == be32(rest, pos));
        assert(box_tag(all, n + pos) =~= box_tag(rest, pos));
        if box_at(rest, pos, walk) {
            lemma_tagged_moves(first, rest, pos + box_size(rest, pos, walk), walk, tag);
        }
    }
    assert(tagged_from(all, n + pos, walk, tag) =~= moved(tagged_from(rest, pos, walk, tag), n));
}

/// The boxes under a tag are all of the row that carry it, in order: a whole box in front is the
/// first of them where it carries the tag, and else none of them.
pub proof fn lemma_all_under_tag(first: Seq<u8>, rest: Seq<u8>, walk: Walk, tag: Seq<u8>)
    requires
        first.len() >= 8,
        first[0] * 0x100_0000 + first[1] * 0x1_0000 + first[2] * 0x100 + first[3] == first.len(),
    ensures
        first.subrange(4, 8) == tag ==> tagged(first + rest, walk, tag) == seq![
            (0int, first.len() as int),
        ] + moved(tagged(rest, walk, tag), first.len() as int),
        first.subrange(4, 8) != tag ==> tagged(first + rest, walk, tag) == moved(
            tagged(rest, walk, tag),
            first.len() as int,
        ),
        rest.len() < 8 ==> tagged(rest, walk, tag) == Seq::<(int, int)>::empty(),
{
    let all = first + rest;
    assert(be32(all, 0) == first.len());
    assert(all.subrange(4, 8) =~= first.subrange(4, 8));
    lemma_tagged_step(all, 0, walk, tag);
    lemma_tagged_step(rest, 0, walk, tag);
    lemma_tagged_moves(first, rest, 0, walk, tag);
}

/// The part of a file in front of its media goes to the end of its `moov` box: where that is the
/// second box, behind the file type box, to the end of both. A file that starts otherwise has no
/// such part.
pub proof fn lemma_init_of_two_boxes(ftyp: Seq<u8>, moov: Seq<u8>, rest: Seq<u8>)
    requires
        ftyp.len() >= 8,
        ftyp[0] * 0x100_0000 + ftyp[1] * 0x1_0000 + ftyp[2] * 0x100 + ftyp[3] == ftyp.len(),
        moov.len() >= 8,
        moov[0] * 0x100_0000 + moov[1] * 0x1_0000 + moov[2] * 0x100 + moov[3] == moov.len(),
        moov.subrange(4, 8) == seq![0x6du8, 0x6fu8, 0x6fu8, 0x76u8],
    ensures
        ftyp.subrange(4, 8) == seq![0x66u8, 0x74u8, 0x79u8, 0x70u8] ==> init_end(ftyp + moov + rest)
            == Some((ftyp.len() + moov.len()) as int),
        ftyp.subrange(4, 8) != seq![0x66u8, 0x74u8, 0x79u8, 0x70u8] ==> init_end(ftyp + moov + rest)
            is None,
        rest.len() < 8 ==> init_end(rest) is None,
{
    let all = ftyp + moov + rest;
    assert(all =~= ftyp + (moov + rest));
    assert(FTYP@ =~= seq![0x66u8, 0x74u8, 0x79u8, 0x70u8]);
    assert(MOOV@ =~= seq![0x6du8, 0x6fu8, 0x6fu8, 0x76u8]);
    assert(FTYP@[0] != MOOV@[0]);
    assert(box_tag(all, 0) =~= ftyp.subrange(4, 8));
    lemma_first_under_tag(moov, rest, Walk::Open, MOOV@);
    lemma_first_under_tag(ftyp, moov + rest, Walk::Open, MOOV@);
}

/// Where a track fragment's header is found and has room for its track number, that number becomes
/// two, and no other byte changes. Elsewhere none does.
pub proof fn lemma_track_number_set(data: Seq<u8>, walk: Walk)
    ensures
        ({
            let out = audio_track_fixed(data, walk);
            let header = first_tagged(data, walk, seq![0x74u8, 0x66u8, 0x68u8, 0x64u8]);
            &&& header is None ==> out == data
            &&& header matches Some(found) ==> found.0 + 12 > data.len() ==> out == data
            &&& header matches Some(found) ==> found.0 + 12 <= data.len() ==> {
                &&& out.len() == data.len()
                &&& out.subrange(found.0 + 8, found.0 + 12) == seq![0u8, 0u8, 0u8, 2u8]
                &&& out.subrange(0, found.0 + 8) == data.subrange(0, found.0 + 8)
                &&& out.subrange(found.0 + 12, data.len() as int) == data.subrange(
                    found.0 + 12,
                    data.len() as int,
                )
            }
        }),
{
    assert(TFHD@ =~= seq![0x74u8, 0x66u8, 0x68u8, 0x64u8]);
    lemma_tagged_are_boxes(data, walk, TFHD@);
    let out = audio_track_fixed(data, walk);
    if let Some(found) = first_tagged(data, walk, TFHD@) {
        if found.0 + 12 <= data.len() {
            let at = found.0 + 8;
            assert(be32_bytes(2) =~= seq![0u8, 0u8, 0u8, 2u8]);
            assert(out.subrange(at, at + 4) =~= be32_bytes(2));
            assert(out.subrange(0, at) =~= data.subrange(0, at));
            assert(out.subrange(at + 4, data.len() as int) =~= data.subrange(
                at + 4,
                data.len() as int,
            ));
        }
    }
}

/// Each tag spells the name of its box.
pub proof fn lemma_tags_spell_names()
    ensures
        FTYP@ == seq!['f' as u8, 't' as u8, 'y' as u8, 'p' as u8],
        MOOV@ == seq!['m' as u8, 'o' as u8, 'o' as u8, 'v' as u8],
        MOOF@ == seq!['m' as u8, 'o' as u8, 'o' as u8, 'f' as u8],
        MDAT@ == seq!['m' as u8, 'd' as u8, 'a' as u8, 't' as u8],
        TRAK@ == seq!['t' as u8, 'r' as u8, 'a' as u8, 'k' as u8],
        TKHD@ == seq!['t' as u8, 'k' as u8, 'h' as u8, 'd' as u8],
        TFHD@ == seq!['t' as u8, 'f' as u8, 'h' as u8, 'd' as u8],
{
    assert(FTYP@ =~= seq!['f' as u8, 't' as u8, 'y' as u8, 'p' as u8]);
    assert(MOOV@ =~= seq!['m' as u8, 'o' as u8, 'o' as u8, 'v' as u8]);
    assert(MOOF@ =~= seq!['m' as u8, 'o' as u8, 'o' as u8, 'f' as u8]);
    assert(MDAT@ =~= seq!['m' as u8, 'd' as u8, 'a' as u8, 't' as u8]);
    assert(TRAK@ =~= seq!['t' as u8, 'r' as u8, 'a' as u8, 'k' as u8]);
    assert(TKHD@ =~= seq!['t' as u8, 'k' as u8, 'h' as u8, 'd' as u8]);
    assert(TFHD@ =~= seq!['t' as u8, 'f' as u8, 'h' as u8, 'd' as u8]);
}

} // verus!
