//! Merging the video track of one fragmented MP4 file with the audio track of another.

use crate::boxes::{
    audio_track_fixed, be32, be32_bytes, box_at, box_size, box_tag, boxes_from, find_box,
    find_init_size, first_tagged, fix_audio_track_id, init_end, init_size_fits,
    lemma_first_tagged_agrees, lemma_lone_box, lemma_tagged_are_boxes, lemma_tagged_not_before,
    lemma_tagged_step, put_track_two, read_be32, row_end, scan_media_dat, scan_media_moofs,
    spans_of, tagged, with_be32, Walk, FTYP, MDAT, MOOF, MOOV, TFHD, TKHD, TRAK,
};
use crate::fetch::stream_output;
use crate::merger::extension;
use crate::text::trim;
use crate::types::{DownloadOutput, DownloadView};
use vstd::prelude::*;
use vstd::string::*;

verus! {

/// The bytes of a box, header included.
pub open spec fn whole_box(data: Seq<u8>, found: (int, int)) -> Seq<u8> {
    data.subrange(found.0, found.0 + found.1)
}

/// The bytes of a box behind its header.
pub open spec fn box_payload(data: Seq<u8>, found: (int, int)) -> Seq<u8> {
    data.subrange(found.0 + 8, found.0 + found.1)
}

/// Whether a box ends inside the data.
pub open spec fn box_ends(data: Seq<u8>, found: (int, int)) -> bool {
    found.0 + found.1 <= data.len()
}

/// Where the track number stands in track data whose header box starts at `tkhd`: the first
/// version of that box has wider time stamps in front of it.
pub open spec fn track_number_at(trak: Seq<u8>, tkhd: int) -> int {
    if trak[tkhd + 8] == 1 {
        tkhd + 28
    } else {
        tkhd + 20
    }
}

/// Track data with the track number set to two, where a walk along it finds a track header with
/// room for the number.
pub open spec fn track_renumbered(trak: Seq<u8>) -> Seq<u8> {
    match first_tagged(trak, Walk::Open, TKHD@) {
        Some(tkhd) => {
            let at = track_number_at(trak, tkhd.0);
            if at + 4 <= trak.len() {
                with_be32(trak, at, 2)
            } else {
                trak
            }
        },
        None => trak,
    }
}

/// The boxes inside a `moov` box that a merge takes over.
pub open spec fn kept_children(moov: Seq<u8>) -> Seq<u8> {
    moov.subrange(0, row_end(moov, 0, Walk::Padded))
}

/// The `moov` box with the children `children`.
pub open spec fn moov_box(children: Seq<u8>) -> Seq<u8> {
    be32_bytes(8 + children.len() as int) + MOOV@ + children
}

/// Whether no box that a merge of the two initial segments copies runs past the end of its data.
pub open spec fn inits_fit(video: Seq<u8>, audio: Seq<u8>) -> bool {
    match (
        first_tagged(video, Walk::Open, MOOV@),
        first_tagged(audio, Walk::Open, MOOV@),
        first_tagged(video, Walk::Open, FTYP@),
    ) {
        (Some(v_moov), Some(a_moov), Some(v_ftyp)) => {
            &&& box_ends(video, v_moov)
            &&& box_ends(audio, a_moov)
            &&& match first_tagged(box_payload(audio, a_moov), Walk::Open, TRAK@) {
                Some(trak) => box_ends(box_payload(audio, a_moov), trak) && box_ends(video, v_ftyp),
                None => true,
            }
        },
        _ => true,
    }
}

/// The merged initial segment: the video's file type box, then a `moov` box with all that the
/// video's holds and the audio's first track behind it.
pub open spec fn merged_init(video: Seq<u8>, audio: Seq<u8>) -> Option<Seq<u8>> {
    match (
        first_tagged(video, Walk::Open, MOOV@),
        first_tagged(audio, Walk::Open, MOOV@),
        first_tagged(video, Walk::Open, FTYP@),
    ) {
        (Some(v_moov), Some(a_moov), Some(v_ftyp)) => {
            let a_payload = box_payload(audio, a_moov);
            match first_tagged(a_payload, Walk::Open, TRAK@) {
                Some(trak) => Some(
                    whole_box(video, v_ftyp) + moov_box(
                        kept_children(box_payload(video, v_moov)) + track_renumbered(
                            whole_box(a_payload, trak),
                        ),
                    ),
                ),
                None => None,
            }
        },
        _ => None,
    }
}

/// A track box by itself is a row of one box, so no track header is found in it.
pub proof fn lemma_whole_track_kept(data: Seq<u8>, trak: (int, int))
    requires
        first_tagged(data, Walk::Open, TRAK@) == Some(trak),
        box_ends(data, trak),
    ensures
        first_tagged(whole_box(data, trak), Walk::Open, TKHD@) is None,
        track_renumbered(whole_box(data, trak)) == whole_box(data, trak),
{
    lemma_tagged_are_boxes(data, Walk::Open, TRAK@);
    let whole = whole_box(data, trak);
    assert(be32(whole, 0) == be32(data, trak.0));
    assert(box_tag(whole, 0) =~= box_tag(data, trak.0));
    assert(TRAK@[1] != TKHD@[1]);
    lemma_lone_box(whole, TKHD@);
}

/// The row of boxes from a place inside the data on ends behind that place and inside the data.
pub proof fn lemma_row_end_bounds(data: Seq<u8>, pos: int, walk: Walk)
    requires
        0 <= pos <= data.len(),
        walk !is Open,
    ensures
        pos <= row_end(data, pos, walk) <= data.len(),
    decreases data.len() - pos,
{
    if box_at(data, pos, walk) {
        lemma_row_end_bounds(data, pos + box_size(data, pos, walk), walk);
    }
}

/// Sets the track number in the first track header of `trak` to two.
pub fn renumber_track(trak: &mut Vec<u8>)
    requires
        first_tagged(old(trak)@, Walk::Open, TKHD@) matches Some(tkhd) ==> tkhd.0 + 8 < old(
            trak,
        )@.len(),
    ensures
        final(trak)@ == track_renumbered(old(trak)@),
{
    assert(trak.len() == trak@.len());
    if let Some((tkhd, _)) = find_box(trak.as_slice(), &TKHD) {
        let version: u8 = trak[tkhd + 8];
        let skip: usize = if version == 1 {
            28
        } else {
            20
        };
        if trak.len() - tkhd >= skip + 4 {
            put_track_two(trak.as_mut_slice(), tkhd + skip);
        }
    }
}

/// Reports whether `merge_fmp4_init` can merge the two initial segments without reading past the
/// end of either.
pub fn merge_inits_fit(video_init: &[u8], audio_init: &[u8]) -> (fits: bool)
    ensures
        fits == inits_fit(video_init@, audio_init@),
{
    let v_moov = find_box(video_init, &MOOV);
    let a_moov = find_box(audio_init, &MOOV);
    let v_ftyp = find_box(video_init, &FTYP);
    match (v_moov, a_moov, v_ftyp) {
        (Some((v_pos, v_size)), Some((a_pos, a_size)), Some((f_pos, f_size))) => {
            proof {
                lemma_tagged_are_boxes(video_init@, Walk::Open, MOOV@);
                lemma_tagged_are_boxes(video_init@, Walk::Open, FTYP@);
                lemma_tagged_are_boxes(audio_init@, Walk::Open, MOOV@);
            }
            if v_size > video_init.len() - v_pos || a_size > audio_init.len() - a_pos {
                return false;
            }
            let a_payload = &audio_init[a_pos + 8..a_pos + a_size];
            match find_box(a_payload, &TRAK) {
                Some((pos, size)) => {
                    proof {
                        lemma_tagged_are_boxes(a_payload@, Walk::Open, TRAK@);
                    }
                    size <= a_payload.len() - pos && f_size <= video_init.len() - f_pos
                },
                None => true,
            }
        },
        _ => true,
    }
}

/// Appends the bytes of `data` to `out`.
pub(crate) fn append_bytes(out: &mut Vec<u8>, data: &[u8])
    ensures
        final(out)@ == old(out)@ + data@,
{
    out.extend_from_slice(data);
    assert(out@ =~= old(out)@ + data@);
}

/// Appends the four bytes of `8 + len` to `out`.
#[verifier::spinoff_prover]
#[verifier::rlimit(50)]
pub(crate) fn append_size(out: &mut Vec<u8>, len: usize)
    ensures
        final(out)@ == old(out)@ + be32_bytes(8 + len),
{
    let wide: u64 = len as u64;
    let low: u32 = (wide & 0xffff_ffff) as u32;
    assert(wide & 0xffff_ffff == wide % 0x1_0000_0000) by (bit_vector);
    let size: u32 = low.wrapping_add(8);
    out.push((size / 0x100_0000) as u8);
    out.push((size / 0x1_0000 % 0x100) as u8);
    out.push((size / 0x100 % 0x100) as u8);
    out.push((size % 0x100) as u8);
    proof {
        let n: int = 8 + len;
        assert(size == n % 0x1_0000_0000);
        lemma_be32_bytes_mod(n);
        assert(out@ =~= old(out)@ + be32_bytes(n));
    }
}

proof fn lemma_be32_bytes_mod(n: int)
    requires
        n >= 0,
    ensures
        be32_bytes(n) == be32_bytes(n % 0x1_0000_0000),
        n % 0x1_0000_0000 / 0x100_0000 % 0x100 == n % 0x1_0000_0000 / 0x100_0000,
{
    let q = n / 0x1_0000_0000;
    let m = n % 0x1_0000_0000;
    assert(n == q * 0x1_0000_0000 + m);
    assert(n / 0x100_0000 == q * 0x100 + m / 0x100_0000);
    assert(n / 0x1_0000 == q * 0x1_0000 + m / 0x1_0000);
    assert(n / 0x100 == q * 0x100_0000 + m / 0x100);
    assert((q * 0x100 + m / 0x100_0000) % 0x100 == (m / 0x100_0000) % 0x100);
    assert((q * 0x1_0000 + m / 0x1_0000) % 0x100 == (m / 0x1_0000) % 0x100);
    assert((q * 0x100_0000 + m / 0x100) % 0x100 == (m / 0x100) % 0x100);
    assert((q * 0x1_0000_0000 + m) % 0x100 == m % 0x100);
}

/// Finds where the row of boxes at the start of `data` ends.
fn find_row_end(data: &[u8]) -> (end: usize)
    ensures
        end == row_end(data@, 0, Walk::Padded),
        end <= data@.len(),
{
    let mut pos: usize = 0;
    while data.len() - pos >= 8
        invariant
            pos <= data@.len(),
            row_end(data@, pos as int, Walk::Padded) == row_end(data@, 0, Walk::Padded),
        decreases data@.len() - pos,
    {
        let raw: u32 = read_be32(data, pos);
        let size: usize = if raw < 8 {
            8
        } else {
            raw as usize
        };
        if size > data.len() - pos {
            return pos;
        }
        pos = pos + size;
    }
    pos
}

/// Merges the initial segments of a video and an audio file. `None` where one of them lacks a
/// box that the merge needs.
pub fn merge_fmp4_init(video_init: &[u8], audio_init: &[u8]) -> (merged: Option<Vec<u8>>)
    requires
        inits_fit(video_init@, audio_init@),
    ensures
        match merged {
            Some(out) => merged_init(video_init@, audio_init@) == Some(out@),
            None => merged_init(video_init@, audio_init@) is None,
        },
{
    let (v_moov_pos, v_moov_size) = match find_box(video_init, &MOOV) {
        Some(found) => found,
        None => return None,
    };
    let (a_moov_pos, a_moov_size) = match find_box(audio_init, &MOOV) {
        Some(found) => found,
        None => return None,
    };
    let (v_ftyp_pos, v_ftyp_size) = match find_box(video_init, &FTYP) {
        Some(found) => found,
        None => return None,
    };
    proof {
        lemma_tagged_are_boxes(video_init@, Walk::Open, MOOV@);
        lemma_tagged_are_boxes(video_init@, Walk::Open, FTYP@);
        lemma_tagged_are_boxes(audio_init@, Walk::Open, MOOV@);
        assert(video_init.len() == video_init@.len());
        assert(audio_init.len() == audio_init@.len());
    }
    let v_moov_data = &video_init[v_moov_pos + 8..v_moov_pos + v_moov_size];
    let a_moov_data = &audio_init[a_moov_pos + 8..a_moov_pos + a_moov_size];
    let (trak_pos, trak_size) = match find_box(a_moov_data, &TRAK) {
        Some(found) => found,
        None => return None,
    };
    proof {
        lemma_tagged_are_boxes(a_moov_data@, Walk::Open, TRAK@);
        assert(a_moov_data.len() == a_moov_data@.len());
        lemma_whole_track_kept(a_moov_data@, (trak_pos as int, trak_size as int));
    }
    let mut new_trak: Vec<u8> = Vec::new();
    append_bytes(&mut new_trak, &a_moov_data[trak_pos..trak_pos + trak_size]);
    renumber_track(&mut new_trak);
    let mut children: Vec<u8> = Vec::new();
    let kept: usize = find_row_end(v_moov_data);
    append_bytes(&mut children, &v_moov_data[0..kept]);
    append_bytes(&mut children, new_trak.as_slice());

    let mut out: Vec<u8> = Vec::new();
    append_bytes(&mut out, &video_init[v_ftyp_pos..v_ftyp_pos + v_ftyp_size]);
    append_size(&mut out, children.len());
    append_bytes(&mut out, &MOOV);
    append_bytes(&mut out, children.as_slice());
    proof {
        let want = merged_init(video_init@, audio_init@);
        assert(want is Some);
        assert(out@ =~= want->0);
    }
    Some(out)
}

/// Bytes that spell a number of four bytes spell it again when read.
pub proof fn lemma_be32_read_back(n: int, rest: Seq<u8>)
    requires
        0 <= n < 0x1_0000_0000,
    ensures
        be32(be32_bytes(n) + rest, 0) == n,
{
    let data = be32_bytes(n) + rest;
    assert(n / 0x100_0000 % 0x100 == n / 0x100_0000);
    assert(data[0] == n / 0x100_0000 % 0x100);
    assert(data[1] == n / 0x1_0000 % 0x100);
    assert(data[2] == n / 0x100 % 0x100);
    assert(data[3] == n % 0x100);
    assert(n / 0x1_0000 == n / 0x100_0000 * 0x100 + n / 0x1_0000 % 0x100);
    assert(n / 0x100 == n / 0x1_0000 * 0x100 + n / 0x100 % 0x100);
    assert(n == n / 0x100 * 0x100 + n % 0x100);
}

/// Behind the boxes that a merge keeps, one more whole box ends the row: the merged `moov` box
/// holds the video's boxes, where they were, and the added one.
pub proof fn lemma_added_box_ends_row(moov: Seq<u8>, added: Seq<u8>)
    requires
        added.len() >= 8,
        be32(added, 0) == added.len(),
    ensures
        boxes_from(kept_children(moov) + added, 0, Walk::Padded) == boxes_from(
            moov,
            0,
            Walk::Padded,
        ) + seq![(kept_children(moov).len() as int, added.len() as int)],
{
    lemma_row_end_bounds(moov, 0, Walk::Padded);
    lemma_added_box_from(moov, added, 0);
}

proof fn lemma_added_box_from(moov: Seq<u8>, added: Seq<u8>, pos: int)
    requires
        added.len() >= 8,
        be32(added, 0) == added.len(),
        0 <= pos <= moov.len(),
        row_end(moov, pos, Walk::Padded) == row_end(moov, 0, Walk::Padded),
        row_end(moov, 0, Walk::Padded) <= moov.len(),
    ensures
        boxes_from(kept_children(moov) + added, pos, Walk::Padded) == boxes_from(
            moov,
            pos,
            Walk::Padded,
        ) + seq![(kept_children(moov).len() as int, added.len() as int)],
    decreases moov.len() - pos,
{
    let end = row_end(moov, 0, Walk::Padded);
    let kept = kept_children(moov);
    let all = kept + added;
    lemma_row_end_bounds(moov, pos, Walk::Padded);
    if box_at(moov, pos, Walk::Padded) {
        let size = box_size(moov, pos, Walk::Padded);
        lemma_row_end_bounds(moov, pos + size, Walk::Padded);
        assert(forall|i: int| pos <= i < pos + 8 ==> all[i] == moov[i]);
        assert(be32(all, pos) == be32(moov, pos));
        lemma_added_box_from(moov, added, pos + size);
        assert(boxes_from(all, pos, Walk::Padded) =~= boxes_from(moov, pos, Walk::Padded) + seq![
            (kept.len() as int, added.len() as int),
        ]);
    } else {
        assert(pos == end);
        assert(forall|i: int| 0 <= i < added.len() ==> all[end + i] == added[i]);
        assert(be32(all, end) == be32(added, 0));
        assert(!box_at(all, all.len() as int, Walk::Padded));
        assert(boxes_from(all, all.len() as int, Walk::Padded) =~= seq![]);
        assert(boxes_from(all, end, Walk::Padded) =~= seq![(end, added.len() as int)]);
        assert(boxes_from(moov, pos, Walk::Padded) =~= seq![]);
    }
}

/// A merged initial segment is a row of two whole boxes: the file type box, and a `moov` box that
/// takes up the rest. The number of four bytes in front of a box has to hold its size.
pub proof fn lemma_merged_init_is_row(video: Seq<u8>, audio: Seq<u8>)
    requires
        inits_fit(video, audio),
        merged_init(video, audio) matches Some(out) && out.len() < 0x1_0000_0000,
    ensures
        ({
            let out = merged_init(video, audio)->0;
            let ftyp = first_tagged(video, Walk::Open, FTYP@)->0;
            &&& boxes_from(out, 0, Walk::Closed) == seq![
                (0, ftyp.1),
                (ftyp.1, out.len() - ftyp.1),
            ]
            &&& box_tag(out, 0) == FTYP@
            &&& box_tag(out, ftyp.1) == MOOV@
        }),
{
    let out = merged_init(video, audio)->0;
    let ftyp = first_tagged(video, Walk::Open, FTYP@)->0;
    let moov = first_tagged(video, Walk::Open, MOOV@)->0;
    let a_moov = first_tagged(audio, Walk::Open, MOOV@)->0;
    let a_payload = box_payload(audio, a_moov);
    let trak = first_tagged(a_payload, Walk::Open, TRAK@)->0;
    lemma_tagged_are_boxes(video, Walk::Open, FTYP@);
    lemma_tagged_are_boxes(video, Walk::Open, MOOV@);
    lemma_tagged_are_boxes(audio, Walk::Open, MOOV@);
    let head = whole_box(video, ftyp);
    let children = kept_children(box_payload(video, moov)) + track_renumbered(
        whole_box(a_payload, trak),
    );
    let tail = moov_box(children);
    assert(out == head + tail);
    let n = 8 + children.len() as int;
    lemma_be32_read_back(n, MOOV@ + children);
    assert(tail =~= be32_bytes(n) + (MOOV@ + children));
    assert(tail.len() == n);
    assert(forall|i: int| 0 <= i < head.len() ==> out[i] == video[ftyp.0 + i]);
    assert(forall|i: int| 0 <= i < tail.len() ==> out[head.len() + i] == tail[i]);
    assert(be32(out, 0) == be32(video, ftyp.0));
    assert(be32(out, ftyp.1) == be32(tail, 0));
    assert(box_tag(out, 0) =~= box_tag(video, ftyp.0));
    assert(box_tag(out, ftyp.1) =~= MOOV@);
    assert(boxes_from(out, out.len() as int, Walk::Closed) =~= seq![]);
    assert(boxes_from(out, ftyp.1, Walk::Closed) =~= seq![(ftyp.1, out.len() - ftyp.1)]);
    assert(boxes_from(out, 0, Walk::Closed) =~= seq![(0, ftyp.1), (ftyp.1, out.len() - ftyp.1)]);
}

/// Cutting a file at the end that its header gives for the initial segment keeps the boxes that a
/// merge looks for: the `moov` box ends the segment, and the file type box lies inside it.
pub proof fn lemma_init_segment_holds_moov(file: Seq<u8>, header: Seq<u8>, end: int)
    requires
        header.len() <= file.len(),
        header == file.subrange(0, header.len() as int),
        init_end(header) == Some(end),
        end <= file.len(),
    ensures
        ({
            let init = file.subrange(0, end);
            &&& first_tagged(init, Walk::Open, MOOV@) matches Some(moov) && moov.0 + moov.1 == end
            &&& first_tagged(init, Walk::Open, FTYP@) matches Some(ftyp) && ftyp.0 == 0 && ftyp.1
                <= end
        }),
{
    let init = file.subrange(0, end);
    let moov = first_tagged(header, Walk::Open, MOOV@)->0;
    lemma_tagged_are_boxes(header, Walk::Open, MOOV@);
    assert(header.subrange(0, moov.0 + 8) =~= init.subrange(0, moov.0 + 8));
    lemma_first_tagged_agrees(header, init, MOOV@);
    lemma_tagged_step(header, 0, Walk::Open, MOOV@);
    lemma_tagged_step(init, 0, Walk::Open, FTYP@);
    assert(FTYP@[0] != MOOV@[0]);
    let size = box_size(header, 0, Walk::Open);
    lemma_tagged_not_before(header, size, Walk::Open, MOOV@);
    assert(be32(init, 0) == be32(header, 0));
    assert(box_tag(init, 0) =~= box_tag(header, 0));
}

/// Where both initial segments were cut as planned, the only box that can still run past the end
/// of its data is the audio's track.
pub proof fn lemma_planned_inits_fit(
    video: Seq<u8>,
    video_header: Seq<u8>,
    video_end: int,
    audio: Seq<u8>,
    audio_header: Seq<u8>,
    audio_end: int,
)
    requires
        video_header.len() <= video.len(),
        video_header == video.subrange(0, video_header.len() as int),
        init_end(video_header) == Some(video_end),
        video_end <= video.len(),
        audio_header.len() <= audio.len(),
        audio_header == audio.subrange(0, audio_header.len() as int),
        init_end(audio_header) == Some(audio_end),
        audio_end <= audio.len(),
    ensures
        ({
            let a_init = audio.subrange(0, audio_end);
            let moov = box_payload(a_init, first_tagged(a_init, Walk::Open, MOOV@)->0);
            inits_fit(video.subrange(0, video_end), a_init) == (first_tagged(
                moov,
                Walk::Open,
                TRAK@,
            ) matches Some(trak) ==> box_ends(moov, trak))
        }),
{
    lemma_init_segment_holds_moov(video, video_header, video_end);
    lemma_init_segment_holds_moov(audio, audio_header, audio_end);
}

/// The bytes of the box with number `i` in a list, or none where the list is shorter.
pub open spec fn nth_box(data: Seq<u8>, list: Seq<(int, int)>, i: int) -> Seq<u8> {
    if 0 <= i < list.len() {
        whole_box(data, list[i])
    } else {
        seq![]
    }
}

/// What the video gives to round `i`: its fragment header with that number and the media data
/// with that number behind it. Without such a header it gives nothing.
pub open spec fn video_turn(video: Seq<u8>, i: int) -> Seq<u8> {
    let moofs = tagged(video, Walk::Padded, MOOF@);
    if 0 <= i < moofs.len() {
        whole_box(video, moofs[i]) + nth_box(video, tagged(video, Walk::Padded, MDAT@), i)
    } else {
        seq![]
    }
}

/// What the audio gives to round `i`: as for the video, with the track number in the header set.
pub open spec fn audio_turn(audio: Seq<u8>, i: int) -> Seq<u8> {
    let moofs = tagged(audio, Walk::Padded, MOOF@);
    if 0 <= i < moofs.len() {
        audio_track_fixed(whole_box(audio, moofs[i]), Walk::Open) + nth_box(
            audio,
            tagged(audio, Walk::Padded, MDAT@),
            i,
        )
    } else {
        seq![]
    }
}

/// The first `n` rounds of video and audio in turn.
pub open spec fn rounds(video: Seq<u8>, audio: Seq<u8>, n: int) -> Seq<u8>
    decreases n,
{
    if n <= 0 {
        seq![]
    } else {
        rounds(video, audio, n - 1) + video_turn(video, n - 1) + audio_turn(audio, n - 1)
    }
}

/// The fragments of video and audio in turn, until both have run out.
pub open spec fn interleaved(video: Seq<u8>, audio: Seq<u8>) -> Seq<u8> {
    let v = tagged(video, Walk::Padded, MOOF@).len();
    let a = tagged(audio, Walk::Padded, MOOF@).len();
    rounds(
        video,
        audio,
        if v > a {
            v as int
        } else {
            a as int
        },
    )
}

/// The merged file: the merged initial segment, or both segments where they cannot be merged, and
/// then the fragments in turn.
pub open spec fn merged_file(
    video_init: Seq<u8>,
    audio_init: Seq<u8>,
    video_media: Seq<u8>,
    audio_media: Seq<u8>,
) -> Seq<u8> {
    let init = match merged_init(video_init, audio_init) {
        Some(merged) => merged,
        None => video_init + audio_init,
    };
    init + interleaved(video_media, audio_media)
}

/// A list of positions and sizes keeps its length and its entries as mathematical numbers, and
/// each entry lies inside the data that it was read from.
proof fn lemma_scanned_in_bounds(data: Seq<u8>, found: Seq<(u64, u32)>, tag: Seq<u8>)
    requires
        spans_of(found) == tagged(data, Walk::Padded, tag),
    ensures
        found.len() == tagged(data, Walk::Padded, tag).len(),
        forall|i: int|
            #![trigger found[i]]
            0 <= i < found.len() ==> {
                &&& (found[i].0 as int, found[i].1 as int) == tagged(data, Walk::Padded, tag)[i]
                &&& found[i].0 + found[i].1 <= data.len()
            },
{
    lemma_tagged_are_boxes(data, Walk::Padded, tag);
    assert forall|i: int| #![trigger found[i]] 0 <= i < found.len() implies {
        &&& (found[i].0 as int, found[i].1 as int) == tagged(data, Walk::Padded, tag)[i]
        &&& found[i].0 + found[i].1 <= data.len()
    } by {
        assert(spans_of(found)[i] == (found[i].0 as int, found[i].1 as int));
    }
}

/// Appends the box at `span` of `data` to `out`.
fn append_box(out: &mut Vec<u8>, data: &[u8], span: (u64, u32))
    requires
        span.0 + span.1 <= data@.len(),
    ensures
        final(out)@ == old(out)@ + whole_box(data@, (span.0 as int, span.1 as int)),
{
    assert(data.len() == data@.len());
    let pos: usize = span.0 as usize;
    let size: usize = span.1 as usize;
    append_bytes(out, &data[pos..pos + size]);
}

/// Appends what the video gives to round `i`.
fn append_video_turn(
    out: &mut Vec<u8>,
    media: &[u8],
    moofs: &Vec<(u64, u32)>,
    mdats: &Vec<(u64, u32)>,
    i: usize,
)
    requires
        spans_of(moofs@) == tagged(media@, Walk::Padded, MOOF@),
        spans_of(mdats@) == tagged(media@, Walk::Padded, MDAT@),
    ensures
        final(out)@ == old(out)@ + video_turn(media@, i as int),
{
    proof {
        lemma_scanned_in_bounds(media@, moofs@, MOOF@);
        lemma_scanned_in_bounds(media@, mdats@, MDAT@);
    }
    if i < moofs.len() {
        append_box(out, media, moofs[i]);
        if i < mdats.len() {
            append_box(out, media, mdats[i]);
        }
    }
    assert(out@ =~= old(out)@ + video_turn(media@, i as int));
}

/// Appends what the audio gives to round `i`.
fn append_audio_turn(
    out: &mut Vec<u8>,
    media: &[u8],
    moofs: &Vec<(u64, u32)>,
    mdats: &Vec<(u64, u32)>,
    i: usize,
)
    requires
        spans_of(moofs@) == tagged(media@, Walk::Padded, MOOF@),
        spans_of(mdats@) == tagged(media@, Walk::Padded, MDAT@),
    ensures
        final(out)@ == old(out)@ + audio_turn(media@, i as int),
{
    proof {
        lemma_scanned_in_bounds(media@, moofs@, MOOF@);
        lemma_scanned_in_bounds(media@, mdats@, MDAT@);
    }
    if i < moofs.len() {
        let mut moof: Vec<u8> = Vec::new();
        append_box(&mut moof, media, moofs[i]);
        assert(moof@ =~= whole_box(media@, tagged(media@, Walk::Padded, MOOF@)[i as int]));
        fix_audio_track_id(moof.as_mut_slice());
        append_bytes(out, moof.as_slice());
        if i < mdats.len() {
            append_box(out, media, mdats[i]);
        }
    }
    assert(out@ =~= old(out)@ + audio_turn(media@, i as int));
}

/// Puts the merged file together from the initial segments and the media of video and audio.
pub fn merge_segments(
    video_init: &[u8],
    audio_init: &[u8],
    video_media: &[u8],
    audio_media: &[u8],
) -> (merged: Vec<u8>)
    requires
        inits_fit(video_init@, audio_init@),
    ensures
        merged@ == merged_file(video_init@, audio_init@, video_media@, audio_media@),
{
    let mut out: Vec<u8> = match merge_fmp4_init(video_init, audio_init) {
        Some(merged) => merged,
        None => {
            let mut both: Vec<u8> = Vec::new();
            append_bytes(&mut both, video_init);
            append_bytes(&mut both, audio_init);
            assert(both@ =~= video_init@ + audio_init@);
            both
        },
    };
    let ghost init = out@;
    let v_moofs = scan_media_moofs(video_media);
    let a_moofs = scan_media_moofs(audio_media);
    let v_mdats = scan_media_dat(video_media);
    let a_mdats = scan_media_dat(audio_media);
    proof {
        lemma_scanned_in_bounds(video_media@, v_moofs@, MOOF@);
        lemma_scanned_in_bounds(audio_media@, a_moofs@, MOOF@);
    }
    let total: usize = if v_moofs.len() > a_moofs.len() {
        v_moofs.len()
    } else {
        a_moofs.len()
    };
    let mut i: usize = 0;
    while i < total
        invariant
            i <= total,
            spans_of(v_moofs@) == tagged(video_media@, Walk::Padded, MOOF@),
            spans_of(a_moofs@) == tagged(audio_media@, Walk::Padded, MOOF@),
            spans_of(v_mdats@) == tagged(video_media@, Walk::Padded, MDAT@),
            spans_of(a_mdats@) == tagged(audio_media@, Walk::Padded, MDAT@),
            out@ == init + rounds(video_media@, audio_media@, i as int),
        decreases total - i,
    {
        append_video_turn(&mut out, video_media, &v_moofs, &v_mdats, i);
        append_audio_turn(&mut out, audio_media, &a_moofs, &a_mdats, i);
        i += 1;
        assert(out@ =~= init + rounds(video_media@, audio_media@, i as int));
    }
    out
}

/// A fragment header by itself is a row of one box, so no track fragment's header is found in it:
/// every fragment comes out of a merge byte for byte as it went in.
pub proof fn lemma_whole_fragment_kept(data: Seq<u8>, i: int)
    requires
        0 <= i < tagged(data, Walk::Padded, MOOF@).len(),
    ensures
        ({
            let moof = whole_box(data, tagged(data, Walk::Padded, MOOF@)[i]);
            audio_track_fixed(moof, Walk::Open) == moof
        }),
        audio_turn(data, i) == video_turn(data, i),
{
    lemma_tagged_are_boxes(data, Walk::Padded, MOOF@);
    let found = tagged(data, Walk::Padded, MOOF@)[i];
    let moof = whole_box(data, found);
    assert(be32(moof, 0) == be32(data, found.0));
    assert(box_tag(moof, 0) =~= box_tag(data, found.0));
    assert(MOOF@[0] != TFHD@[0]);
    lemma_lone_box(moof, TFHD@);
}

/// How to merge two files.
pub enum MergePlan {
    /// At least one of the files is not fragmented MP4: put one behind the other.
    Concatenate,
    /// Both are: merge their initial segments, which have these sizes, and their fragments.
    Fragmented { video_init: usize, audio_init: usize },
}

/// How many bytes of each of two files are read in order to plan a merge: 8192, or as many as the
/// shorter one has.
pub open spec fn header_len(video_len: nat, audio_len: nat) -> nat {
    let shorter = if video_len < audio_len {
        video_len
    } else {
        audio_len
    };
    if shorter < 8192 {
        shorter
    } else {
        8192
    }
}

/// How many bytes of each file are read in order to plan a merge.
pub fn header_size(video_len: u64, audio_len: u64) -> (size: usize)
    ensures
        size == header_len(video_len as nat, audio_len as nat),
{
    let mut size: u64 = 8192;
    if video_len < size {
        size = video_len;
    }
    if audio_len < size {
        size = audio_len;
    }
    size as usize
}

/// Plans the merge of two files that start with the given bytes.
pub fn plan_merge(video_header: &[u8], audio_header: &[u8]) -> (plan: MergePlan)
    requires
        init_end(video_header@) matches Some(end) ==> end <= usize::MAX,
        init_end(audio_header@) matches Some(end) ==> end <= usize::MAX,
    ensures
        match plan {
            MergePlan::Concatenate => init_end(video_header@) is None || init_end(
                audio_header@,
            ) is None,
            MergePlan::Fragmented { video_init, audio_init } => init_end(video_header@) == Some(
                video_init as int,
            ) && init_end(audio_header@) == Some(audio_init as int),
        },
{
    match (find_init_size(video_header), find_init_size(audio_header)) {
        (Some(video_init), Some(audio_init)) => MergePlan::Fragmented { video_init, audio_init },
        _ => MergePlan::Concatenate,
    }
}

/// The size of two files one behind the other.
pub fn concatenated_size(video_len: u64, audio_len: u64) -> (size: u64)
    requires
        video_len + audio_len <= u64::MAX,
    ensures
        size == video_len + audio_len,
{
    video_len + audio_len
}

/// The ends of the initial segments of two files, as far as their first bytes show them.
pub open spec fn planned_ends(video: Seq<u8>, audio: Seq<u8>) -> Option<(int, int)> {
    let n = header_len(video.len(), audio.len()) as int;
    match (init_end(video.subrange(0, n)), init_end(audio.subrange(0, n))) {
        (Some(v), Some(a)) => Some((v, a)),
        _ => None,
    }
}

/// What two whole files are merged into: one behind the other where one of them is not fragmented
/// MP4, else their segments and fragments. Nothing where a file ends inside its initial segment.
pub open spec fn merged_files(video: Seq<u8>, audio: Seq<u8>) -> Option<Seq<u8>> {
    match planned_ends(video, audio) {
        None => Some(video + audio),
        Some((v, a)) => if v > video.len() || a > audio.len() {
            None
        } else {
            Some(
                merged_file(
                    video.subrange(0, v),
                    audio.subrange(0, a),
                    video.subrange(v, video.len() as int),
                    audio.subrange(a, audio.len() as int),
                ),
            )
        },
    }
}

/// Whether the numbers that a merge of two whole files works with fit, and no box that it copies
/// runs past the end of its data.
pub open spec fn files_fit(video: Seq<u8>, audio: Seq<u8>) -> bool {
    let n = header_len(video.len(), audio.len()) as int;
    &&& init_end(video.subrange(0, n)) matches Some(end) ==> end <= usize::MAX
    &&& init_end(audio.subrange(0, n)) matches Some(end) ==> end <= usize::MAX
    &&& match planned_ends(video, audio) {
        Some((v, a)) if v <= video.len() && a <= audio.len() => inits_fit(
            video.subrange(0, v),
            audio.subrange(0, a),
        ),
        _ => true,
    }
}

/// Reports whether `merge_streams` can merge the two files.
pub fn streams_fit(video: &[u8], audio: &[u8]) -> (fit: bool)
    ensures
        fit == files_fit(video@, audio@),
{
    assert(video.len() == video@.len() && audio.len() == audio@.len());
    let n: usize = header_size(video.len() as u64, audio.len() as u64);
    let video_header = &video[0..n];
    let audio_header = &audio[0..n];
    if !init_size_fits(video_header) || !init_size_fits(audio_header) {
        return false;
    }
    match plan_merge(video_header, audio_header) {
        MergePlan::Concatenate => true,
        MergePlan::Fragmented { video_init, audio_init } => {
            if video_init > video.len() || audio_init > audio.len() {
                return true;
            }
            merge_inits_fit(&video[0..video_init], &audio[0..audio_init])
        },
    }
}

/// Merges two streams that have been fetched, and names the download for a video with the title
/// `title`; `mime` is the type of the stream with pictures. `None` where a stream ends inside its
/// initial segment.
pub fn merge_streams(video: &[u8], audio: &[u8], title: &str, mime: &str) -> (merged: Option<
    (DownloadOutput, Vec<u8>),
>)
    requires
        files_fit(video@, audio@),
    ensures
        match merged {
            Some((output, bytes)) => {
                &&& merged_files(video@, audio@) == Some(bytes@)
                &&& output@ == (DownloadView {
                    filename: trim(title@) + "."@ + extension(mime@),
                    content_type: "video/"@ + extension(mime@),
                    size_hint: Some(bytes@.len() as u64),
                })
                &&& bytes@.len() <= u64::MAX
            },
            None => merged_files(video@, audio@) is None,
        },
{
    assert(video.len() == video@.len() && audio.len() == audio@.len());
    let n: usize = header_size(video.len() as u64, audio.len() as u64);
    let bytes: Vec<u8> = match plan_merge(&video[0..n], &audio[0..n]) {
        MergePlan::Concatenate => {
            let mut both: Vec<u8> = Vec::new();
            append_bytes(&mut both, video);
            append_bytes(&mut both, audio);
            assert(both@ =~= video@ + audio@);
            both
        },
        MergePlan::Fragmented { video_init, audio_init } => {
            if video_init > video.len() || audio_init > audio.len() {
                return None;
            }
            merge_segments(
                &video[0..video_init],
                &audio[0..audio_init],
                &video[video_init..video.len()],
                &audio[audio_init..audio.len()],
            )
        },
    };
    assert(bytes.len() == bytes@.len());
    let output = stream_output(title, mime, Some(bytes.len() as u64));
    Some((output, bytes))
}

/// Two files of which one is not fragmented MP4 come out one behind the other, and the size of what
/// comes out is the sum of theirs.
pub proof fn lemma_other_files_follow_each_other(video: Seq<u8>, audio: Seq<u8>)
    requires
        ({
            let n = header_len(video.len(), audio.len()) as int;
            init_end(video.subrange(0, n)) is None || init_end(audio.subrange(0, n)) is None
        }),
    ensures
        merged_files(video, audio) == Some(video + audio),
        merged_files(video, audio)->0.len() == video.len() + audio.len(),
{
}

proof fn lemma_rounds_grow(video: Seq<u8>, audio: Seq<u8>, m: int, n: int)
    requires
        0 <= m <= n,
    ensures
        rounds(video, audio, m).is_prefix_of(rounds(video, audio, n)),
    decreases n - m,
{
    let short = rounds(video, audio, m);
    let long = rounds(video, audio, n);
    if m < n {
        lemma_rounds_grow(video, audio, m, n - 1);
        let middle = rounds(video, audio, n - 1);
        assert(long.subrange(0, short.len() as int) =~= middle.subrange(0, short.len() as int));
    }
    assert(short =~= long.subrange(0, short.len() as int));
}

/// The merged media holds every fragment of both files, whole and in order: the fragment with
/// number `i` of the video stands behind all fragments with smaller numbers, and that of the audio
/// follows it.
pub proof fn lemma_no_fragment_lost(video: Seq<u8>, audio: Seq<u8>, i: int)
    requires
        0 <= i,
        i < tagged(video, Walk::Padded, MOOF@).len() || i < tagged(
            audio,
            Walk::Padded,
            MOOF@,
        ).len(),
    ensures
        ({
            let all = interleaved(video, audio);
            let from = rounds(video, audio, i).len() as int;
            let middle = from + video_turn(video, i).len();
            let to = middle + audio_turn(audio, i).len();
            &&& to <= all.len()
            &&& all.subrange(from, middle) == video_turn(video, i)
            &&& all.subrange(middle, to) == audio_turn(audio, i)
        }),
{
    let v = tagged(video, Walk::Padded, MOOF@).len() as int;
    let a = tagged(audio, Walk::Padded, MOOF@).len() as int;
    let n = if v > a {
        v
    } else {
        a
    };
    let all = interleaved(video, audio);
    let before = rounds(video, audio, i);
    let after = rounds(video, audio, i + 1);
    let from = before.len() as int;
    let middle = from + video_turn(video, i).len();
    let to = middle + audio_turn(audio, i).len();
    lemma_rounds_grow(video, audio, i + 1, n);
    assert(after == all.subrange(0, after.len() as int));
    assert(after.len() == to);
    assert forall|k: int| 0 <= k < to implies all[k] == after[k] by {
        assert(all.subrange(0, to)[k] == all[k]);
    }
    assert(all.subrange(from, middle) =~= video_turn(video, i));
    assert(all.subrange(middle, to) =~= audio_turn(audio, i));
}

/// In a merged initial segment the video's file type box comes first, byte for byte. The boxes
/// inside the `moov` box behind it are all those inside the video's, byte for byte and where they
/// were, and then the audio's first track, byte for byte, with which the box ends.
pub proof fn lemma_merged_moov_holds_all(video: Seq<u8>, audio: Seq<u8>)
    requires
        inits_fit(video, audio),
        merged_init(video, audio) matches Some(out) && out.len() < 0x1_0000_0000,
    ensures
        ({
            let out = merged_init(video, audio)->0;
            let ftyp = first_tagged(video, Walk::Open, FTYP@)->0;
            let v_moov = first_tagged(video, Walk::Open, MOOV@)->0;
            let a_moov = first_tagged(audio, Walk::Open, MOOV@)->0;
            let v_inside = video.subrange(v_moov.0 + 8, v_moov.0 + v_moov.1);
            let a_inside = audio.subrange(a_moov.0 + 8, a_moov.0 + a_moov.1);
            let trak = first_tagged(a_inside, Walk::Open, TRAK@)->0;
            let inside = out.subrange(ftyp.1 + 8, out.len() as int);
            let row = boxes_from(v_inside, 0, Walk::Padded);
            let all = boxes_from(inside, 0, Walk::Padded);
            &&& out.subrange(0, ftyp.1) == video.subrange(ftyp.0, ftyp.0 + ftyp.1)
            &&& out.subrange(ftyp.1 + 4, ftyp.1 + 8) == MOOV@
            &&& be32(out, ftyp.1) == out.len() - ftyp.1
            &&& all.len() == row.len() + 1
            &&& forall|i: int|
                #![trigger row[i]]
                0 <= i < row.len() ==> all[i] == row[i] && inside.subrange(
                    row[i].0,
                    row[i].0 + row[i].1,
                ) == v_inside.subrange(row[i].0, row[i].0 + row[i].1)
            &&& inside.subrange(all.last().0, all.last().0 + all.last().1) == a_inside.subrange(
                trak.0,
                trak.0 + trak.1,
            )
            &&& all.last().0 + all.last().1 == inside.len()
        }),
{
    let out = merged_init(video, audio)->0;
    let ftyp = first_tagged(video, Walk::Open, FTYP@)->0;
    let v_moov = first_tagged(video, Walk::Open, MOOV@)->0;
    let a_moov = first_tagged(audio, Walk::Open, MOOV@)->0;
    let v_inside = video.subrange(v_moov.0 + 8, v_moov.0 + v_moov.1);
    let a_inside = audio.subrange(a_moov.0 + 8, a_moov.0 + a_moov.1);
    let trak = first_tagged(a_inside, Walk::Open, TRAK@)->0;
    lemma_tagged_are_boxes(video, Walk::Open, FTYP@);
    lemma_tagged_are_boxes(video, Walk::Open, MOOV@);
    lemma_tagged_are_boxes(audio, Walk::Open, MOOV@);
    lemma_tagged_are_boxes(a_inside, Walk::Open, TRAK@);
    lemma_whole_track_kept(a_inside, trak);
    let added = whole_box(a_inside, trak);
    let head = whole_box(video, ftyp);
    assert(added.len() == trak.1);
    assert(be32(added, 0) == be32(a_inside, trak.0));
    assert(out == head + moov_box(kept_children(v_inside) + added));
    lemma_moov_parts(head, v_inside, added);
}

proof fn lemma_moov_parts(head: Seq<u8>, v_inside: Seq<u8>, added: Seq<u8>)
    requires
        added.len() >= 8,
        be32(added, 0) == added.len(),
        (head + moov_box(kept_children(v_inside) + added)).len() < 0x1_0000_0000,
    ensures
        ({
            let out = head + moov_box(kept_children(v_inside) + added);
            let n = head.len() as int;
            let inside = out.subrange(n + 8, out.len() as int);
            let row = boxes_from(v_inside, 0, Walk::Padded);
            let all = boxes_from(inside, 0, Walk::Padded);
            &&& out.subrange(0, n) == head
            &&& out.subrange(n + 4, n + 8) == MOOV@
            &&& be32(out, n) == out.len() - n
            &&& all.len() == row.len() + 1
            &&& forall|i: int|
                #![trigger row[i]]
                0 <= i < row.len() ==> all[i] == row[i] && inside.subrange(
                    row[i].0,
                    row[i].0 + row[i].1,
                ) == v_inside.subrange(row[i].0, row[i].0 + row[i].1)
            &&& inside.subrange(all.last().0, all.last().0 + all.last().1) == added
            &&& all.last().0 + all.last().1 == inside.len()
        }),
{
    let kept = kept_children(v_inside);
    let children = kept + added;
    let tail = moov_box(children);
    let out = head + tail;
    let n = head.len() as int;
    let size = 8 + children.len() as int;
    let inside = out.subrange(n + 8, out.len() as int);
    let row = boxes_from(v_inside, 0, Walk::Padded);
    let all = boxes_from(inside, 0, Walk::Padded);
    lemma_row_end_bounds(v_inside, 0, Walk::Padded);
    assert(tail.len() == size);
    assert(inside =~= children);
    assert(out.subrange(0, n) =~= head);
    assert(out.subrange(n + 4, n + 8) =~= MOOV@);
    assert(be32(out, n) == size) by {
        lemma_be32_read_back(size, MOOV@ + children);
        assert(tail =~= be32_bytes(size) + (MOOV@ + children));
        assert(be32(out, n) == be32(tail, 0));
    }
    lemma_added_box_ends_row(v_inside, added);
    assert forall|i: int| #![trigger row[i]] 0 <= i < row.len() implies all[i] == row[i]
        && inside.subrange(row[i].0, row[i].0 + row[i].1) == v_inside.subrange(
        row[i].0,
        row[i].0 + row[i].1,
    ) by {
        lemma_box_before_end(v_inside, 0, i);
        assert(inside.subrange(row[i].0, row[i].0 + row[i].1) =~= v_inside.subrange(
            row[i].0,
            row[i].0 + row[i].1,
        ));
    }
    assert(all.last() == (kept.len() as int, added.len() as int));
    assert(inside.subrange(kept.len() as int, inside.len() as int) =~= added);
}

proof fn lemma_box_before_end(data: Seq<u8>, pos: int, i: int)
    requires
        0 <= pos <= data.len(),
        0 <= i < boxes_from(data, pos, Walk::Padded).len(),
    ensures
        ({
            let found = boxes_from(data, pos, Walk::Padded)[i];
            &&& pos <= found.0
            &&& 8 <= found.1
            &&& found.0 + found.1 <= row_end(data, pos, Walk::Padded) <= data.len()
        }),
    decreases data.len() - pos,
{
    assert(box_at(data, pos, Walk::Padded));
    let size = box_size(data, pos, Walk::Padded);
    lemma_row_end_bounds(data, pos + size, Walk::Padded);
    if i > 0 {
        lemma_box_before_end(data, pos + size, i - 1);
        assert(boxes_from(data, pos, Walk::Padded)[i] == boxes_from(
            data,
            pos + size,
            Walk::Padded,
        )[i - 1]);
    }
}

/// Initial segments cannot be merged exactly where the video's lacks a file type box or a `moov`
/// box, or the audio's lacks a `moov` box or a track in it.
pub proof fn lemma_merged_where_boxes_are(video: Seq<u8>, audio: Seq<u8>)
    ensures
        ({
            let moov = first_tagged(audio, Walk::Open, MOOV@)->0;
            let inside = audio.subrange(moov.0 + 8, moov.0 + moov.1);
            merged_init(video, audio) is None <==> {
                ||| first_tagged(video, Walk::Open, FTYP@) is None
                ||| first_tagged(video, Walk::Open, MOOV@) is None
                ||| first_tagged(audio, Walk::Open, MOOV@) is None
                ||| first_tagged(inside, Walk::Open, TRAK@) is None
            }
        }),
{
}

/// Where a track header is found and has room for its track number, that number becomes two, and no
/// other byte changes. It stands twenty bytes behind the start of the header, and eight more behind
/// that in the version with wide time stamps.
pub proof fn lemma_track_header_set(data: Seq<u8>)
    requires
        first_tagged(data, Walk::Open, TKHD@) is Some,
    ensures
        ({
            let at = (first_tagged(data, Walk::Open, TKHD@)->0).0;
            let number = if data[at + 8] == 1 {
                at + 28
            } else {
                at + 20
            };
            let out = track_renumbered(data);
            &&& number + 4 > data.len() ==> out == data
            &&& number + 4 <= data.len() ==> {
                &&& out.len() == data.len()
                &&& out.subrange(number, number + 4) == seq![0u8, 0u8, 0u8, 2u8]
                &&& out.subrange(0, number) == data.subrange(0, number)
                &&& out.subrange(number + 4, data.len() as int) == data.subrange(
                    number + 4,
                    data.len() as int,
                )
            }
        }),
{
    lemma_tagged_are_boxes(data, Walk::Open, TKHD@);
    let at = (first_tagged(data, Walk::Open, TKHD@)->0).0;
    let number = if data[at + 8] == 1 {
        at + 28
    } else {
        at + 20
    };
    let out = track_renumbered(data);
    if number + 4 <= data.len() {
        assert(be32_bytes(2) =~= seq![0u8, 0u8, 0u8, 2u8]);
        assert(out.subrange(number, number + 4) =~= be32_bytes(2));
        assert(out.subrange(0, number) =~= data.subrange(0, number));
        assert(out.subrange(number + 4, data.len() as int) =~= data.subrange(
            number + 4,
            data.len() as int,
        ));
    }
}

/// In its turn a file gives its fragment header with that number, byte for byte, and the media data
/// with that number behind it, as far as there is one; without such a header it gives nothing.
pub proof fn lemma_turn_is_fragment(data: Seq<u8>, i: int)
    requires
        0 <= i,
    ensures
        ({
            let moofs = tagged(data, Walk::Padded, MOOF@);
            let mdats = tagged(data, Walk::Padded, MDAT@);
            &&& i >= moofs.len() ==> video_turn(data, i).len() == 0 && audio_turn(data, i).len()
                == 0
            &&& i < moofs.len() && i < mdats.len() ==> video_turn(data, i) == data.subrange(
                moofs[i].0,
                moofs[i].0 + moofs[i].1,
            ) + data.subrange(mdats[i].0, mdats[i].0 + mdats[i].1)
            &&& i < moofs.len() && i >= mdats.len() ==> video_turn(data, i) == data.subrange(
                moofs[i].0,
                moofs[i].0 + moofs[i].1,
            )
            &&& audio_turn(data, i) == video_turn(data, i)
        }),
{
    let moofs = tagged(data, Walk::Padded, MOOF@);
    if i < moofs.len() {
        lemma_whole_fragment_kept(data, i);
        assert(whole_box(data, moofs[i]) + Seq::<u8>::empty() =~= whole_box(data, moofs[i]));
    }
}

/// The merged media is made of the turns of both files and of nothing else: it starts empty, each
/// round adds the turn of the video and then that of the audio, and it ends when both have run out.
pub proof fn lemma_media_is_turns(video: Seq<u8>, audio: Seq<u8>, i: int)
    requires
        0 <= i,
    ensures
        rounds(video, audio, 0).len() == 0,
        rounds(video, audio, i + 1) == rounds(video, audio, i) + video_turn(video, i) + audio_turn(
            audio,
            i,
        ),
        i >= tagged(video, Walk::Padded, MOOF@).len() && i >= tagged(
            audio,
            Walk::Padded,
            MOOF@,
        ).len() ==> rounds(video, audio, i) == interleaved(video, audio),
    decreases i,
{
    let v = tagged(video, Walk::Padded, MOOF@).len() as int;
    let a = tagged(audio, Walk::Padded, MOOF@).len() as int;
    let n = if v > a {
        v
    } else {
        a
    };
    if i >= n {
        if i > n {
            lemma_media_is_turns(video, audio, i - 1);
            assert(rounds(video, audio, i) =~= rounds(video, audio, i - 1));
        }
    }
}

/// A merged file starts with the merged initial segment, or with both segments where they cannot be
/// merged, and the merged media follows.
pub proof fn lemma_merged_file_is_init_and_media(
    video_init: Seq<u8>,
    audio_init: Seq<u8>,
    video_media: Seq<u8>,
    audio_media: Seq<u8>,
)
    ensures
        ({
            let out = merged_file(video_init, audio_init, video_media, audio_media);
            let media = interleaved(video_media, audio_media);
            &&& merged_init(video_init, audio_init) is Some ==> out == merged_init(
                video_init,
                audio_init,
            )->0 + media
            &&& merged_init(video_init, audio_init) is None ==> out == video_init + audio_init
                + media
        }),
{
}

/// The first 8192 bytes decide, or as many as both files have: only where they show an initial
/// segment of both files are these merged, each cut behind that segment. A file that ends inside it
/// is not merged.
pub proof fn lemma_first_bytes_decide(video: Seq<u8>, audio: Seq<u8>)
    ensures
        ({
            let n = if video.len() <= audio.len() && video.len() <= 8192 {
                video.len() as int
            } else if audio.len() <= 8192 {
                audio.len() as int
            } else {
                8192
            };
            let v = init_end(video.subrange(0, n));
            let a = init_end(audio.subrange(0, n));
            &&& v is None || a is None ==> merged_files(video, audio) == Some(video + audio)
            &&& v is Some && a is Some && (v->0 > video.len() || a->0 > audio.len())
                ==> merged_files(video, audio) is None
            &&& v is Some && a is Some && v->0 <= video.len() && a->0 <= audio.len()
                ==> merged_files(video, audio) == Some(
                merged_file(
                    video.subrange(0, v->0),
                    audio.subrange(0, a->0),
                    video.subrange(v->0, video.len() as int),
                    audio.subrange(a->0, audio.len() as int),
                ),
            )
        }),
{
}

/// Initial segments can be merged, or be found to lack a box, unless a box that would be copied
/// runs past the end of its data.
pub proof fn lemma_inits_fit_where_boxes_end(video: Seq<u8>, audio: Seq<u8>)
    ensures
        ({
            let ftyp = first_tagged(video, Walk::Open, FTYP@);
            let v_moov = first_tagged(video, Walk::Open, MOOV@);
            let a_moov = first_tagged(audio, Walk::Open, MOOV@);
            let inside = audio.subrange((a_moov->0).0 + 8, (a_moov->0).0 + (a_moov->0).1);
            let trak = first_tagged(inside, Walk::Open, TRAK@);
            let all = ftyp is Some && v_moov is Some && a_moov is Some;
            let ends = (v_moov->0).0 + (v_moov->0).1 <= video.len() && (a_moov->0).0 + (
            a_moov->0).1 <= audio.len();
            &&& !all ==> inits_fit(video, audio)
            &&& all && !ends ==> !inits_fit(video, audio)
            &&& all && ends && trak is None ==> inits_fit(video, audio)
            &&& all && ends && trak is Some ==> (inits_fit(video, audio) <==> (trak->0).0 + (
            trak->0).1 <= inside.len() && (ftyp->0).0 + (ftyp->0).1 <= video.len())
        }),
{
}

/// Two files can be merged where their first bytes show no initial segment in either, and where
/// they show one in both that a file ends inside. Where both initial segments are whole, it depends
/// on them alone.
pub proof fn lemma_files_fit_where_inits_do(video: Seq<u8>, audio: Seq<u8>, n: int)
    requires
        video.len() <= usize::MAX,
        audio.len() <= usize::MAX,
        n <= video.len() && n <= audio.len() && n <= 8192,
        n == video.len() || n == audio.len() || n == 8192,
    ensures
        ({
            let v = init_end(video.subrange(0, n));
            let a = init_end(audio.subrange(0, n));
            &&& v is None && a is None ==> files_fit(video, audio)
            &&& v is Some && a is Some && v->0 <= usize::MAX && a->0 <= usize::MAX && (v->0
                > video.len() || a->0 > audio.len()) ==> files_fit(video, audio)
            &&& v is Some && a is Some && v->0 <= video.len() && a->0 <= audio.len() ==> files_fit(
                video,
                audio,
            ) == inits_fit(video.subrange(0, v->0), audio.subrange(0, a->0))
        }),
{
}

} // verus!
