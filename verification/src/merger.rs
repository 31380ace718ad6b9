//! Merging video and audio bytes in memory, for use in a browser.
//!
//! Every box has to lie inside its data here.

use crate::boxes::{
    audio_track_fixed, be32, be32_bytes, box_at, box_size, box_tag, boxes_from, first_tagged,
    has_tag, lemma_boxes_tile, lemma_first_under_tag, lemma_tagged_are_boxes,
    lemma_tagged_not_before, lemma_tagged_step, put_track_two, read_be32, row_end, span_of, tagged,
    tagged_from, Walk, FTYP, MDAT, MOOF, MOOV, TFHD, TRAK,
};
use crate::merge::{
    append_bytes, append_size, box_payload, lemma_be32_read_back, lemma_row_end_bounds, moov_box,
    whole_box,
};
use crate::text::{contains, text_contains};
use vstd::prelude::*;
use vstd::string::*;

verus! {

/// A list of positions and sizes as mathematical numbers.
pub open spec fn spans_of(found: Seq<(usize, usize)>) -> Seq<(int, int)> {
    found.map_values(|b: (usize, usize)| (b.0 as int, b.1 as int))
}

/// The outcome of a merge in terms of bytes and text.
pub open spec fn outcome_of(result: Result<Vec<u8>, String>) -> Result<Seq<u8>, Seq<char>> {
    match result {
        Ok(bytes) => Ok(bytes@),
        Err(error) => Err(error@),
    }
}

/// Finds the first box of `data` that carries the tag `target`: its position and its size.
pub fn find_box(data: &[u8], target: &[u8; 4]) -> (found: Option<(usize, usize)>)
    ensures
        span_of(found) == first_tagged(data@, Walk::Closed, target@),
{
    let mut pos: usize = 0;
    while data.len() - pos >= 8
        invariant
            pos <= data@.len(),
            tagged_from(data@, pos as int, Walk::Closed, target@) == tagged(
                data@,
                Walk::Closed,
                target@,
            ),
        decreases data@.len() - pos,
    {
        proof {
            lemma_tagged_step(data@, pos as int, Walk::Closed, target@);
        }
        let size: usize = read_be32(data, pos) as usize;
        if size < 8 || size > data.len() - pos {
            return None;
        }
        if has_tag(data, pos, target) {
            return Some((pos, size));
        }
        pos = pos + size;
    }
    proof {
        lemma_tagged_step(data@, pos as int, Walk::Closed, target@);
    }
    None
}

/// What the first box under `tag` holds, or the error `missing` where there is none.
pub open spec fn payload_or(data: Seq<u8>, tag: Seq<u8>, missing: Seq<char>) -> Result<
    Seq<u8>,
    Seq<char>,
> {
    match first_tagged(data, Walk::Closed, tag) {
        Some(found) => Ok(box_payload(data, found)),
        None => Err(missing),
    }
}

/// Copies what the first `moov` box of `data` holds.
pub fn extract_moov_payload(data: &[u8]) -> (payload: Result<Vec<u8>, String>)
    ensures
        outcome_of(payload) == payload_or(data@, MOOV@, "no moov in data"@),
{
    match find_box(data, &MOOV) {
        Some((pos, size)) => {
            proof {
                lemma_tagged_are_boxes(data@, Walk::Closed, MOOV@);
                assert(data.len() == data@.len());
            }
            let mut out: Vec<u8> = Vec::new();
            append_bytes(&mut out, &data[pos + 8..pos + size]);
            assert(out@ =~= box_payload(data@, (pos as int, size as int)));
            Ok(out)
        },
        None => Err("no moov in data".to_owned()),
    }
}

/// Copies what the first `trak` box inside a `moov` box holds.
pub fn extract_trak_from_moov(moov_payload: &[u8]) -> (payload: Result<Vec<u8>, String>)
    ensures
        outcome_of(payload) == payload_or(moov_payload@, TRAK@, "no trak in moov"@),
{
    match find_box(moov_payload, &TRAK) {
        Some((pos, size)) => {
            proof {
                lemma_tagged_are_boxes(moov_payload@, Walk::Closed, TRAK@);
                assert(moov_payload.len() == moov_payload@.len());
            }
            let mut out: Vec<u8> = Vec::new();
            append_bytes(&mut out, &moov_payload[pos + 8..pos + size]);
            assert(out@ =~= box_payload(moov_payload@, (pos as int, size as int)));
            Ok(out)
        },
        None => Err("no trak in moov".to_owned()),
    }
}

/// The merged initial segment: the start of the video's, as long as its file type box, then a
/// `moov` box with the video's children and what the audio's first track box holds.
pub open spec fn merged_inits(video: Seq<u8>, audio: Seq<u8>) -> Result<Seq<u8>, Seq<char>> {
    match first_tagged(video, Walk::Closed, FTYP@) {
        None => Err("no ftyp in video"@),
        Some(ftyp) => match payload_or(video, MOOV@, "no moov in data"@) {
            Err(error) => Err(error),
            Ok(v_moov) => match payload_or(audio, MOOV@, "no moov in data"@) {
                Err(error) => Err(error),
                Ok(a_moov) => match payload_or(a_moov, TRAK@, "no trak in moov"@) {
                    Err(error) => Err(error),
                    Ok(trak) => Ok(
                        video.subrange(0, ftyp.1) + moov_box(
                            v_moov.subrange(0, row_end(v_moov, 0, Walk::Closed)) + trak,
                        ),
                    ),
                },
            },
        },
    }
}

/// Finds where the row of boxes at the start of `data` ends.
fn find_row_end(data: &[u8]) -> (end: usize)
    ensures
        end == row_end(data@, 0, Walk::Closed),
        end <= data@.len(),
{
    let mut pos: usize = 0;
    while data.len() - pos >= 8
        invariant
            pos <= data@.len(),
            row_end(data@, pos as int, Walk::Closed) == row_end(data@, 0, Walk::Closed),
        decreases data@.len() - pos,
    {
        let size: usize = read_be32(data, pos) as usize;
        if size < 8 || size > data.len() - pos {
            return pos;
        }
        pos = pos + size;
    }
    pos
}

/// Merges the initial segments of video and audio.
pub fn merge_inits(video_init: &[u8], audio_init: &[u8]) -> (merged: Result<Vec<u8>, String>)
    ensures
        outcome_of(merged) == merged_inits(video_init@, audio_init@),
{
    let ftyp_size: usize = match find_box(video_init, &FTYP) {
        Some((_, size)) => size,
        None => return Err("no ftyp in video".to_owned()),
    };
    proof {
        lemma_tagged_are_boxes(video_init@, Walk::Closed, FTYP@);
    }
    let v_moov = match extract_moov_payload(video_init) {
        Ok(payload) => payload,
        Err(error) => return Err(error),
    };
    let a_moov = match extract_moov_payload(audio_init) {
        Ok(payload) => payload,
        Err(error) => return Err(error),
    };
    let a_trak = match extract_trak_from_moov(a_moov.as_slice()) {
        Ok(payload) => payload,
        Err(error) => return Err(error),
    };
    let mut children: Vec<u8> = Vec::new();
    let kept: usize = find_row_end(v_moov.as_slice());
    append_bytes(&mut children, &v_moov.as_slice()[0..kept]);
    append_bytes(&mut children, a_trak.as_slice());
    let mut out: Vec<u8> = Vec::new();
    append_bytes(&mut out, &video_init[0..ftyp_size]);
    append_size(&mut out, children.len());
    append_bytes(&mut out, &MOOV);
    append_bytes(&mut out, children.as_slice());
    proof {
        let want = merged_inits(video_init@, audio_init@);
        assert(want is Ok);
        assert(out@ =~= want->Ok_0);
    }
    Ok(out)
}

/// Lists the boxes of `data` that carry the tag `tag`.
pub fn scan_fragments(data: &[u8], tag: &[u8; 4]) -> (found: Vec<(usize, usize)>)
    ensures
        spans_of(found@) == tagged(data@, Walk::Closed, tag@),
{
    let mut frags: Vec<(usize, usize)> = Vec::new();
    let mut pos: usize = 0;
    while data.len() - pos >= 8
        invariant
            pos <= data@.len(),
            spans_of(frags@) + tagged_from(data@, pos as int, Walk::Closed, tag@) =~= tagged(
                data@,
                Walk::Closed,
                tag@,
            ),
        decreases data@.len() - pos,
    {
        proof {
            lemma_tagged_step(data@, pos as int, Walk::Closed, tag@);
        }
        let size: usize = read_be32(data, pos) as usize;
        if size < 8 || size > data.len() - pos {
            return frags;
        }
        if has_tag(data, pos, tag) {
            let ghost before = frags@;
            frags.push((pos, size));
            assert(spans_of(frags@) =~= spans_of(before) + seq![(pos as int, size as int)]);
        }
        pos = pos + size;
    }
    proof {
        lemma_tagged_step(data@, pos as int, Walk::Closed, tag@);
    }
    frags
}

/// Sets the track number in the first track fragment's header of `data` to two.
pub fn fix_audio_tfhd(data: &mut [u8])
    ensures
        final(data)@ == audio_track_fixed(old(data)@, Walk::Closed),
{
    if let Some((tfhd_pos, _)) = find_box(data, &TFHD) {
        proof {
            lemma_tagged_are_boxes(data@, Walk::Closed, TFHD@);
        }
        if data.len() - tfhd_pos >= 12 {
            put_track_two(data, tfhd_pos + 8);
        }
    }
}

/// Where the row of fragments lies in the media, each moved by `shift`.
pub open spec fn shifted(found: (int, int), shift: int) -> (int, int) {
    (found.0 + shift, found.1)
}

/// The bytes of the fragment with number `i`, moved by `shift`, or none where the list is shorter.
pub open spec fn nth_fragment(
    data: Seq<u8>,
    list: Seq<(int, int)>,
    shift: int,
    i: int,
) -> Seq<u8> {
    if 0 <= i < list.len() {
        whole_box(data, shifted(list[i], shift))
    } else {
        seq![]
    }
}

/// As `nth_fragment`, with the track number set.
pub open spec fn nth_audio_fragment(
    data: Seq<u8>,
    list: Seq<(int, int)>,
    shift: int,
    i: int,
) -> Seq<u8> {
    if 0 <= i < list.len() {
        audio_track_fixed(whole_box(data, shifted(list[i], shift)), Walk::Closed)
    } else {
        seq![]
    }
}

/// The fragments of one track: headers and media data, their bytes, and by how much the positions
/// are moved.
pub struct Track {
    pub moofs: Seq<(int, int)>,
    pub mdats: Seq<(int, int)>,
    pub media: Seq<u8>,
    pub shift: int,
}

/// The first `n` rounds of header and media data of the video, then of the audio.
pub open spec fn rounds(video: Track, audio: Track, n: int) -> Seq<u8>
    decreases n,
{
    if n <= 0 {
        seq![]
    } else {
        let i = n - 1;
        rounds(video, audio, i) + nth_fragment(video.media, video.moofs, video.shift, i)
            + nth_fragment(video.media, video.mdats, video.shift, i) + nth_audio_fragment(
            audio.media,
            audio.moofs,
            audio.shift,
            i,
        ) + nth_fragment(audio.media, audio.mdats, audio.shift, i)
    }
}

/// The number of rounds: as many as the track with more headers has.
pub open spec fn round_count(video: Track, audio: Track) -> int {
    if video.moofs.len() > audio.moofs.len() {
        video.moofs.len() as int
    } else {
        audio.moofs.len() as int
    }
}

/// Whether each fragment of the list that takes part in `n` rounds lies in the media once moved.
pub open spec fn fragments_fit(list: Seq<(int, int)>, media: Seq<u8>, shift: int, n: int) -> bool {
    forall|i: int|
        #![trigger list[i]]
        0 <= i < list.len() && i < n ==> list[i].0 + shift + list[i].1 <= media.len()
}

/// Whether every fragment of both tracks that takes part lies in its media once moved.
pub open spec fn tracks_fit(video: Track, audio: Track) -> bool {
    let n = round_count(video, audio);
    &&& fragments_fit(video.moofs, video.media, video.shift, n)
    &&& fragments_fit(video.mdats, video.media, video.shift, n)
    &&& fragments_fit(audio.moofs, audio.media, audio.shift, n)
    &&& fragments_fit(audio.mdats, audio.media, audio.shift, n)
}

/// The track that a list of headers, a list of media data, the media and a shift make up.
pub open spec fn track_of(
    moofs: Seq<(usize, usize)>,
    mdats: Seq<(usize, usize)>,
    media: Seq<u8>,
    shift: usize,
) -> Track {
    Track { moofs: spans_of(moofs), mdats: spans_of(mdats), media, shift: shift as int }
}

/// Appends the fragment with number `i` of a list to `out`, if there is one.
fn append_fragment(
    out: &mut Vec<u8>,
    data: &[u8],
    list: &[(usize, usize)],
    shift: usize,
    i: usize,
)
    requires
        i < list@.len() ==> list@[i as int].0 + shift + list@[i as int].1 <= data@.len(),
    ensures
        final(out)@ == old(out)@ + nth_fragment(data@, spans_of(list@), shift as int, i as int),
{
    if i < list.len() {
        assert(data.len() == data@.len());
        let (pos, size) = list[i];
        append_bytes(out, &data[shift + pos..shift + pos + size]);
    }
    assert(out@ =~= old(out)@ + nth_fragment(data@, spans_of(list@), shift as int, i as int));
}

/// Puts the fragments of video and audio behind `merged_init`, in turn.
///
/// The positions in the lists count from the end of the initial segment, `v_init_end` and
/// `a_init_end`.
#[verifier::spinoff_prover]
#[verifier::rlimit(60)]
pub fn interleave(
    merged_init: &[u8],
    v_moofs: &[(usize, usize)],
    v_mdats: &[(usize, usize)],
    a_moofs: &[(usize, usize)],
    a_mdats: &[(usize, usize)],
    v_media: &[u8],
    a_media: &[u8],
    v_init_end: usize,
    a_init_end: usize,
) -> (merged: Vec<u8>)
    requires
        tracks_fit(
            track_of(v_moofs@, v_mdats@, v_media@, v_init_end),
            track_of(a_moofs@, a_mdats@, a_media@, a_init_end),
        ),
    ensures
        ({
            let video = track_of(v_moofs@, v_mdats@, v_media@, v_init_end);
            let audio = track_of(a_moofs@, a_mdats@, a_media@, a_init_end);
            merged@ == merged_init@ + rounds(video, audio, round_count(video, audio))
        }),
{
    let ghost video = track_of(v_moofs@, v_mdats@, v_media@, v_init_end);
    let ghost audio = track_of(a_moofs@, a_mdats@, a_media@, a_init_end);
    let mut out: Vec<u8> = Vec::new();
    append_bytes(&mut out, merged_init);
    let total: usize = if v_moofs.len() > a_moofs.len() {
        v_moofs.len()
    } else {
        a_moofs.len()
    };
    let mut i: usize = 0;
    assert(out@ =~= merged_init@ + rounds(video, audio, 0));
    while i < total
        invariant
            i <= total,
            total == round_count(video, audio),
            tracks_fit(video, audio),
            video == track_of(v_moofs@, v_mdats@, v_media@, v_init_end),
            audio == track_of(a_moofs@, a_mdats@, a_media@, a_init_end),
            out@ == merged_init@ + rounds(video, audio, i as int),
        decreases total - i,
    {
        proof {
            if i < v_moofs@.len() {
                let found = v_moofs@[i as int];
                assert(video.moofs[i as int] == (found.0 as int, found.1 as int));
            }
            if i < v_mdats@.len() {
                let found = v_mdats@[i as int];
                assert(video.mdats[i as int] == (found.0 as int, found.1 as int));
            }
            if i < a_moofs@.len() {
                let found = a_moofs@[i as int];
                assert(audio.moofs[i as int] == (found.0 as int, found.1 as int));
            }
            if i < a_mdats@.len() {
                let found = a_mdats@[i as int];
                assert(audio.mdats[i as int] == (found.0 as int, found.1 as int));
            }
        }
        append_fragment(&mut out, v_media, v_moofs, v_init_end, i);
        append_fragment(&mut out, v_media, v_mdats, v_init_end, i);
        let ghost before = out@;
        if i < a_moofs.len() {
            let mut moof: Vec<u8> = Vec::new();
            append_fragment(&mut moof, a_media, a_moofs, a_init_end, i);
            assert(moof@ =~= whole_box(
                a_media@,
                shifted(audio.moofs[i as int], a_init_end as int),
            ));
            fix_audio_tfhd(moof.as_mut_slice());
            append_bytes(&mut out, moof.as_slice());
        }
        assert(out@ =~= before + nth_audio_fragment(
            a_media@,
            audio.moofs,
            a_init_end as int,
            i as int,
        ));
        append_fragment(&mut out, a_media, a_mdats, a_init_end, i);
        i += 1;
        assert(out@ =~= merged_init@ + rounds(video, audio, i as int));
    }
    out
}

/// The larger of two numbers.
pub open spec fn larger(a: int, b: int) -> int {
    if a > b {
        a
    } else {
        b
    }
}

/// The track that the media behind the first `cut` bytes of a file makes up.
pub open spec fn track_behind(file: Seq<u8>, cut: int) -> Track {
    let media = file.subrange(cut, file.len() as int);
    Track {
        moofs: tagged(media, Walk::Closed, MOOF@),
        mdats: tagged(media, Walk::Closed, MDAT@),
        media,
        shift: cut,
    }
}

/// What a merge of two files gives, or the first thing that stands in its way.
pub open spec fn merge_outcome(video: Seq<u8>, audio: Seq<u8>) -> Result<Seq<u8>, Seq<char>> {
    if video.len() < 8 || audio.len() < 8 {
        Err("data too small"@)
    } else if box_tag(video, 0) != FTYP@ || box_tag(audio, 0) != FTYP@ {
        Err("not fMP4"@)
    } else {
        let v_ftyp = first_tagged(video, Walk::Closed, FTYP@);
        let v_moov = first_tagged(video, Walk::Closed, MOOV@);
        let a_ftyp = first_tagged(audio, Walk::Closed, FTYP@);
        let a_moov = first_tagged(audio, Walk::Closed, MOOV@);
        if v_ftyp is None {
            Err("no ftyp in video"@)
        } else if v_moov is None {
            Err("no moov in video"@)
        } else if a_ftyp is None {
            Err("no ftyp in audio"@)
        } else if a_moov is None {
            Err("no moov in audio"@)
        } else {
            let v_cut = larger((v_ftyp->0).1, (v_moov->0).1);
            let a_cut = larger((a_ftyp->0).1, (a_moov->0).1);
            if v_cut >= video.len() || a_cut >= audio.len() {
                Err("init segment larger than file"@)
            } else {
                match merged_inits(video.subrange(0, v_cut), audio.subrange(0, a_cut)) {
                    Err(error) => Err(error),
                    Ok(init) => {
                        let v = track_behind(video, v_cut);
                        let a = track_behind(audio, a_cut);
                        Ok(init + rounds(v, a, round_count(v, a)))
                    },
                }
            }
        }
    }
}

proof fn lemma_cut_hides_from(data: Seq<u8>, cut: int, tag: Seq<u8>, pos: int)
    requires
        0 <= pos,
        0 <= cut <= data.len(),
        tagged_from(data, pos, Walk::Closed, tag).len() > 0,
        tagged_from(data, pos, Walk::Closed, tag)[0].0 + tagged_from(
            data,
            pos,
            Walk::Closed,
            tag,
        )[0].1 > cut,
    ensures
        tagged_from(data.subrange(0, cut), pos, Walk::Closed, tag).len() == 0,
    decreases
            if pos <= data.len() {
                data.len() - pos
            } else {
                0
            },
{
    let head = data.subrange(0, cut);
    lemma_tagged_step(data, pos, Walk::Closed, tag);
    lemma_tagged_step(head, pos, Walk::Closed, tag);
    if box_at(head, pos, Walk::Closed) {
        assert(forall|i: int| 0 <= i < cut ==> head[i] == data[i]);
        assert(box_size(head, pos, Walk::Closed) == box_size(data, pos, Walk::Closed));
        assert(box_tag(head, pos) =~= box_tag(data, pos));
        if box_tag(data, pos) != tag {
            lemma_cut_hides_from(data, cut, tag, pos + box_size(data, pos, Walk::Closed));
        }
    }
}

/// A file that starts with its file type box loses its `moov` box when it is cut behind as many
/// bytes as the larger of the two boxes has, since the `moov` box starts behind the other.
pub proof fn lemma_cut_loses_moov(file: Seq<u8>)
    requires
        file.len() >= 8,
        box_tag(file, 0) == FTYP@,
        first_tagged(file, Walk::Closed, FTYP@) is Some,
        first_tagged(file, Walk::Closed, MOOV@) is Some,
    ensures
        ({
            let ftyp = first_tagged(file, Walk::Closed, FTYP@)->0;
            let moov = first_tagged(file, Walk::Closed, MOOV@)->0;
            let cut = larger(ftyp.1, moov.1);
            &&& cut < file.len()
            &&& first_tagged(file.subrange(0, cut), Walk::Closed, FTYP@) == Some(ftyp)
            &&& first_tagged(file.subrange(0, cut), Walk::Closed, MOOV@) is None
        }),
{
    let ftyp = first_tagged(file, Walk::Closed, FTYP@)->0;
    let moov = first_tagged(file, Walk::Closed, MOOV@)->0;
    let cut = larger(ftyp.1, moov.1);
    lemma_tagged_are_boxes(file, Walk::Closed, FTYP@);
    lemma_tagged_are_boxes(file, Walk::Closed, MOOV@);
    lemma_tagged_step(file, 0, Walk::Closed, FTYP@);
    lemma_tagged_step(file, 0, Walk::Closed, MOOV@);
    assert(FTYP@[0] != MOOV@[0]);
    assert(ftyp.0 == 0);
    lemma_tagged_not_before(file, ftyp.1, Walk::Closed, MOOV@);
    lemma_cut_hides_from(file, cut, MOOV@, 0);
    let head = file.subrange(0, cut);
    lemma_tagged_step(head, 0, Walk::Closed, FTYP@);
    assert(box_tag(head, 0) =~= box_tag(file, 0));
    assert(forall|i: int| 0 <= i < cut ==> head[i] == file[i]);
    assert(box_size(head, 0, Walk::Closed) == box_size(file, 0, Walk::Closed));
}

/// Whether a file starts with a file type box and has a `moov` box behind it.
pub open spec fn has_both_boxes(file: Seq<u8>) -> bool {
    &&& file.len() >= 8
    &&& box_tag(file, 0) == FTYP@
    &&& first_tagged(file, Walk::Closed, FTYP@) is Some
    &&& first_tagged(file, Walk::Closed, MOOV@) is Some
}

/// No merge of two files succeeds: where nothing else stands in the way, the initial segment of
/// the video has been cut short of its `moov` box.
pub proof fn lemma_merge_never_succeeds(video: Seq<u8>, audio: Seq<u8>)
    ensures
        merge_outcome(video, audio) is Err,
        has_both_boxes(video) && has_both_boxes(audio) ==> merge_outcome(video, audio) == Err::<
            Seq<u8>,
            Seq<char>,
        >("no moov in data"@),
{
    if has_both_boxes(video) {
        lemma_cut_loses_moov(video);
    }
    if has_both_boxes(audio) {
        lemma_cut_loses_moov(audio);
    }
}

/// Merges a video file and an audio file.
pub fn do_merge(video: &[u8], audio: &[u8]) -> (merged: Result<Vec<u8>, String>)
    ensures
        outcome_of(merged) == merge_outcome(video@, audio@),
{
    if video.len() < 8 || audio.len() < 8 {
        return Err("data too small".to_owned());
    }
    if !has_tag(video, 0, &FTYP) || !has_tag(audio, 0, &FTYP) {
        return Err("not fMP4".to_owned());
    }
    let v_ftyp = match find_box(video, &FTYP) {
        Some(found) => found,
        None => return Err("no ftyp in video".to_owned()),
    };
    let v_moov = match find_box(video, &MOOV) {
        Some(found) => found,
        None => return Err("no moov in video".to_owned()),
    };
    let a_ftyp = match find_box(audio, &FTYP) {
        Some(found) => found,
        None => return Err("no ftyp in audio".to_owned()),
    };
    let a_moov = match find_box(audio, &MOOV) {
        Some(found) => found,
        None => return Err("no moov in audio".to_owned()),
    };
    let max_video: usize = if v_ftyp.1 > v_moov.1 {
        v_ftyp.1
    } else {
        v_moov.1
    };
    let max_audio: usize = if a_ftyp.1 > a_moov.1 {
        a_ftyp.1
    } else {
        a_moov.1
    };
    if max_video >= video.len() || max_audio >= audio.len() {
        return Err("init segment larger than file".to_owned());
    }
    let v_init = &video[0..max_video];
    let a_init = &audio[0..max_audio];
    let v_media = &video[max_video..video.len()];
    let a_media = &audio[max_audio..audio.len()];
    let merged_init = match merge_inits(v_init, a_init) {
        Ok(init) => init,
        Err(error) => return Err(error),
    };
    let v_moofs = scan_fragments(v_media, &MOOF);
    let v_mdats = scan_fragments(v_media, &MDAT);
    let a_moofs = scan_fragments(a_media, &MOOF);
    let a_mdats = scan_fragments(a_media, &MDAT);
    proof {
        lemma_merge_never_succeeds(video@, audio@);
    }
    Ok(
        interleave(
            merged_init.as_slice(),
            v_moofs.as_slice(),
            v_mdats.as_slice(),
            a_moofs.as_slice(),
            a_mdats.as_slice(),
            v_media,
            a_media,
            max_video,
            max_audio,
        ),
    )
}

/// Merges the bytes of a video file and of an audio file.
pub fn merge_video_audio(video_bytes: Vec<u8>, audio_bytes: Vec<u8>) -> (merged: Result<
    Vec<u8>,
    String,
>)
    ensures
        outcome_of(merged) == merge_outcome(video_bytes@, audio_bytes@),
{
    do_merge(video_bytes.as_slice(), audio_bytes.as_slice())
}

/// Reports whether `data` starts with a file type box.
pub fn is_fmp4(data: &[u8]) -> (is: bool)
    ensures
        is == (data@.len() >= 8 && box_tag(data@, 0) == FTYP@),
{
    data.len() >= 8 && has_tag(data, 0, &FTYP)
}

/// The file name extension for media of the type `mime`.
pub open spec fn extension(mime: Seq<char>) -> Seq<char> {
    if contains(mime, "webm"@) {
        "webm"@
    } else {
        "mp4"@
    }
}

/// The file name extension for media of the type `mime`.
pub fn get_ext_from_mime(mime: &str) -> (ext: String)
    ensures
        ext@ == extension(mime@),
{
    if text_contains(mime, "webm") {
        "webm".to_owned()
    } else {
        "mp4".to_owned()
    }
}

/// Reports in a word whether `data` starts with a file type box and holds a `moov` box.
pub fn check_mp4(data: &[u8]) -> (verdict: String)
    ensures
        verdict@ == if data@.len() >= 8 && box_tag(data@, 0) == FTYP@ && first_tagged(
            data@,
            Walk::Closed,
            MOOV@,
        ) is Some {
            "valid_mp4"@
        } else {
            "invalid"@
        },
{
    if is_fmp4(data) && find_box(data, &MOOV).is_some() {
        "valid_mp4".to_owned()
    } else {
        "invalid".to_owned()
    }
}

/// What the first box under a tag holds is all of it but its size and its tag; without such a box
/// there is the given error.
pub proof fn lemma_payload_is_all(first: Seq<u8>, rest: Seq<u8>, tag: Seq<u8>, missing: Seq<char>)
    requires
        first.len() >= 8,
        first[0] * 0x100_0000 + first[1] * 0x1_0000 + first[2] * 0x100 + first[3] == first.len(),
    ensures
        first.subrange(4, 8) == tag ==> payload_or(first + rest, tag, missing) == Ok::<
            Seq<u8>,
            Seq<char>,
        >(first.subrange(8, first.len() as int)),
        first.subrange(4, 8) != tag ==> payload_or(first + rest, tag, missing) == payload_or(
            rest,
            tag,
            missing,
        ),
        rest.len() < 8 ==> payload_or(rest, tag, missing) == Err::<Seq<u8>, Seq<char>>(missing),
{
    let all = first + rest;
    let n = first.len() as int;
    lemma_first_under_tag(first, rest, Walk::Closed, tag);
    assert(all.subrange(8, n) =~= first.subrange(8, n));
    if let Some(found) = first_tagged(rest, Walk::Closed, tag) {
        lemma_tagged_are_boxes(rest, Walk::Closed, tag);
        assert(all.subrange(found.0 + n + 8, found.0 + n + found.1) =~= rest.subrange(
            found.0 + 8,
            found.0 + found.1,
        ));
    }
}

/// Initial segments are merged into the start of the video's, as long as its file type box, and one
/// `moov` box, whose size is that of all it holds: every box of the video's `moov` box, byte for
/// byte and in the same place, and behind them what the audio's first track box holds.
pub proof fn lemma_inits_hold_all(
    video: Seq<u8>,
    ftyp: (int, int),
    v_inside: Seq<u8>,
    audio: Seq<u8>,
    a_inside: Seq<u8>,
    sound: Seq<u8>,
)
    requires
        first_tagged(video, Walk::Closed, FTYP@) == Some(ftyp),
        payload_or(video, MOOV@, "no moov in data"@) == Ok::<Seq<u8>, Seq<char>>(v_inside),
        payload_or(audio, MOOV@, "no moov in data"@) == Ok::<Seq<u8>, Seq<char>>(a_inside),
        payload_or(a_inside, TRAK@, "no trak in moov"@) == Ok::<Seq<u8>, Seq<char>>(sound),
        8 + v_inside.len() + sound.len() < 0x1_0000_0000,
    ensures
        ({
            let merged = merged_inits(video, audio);
            let out = merged->Ok_0;
            let n = ftyp.1;
            let inside = out.subrange(n + 8, out.len() as int);
            let row = boxes_from(v_inside, 0, Walk::Closed);
            let kept = if row.len() == 0 {
                0
            } else {
                row.last().0 + row.last().1
            };
            &&& merged is Ok
            &&& out.subrange(0, n) == video.subrange(0, n)
            &&& be32(out, n) == out.len() - n
            &&& out.subrange(n + 4, n + 8) == seq![0x6du8, 0x6fu8, 0x6fu8, 0x76u8]
            &&& forall|i: int|
                #![trigger row[i]]
                0 <= i < row.len() ==> inside.subrange(row[i].0, row[i].0 + row[i].1)
                    == v_inside.subrange(row[i].0, row[i].0 + row[i].1)
            &&& inside.len() == kept + sound.len()
            &&& inside.subrange(kept, inside.len() as int) == sound
        }),
{
    let n = ftyp.1;
    lemma_tagged_are_boxes(video, Walk::Closed, FTYP@);
    assert(MOOV@ =~= seq![0x6du8, 0x6fu8, 0x6fu8, 0x76u8]);
    let end = row_end(v_inside, 0, Walk::Closed);
    lemma_row_end_bounds(v_inside, 0, Walk::Closed);
    let children = v_inside.subrange(0, end) + sound;
    let tail = moov_box(children);
    let out = video.subrange(0, n) + tail;
    assert(merged_inits(video, audio) == Ok::<Seq<u8>, Seq<char>>(out));
    assert(out.subrange(0, n) =~= video.subrange(0, n));
    let size = 8 + children.len() as int;
    lemma_be32_read_back(size, MOOV@ + children);
    assert(tail =~= be32_bytes(size) + (MOOV@ + children));
    assert(be32(out, n) == be32(tail, 0));
    assert(out.subrange(n + 4, n + 8) =~= MOOV@);
    let inside = out.subrange(n + 8, out.len() as int);
    assert(inside =~= children);
    lemma_boxes_tile(v_inside, 0, Walk::Closed);
    let row = boxes_from(v_inside, 0, Walk::Closed);
    assert forall|i: int| #![trigger row[i]] 0 <= i < row.len() implies inside.subrange(
        row[i].0,
        row[i].0 + row[i].1,
    ) == v_inside.subrange(row[i].0, row[i].0 + row[i].1) by {
        lemma_row_keeps_inside(v_inside, 0, i);
        assert(inside.subrange(row[i].0, row[i].0 + row[i].1) =~= v_inside.subrange(
            row[i].0,
            row[i].0 + row[i].1,
        ));
    }
    assert(inside.subrange(end, inside.len() as int) =~= sound);
}

/// No box of a row reaches behind its end.
proof fn lemma_row_keeps_inside(data: Seq<u8>, pos: int, i: int)
    requires
        0 <= pos <= data.len(),
        0 <= i < boxes_from(data, pos, Walk::Closed).len(),
    ensures
        ({
            let found = boxes_from(data, pos, Walk::Closed)[i];
            &&& pos <= found.0
            &&& 8 <= found.1
            &&& found.0 + found.1 <= row_end(data, pos, Walk::Closed) <= data.len()
        }),
    decreases data.len() - pos,
{
    let size = box_size(data, pos, Walk::Closed);
    assert(box_at(data, pos, Walk::Closed));
    lemma_row_end_bounds(data, pos + size, Walk::Closed);
    if i > 0 {
        lemma_row_keeps_inside(data, pos + size, i - 1);
        assert(boxes_from(data, pos, Walk::Closed)[i] == boxes_from(
            data,
            pos + size,
            Walk::Closed,
        )[i - 1]);
    }
}

/// Initial segments are merged only where all boxes are there; the first that is missing is told.
pub proof fn lemma_missing_box_is_told(video: Seq<u8>, audio: Seq<u8>)
    ensures
        ({
            let merged = merged_inits(video, audio);
            let ftyp = first_tagged(video, Walk::Closed, seq![0x66u8, 0x74u8, 0x79u8, 0x70u8]);
            let v_moov = first_tagged(video, Walk::Closed, seq![0x6du8, 0x6fu8, 0x6fu8, 0x76u8]);
            let a_moov = first_tagged(audio, Walk::Closed, seq![0x6du8, 0x6fu8, 0x6fu8, 0x76u8]);
            let inside = audio.subrange((a_moov->0).0 + 8, (a_moov->0).0 + (a_moov->0).1);
            let trak = first_tagged(inside, Walk::Closed, seq![0x74u8, 0x72u8, 0x61u8, 0x6bu8]);
            &&& merged is Ok <==> ftyp is Some && v_moov is Some && a_moov is Some && trak is Some
            &&& ftyp is None ==> merged->Err_0 == "no ftyp in video"@
            &&& ftyp is Some && (v_moov is None || a_moov is None) ==> merged->Err_0
                == "no moov in data"@
            &&& ftyp is Some && v_moov is Some && a_moov is Some && trak is None ==> merged->Err_0
                == "no trak in moov"@
        }),
{
    assert(FTYP@ =~= seq![0x66u8, 0x74u8, 0x79u8, 0x70u8]);
    assert(MOOV@ =~= seq![0x6du8, 0x6fu8, 0x6fu8, 0x76u8]);
    assert(TRAK@ =~= seq![0x74u8, 0x72u8, 0x61u8, 0x6bu8]);
}

/// Each round adds the next header and the next media data of the video, then those of the audio,
/// byte for byte, but for the track number in the audio's header. A track that has no more of them
/// adds nothing.
pub proof fn lemma_next_round(video: Track, audio: Track, i: int)
    requires
        0 <= i,
    ensures
        ({
            let more = rounds(video, audio, i + 1);
            let part = |t: Track, list: Seq<(int, int)>|
                if i < list.len() {
                    t.media.subrange(t.shift + list[i].0, t.shift + list[i].0 + list[i].1)
                } else {
                    Seq::<u8>::empty()
                };
            let header = part(audio, audio.moofs);
            &&& rounds(video, audio, 0) == Seq::<u8>::empty()
            &&& i < audio.moofs.len() ==> more == rounds(video, audio, i) + part(video, video.moofs)
                + part(video, video.mdats) + audio_track_fixed(header, Walk::Closed) + part(
                audio,
                audio.mdats,
            )
            &&& i >= audio.moofs.len() ==> more == rounds(video, audio, i) + part(
                video,
                video.moofs,
            ) + part(video, video.mdats) + part(audio, audio.mdats)
        }),
{
    let none = Seq::<u8>::empty();
    let front = rounds(video, audio, i) + nth_fragment(video.media, video.moofs, video.shift, i)
        + nth_fragment(video.media, video.mdats, video.shift, i);
    assert(front + none =~= front);
    assert(rounds(video, audio, 0) =~= none);
}

/// There are rounds enough for every header of both tracks, and no more.
pub proof fn lemma_rounds_suffice(video: Track, audio: Track)
    ensures
        round_count(video, audio) >= video.moofs.len(),
        round_count(video, audio) >= audio.moofs.len(),
        round_count(video, audio) == video.moofs.len() || round_count(video, audio)
            == audio.moofs.len(),
{
}

/// What stands in the way of a merge is told in this order: too little data, data that does not
/// start with a file type box, a box that is missing in the video, then one in the audio.
pub proof fn lemma_first_obstacle_is_told(video: Seq<u8>, audio: Seq<u8>)
    ensures
        ({
            let ftyp = seq![0x66u8, 0x74u8, 0x79u8, 0x70u8];
            let moov = seq![0x6du8, 0x6fu8, 0x6fu8, 0x76u8];
            let told = merge_outcome(video, audio)->Err_0;
            let long = video.len() >= 8 && audio.len() >= 8;
            let typed = long && video.subrange(4, 8) == ftyp && audio.subrange(4, 8) == ftyp;
            let v_ftyp = first_tagged(video, Walk::Closed, ftyp) is Some;
            let v_moov = first_tagged(video, Walk::Closed, moov) is Some;
            let a_ftyp = first_tagged(audio, Walk::Closed, ftyp) is Some;
            let a_moov = first_tagged(audio, Walk::Closed, moov) is Some;
            &&& merge_outcome(video, audio) is Err
            &&& !long ==> told == "data too small"@
            &&& long && !typed ==> told == "not fMP4"@
            &&& typed && !v_ftyp ==> told == "no ftyp in video"@
            &&& typed && v_ftyp && !v_moov ==> told == "no moov in video"@
            &&& typed && v_ftyp && v_moov && !a_ftyp ==> told == "no ftyp in audio"@
            &&& typed && v_ftyp && v_moov && a_ftyp && !a_moov ==> told == "no moov in audio"@
            &&& typed && v_ftyp && v_moov && a_ftyp && a_moov ==> told == "no moov in data"@
        }),
{
    assert(FTYP@ =~= seq![0x66u8, 0x74u8, 0x79u8, 0x70u8]);
    assert(MOOV@ =~= seq![0x6du8, 0x6fu8, 0x6fu8, 0x76u8]);
    lemma_merge_never_succeeds(video, audio);
}

/// The larger of two numbers is one of them, and neither is above it.
pub proof fn lemma_larger_is_larger(a: int, b: int)
    ensures
        larger(a, b) >= a && larger(a, b) >= b,
        larger(a, b) == a || larger(a, b) == b,
{
}

/// Tracks can be interleaved where every fragment of theirs lies in their media.
pub proof fn lemma_tracks_fit_where_fragments_do(video: Track, audio: Track)
    requires
        forall|i: int|
            0 <= i < video.moofs.len() ==> video.shift + (#[trigger] video.moofs[i]).0
                + video.moofs[i].1 <= video.media.len(),
        forall|i: int|
            0 <= i < video.mdats.len() ==> video.shift + (#[trigger] video.mdats[i]).0
                + video.mdats[i].1 <= video.media.len(),
        forall|i: int|
            0 <= i < audio.moofs.len() ==> audio.shift + (#[trigger] audio.moofs[i]).0
                + audio.moofs[i].1 <= audio.media.len(),
        forall|i: int|
            0 <= i < audio.mdats.len() ==> audio.shift + (#[trigger] audio.mdats[i]).0
                + audio.mdats[i].1 <= audio.media.len(),
    ensures
        tracks_fit(video, audio),
{
}

} // verus!
