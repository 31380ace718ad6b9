use youtubeopen::boxes::{
    find_box, find_init_size, fix_audio_track_id, has_tag, init_size_fits, put_track_two, read_be32,
    scan_media_dat, scan_media_moofs, FTYP, MDAT, MOOF, MOOV, TFHD, TKHD, TRAK,
};

fn make_box(tag: &[u8; 4], payload: &[u8]) -> Vec<u8> {
    let mut out = ((payload.len() + 8) as u32).to_be_bytes().to_vec();
    out.extend_from_slice(tag);
    out.extend_from_slice(payload);
    out
}

fn join(parts: &[Vec<u8>]) -> Vec<u8> {
    parts.concat()
}

#[test]
fn tags_are_their_letters() {
    assert_eq!(&FTYP, b"ftyp");
    assert_eq!(&MOOV, b"moov");
    assert_eq!(&MOOF, b"moof");
    assert_eq!(&MDAT, b"mdat");
    assert_eq!(&TRAK, b"trak");
    assert_eq!(&TKHD, b"tkhd");
    assert_eq!(&TFHD, b"tfhd");
}

#[test]
fn reads_big_endian() {
    assert_eq!(read_be32(&[9, 0x12, 0x34, 0x56, 0x78], 1), 0x1234_5678);
    assert_eq!(read_be32(&[0xff; 4], 0), u32::MAX);
    assert!(has_tag(b"....moov", 0, b"moov"));
    assert!(!has_tag(b"....moof", 0, b"moov"));
}

#[test]
fn finds_a_box() {
    let data = join(&[make_box(b"ftyp", b"isom"), make_box(b"moov", b"123456")]);
    assert_eq!(find_box(&data, b"ftyp"), Some((0, 12)));
    assert_eq!(find_box(&data, b"moov"), Some((12, 14)));
    assert_eq!(find_box(&data, b"mdat"), None);
}

#[test]
fn finds_a_box_that_runs_past_the_end() {
    let mut data = make_box(b"ftyp", b"");
    data.extend_from_slice(&[0, 0, 1, 0]);
    data.extend_from_slice(b"moov");
    assert_eq!(find_box(&data, b"moov"), Some((8, 256)));
}

#[test]
fn stops_at_a_box_without_room_for_its_header() {
    let mut data = vec![0, 0, 0, 7];
    data.extend_from_slice(b"free");
    data.extend_from_slice(&make_box(b"moov", b""));
    assert_eq!(find_box(&data, b"moov"), None);
    assert_eq!(find_box(&[0, 0, 0, 8, b'm'], b"moov"), None);
    assert_eq!(find_box(&[], b"moov"), None);
}

#[test]
fn initial_segment_ends_with_moov() {
    let data = join(&[
        make_box(b"ftyp", b"isom"),
        make_box(b"moov", b"123456"),
        make_box(b"moof", b""),
    ]);
    assert!(init_size_fits(&data));
    assert_eq!(find_init_size(&data), Some(26));
    assert_eq!(find_init_size(&make_box(b"moov", b"")), None);
    assert_eq!(find_init_size(&make_box(b"ftyp", b"isom")), None);
    assert_eq!(find_init_size(b"ftyp"), None);
}

#[test]
fn initial_segment_may_end_behind_the_header() {
    let mut data = make_box(b"ftyp", b"");
    data.extend_from_slice(&[0, 1, 0, 0]);
    data.extend_from_slice(b"moov");
    assert!(init_size_fits(&data));
    assert_eq!(find_init_size(&data), Some(8 + 65536));
}

#[test]
fn lists_fragments() {
    let data = join(&[
        make_box(b"moof", b"a"),
        make_box(b"mdat", b"bcd"),
        make_box(b"moof", b""),
        make_box(b"mdat", b"e"),
    ]);
    assert_eq!(scan_media_moofs(&data), vec![(0, 9), (20, 8)]);
    assert_eq!(scan_media_dat(&data), vec![(9, 11), (28, 9)]);
}

#[test]
fn small_sizes_count_as_eight_in_media() {
    let mut data = vec![0, 0, 0, 1];
    data.extend_from_slice(b"moof");
    data.extend_from_slice(&make_box(b"moof", b"x"));
    assert_eq!(scan_media_moofs(&data), vec![(0, 8), (8, 9)]);
}

#[test]
fn a_fragment_that_runs_past_the_end_is_left_out() {
    let mut data = make_box(b"moof", b"x");
    data.extend_from_slice(&[0, 0, 0, 9]);
    data.extend_from_slice(b"moof");
    assert_eq!(scan_media_moofs(&data), vec![(0, 9)]);
}

#[test]
fn sets_the_track_number() {
    let mut data = make_box(b"tfhd", &[0, 0, 0, 9, 7, 7]);
    fix_audio_track_id(&mut data);
    assert_eq!(data, make_box(b"tfhd", &[0, 0, 0, 2, 7, 7]));
    let mut short = make_box(b"tfhd", &[5, 5, 5]);
    let before = short.clone();
    fix_audio_track_id(&mut short);
    assert_eq!(short, before);
    let mut bytes = [9u8; 6];
    put_track_two(&mut bytes, 1);
    assert_eq!(bytes, [9, 0, 0, 0, 2, 9]);
}

#[test]
fn a_whole_fragment_keeps_its_track_number() {
    let mut data = make_box(b"moof", &make_box(b"tfhd", &[0, 0, 0, 9]));
    let before = data.clone();
    fix_audio_track_id(&mut data);
    assert_eq!(data, before);
}

#[test]
fn an_initial_segment_holds_two_headers() {
    let data = join(&[make_box(b"ftyp", b""), make_box(b"moov", b"")]);
    assert_eq!(find_init_size(&data), Some(16));
}
