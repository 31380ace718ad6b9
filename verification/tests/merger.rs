use youtubeopen::merger::{
    check_mp4, do_merge, extract_moov_payload, extract_trak_from_moov, find_box, fix_audio_tfhd,
    get_ext_from_mime, interleave, is_fmp4, merge_inits, merge_video_audio, scan_fragments,
};

fn bx(tag: &[u8; 4], payload: &[u8]) -> Vec<u8> {
    let mut out = ((payload.len() + 8) as u32).to_be_bytes().to_vec();
    out.extend_from_slice(tag);
    out.extend_from_slice(payload);
    out
}

fn file(track: &[u8]) -> Vec<u8> {
    [
        bx(b"ftyp", b"isom"),
        bx(b"moov", &[bx(b"mvhd", b"head"), bx(b"trak", track)].concat()),
        bx(b"moof", b"m1"),
        bx(b"mdat", b"d1"),
    ]
    .concat()
}

#[test]
fn a_box_has_to_end_inside() {
    let data = file(b"video");
    assert_eq!(find_box(&data, b"moof"), Some((45, 10)));
    let mut cut = data.clone();
    cut.truncate(50);
    assert_eq!(find_box(&cut, b"moof"), None);
    assert_eq!(find_box(&cut, b"moov"), Some((12, 33)));
}

#[test]
fn extracts_payloads() {
    let moov = extract_moov_payload(&file(b"video")).unwrap();
    assert_eq!(moov, [bx(b"mvhd", b"head"), bx(b"trak", b"video")].concat());
    assert_eq!(extract_trak_from_moov(&moov).unwrap(), b"video");
    assert_eq!(extract_moov_payload(b"").unwrap_err(), "no moov in data");
    assert_eq!(extract_trak_from_moov(b"").unwrap_err(), "no trak in moov");
}

#[test]
fn merges_the_inits() {
    let video = file(b"video");
    let audio = file(b"sound");
    let merged = merge_inits(&video, &audio).unwrap();
    let children = [bx(b"mvhd", b"head"), bx(b"trak", b"video"), b"sound".to_vec()].concat();
    assert_eq!(merged, [bx(b"ftyp", b"isom"), bx(b"moov", &children)].concat());
}

#[test]
fn names_what_the_inits_lack() {
    let video = file(b"video");
    let no_moov = bx(b"ftyp", b"isom");
    let no_trak = [bx(b"ftyp", b"isom"), bx(b"moov", b"")].concat();
    assert_eq!(merge_inits(b"", &video).unwrap_err(), "no ftyp in video");
    assert_eq!(merge_inits(&no_moov, &video).unwrap_err(), "no moov in data");
    assert_eq!(merge_inits(&video, &no_moov).unwrap_err(), "no moov in data");
    assert_eq!(merge_inits(&video, &no_trak).unwrap_err(), "no trak in moov");
}

#[test]
fn scans_until_the_first_broken_box() {
    let mut data = [bx(b"moof", b"1"), bx(b"mdat", b""), bx(b"moof", b"23")].concat();
    assert_eq!(scan_fragments(&data, b"moof"), vec![(0, 9), (17, 10)]);
    data.pop();
    assert_eq!(scan_fragments(&data, b"moof"), vec![(0, 9)]);
    assert_eq!(scan_fragments(&[0, 0, 0, 7, 1, 2, 3, 4], b"moof"), vec![]);
}

#[test]
fn sets_the_number_in_a_track_fragment() {
    let mut data = bx(b"tfhd", &[9, 9, 9, 9, 1]);
    fix_audio_tfhd(&mut data);
    assert_eq!(data, bx(b"tfhd", &[0, 0, 0, 2, 1]));
}

#[test]
fn interleaves_all_fragments() {
    let video = b"..VvWw";
    let audio = b".Aa";
    let merged = interleave(
        b"init",
        &[(0, 1), (2, 1)],
        &[(1, 1), (3, 1)],
        &[(0, 1)],
        &[(1, 1)],
        video,
        audio,
        2,
        1,
    );
    assert_eq!(merged, b"initVvAaWw");
}

#[test]
fn media_data_beyond_the_headers_is_dropped() {
    let merged = interleave(b"", &[], &[(0, 1)], &[], &[(0, 1)], b"v", b"a", 0, 0);
    assert_eq!(merged, b"");
}

#[test]
fn names_what_stands_in_the_way() {
    let good = file(b"track");
    let no_moov = bx(b"ftyp", b"isom");
    let broken = {
        let mut data = vec![0, 0, 0, 1];
        data.extend_from_slice(b"ftyp");
        data
    };
    let cases: [(&[u8], &[u8], &str); 8] = [
        (b"short", &good, "data too small"),
        (&good, b"short", "data too small"),
        (b"RIFF1234", &good, "not fMP4"),
        (&good, b"RIFF1234", "not fMP4"),
        (&broken, &good, "no ftyp in video"),
        (&no_moov, &good, "no moov in video"),
        (&good, &broken, "no ftyp in audio"),
        (&good, &no_moov, "no moov in audio"),
    ];
    for (video, audio, error) in cases {
        assert_eq!(do_merge(video, audio).unwrap_err(), error);
    }
}

#[test]
fn whole_files_lose_their_moov() {
    let video = file(b"video");
    let audio = file(b"sound");
    assert_eq!(do_merge(&video, &audio).unwrap_err(), "no moov in data");
    assert_eq!(merge_video_audio(video, audio).unwrap_err(), "no moov in data");
}

#[test]
fn judges_files() {
    let good = file(b"track");
    assert!(is_fmp4(&good));
    assert!(!is_fmp4(b"...ftyp"));
    assert!(!is_fmp4(&bx(b"moov", b"")));
    assert_eq!(check_mp4(&good), "valid_mp4");
    assert_eq!(check_mp4(&bx(b"ftyp", b"isom")), "invalid");
    assert_eq!(check_mp4(b""), "invalid");
}

#[test]
fn picks_the_extension() {
    assert_eq!(get_ext_from_mime("audio/webm; codecs=opus"), "webm");
    assert_eq!(get_ext_from_mime("video/mp4"), "mp4");
    assert_eq!(get_ext_from_mime("WEBM"), "mp4");
    assert_eq!(get_ext_from_mime(""), "mp4");
}
