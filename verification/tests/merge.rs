use youtubeopen::boxes::find_box;
use youtubeopen::merge::{
    concatenated_size, header_size, merge_fmp4_init, merge_inits_fit, merge_segments,
    merge_streams, plan_merge, renumber_track, streams_fit, MergePlan,
};

fn boxed(tag: &[u8; 4], payload: &[u8]) -> Vec<u8> {
    let mut out = ((payload.len() + 8) as u32).to_be_bytes().to_vec();
    out.extend_from_slice(tag);
    out.extend_from_slice(payload);
    out
}

fn video_init() -> Vec<u8> {
    let children = [boxed(b"mvhd", b"head"), boxed(b"trak", b"video")].concat();
    [boxed(b"ftyp", b"isom"), boxed(b"moov", &children)].concat()
}

fn audio_init() -> Vec<u8> {
    let children = [boxed(b"mvhd", b"h"), boxed(b"trak", b"audio"), boxed(b"trak", b"other")];
    [boxed(b"ftyp", b"m4a "), boxed(b"moov", &children.concat())].concat()
}

#[test]
fn merges_initial_segments() {
    assert!(merge_inits_fit(&video_init(), &audio_init()));
    let merged = merge_fmp4_init(&video_init(), &audio_init()).unwrap();
    let children =
        [boxed(b"mvhd", b"head"), boxed(b"trak", b"video"), boxed(b"trak", b"audio")].concat();
    let wanted = [boxed(b"ftyp", b"isom"), boxed(b"moov", &children)].concat();
    assert_eq!(merged, wanted);
}

#[test]
fn merged_segment_is_a_row_of_two_boxes() {
    let merged = merge_fmp4_init(&video_init(), &audio_init()).unwrap();
    assert_eq!(find_box(&merged, b"ftyp"), Some((0, 12)));
    assert_eq!(find_box(&merged, b"moov"), Some((12, merged.len() - 12)));
}

#[test]
fn no_merge_without_the_boxes() {
    let no_moov = boxed(b"ftyp", b"isom");
    let no_ftyp = boxed(b"moov", &boxed(b"trak", b"x"));
    let no_trak = [boxed(b"ftyp", b"isom"), boxed(b"moov", &boxed(b"mvhd", b""))].concat();
    for (video, audio) in [
        (no_moov.clone(), audio_init()),
        (video_init(), no_moov),
        (no_ftyp, audio_init()),
        (video_init(), no_trak),
    ] {
        assert!(merge_inits_fit(&video, &audio));
        assert_eq!(merge_fmp4_init(&video, &audio), None);
    }
}

#[test]
fn boxes_that_run_past_the_end_do_not_fit() {
    let mut cut = video_init();
    cut.pop();
    assert!(!merge_inits_fit(&cut, &audio_init()));
    let mut cut = audio_init();
    cut.pop();
    assert!(!merge_inits_fit(&video_init(), &cut));
}

#[test]
fn children_behind_a_broken_one_are_dropped() {
    let mut children = boxed(b"mvhd", b"head");
    children.extend_from_slice(&[0, 0, 0, 99]);
    children.extend_from_slice(b"trakvideo");
    let video = [boxed(b"ftyp", b"isom"), boxed(b"moov", &children)].concat();
    let merged = merge_fmp4_init(&video, &audio_init()).unwrap();
    let kept = [boxed(b"mvhd", b"head"), boxed(b"trak", b"audio")].concat();
    assert_eq!(merged, [boxed(b"ftyp", b"isom"), boxed(b"moov", &kept)].concat());
}

#[test]
fn renumbers_a_track_header() {
    let mut narrow = boxed(b"tkhd", &[0; 20]);
    renumber_track(&mut narrow);
    let mut wanted = [0u8; 20];
    wanted[15] = 2;
    assert_eq!(narrow, boxed(b"tkhd", &wanted));

    let mut payload = [0u8; 30];
    payload[0] = 1;
    let mut wide = boxed(b"tkhd", &payload);
    renumber_track(&mut wide);
    payload[23] = 2;
    assert_eq!(wide, boxed(b"tkhd", &payload));

    let mut short = boxed(b"tkhd", &[0; 15]);
    let before = short.clone();
    renumber_track(&mut short);
    assert_eq!(short, before);
}

#[test]
fn a_whole_track_box_is_kept() {
    let mut track = boxed(b"trak", &boxed(b"tkhd", &[0; 20]));
    let before = track.clone();
    renumber_track(&mut track);
    assert_eq!(track, before);
}

#[test]
fn fragments_come_in_turn() {
    let video = [
        boxed(b"moof", b"v1"),
        boxed(b"mdat", b"V1"),
        boxed(b"moof", b"v2"),
        boxed(b"mdat", b"V2"),
    ]
    .concat();
    let audio = [boxed(b"moof", b"a1"), boxed(b"mdat", b"A1")].concat();
    let merged = merge_segments(&video_init(), &audio_init(), &video, &audio);
    let wanted = [
        merge_fmp4_init(&video_init(), &audio_init()).unwrap(),
        boxed(b"moof", b"v1"),
        boxed(b"mdat", b"V1"),
        boxed(b"moof", b"a1"),
        boxed(b"mdat", b"A1"),
        boxed(b"moof", b"v2"),
        boxed(b"mdat", b"V2"),
    ]
    .concat();
    assert_eq!(merged, wanted);
}

#[test]
fn media_data_without_a_header_is_dropped() {
    let video = [boxed(b"mdat", b"V1"), boxed(b"mdat", b"V2")].concat();
    let audio = [boxed(b"moof", b"a1"), boxed(b"moof", b"a2"), boxed(b"mdat", b"A1")].concat();
    let merged = merge_segments(&[], &[], &video, &audio);
    let wanted =
        [boxed(b"moof", b"a1"), boxed(b"mdat", b"A1"), boxed(b"moof", b"a2")].concat();
    assert_eq!(merged, wanted);
}

#[test]
fn segments_that_cannot_be_merged_follow_each_other() {
    let merged = merge_segments(b"video", b"audio", &[], &[]);
    assert_eq!(merged, b"videoaudio");
}

#[test]
fn plans_by_the_headers() {
    match plan_merge(&video_init(), &audio_init()) {
        MergePlan::Fragmented { video_init: v, audio_init: a } => {
            assert_eq!(v, video_init().len());
            assert_eq!(a, audio_init().len());
        }
        MergePlan::Concatenate => panic!("both files are fragmented"),
    }
    assert!(matches!(plan_merge(b"RIFF1234WEBM", &audio_init()), MergePlan::Concatenate));
    assert!(matches!(plan_merge(&video_init(), b""), MergePlan::Concatenate));
}

#[test]
fn header_sizes() {
    assert_eq!(header_size(1 << 40, 1 << 40), 8192);
    assert_eq!(header_size(100, 1 << 40), 100);
    assert_eq!(header_size(100, 7), 7);
    assert_eq!(header_size(8191, 8192), 8191);
}

#[test]
fn other_files_follow_each_other() {
    assert_eq!(concatenated_size(1 << 40, 5), (1 << 40) + 5);
    for (video, audio) in [
        (b"RIFF1234WEBM".to_vec(), audio_init()),
        (video_init(), b"OggS".to_vec()),
        (vec![], vec![]),
    ] {
        assert!(streams_fit(&video, &audio));
        let (output, bytes) = merge_streams(&video, &audio, " T ", "video/webm").unwrap();
        assert_eq!(bytes, [video.clone(), audio.clone()].concat());
        assert_eq!(output.size_hint, Some((video.len() + audio.len()) as u64));
        assert_eq!(output.filename, "T.webm");
        assert_eq!(output.content_type, "video/webm");
    }
}

#[test]
fn fragmented_files_are_merged() {
    let video_media = [boxed(b"moof", b"v1"), boxed(b"mdat", b"V1")].concat();
    let audio_media = [boxed(b"moof", b"a1"), boxed(b"mdat", b"A1")].concat();
    let video = [video_init(), video_media.clone()].concat();
    let audio = [audio_init(), audio_media.clone()].concat();
    assert!(streams_fit(&video, &audio));
    let (output, bytes) = merge_streams(&video, &audio, "T", "video/mp4").unwrap();
    assert_eq!(bytes, merge_segments(&video_init(), &audio_init(), &video_media, &audio_media));
    assert_eq!(output.size_hint, Some(bytes.len() as u64));
    assert_eq!(output.filename, "T.mp4");
}

#[test]
fn a_file_that_ends_inside_its_initial_segment_is_not_merged() {
    let mut video = video_init();
    video.pop();
    assert!(streams_fit(&video, &audio_init()));
    assert!(merge_streams(&video, &audio_init(), "T", "video/mp4").is_none());
    assert!(merge_streams(&audio_init(), &video, "T", "video/mp4").is_none());
}

#[test]
fn files_with_a_track_that_runs_past_the_end_do_not_fit() {
    let mut children = vec![0, 0, 0, 99];
    children.extend_from_slice(b"trak");
    let audio = [boxed(b"ftyp", b"m4a "), boxed(b"moov", &children)].concat();
    assert!(!streams_fit(&video_init(), &audio));
}
