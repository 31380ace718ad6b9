use youtubeopen::formats::{
    ext_for_mime, parse_height, sort_formats, stream_format_to_ext, truncate_str,
    truncates_cleanly,
};
use youtubeopen::types::{FormatEntry, Quantity};

fn entry(id: &str, resolution: &str) -> FormatEntry {
    FormatEntry {
        format_id: id.to_string(),
        ext: "mp4".to_string(),
        resolution: resolution.to_string(),
        filesize: None,
        fps: Some(Quantity::Whole(30)),
        vcodec: "avc1".to_string(),
        acodec: "none".to_string(),
    }
}

fn ids(formats: &[FormatEntry]) -> Vec<&str> {
    formats.iter().map(|f| f.format_id.as_str()).collect()
}

#[test]
fn extensions_by_type() {
    assert_eq!(stream_format_to_ext("video/mp4; codecs=avc1", "hd"), "mp4");
    assert_eq!(stream_format_to_ext("video/webm", ""), "webm");
    assert_eq!(stream_format_to_ext("webm in mp4", ""), "mp4");
    assert_eq!(stream_format_to_ext("video/3gpp", ""), "mp4");
    assert_eq!(ext_for_mime("webm in mp4"), "webm");
    assert_eq!(ext_for_mime("video/3gpp"), "mp4");
}

#[test]
fn heights_are_read_from_the_front() {
    assert_eq!(parse_height("1080p60 (video only)"), Some(1080));
    assert_eq!(parse_height("720p"), Some(720));
    assert_eq!(parse_height("720"), Some(720));
    assert_eq!(parse_height("audio only"), None);
    assert_eq!(parse_height("128kbps (audio only)"), None);
    assert_eq!(parse_height(""), None);
    assert_eq!(parse_height("p"), None);
}

#[test]
fn text_is_cut_behind_bytes() {
    assert!(truncates_cleanly("abcdef", 3));
    assert_eq!(truncate_str("abcdef", 3), "abc...");
    assert_eq!(truncate_str("abcdef", 6), "abcdef");
    assert_eq!(truncate_str("abcdef", 7), "abcdef");
    assert_eq!(truncate_str("\u{e9}\u{e9}", 2), "\u{e9}...");
    assert_eq!(truncate_str("abc", 0), "...");
    assert!(!truncates_cleanly("\u{e9}\u{e9}", 1));
    assert!(truncates_cleanly("\u{e9}\u{e9}", 4));
}

#[test]
fn formats_go_from_high_to_low() {
    let sorted = sort_formats(vec![
        entry("a", "360p"),
        entry("b", "1080p60"),
        entry("c", "128kbps (audio only)"),
        entry("d", "720p (video only)"),
    ]);
    assert_eq!(ids(&sorted), vec!["b", "d", "a", "c"]);
}

#[test]
fn equally_high_formats_keep_their_order() {
    let sorted = sort_formats(vec![
        entry("a", "audio only"),
        entry("b", "720p"),
        entry("c", "720p60"),
        entry("d", "0p"),
        entry("e", "720p (video only)"),
        entry("f", "audio only"),
    ]);
    assert_eq!(ids(&sorted), vec!["b", "c", "e", "a", "d", "f"]);
}

#[test]
fn sorting_agrees_with_std() {
    let heights = ["144p", "2160p", "x", "480p", "144p", "9p", "2160p60", "", "48kbps", "1080p"];
    for skip in 0..heights.len() {
        let list: Vec<FormatEntry> = heights
            .iter()
            .skip(skip)
            .chain(heights.iter().take(skip))
            .enumerate()
            .map(|(i, h)| entry(&i.to_string(), h))
            .collect();
        let mut wanted = list.clone();
        wanted.sort_by(|a, b| {
            let left = parse_height(&a.resolution).unwrap_or(0);
            let right = parse_height(&b.resolution).unwrap_or(0);
            right.cmp(&left)
        });
        assert_eq!(ids(&sort_formats(list)), ids(&wanted));
    }
}

#[test]
fn no_formats_sort_to_none() {
    assert!(sort_formats(Vec::new()).is_empty());
}

#[test]
fn sorting_loses_nothing() {
    let sorted = sort_formats(vec![entry("a", "1p"), entry("b", "2p"), entry("a", "1p")]);
    assert_eq!(ids(&sorted), vec!["b", "a", "a"]);
}
