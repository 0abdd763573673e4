use apple_artwork::playlist::{
    better, codecs_contains, derive_progressive_mp4, parse_resolution, pick_rendition,
};

const BASE: &str = "https://mvod.itunes.apple.com/a/b/P1_default.m3u8";

fn info(codec: &str, size: &str) -> String {
    format!("#EXT-X-STREAM-INF:BANDWIDTH=1,CODECS=\"{codec}\",RESOLUTION={size},FRAME-RATE=30")
}

#[test]
fn resolution_is_a_pixel_count() {
    assert_eq!(parse_resolution("#EXT-X-STREAM-INF:RESOLUTION=2160x2160"), Some(4665600));
    assert_eq!(parse_resolution("RESOLUTION=1080x1920,CODECS=\"x\""), Some(2073600));
    assert_eq!(parse_resolution("RESOLUTION=+2x3 y"), Some(6));
    assert_eq!(parse_resolution("RESOLUTION=0x5"), Some(0));
}

#[test]
fn resolution_saturates() {
    assert_eq!(parse_resolution("RESOLUTION=4294967296x4294967296"), Some(u64::MAX));
    assert_eq!(parse_resolution("RESOLUTION=18446744073709551615x1"), Some(u64::MAX));
    assert_eq!(parse_resolution("RESOLUTION=18446744073709551616x1"), None);
}

#[test]
fn resolution_may_be_missing() {
    for line in [
        "", "BANDWIDTH=1", "RESOLUTION=", "RESOLUTION=x", "RESOLUTION=10", "RESOLUTION=1x2x3",
        "RESOLUTION=ax2", "RESOLUTION=1x", "RESOLUTION=-1x2", "RESOLUTION=++1x2",
        "RESOLUTION= 1x2", "RESOLUTION=,RESOLUTION=1x1",
    ] {
        assert_eq!(parse_resolution(line), None, "{}", line);
    }
}

#[test]
fn codecs_are_looked_up_in_the_attribute() {
    assert!(codecs_contains("#EXT-X-STREAM-INF:CODECS=\"avc1.64001f,mp4a\"", "avc1"));
    assert!(!codecs_contains("#EXT-X-STREAM-INF:CODECS=\"hvc1.2\"", "avc1"));
    assert!(!codecs_contains("#EXT-X-STREAM-INF:CODECS=\"hvc1\",NAME=\"avc1\"", "avc1"));
    assert!(!codecs_contains("avc1", "avc1"));
    assert!(codecs_contains("CODECS=\"\"", ""));
}

#[test]
fn malformed_codecs_say_nothing() {
    assert!(!codecs_contains("CODECS=\"avc1", "avc1"));
    assert!(!codecs_contains("CODECS=avc1", "avc1"));
    assert!(!codecs_contains("CODECS=\"", ""));
}

#[test]
fn sibling_replaces_the_extension() {
    assert_eq!(
        derive_progressive_mp4("https://x/a_1080x1080.m3u8"),
        Some("https://x/a_1080x1080-.mp4".to_string())
    );
    assert_eq!(derive_progressive_mp4("a.m3u8?q=1"), Some("a-.mp4".to_string()));
    assert_eq!(derive_progressive_mp4(".m3u8"), Some("-.mp4".to_string()));
    assert_eq!(derive_progressive_mp4("a.mp4"), None);
    assert_eq!(derive_progressive_mp4("a?b.m3u8"), None);
    assert_eq!(derive_progressive_mp4(""), None);
}

#[test]
fn only_more_pixels_are_better() {
    assert!(better(&None, 0));
    assert!(better(&Some((5, "x".to_string())), 6));
    assert!(!better(&Some((5, "x".to_string())), 5));
    assert!(!better(&Some((5, "x".to_string())), 4));
}

#[test]
fn default_is_the_largest_in_h264() {
    let text = format!(
        "#EXTM3U\r\n{}\r\na_720.m3u8\r\n{}\r\n\r\n# note\r\na_1080.m3u8\r\n{}\r\na_2160.m3u8\r\n",
        info("avc1.1", "720x720"),
        info("avc1.2", "1080x1080"),
        info("hvc1.1", "2160x2160"),
    );
    assert_eq!(
        pick_rendition(BASE, &text, false),
        Some("https://mvod.itunes.apple.com/a/b/a_1080-.mp4".to_string())
    );
    assert_eq!(
        pick_rendition(BASE, &text, true),
        Some("https://mvod.itunes.apple.com/a/b/a_2160-.mp4".to_string())
    );
}

#[test]
fn first_of_equals_is_picked() {
    let text = format!(
        "{}\nfirst.m3u8\n{}\nsecond.m3u8",
        info("avc1", "10x10"),
        info("avc1", "10x10"),
    );
    assert_eq!(
        pick_rendition(BASE, &text, false),
        Some("https://mvod.itunes.apple.com/a/b/first-.mp4".to_string())
    );
}

#[test]
fn listed_mp4_comes_between() {
    let text = format!(
        "{}\nbig.m3u8\n{}\n/small.mp4?x=1\n",
        info("hvc1", "20x20"),
        info("avc1", "10x10"),
    );
    assert_eq!(
        pick_rendition(BASE, &text, false),
        Some("https://mvod.itunes.apple.com/small.mp4?x=1".to_string())
    );
    assert_eq!(
        pick_rendition(BASE, &text, true),
        Some("https://mvod.itunes.apple.com/a/b/big-.mp4".to_string())
    );
    let only = format!("{}\nhttps://x/only.mp4\n", info("avc1", "10x10"));
    assert_eq!(pick_rendition(BASE, &only, true), Some("https://x/only.mp4".to_string()));
}

#[test]
fn any_codec_is_the_last_resort() {
    let text = format!("{}\nh.m3u8\n", info("hvc1", "20x20"));
    assert_eq!(
        pick_rendition(BASE, &text, false),
        Some("https://mvod.itunes.apple.com/a/b/h-.mp4".to_string())
    );
    let plain = "#EXT-X-STREAM-INF:BANDWIDTH=1\nh.m3u8";
    assert_eq!(
        pick_rendition(BASE, plain, false),
        Some("https://mvod.itunes.apple.com/a/b/h-.mp4".to_string())
    );
}

#[test]
fn trick_play_is_no_variant() {
    let text = "#EXT-X-I-FRAME-STREAM-INF:RESOLUTION=9x9,URI=\"i.m3u8\"\ni.m3u8\n";
    assert_eq!(pick_rendition(BASE, text, false), None);
    assert_eq!(pick_rendition(BASE, text, true), None);
}

#[test]
fn variant_without_address_is_left_out() {
    assert_eq!(pick_rendition(BASE, &info("avc1", "1x1"), false), None);
    let text = format!("{}\n{}\nonly.m3u8", info("avc1", "1x1"), info("hvc1", "2x2"));
    assert_eq!(
        pick_rendition(BASE, &text, false),
        Some("https://mvod.itunes.apple.com/a/b/only-.mp4".to_string())
    );
    let odd = format!("{}\nclip.webm", info("avc1", "1x1"));
    assert_eq!(pick_rendition(BASE, &odd, false), None);
    assert_eq!(pick_rendition(BASE, "", false), None);
}
