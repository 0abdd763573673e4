use apple_artwork::url::{parse_album_url, resolve_url, url_encode};

fn pair(a: &str, b: &str) -> Option<(String, String)> {
    Some((a.to_string(), b.to_string()))
}

#[test]
fn album_page_names_store_and_number() {
    assert_eq!(
        parse_album_url("https://music.apple.com/us/album/better-single/1834571502"),
        pair("us", "1834571502")
    );
    assert_eq!(
        parse_album_url("https://music.apple.com/FR/album/x/12?uo=4&a=b"),
        pair("FR", "12")
    );
    assert_eq!(parse_album_url("music.apple.com/ us /album/ 7 "), pair("us", "7"));
    assert_eq!(parse_album_url("https://music.apple.com/us/1"), pair("us", "1"));
}

#[test]
fn other_pages_name_no_album() {
    assert_eq!(parse_album_url("https://itunes.apple.com/us/album/x/12"), None);
    assert_eq!(parse_album_url("https://music.apple.com/usa/album/x/12"), None);
    assert_eq!(parse_album_url("https://music.apple.com/u1/album/x/12"), None);
    assert_eq!(parse_album_url("https://music.apple.com/é/album/x/12"), None);
    assert_eq!(parse_album_url("https://music.apple.com/us/album/x/12a"), None);
    assert_eq!(parse_album_url("https://music.apple.com/us/album/x/"), None);
    assert_eq!(parse_album_url("https://music.apple.com/us/album/x/?i=1"), None);
    assert_eq!(parse_album_url("https://music.apple.com/us"), None);
    assert_eq!(parse_album_url(""), None);
}

#[test]
fn second_host_ends_the_path() {
    assert_eq!(parse_album_url("music.apple.com/us/5/music.apple.com/x"), None);
    assert_eq!(parse_album_url("music.apple.com/us/5music.apple.com/de/6"), pair("us", "5"));
}

#[test]
fn absolute_reference_stands_alone() {
    assert_eq!(resolve_url("https://a/b", "http://c/d"), "http://c/d");
    assert_eq!(resolve_url("https://a/b", "https://c"), "https://c");
}

#[test]
fn rooted_reference_keeps_the_host() {
    assert_eq!(resolve_url("https://a.b/c/d?e", "/x/y"), "https://a.b/x/y");
    assert_eq!(resolve_url("https://a.b", "/x"), "https://a.b/x");
    assert_eq!(resolve_url("a/b", "/x"), "a/x");
    assert_eq!(resolve_url("https://a.b/c", "//x"), "https://a.b//x");
}

#[test]
fn relative_reference_replaces_the_last_segment() {
    assert_eq!(resolve_url("https://a.b/c/d.m3u8", "e.m3u8"), "https://a.b/c/e.m3u8");
    assert_eq!(resolve_url("https://a.b/c/", "e"), "https://a.b/c/e");
    assert_eq!(resolve_url("https://a.b", "e"), "https://a.b/e");
    assert_eq!(resolve_url("https://a.b/c", ""), "https://a.b/");
    assert_eq!(resolve_url("x", "ftp://y"), "xftp://y");
    assert_eq!(resolve_url("", ""), "");
}

#[test]
fn query_values_are_escaped() {
    assert_eq!(url_encode("AZaz09-_.~"), "AZaz09-_.~");
    assert_eq!(url_encode("a b&c=d/é"), "a%20b%26c%3Dd%2F%C3%A9");
    assert_eq!(url_encode("\u{0}%+😀"), "%00%25%2B%F0%9F%98%80");
    assert_eq!(url_encode(""), "");
}

#[test]
fn query_values_differ_where_texts_do() {
    assert_ne!(url_encode("%20"), url_encode(" "));
    assert_eq!(url_encode("%20"), "%2520");
}

#[test]
fn absolute_base_gives_absolute_url() {
    for base in ["http://", "https://a", "https://a/b/c"] {
        for href in ["", "/", "x", "/x", "://", "ftp://y", "https://z"] {
            let url = resolve_url(base, href);
            assert!(url.starts_with("http://") || url.starts_with("https://"), "{}", url);
        }
    }
}

#[test]
fn reference_stays_on_the_host() {
    assert_eq!(
        resolve_url("https://music.apple.com", "v.m3u8"),
        "https://music.apple.com/v.m3u8"
    );
    assert_eq!(resolve_url("https://a.b?c", "e"), "https://a.b/e");
    assert_eq!(resolve_url("https://a.b?c=/d", "/e"), "https://a.b/e");
    for base in ["https://a.b", "https://a.b/", "https://a.b/c/d", "https://a.b?x=/y"] {
        for href in ["", "e", "/e", "?e", ".evil", "@evil"] {
            assert!(resolve_url(base, href).starts_with("https://a.b/"), "{} {}", base, href);
        }
    }
}

#[test]
fn query_of_the_base_does_not_count() {
    assert_eq!(resolve_url("https://h/a/b?x=/y", "v"), "https://h/a/v");
    assert_eq!(resolve_url("https://h/a/b?x=/y", "/v"), "https://h/v");
    assert_eq!(resolve_url("https://h/a/b?x=1?/y", "v"), "https://h/a/v");
}

#[test]
fn query_of_an_album_page_does_not_count() {
    assert_eq!(
        parse_album_url("https://music.apple.com/us/album/x/12?u=a/b"),
        pair("us", "12")
    );
    assert_eq!(parse_album_url("https://music.apple.com/us/album/x/12?u=a/34"), pair("us", "12"));
    assert_eq!(parse_album_url("https://music.apple.com/us?u=a/34"), None);
}

#[test]
fn escapes_have_two_capital_digits() {
    let value = url_encode("\u{1f}/é\u{7f}\u{10ffff}");
    assert_eq!(value, "%1F%2F%C3%A9%7F%F4%8F%BF%BF");
}
