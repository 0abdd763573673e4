use apple_artwork::scrape::{find_js_bundles, find_jwt};

fn token(header: &str, len: usize) -> String {
    let head = format!("{header}.payload.");
    let fill = "s".repeat(len - head.len());
    format!("{head}{fill}")
}

#[test]
fn bundles_are_listed_in_order() {
    let html = "<script src=\"/assets/index-1.js\"></script><link href='/assets/web-client.js'>\
                <a href=/assets/apple-music~x.js >";
    assert_eq!(
        find_js_bundles(html),
        vec!["/assets/index-1.js", "/assets/web-client.js", "/assets/apple-music~x.js"]
    );
}

#[test]
fn bundles_are_listed_once() {
    let html = "\"/assets/index.js\" \"/assets/index.js\" \"/assets/index-2.js\"";
    assert_eq!(find_js_bundles(html), vec!["/assets/index.js", "/assets/index-2.js"]);
}

#[test]
fn other_assets_are_passed_over() {
    let html = "\"/assets/index.css\" \"/assets/other.js\" \"/static/index.js\" \"/assets/index.js?x\"";
    assert!(find_js_bundles(html).is_empty());
    assert!(find_js_bundles("").is_empty());
}

#[test]
fn path_begins_at_the_first_mark_of_its_piece() {
    assert_eq!(
        find_js_bundles("https://cdn/assets/a/assets/index.js"),
        vec!["/assets/a/assets/index.js"]
    );
}

#[test]
fn path_ends_at_any_white_space() {
    assert_eq!(
        find_js_bundles("/assets/index.js\u{3000}/assets/index-b.js\u{85}x"),
        vec!["/assets/index.js", "/assets/index-b.js"]
    );
}

#[test]
fn token_is_the_first_of_its_shape() {
    let first = token("eyJh", 90);
    let second = token("eyJb", 100);
    let js = format!("const a=\"eyJshort.a.b\",b='{first}',c=\"{second}\"");
    assert_eq!(find_jwt(&js), Some(first));
}

#[test]
fn token_is_longer_than_eighty() {
    let short = token("eyJ", 80);
    let long = token("eyJ", 81);
    assert_eq!(find_jwt(&short), None);
    assert_eq!(find_jwt(&long), Some(long.clone()));
}

#[test]
fn token_has_three_segments() {
    let two = format!("eyJ{}", "a".repeat(90));
    let four = format!("{}.x", token("eyJ", 90));
    assert_eq!(find_jwt(&two), None);
    assert_eq!(find_jwt(&four), None);
    assert_eq!(find_jwt("no token here"), None);
    let empty = format!("eyJ{}..", "a".repeat(90));
    assert_eq!(find_jwt(&empty), Some(empty.clone()));
}

#[test]
fn token_begins_inside_a_run() {
    let t = token("eyJh", 90);
    assert_eq!(find_jwt(&format!("xyz{t}")), Some(t.clone()));
    assert_eq!(find_jwt(&format!("é{t}é")), Some(t));
}
