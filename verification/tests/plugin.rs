use std::collections::BTreeMap;

use apple_artwork::album::{resolve_album, resolve_m3u8_to_mp4, AppleArtwork, Finding};
use apple_artwork::catalogue::{editorial_video, parse_editorial_video, Editorial};
use apple_artwork::catalogue::fetch_editorial_video;
use apple_artwork::host::{Action, Heard, ItunesResult, Place, Response, Run};
use apple_artwork::model::{empty_album, AlbumDetails, ArtistDetails, Motion};
use apple_artwork::token::get_token;

const SEARCH: &str = "https://itunes.apple.com/search?term=A%20T&entity=album&limit=5&explicit=Yes";
const SQUARE: &str = "https://mvod.itunes.apple.com/s/square.m3u8";
const TALL: &str = "https://mvod.itunes.apple.com/t/tall.m3u8";
const KEY: &str = "motion:a|t";

/// A host that plays back pages by their address.
struct Host {
    pages: BTreeMap<String, Vec<Result<Response, String>>>,
    store: BTreeMap<String, Vec<u8>>,
    results: Result<Vec<ItunesResult>, String>,
    option: Option<String>,
    log: Vec<Action>,
}

impl Host {
    fn new() -> Host {
        Host {
            pages: BTreeMap::new(),
            store: BTreeMap::new(),
            results: Ok(Vec::new()),
            option: None,
            log: Vec::new(),
        }
    }

    fn page(&mut self, url: &str, status: u16, body: &str) {
        let answer = Response { status, headers: Vec::new(), body: body.as_bytes().to_vec() };
        self.pages.entry(url.to_string()).or_default().push(Ok(answer));
    }

    fn answer(&mut self, action: Action, heard: &mut Heard) {
        match &action {
            Action::ReadState(key) => heard.states.push(Ok(self.store.get(key).cloned())),
            Action::WriteState(key, value) => {
                self.store.insert(key.clone(), value.clone());
                heard.writes += 1;
            }
            Action::Send(request) => {
                let queue = self.pages.get_mut(&request.url);
                let answer = match queue {
                    Some(q) if !q.is_empty() => q.remove(0),
                    _ => panic!("unexpected request for {}", request.url),
                };
                heard.responses.push(answer);
            }
            Action::DecodeSearch(_) => heard.search = Some(self.results.clone()),
            Action::GetOption(name) => {
                assert_eq!(name, "prefer_hevc");
                heard.option = Some(self.option.clone());
            }
        }
        self.log.push(action);
    }

    fn run<T>(&mut self, procedure: impl Fn(&Heard, &mut Place) -> Run<T>) -> Result<T, String> {
        let mut heard = Heard::new();
        loop {
            match procedure(&heard, &mut Place::start()) {
                Run::Ask(action) => self.answer(action, &mut heard),
                Run::Fail(e) => return Err(e),
                Run::Done(value) => return Ok(value),
            }
        }
    }

    fn album(&mut self) -> Finding {
        self.run(|heard, _| AppleArtwork::album_info("A", "T", heard)).unwrap()
    }

    fn sent(&self) -> Vec<String> {
        let mut urls = Vec::new();
        for action in &self.log {
            if let Action::Send(r) = action {
                urls.push(r.url.clone());
            }
        }
        urls
    }

    fn stored(&self, key: &str) -> Option<String> {
        self.store.get(key).map(|v| String::from_utf8(v.clone()).unwrap())
    }
}

fn jwt(fill: &str) -> String {
    format!("eyJh.p.{}", fill.repeat(80))
}

fn album_page(n: u32) -> String {
    format!("https://music.apple.com/us/album/t/{n}")
}

fn record_url(n: u32) -> String {
    format!(
        "https://amp-api.music.apple.com/v1/catalog/us/albums/{n}\
         ?extend=editorialVideo&platform=web&l=en-US"
    )
}

fn result(n: u32, name: &str) -> ItunesResult {
    ItunesResult {
        collection_view_url: Some(album_page(n)),
        collection_name: Some(name.to_string()),
    }
}

fn record(square: &str, tall: Option<&str>) -> String {
    let tall = match tall {
        Some(t) => format!(",\"motionDetailTall\":{{\"video\":\"{t}\"}}"),
        None => String::new(),
    };
    format!(
        "{{\"data\":[{{\"attributes\":{{\"editorialVideo\":\
         {{\"motionDetailSquare\":{{\"video\":\"{square}\"}}{tall}}}}}}}]}}"
    )
}

fn playlist() -> String {
    "#EXTM3U\n#EXT-X-STREAM-INF:CODECS=\"avc1\",RESOLUTION=2x2\nsmall.m3u8\n\
     #EXT-X-STREAM-INF:CODECS=\"hvc1\",RESOLUTION=4x4\nlarge.m3u8\n"
        .to_string()
}

fn covers(square: &str, tall: Option<&str>) -> Finding {
    Finding {
        details: AlbumDetails {
            description: None,
            cover_url: None,
            track_count: None,
            motion_cover_url: Some(square.to_string()),
            motion_cover_tall_url: tall.map(|t| t.to_string()),
        },
        complaint: None,
    }
}

fn nothing(complaint: Option<&str>) -> Finding {
    Finding { details: empty_album(), complaint: complaint.map(|c| c.to_string()) }
}

/// A host that has one album with a token in store.
fn ready() -> Host {
    let mut host = Host::new();
    host.store.insert("apple:token".to_string(), b"tok".to_vec());
    host.results = Ok(vec![result(1, "T")]);
    host.page(SEARCH, 200, "{}");
    host
}

#[test]
fn cover_is_resolved_and_stored() {
    let mut host = ready();
    host.page(&record_url(1), 200, &record(SQUARE, Some(TALL)));
    host.page(SQUARE, 200, &playlist());
    host.page(TALL, 200, &playlist());
    let expected = covers(
        "https://mvod.itunes.apple.com/s/small-.mp4",
        Some("https://mvod.itunes.apple.com/t/small-.mp4"),
    );
    assert_eq!(host.album(), expected);
    assert_eq!(
        host.stored(KEY).unwrap(),
        "{\"s\":\"https://mvod.itunes.apple.com/s/small-.mp4\",\
         \"t\":\"https://mvod.itunes.apple.com/t/small-.mp4\"}"
    );
    assert_eq!(
        host.sent(),
        vec![SEARCH.to_string(), record_url(1), SQUARE.to_string(), TALL.to_string()]
    );
    assert_eq!(host.log[0], Action::ReadState(KEY.to_string()));

    host.log.clear();
    assert_eq!(host.album(), expected);
    assert_eq!(host.log, vec![Action::ReadState(KEY.to_string())]);
}

#[test]
fn catalogue_request_carries_the_token() {
    let mut host = ready();
    host.page(&record_url(1), 200, "{}");
    host.album();
    let mut found = false;
    for action in &host.log {
        if let Action::Send(r) = action {
            if r.url == record_url(1) {
                found = true;
                assert_eq!(r.headers[2], ("Authorization".to_string(), "Bearer tok".to_string()));
                assert_eq!(
                    r.headers[3],
                    ("Origin".to_string(), "https://music.apple.com".to_string())
                );
                assert_eq!(r.headers.len(), 4);
            }
        }
    }
    assert!(found);
}

#[test]
fn option_prefers_hevc() {
    for (option, name) in [
        (Some("true"), "large"), (Some("True"), "small"), (Some("false"), "small"), (None, "small"),
    ] {
        let mut host = ready();
        host.option = option.map(|o| o.to_string());
        host.page(&record_url(1), 200, &record(SQUARE, None));
        host.page(SQUARE, 200, &playlist());
        let url = format!("https://mvod.itunes.apple.com/s/{name}-.mp4");
        assert_eq!(host.album(), covers(&url, None));
    }
}

#[test]
fn tall_cover_may_fail() {
    let mut host = ready();
    host.page(&record_url(1), 200, &record(SQUARE, Some(TALL)));
    host.page(SQUARE, 200, &playlist());
    host.page(TALL, 404, "");
    assert_eq!(host.album(), covers("https://mvod.itunes.apple.com/s/small-.mp4", None));
    assert_eq!(
        host.stored(KEY).unwrap(),
        "{\"s\":\"https://mvod.itunes.apple.com/s/small-.mp4\"}"
    );
}

#[test]
fn square_cover_is_needed() {
    for (status, body, reason) in [
        (404, "", "apple-artwork: m3u8 status 404"),
        (200, "#EXTM3U", "apple-artwork: no playable variant in m3u8"),
    ] {
        let mut host = ready();
        host.page(&record_url(1), 200, &record(SQUARE, Some(TALL)));
        host.page(SQUARE, status, body);
        assert_eq!(host.album(), nothing(Some(reason)));
        assert_eq!(host.stored(KEY), None);
    }
}

#[test]
fn unknown_album_is_a_stored_miss() {
    let mut host = ready();
    host.results = Ok(Vec::new());
    assert_eq!(host.album(), nothing(None));
    assert_eq!(host.stored(KEY).unwrap(), "{\"n\":1}");
    host.log.clear();
    assert_eq!(host.album(), nothing(None));
    assert_eq!(host.log, vec![Action::ReadState(KEY.to_string())]);
}

#[test]
fn candidates_are_probed_in_order() {
    let mut host = ready();
    host.results = Ok(vec![result(1, "Hello"), result(2, "T - Single"), result(3, "T")]);
    host.page(&record_url(3), 200, "{\"data\":[]}");
    host.page(&record_url(2), 200, &record(SQUARE, None));
    host.page(SQUARE, 200, &playlist());
    assert_eq!(host.album(), covers("https://mvod.itunes.apple.com/s/small-.mp4", None));
    assert_eq!(
        host.sent(),
        vec![SEARCH.to_string(), record_url(3), record_url(2), SQUARE.to_string()]
    );
}

#[test]
fn three_candidates_are_probed_at_most() {
    let mut host = ready();
    host.results = Ok((1..=5).map(|n| result(n, "T")).collect());
    for n in 1..=5 {
        host.page(&record_url(n), 200, "{}");
    }
    assert_eq!(host.album(), nothing(None));
    assert_eq!(
        host.sent(),
        vec![SEARCH.to_string(), record_url(1), record_url(2), record_url(3)]
    );
    assert_eq!(host.stored(KEY).unwrap(), "{\"n\":1}");
}

#[test]
fn failures_are_not_stored() {
    let mut host = ready();
    host.results = Ok(vec![result(1, "T"), result(2, "T")]);
    host.page(&record_url(1), 429, "");
    assert_eq!(host.album(), nothing(Some("apple-artwork: amp-api rate limited")));
    assert_eq!(host.stored(KEY), None);
    assert_eq!(host.sent(), vec![SEARCH.to_string(), record_url(1)]);

    let mut host = Host::new();
    host.page(SEARCH, 429, "");
    assert_eq!(host.album(), nothing(Some("apple-artwork: itunes rate limited: 429")));
    assert!(host.store.is_empty());

    let mut host = ready();
    host.results = Err("eof".to_string());
    assert_eq!(host.album(), nothing(Some("apple-artwork: itunes json: eof")));

    let mut host = Host::new();
    host.pages.insert(SEARCH.to_string(), vec![Err("offline".to_string())]);
    assert_eq!(host.album(), nothing(Some("apple-artwork: http: offline")));
}

#[test]
fn illegible_store_is_resolved_anew() {
    for raw in [b"garbage".to_vec(), vec![0xff], b"{}".to_vec()] {
        let mut host = ready();
        host.results = Ok(Vec::new());
        host.store.insert(KEY.to_string(), raw);
        assert_eq!(host.album(), nothing(None));
        assert_eq!(host.stored(KEY).unwrap(), "{\"n\":1}");
    }
}

#[test]
fn failing_store_is_resolved_anew() {
    let mut heard = Heard::new();
    heard.states.push(Err("disk".to_string()));
    match AppleArtwork::album_info("A", "T", &heard) {
        Run::Ask(Action::Send(r)) => assert_eq!(r.url, SEARCH),
        other => panic!("{:?}", other),
    }
}

#[test]
fn token_is_scraped_and_stored() {
    let mut host = ready();
    host.store.clear();
    let token = jwt("a");
    host.page(
        &album_page(1),
        200,
        "<script src=\"/assets/index-a.js\"></script><script src=\"/assets/index-b.js\"></script>\
         <script src=\"/assets/index-c.js\"></script><script src=\"/assets/index-d.js\"></script>",
    );
    host.pages.insert(
        "https://music.apple.com/assets/index-a.js".to_string(),
        vec![Err("reset".to_string())],
    );
    host.page("https://music.apple.com/assets/index-b.js", 500, &format!("\"{}\"", jwt("b")));
    host.page("https://music.apple.com/assets/index-c.js", 200, "nothing");
    host.page("https://music.apple.com/assets/index-d.js", 200, &format!("\"{token}\""));
    host.page(&record_url(1), 200, "{}");
    assert_eq!(host.album(), nothing(None));
    assert_eq!(host.stored("apple:token"), Some(token.clone()));

    let later = host.run(|heard, at| get_token("https://music.apple.com/x", false, heard, at));
    assert_eq!(later, Ok(token));
}

#[test]
fn empty_token_is_none() {
    let mut host = Host::new();
    host.store.insert("apple:token".to_string(), Vec::new());
    host.page("https://p", 404, "");
    let run = host.run(|heard, at| get_token("https://p", false, heard, at));
    assert_eq!(run, Err("album page status 404".to_string()));
}

#[test]
fn forced_token_ignores_the_store() {
    let mut host = Host::new();
    host.store.insert("apple:token".to_string(), b"old".to_vec());
    host.page("https://p", 200, "'/assets/web-client-x.js'");
    host.page("https://music.apple.com/assets/web-client-x.js", 200, &jwt("n"));
    let run = host.run(|heard, at| get_token("https://p", true, heard, at));
    assert_eq!(run, Ok(jwt("n")));
    assert_eq!(host.stored("apple:token"), Some(jwt("n")));
    assert_eq!(host.log.iter().filter(|a| matches!(a, Action::ReadState(_))).count(), 0);
}

#[test]
fn token_may_be_missing() {
    let mut host = Host::new();
    host.page("https://p", 200, "<html>");
    let run = host.run(|heard, at| get_token("https://p", false, heard, at));
    assert_eq!(run, Err("no anonymous token found in Apple Music bundles".to_string()));
}

fn fetch(host: &mut Host) -> Result<Option<Editorial>, String> {
    host.run(|heard, at| fetch_editorial_video("us", "1", "https://p", heard, at))
}

fn with_bundle(host: &mut Host) {
    host.page("https://p", 200, "\"/assets/index.js\"");
    host.page("https://music.apple.com/assets/index.js", 200, &jwt("n"));
}

#[test]
fn refused_token_is_replaced_once() {
    for refusal in [401, 403] {
        let mut host = ready();
        with_bundle(&mut host);
        host.page(&record_url(1), refusal, "");
        host.page(&record_url(1), 200, &record(SQUARE, None));
        assert_eq!(
            fetch(&mut host),
            Ok(Some(Editorial { square_m3u8: SQUARE.to_string(), tall_m3u8: None }))
        );
        assert_eq!(host.stored("apple:token"), Some(jwt("n")));
        match host.log.last().unwrap() {
            Action::Send(r) => assert_eq!(r.headers[2].1, format!("Bearer {}", jwt("n"))),
            other => panic!("{:?}", other),
        }

        let mut host = ready();
        with_bundle(&mut host);
        host.page(&record_url(1), refusal, "");
        host.page(&record_url(1), refusal, "");
        assert_eq!(fetch(&mut host), Err(format!("amp-api status {refusal}")));
    }
}

#[test]
fn catalogue_fails_by_status() {
    for (status, body, reason) in [
        (429, "", "amp-api rate limited"),
        (500, "", "amp-api status 500"),
        (404, "", "amp-api status 404"),
        (200, "", "amp json: EOF while parsing a value at line 1 column 0"),
    ] {
        let mut host = ready();
        host.page(&record_url(1), status, body);
        assert_eq!(fetch(&mut host), Err(reason.to_string()));
    }
}

#[test]
fn records_are_read_by_their_path() {
    assert_eq!(
        parse_editorial_video(&record(SQUARE, Some(TALL))),
        Ok(Some(Editorial {
            square_m3u8: SQUARE.to_string(),
            tall_m3u8: Some(TALL.to_string()),
        }))
    );
    for body in [
        "null", "[]", "{}", "{\"data\":{}}", "{\"data\":[]}", "{\"data\":[1]}",
        "{\"data\":[{\"attributes\":{\"editorialVideo\":null}}]}",
        "{\"data\":[{\"attributes\":{\"editorialVideo\":{}}}]}",
        "{\"data\":[{\"attributes\":{\"editorialVideo\":{\"motionDetailSquare\":{\"video\":1}}}}]}",
        "{\"data\":[{\"attributes\":{\"editorialVideo\":{\"motionDetailTall\":{\"video\":\"t\"}}}}]}",
        "{\"data\":[{},{\"attributes\":{\"editorialVideo\":{\"motionDetailSquare\":{\"video\":\"s\"}}}}]}",
    ] {
        assert_eq!(parse_editorial_video(body), Ok(None), "{}", body);
    }
    assert!(parse_editorial_video("{").unwrap_err().starts_with("amp json: "));
}

#[test]
fn parsed_records_are_read_alike() {
    let value: serde_json::Value = serde_json::from_str(&record(SQUARE, None)).unwrap();
    assert_eq!(
        editorial_video(&value),
        Some(Editorial { square_m3u8: SQUARE.to_string(), tall_m3u8: None })
    );
    assert_eq!(editorial_video(&value["data"]), None);
}

#[test]
fn playlist_is_fetched_and_picked_from() {
    let mut host = Host::new();
    host.page(SQUARE, 200, &playlist());
    host.page(SQUARE, 200, &playlist());
    assert_eq!(
        host.run(|heard, at| resolve_m3u8_to_mp4(SQUARE, false, heard, at)),
        Ok("https://mvod.itunes.apple.com/s/small-.mp4".to_string())
    );
    assert_eq!(
        host.run(|heard, at| resolve_m3u8_to_mp4(SQUARE, true, heard, at)),
        Ok("https://mvod.itunes.apple.com/s/large-.mp4".to_string())
    );
}

#[test]
fn resolution_tells_misses_from_failures() {
    let mut host = ready();
    host.page(&record_url(1), 200, &record(SQUARE, None));
    host.page(SQUARE, 200, &playlist());
    assert_eq!(
        host.run(|heard, at| resolve_album("A", "T", heard, at)),
        Ok(Some(Motion {
            square: "https://mvod.itunes.apple.com/s/small-.mp4".to_string(),
            tall: None,
        }))
    );
    let mut host = ready();
    host.page(&record_url(1), 200, "{}");
    assert_eq!(host.run(|heard, at| resolve_album("A", "T", heard, at)), Ok(None));
    let mut host = ready();
    host.page(&record_url(1), 500, "");
    assert_eq!(
        host.run(|heard, at| resolve_album("A", "T", heard, at)),
        Err("amp-api status 500".to_string())
    );
}

#[test]
fn album_answer_stands() {
    let mut heard = Heard::new();
    heard.states.push(Ok(Some(b"{\"s\":\"x\"}".to_vec())));
    let before = AppleArtwork::album_info("A", "T", &heard);
    assert_eq!(before, Run::Done(covers("x", None)));
    heard.states.push(Ok(None));
    heard.responses.push(Err("late".to_string()));
    heard.writes = 2;
    assert_eq!(AppleArtwork::album_info("A", "T", &heard), before);
}

#[test]
fn artists_and_lyrics_are_not_supplied() {
    assert_eq!(
        AppleArtwork::artist_info("A".to_string()),
        Ok(ArtistDetails { bio: None, image_url: None, similar: Vec::new() })
    );
    assert_eq!(AppleArtwork::lyrics::<u8>("A".to_string(), "T".to_string()), Ok(Vec::new()));
}
