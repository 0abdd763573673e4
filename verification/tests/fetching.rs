use apple_artwork::host::{Action, Heard, Place, Request, Response, Run};
use apple_artwork::http::{get_text, header_get, status_message, MAX_REDIRECTS, USER_AGENT};

fn fields(list: &[(&str, &str)]) -> Vec<(String, String)> {
    list.iter().map(|(k, v)| (k.to_string(), v.to_string())).collect()
}

fn reply(status: u16, headers: &[(&str, &str)], body: &[u8]) -> Result<Response, String> {
    Ok(Response { status, headers: fields(headers), body: body.to_vec() })
}

fn wanted(url: &str, extra: &[(&str, &str)]) -> Action {
    let mut headers = fields(&[("User-Agent", USER_AGENT), ("Accept-Language", "en-US,en;q=0.9")]);
    headers.extend(fields(extra));
    Action::Send(Request { method: "GET".to_string(), url: url.to_string(), headers, body: None })
}

fn fetch(url: &str, heard: &Heard) -> (Run<(u16, String)>, Place) {
    let mut at = Place::start();
    let run = get_text(url, &vec![("Accept", "x")], heard, &mut at);
    (run, at)
}

#[test]
fn page_is_asked_for() {
    let (run, at) = fetch("https://a/b", &Heard::new());
    assert_eq!(run, Run::Ask(wanted("https://a/b", &[("Accept", "x")])));
    assert_eq!(at, Place::start());
}

#[test]
fn page_is_its_status_and_text() {
    let mut heard = Heard::new();
    heard.responses.push(reply(404, &[], "né".as_bytes()));
    heard.responses.push(reply(200, &[], b"later"));
    let (run, at) = fetch("https://a/b", &heard);
    assert_eq!(run, Run::Done((404, "né".to_string())));
    assert_eq!(at.responses, 1);
}

#[test]
fn invalid_text_is_patched() {
    let mut heard = Heard::new();
    heard.responses.push(reply(200, &[], &[b'a', 0xff, b'b', 0xc3]));
    assert_eq!(fetch("u", &heard).0, Run::Done((200, "a\u{fffd}b\u{fffd}".to_string())));
}

#[test]
fn redirects_are_followed() {
    let mut heard = Heard::new();
    heard.responses.push(reply(301, &[("LOCATION", "/c")], b""));
    let (run, _) = fetch("https://a/b", &heard);
    assert_eq!(run, Run::Ask(wanted("https://a/c", &[("Accept", "x")])));
    heard.responses.push(reply(302, &[("Location", "d")], b""));
    assert_eq!(fetch("https://a/b", &heard).0, Run::Ask(wanted("https://a/d", &[("Accept", "x")])));
    heard.responses.push(reply(200, &[], b"ok"));
    let (run, at) = fetch("https://a/b", &heard);
    assert_eq!(run, Run::Done((200, "ok".to_string())));
    assert_eq!(at.responses, 3);
}

#[test]
fn redirect_needs_a_location() {
    let mut heard = Heard::new();
    heard.responses.push(reply(304, &[("Etag", "1")], b"same"));
    assert_eq!(fetch("u", &heard).0, Run::Done((304, "same".to_string())));
    let mut heard = Heard::new();
    heard.responses.push(reply(200, &[("Location", "x")], b"here"));
    assert_eq!(fetch("u", &heard).0, Run::Done((200, "here".to_string())));
    let mut heard = Heard::new();
    heard.responses.push(reply(400, &[("Location", "x")], b"bad"));
    assert_eq!(fetch("u", &heard).0, Run::Done((400, "bad".to_string())));
}

#[test]
fn redirects_come_to_an_end() {
    let mut heard = Heard::new();
    for _ in 0..MAX_REDIRECTS {
        heard.responses.push(reply(399, &[("location", "x")], b""));
    }
    let (run, at) = fetch("https://a/b", &heard);
    assert_eq!(run, Run::Fail("too many redirects".to_string()));
    assert_eq!(at.responses, 4);
    heard.responses.pop();
    heard.responses.push(reply(200, &[], b"in time"));
    assert_eq!(fetch("https://a/b", &heard).0, Run::Done((200, "in time".to_string())));
}

#[test]
fn transport_failures_are_named() {
    let mut heard = Heard::new();
    heard.responses.push(Err("timeout".to_string()));
    let (run, at) = fetch("u", &heard);
    assert_eq!(run, Run::Fail("http: timeout".to_string()));
    assert_eq!(at.responses, 1);
}

#[test]
fn further_answers_change_nothing() {
    let mut heard = Heard::new();
    heard.responses.push(reply(200, &[], b"one"));
    let before = fetch("u", &heard);
    heard.responses.push(reply(200, &[], b"two"));
    heard.writes = 3;
    assert_eq!(fetch("u", &heard), before);
}

#[test]
fn header_names_ignore_case() {
    let headers = fields(&[("A", "1"), ("LoCaTion", "2"), ("location", "3")]);
    assert_eq!(header_get(&headers, "location"), Some("2".to_string()));
    assert_eq!(header_get(&headers, "a"), Some("1".to_string()));
    assert_eq!(header_get(&headers, "b"), None);
    assert_eq!(header_get(&fields(&[("É", "1")]), "é"), None);
    assert_eq!(header_get(&fields(&[("[", "1")]), "{"), None);
    assert_eq!(header_get(&Vec::new(), ""), None);
}

#[test]
fn status_codes_are_decimal() {
    assert_eq!(status_message("s ", 0), "s 0");
    assert_eq!(status_message("s ", 9), "s 9");
    assert_eq!(status_message("", 10), "10");
    assert_eq!(status_message("é", 404), "é404");
    assert_eq!(status_message("s ", 65535), "s 65535");
}
