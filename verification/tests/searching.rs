use apple_artwork::host::{Action, Heard, ItunesResult, Place, Response, Run};
use apple_artwork::search::{itunes_lookup, rank_candidates, Candidate};

fn result(url: Option<&str>, name: Option<&str>) -> ItunesResult {
    ItunesResult {
        collection_view_url: url.map(|u| u.to_string()),
        collection_name: name.map(|n| n.to_string()),
    }
}

fn page(n: u32) -> String {
    format!("https://music.apple.com/us/album/x/{n}?uo=4")
}

fn candidate(n: u32) -> Candidate {
    Candidate { storefront: "us".to_string(), album_id: n.to_string(), album_url: page(n) }
}

fn answered(status: u16, body: &str) -> Heard {
    let mut heard = Heard::new();
    heard.responses.push(Ok(Response {
        status,
        headers: Vec::new(),
        body: body.as_bytes().to_vec(),
    }));
    heard
}

fn lookup(heard: &Heard) -> Run<Vec<Candidate>> {
    itunes_lookup("AC/DC", "Back", heard, &mut Place::start())
}

#[test]
fn titles_decide_the_order() {
    let results = vec![
        result(Some(&page(1)), Some("Other")),
        result(Some(&page(2)), Some("Better - Single")),
        result(Some(&page(3)), Some("BETTER")),
        result(Some(&page(4)), None),
        result(Some(&page(5)), Some("Better (Deluxe)")),
        result(Some(&page(6)), Some("Better!")),
    ];
    assert_eq!(
        rank_candidates(&results, "Better"),
        vec![
            candidate(3), candidate(6), candidate(2), candidate(5), candidate(1), candidate(4),
        ]
    );
}

#[test]
fn results_without_album_are_dropped() {
    let results = vec![
        result(None, Some("Better")),
        result(Some("https://example.com/x"), Some("Better")),
        result(Some(&page(1)), Some("Better")),
    ];
    assert_eq!(rank_candidates(&results, "Better"), vec![candidate(1)]);
    assert!(rank_candidates(&Vec::new(), "Better").is_empty());
}

#[test]
fn search_request_is_fixed() {
    match lookup(&Heard::new()) {
        Run::Ask(Action::Send(r)) => {
            assert_eq!(
                r.url,
                "https://itunes.apple.com/search?term=AC%2FDC%20Back&entity=album&limit=5\
                 &explicit=Yes"
            );
            assert_eq!(r.method, "GET");
            assert_eq!(r.body, None);
            assert_eq!(r.headers[2], ("Accept".to_string(), "application/json".to_string()));
            assert_eq!(r.headers.len(), 3);
        }
        other => panic!("{:?}", other),
    }
}

#[test]
fn search_fails_by_status() {
    assert_eq!(lookup(&answered(429, "")), Run::Fail("itunes rate limited: 429".to_string()));
    assert_eq!(lookup(&answered(403, "")), Run::Fail("itunes rate limited: 403".to_string()));
    assert_eq!(lookup(&answered(500, "")), Run::Fail("itunes status 500".to_string()));
    assert_eq!(lookup(&answered(199, "")), Run::Fail("itunes status 199".to_string()));
    assert_eq!(lookup(&answered(300, "")), Run::Fail("itunes status 300".to_string()));
}

#[test]
fn search_results_are_decoded_and_ranked() {
    let mut heard = answered(299, "{body}");
    assert_eq!(lookup(&heard), Run::Ask(Action::DecodeSearch("{body}".to_string())));
    heard.search = Some(Err("bad".to_string()));
    assert_eq!(lookup(&heard), Run::Fail("itunes json: bad".to_string()));
    heard.search = Some(Ok(vec![
        result(Some(&page(1)), Some("Black")),
        result(Some(&page(2)), Some("Back")),
    ]));
    assert_eq!(lookup(&heard), Run::Done(vec![candidate(2), candidate(1)]));
}
