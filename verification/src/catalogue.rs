//! The AMP catalogue: whether an album has an editorial video.

use vstd::prelude::*;

use crate::host::{extends, follows, stands, Call, Flow, Heard, Mark, Place, Run};
use crate::http::{
    decimal, get_text, is_success, law_page, law_page_stands, page_flow, status_message,
    MAX_REDIRECTS,
};
use crate::json::{by_name, by_position, element, member, read, reading, text_of, tree, Tree};
use crate::names::TOKEN_KEY;
use crate::token::{get_token, is_scraping_call, law_fresh_token, law_token_stands, token_flow};

verus! {

/// The playlists of an editorial video.
#[derive(Debug, PartialEq, Eq)]
pub struct Editorial {
    /// The playlist of the square video.
    pub square_m3u8: String,
    /// The playlist of the tall video, where there is one.
    pub tall_m3u8: Option<String>,
}

/// What `Editorial` says.
pub struct EditorialText {
    /// The playlist of the square video.
    pub square_m3u8: Seq<char>,
    /// The playlist of the tall video, where there is one.
    pub tall_m3u8: Option<Seq<char>>,
}

impl DeepView for Editorial {
    type V = EditorialText;

    open spec fn deep_view(&self) -> EditorialText {
        EditorialText { square_m3u8: self.square_m3u8@, tall_m3u8: self.tall_m3u8.deep_view() }
    }
}

/// The editorial video that a catalogue record describes: it counts where it has a square
/// playlist.
pub open spec fn editorial_in(t: Tree) -> Option<EditorialText> {
    let ev = member(
        member(element(member(t, "data"@), 0), "attributes"@),
        "editorialVideo"@,
    );
    match text_of(member(member(ev, "motionDetailSquare"@), "video"@)) {
        Some(square) => Some(
            EditorialText {
                square_m3u8: square,
                tall_m3u8: text_of(member(member(ev, "motionDetailTall"@), "video"@)),
            },
        ),
        None => None,
    }
}

/// What the body of a catalogue response says: an editorial video, none, or nothing legible.
pub open spec fn editorial_of(body: Seq<char>) -> Result<Option<EditorialText>, Seq<char>> {
    match reading(body) {
        Ok(t) => Ok(editorial_in(t)),
        Err(e) => Err("amp json: "@ + e),
    }
}

/// The editorial video that a parsed catalogue record describes.
pub fn editorial_video(v: &serde_json::Value) -> (out: Option<Editorial>)
    ensures
        out.deep_view() == editorial_in(tree(*v)),
{
    let ev: &serde_json::Value = by_name(
        by_name(by_position(by_name(v, "data"), 0), "attributes"),
        "editorialVideo",
    );
    if ev.is_null() {
        return None;
    }
    let square: Option<&str> = by_name(by_name(ev, "motionDetailSquare"), "video").as_str();
    let tall: Option<String> = match by_name(by_name(ev, "motionDetailTall"), "video").as_str() {
        Some(t) => Some(t.to_string()),
        None => None,
    };
    match square {
        Some(sq) => Some(Editorial { square_m3u8: sq.to_string(), tall_m3u8: tall }),
        None => None,
    }
}

/// Read the body of a catalogue response.
pub fn parse_editorial_video(body: &str) -> (out: Result<Option<Editorial>, String>)
    ensures
        match out {
            Ok(found) => editorial_of(body@) matches Ok(e) && e == found.deep_view(),
            Err(reason) => editorial_of(body@) matches Err(e) && e == reason@,
        },
{
    match read(body) {
        Ok(v) => Ok(editorial_video(&v)),
        Err(e) => {
            let mut reason: String = String::new();
            reason.append("amp json: ");
            reason.append(e.as_str());
            Err(reason)
        },
    }
}

/// Where the catalogue record of an album is.
pub open spec fn catalogue_url(storefront: Seq<char>, album_id: Seq<char>) -> Seq<char> {
    "https://amp-api.music.apple.com/v1/catalog/"@ + storefront + "/albums/"@ + album_id
        + "?extend=editorialVideo&platform=web&l=en-US"@
}

/// The extra header fields of a catalogue request.
pub open spec fn bearer_headers(token: Seq<char>) -> Seq<(Seq<char>, Seq<char>)> {
    seq![("Authorization"@, "Bearer "@ + token), ("Origin"@, "https://music.apple.com"@)]
}

/// The status codes by which a token is refused.
pub open spec fn is_refusal(status: u16) -> bool {
    status == 401 || status == 403
}

/// What a catalogue response amounts to.
pub open spec fn verdict(status: u16, body: Seq<char>, at: Mark) -> Flow<Option<EditorialText>> {
    if status == 429 {
        Flow::Fail("amp-api rate limited"@, at)
    } else if !is_success(status) {
        Flow::Fail("amp-api status "@ + decimal(status as nat), at)
    } else {
        match editorial_of(body) {
            Ok(found) => Flow::Done(found, at),
            Err(e) => Flow::Fail(e, at),
        }
    }
}

/// One request to the catalogue, with a token.
pub open spec fn record_flow(url: Seq<char>, token: Seq<char>, heard: Heard, at: Mark) -> Flow<
    (u16, Seq<char>),
> {
    page_flow(url, bearer_headers(token), MAX_REDIRECTS as nat, heard, at)
}

/// The second attempt: with a freshly scraped token, and final.
pub open spec fn retry_flow(url: Seq<char>, album_url: Seq<char>, heard: Heard, at: Mark) -> Flow<
    Option<EditorialText>,
> {
    match token_flow(album_url, true, heard, at) {
        Flow::Ask(call) => Flow::Ask(call),
        Flow::Fail(e, m) => Flow::Fail(e, m),
        Flow::Done(token, m) => match record_flow(url, token, heard, m) {
            Flow::Ask(call) => Flow::Ask(call),
            Flow::Fail(e, m) => Flow::Fail(e, m),
            Flow::Done((status, body), m) => verdict(status, body, m),
        },
    }
}

/// Fetching the editorial video: with the stored token first, and once more with a fresh one if
/// that is refused.
pub open spec fn editorial_flow(
    storefront: Seq<char>,
    album_id: Seq<char>,
    album_url: Seq<char>,
    heard: Heard,
    at: Mark,
) -> Flow<Option<EditorialText>> {
    let url = catalogue_url(storefront, album_id);
    match token_flow(album_url, false, heard, at) {
        Flow::Ask(call) => Flow::Ask(call),
        Flow::Fail(e, m) => Flow::Fail(e, m),
        Flow::Done(token, m) => match record_flow(url, token, heard, m) {
            Flow::Ask(call) => Flow::Ask(call),
            Flow::Fail(e, m) => Flow::Fail(e, m),
            Flow::Done((status, body), m) => if is_refusal(status) {
                retry_flow(url, album_url, heard, m)
            } else {
                verdict(status, body, m)
            },
        },
    }
}

/// One request to the catalogue, with a token.
fn request_record(url: &str, token: &str, heard: &Heard, at: &mut Place) -> (run: Run<(u16, String)>)
    ensures
        follows(run, *final(at), record_flow(url@, token@, *heard, old(at)@)),
{
    let mut bearer: String = String::new();
    bearer.append("Bearer ");
    bearer.append(token);
    let extra: Vec<(&str, &str)> = vec![
        ("Authorization", bearer.as_str()),
        ("Origin", "https://music.apple.com"),
    ];
    assert(extra.deep_view() =~= bearer_headers(token@));
    get_text(url, &extra, heard, at)
}

/// Fetch `editorialVideo` for an album, minting/refreshing the anonymous token as needed. Retries
/// once on 401/403 with a freshly scraped token (the cached one expires every few months).
pub fn fetch_editorial_video(
    storefront: &str,
    album_id: &str,
    album_url: &str,
    heard: &Heard,
    at: &mut Place,
) -> (run: Run<Option<Editorial>>)
    ensures
        follows(
            run,
            *final(at),
            editorial_flow(storefront@, album_id@, album_url@, *heard, old(at)@),
        ),
{
    let mut api: String = String::new();
    api.append("https://amp-api.music.apple.com/v1/catalog/");
    api.append(storefront);
    api.append("/albums/");
    api.append(album_id);
    api.append("?extend=editorialVideo&platform=web&l=en-US");
    let mut token: String = match get_token(album_url, false, heard, at) {
        Run::Ask(action) => return Run::Ask(action),
        Run::Fail(e) => return Run::Fail(e),
        Run::Done(t) => t,
    };
    let (mut status, mut body): (u16, String) = match request_record(
        api.as_str(),
        token.as_str(),
        heard,
        at,
    ) {
        Run::Ask(action) => return Run::Ask(action),
        Run::Fail(e) => return Run::Fail(e),
        Run::Done(page) => page,
    };
    if status == 401 || status == 403 {
        token = match get_token(album_url, true, heard, at) {
            Run::Ask(action) => return Run::Ask(action),
            Run::Fail(e) => return Run::Fail(e),
            Run::Done(t) => t,
        };
        match request_record(api.as_str(), token.as_str(), heard, at) {
            Run::Ask(action) => return Run::Ask(action),
            Run::Fail(e) => return Run::Fail(e),
            Run::Done((s, b)) => {
                status = s;
                body = b;
            },
        }
    }
    if status == 429 {
        return Run::Fail("amp-api rate limited".to_string());
    }
    if !(200 <= status && status < 300) {
        return Run::Fail(status_message("amp-api status ", status));
    }
    match parse_editorial_video(body.as_str()) {
        Ok(found) => Run::Done(found),
        Err(e) => Run::Fail(e),
    }
}

/// A call that fetching an editorial video asks for: one that scraping asks for, or the reading of
/// the stored token.
pub open spec fn is_catalogue_call(call: Call) -> bool {
    is_scraping_call(call) || call == Call::ReadState(TOKEN_KEY@)
}

/// An editorial video takes one look at the store and at most two scraped tokens: one where none
/// is stored, and one where the first is refused.
pub proof fn law_editorial(
    storefront: Seq<char>,
    album_id: Seq<char>,
    album_url: Seq<char>,
    heard: Heard,
    at: Mark,
)
    ensures
        match editorial_flow(storefront, album_id, album_url, heard, at) {
            Flow::Ask(call) => is_catalogue_call(call),
            Flow::Fail(_, m) | Flow::Done(_, m) => m.states == at.states + 1 && at.writes
                <= m.writes <= at.writes + 2,
        },
{
    let url = catalogue_url(storefront, album_id);
    law_fresh_token(album_url, heard, at.past_read());
    if let Flow::Done(token, m) = token_flow(album_url, false, heard, at) {
        law_page(url, bearer_headers(token), MAX_REDIRECTS as nat, heard, m);
        if let Flow::Done(_, m) = record_flow(url, token, heard, m) {
            law_fresh_token(album_url, heard, m);
            if let Flow::Done(fresh, m) = token_flow(album_url, true, heard, m) {
                law_page(url, bearer_headers(fresh), MAX_REDIRECTS as nat, heard, m);
            }
        }
    }
}

/// A token that is refused is replaced once: where the fresh one is refused too, that is the end.
pub proof fn law_retry_once(url: Seq<char>, album_url: Seq<char>, heard: Heard, at: Mark)
    ensures
        match token_flow(album_url, true, heard, at) {
            Flow::Done(fresh, m) => match record_flow(url, fresh, heard, m) {
                Flow::Done((again, _), n) => is_refusal(again) ==> retry_flow(
                    url,
                    album_url,
                    heard,
                    at,
                ) == Flow::<Option<EditorialText>>::Fail(
                    "amp-api status "@ + decimal(again as nat),
                    n,
                ),
                _ => true,
            },
            _ => true,
        },
{
}

/// Further answers change nothing about an editorial video that has been fetched.
pub proof fn law_editorial_stands(
    storefront: Seq<char>,
    album_id: Seq<char>,
    album_url: Seq<char>,
    heard: Heard,
    later: Heard,
    at: Mark,
)
    requires
        extends(heard, later),
    ensures
        stands(
            editorial_flow(storefront, album_id, album_url, heard, at),
            editorial_flow(storefront, album_id, album_url, later, at),
        ),
{
    let url = catalogue_url(storefront, album_id);
    let hops = MAX_REDIRECTS as nat;
    law_token_stands(album_url, false, heard, later, at);
    if let Flow::Done(token, m) = token_flow(album_url, false, heard, at) {
        law_page_stands(url, bearer_headers(token), hops, heard, later, m);
        if let Flow::Done(_, m) = record_flow(url, token, heard, m) {
            law_token_stands(album_url, true, heard, later, m);
            if let Flow::Done(fresh, m) = token_flow(album_url, true, heard, m) {
                law_page_stands(url, bearer_headers(fresh), hops, heard, later, m);
            }
        }
    }
}

/// An object with a member of a name.
pub open spec fn holds(t: Tree, key: Seq<char>, value: Tree) -> bool {
    match t {
        Tree::Object(m) => m.contains_key(key) && m[key] == value,
        _ => false,
    }
}

/// A record with an editorial video under the attributes of its first item.
pub open spec fn is_record_of(t: Tree, items: Seq<Tree>, attributes: Tree, video: Tree) -> bool {
    &&& holds(t, "data"@, Tree::Array(items))
    &&& items.len() > 0
    &&& holds(items[0], "attributes"@, attributes)
    &&& holds(attributes, "editorialVideo"@, video)
}

/// A playlist of a video under a name.
pub open spec fn has_playlist(video: Tree, name: Seq<char>, url: Seq<char>) -> bool {
    exists|motion: Tree| #[trigger]
        holds(video, name, motion) && holds(motion, "video"@, Tree::Text(url))
}

/// An editorial video is found exactly where the record has one with a square playlist, and its
/// playlists are those of the record.
pub proof fn law_record(t: Tree, items: Seq<Tree>, attributes: Tree, video: Tree)
    ensures
        is_record_of(t, items, attributes, video) ==> {
            &&& forall|url: Seq<char>|
                has_playlist(video, "motionDetailSquare"@, url) <==> #[trigger] is_square_of(
                    editorial_in(t),
                    url,
                )
            &&& editorial_in(t) is Some ==> forall|url: Seq<char>|
                has_playlist(video, "motionDetailTall"@, url) <==> #[trigger] is_tall_of(
                    editorial_in(t),
                    url,
                )
        },
        editorial_in(t) is Some ==> exists|i: Seq<Tree>, a: Tree, v: Tree| #[trigger]
            is_record_of(t, i, a, v),
{
    if is_record_of(t, items, attributes, video) {
        assert(element(member(t, "data"@), 0) == items[0]);
        assert forall|url: Seq<char>|
            has_playlist(video, "motionDetailSquare"@, url) <==> #[trigger] is_square_of(
                editorial_in(t),
                url,
            ) by {
            lemma_playlist(video, "motionDetailSquare"@, url);
        }
        assert forall|url: Seq<char>|
            editorial_in(t) is Some implies (has_playlist(video, "motionDetailTall"@, url)
            <==> #[trigger] is_tall_of(editorial_in(t), url)) by {
            lemma_playlist(video, "motionDetailTall"@, url);
        }
    }
    if editorial_in(t) is Some {
        let i = member(t, "data"@)->Array_0;
        let a = member(i[0], "attributes"@);
        let v = member(a, "editorialVideo"@);
        assert(is_record_of(t, i, a, v));
    }
}

/// The square playlist of what was found.
pub open spec fn is_square_of(found: Option<EditorialText>, url: Seq<char>) -> bool {
    found matches Some(e) && e.square_m3u8 == url
}

/// The tall playlist of what was found.
pub open spec fn is_tall_of(found: Option<EditorialText>, url: Seq<char>) -> bool {
    found matches Some(e) && e.tall_m3u8 == Some(url)
}

/// A playlist is the string at the end of its path.
proof fn lemma_playlist(video: Tree, name: Seq<char>, url: Seq<char>)
    ensures
        has_playlist(video, name, url) <==> text_of(member(member(video, name), "video"@)) == Some(
            url,
        ),
{
    let motion = member(video, name);
    if text_of(member(motion, "video"@)) == Some(url) {
        assert(holds(video, name, motion));
    }
    if has_playlist(video, name, url) {
        let m = choose|m: Tree| #[trigger]
            holds(video, name, m) && holds(m, "video"@, Tree::Text(url));
        assert(m == motion);
    }
}

/// What a response of the catalogue means.
pub open spec fn meaning(status: u16, body: Seq<char>, at: Mark, out: Flow<Option<EditorialText>>) -> bool {
    if status == 429 {
        out == Flow::<Option<EditorialText>>::Fail("amp-api rate limited"@, at)
    } else if !(200 <= status < 300) {
        out == Flow::<Option<EditorialText>>::Fail("amp-api status "@ + decimal(status as nat), at)
    } else {
        match reading(body) {
            Ok(t) => out == Flow::<Option<EditorialText>>::Done(editorial_in(t), at),
            Err(e) => out == Flow::<Option<EditorialText>>::Fail("amp json: "@ + e, at),
        }
    }
}

/// The record of an album is asked for with a token: its address names the storefront and the
/// number. A status of 401 or 403 is answered with a fresh token and one more request; any other
/// response, and every second one, means what it says.
pub proof fn law_editorial_outcome(
    storefront: Seq<char>,
    album_id: Seq<char>,
    album_url: Seq<char>,
    heard: Heard,
    at: Mark,
)
    ensures
        ({
            let url = "https://amp-api.music.apple.com/v1/catalog/"@ + storefront + "/albums/"@
                + album_id + "?extend=editorialVideo&platform=web&l=en-US"@;
            let request = |token: Seq<char>, m: Mark|
                page_flow(
                    url,
                    seq![
                        ("Authorization"@, "Bearer "@ + token),
                        ("Origin"@, "https://music.apple.com"@),
                    ],
                    4,
                    heard,
                    m,
                );
            let out = editorial_flow(storefront, album_id, album_url, heard, at);
            match token_flow(album_url, false, heard, at) {
                Flow::Ask(call) => out == Flow::<Option<EditorialText>>::Ask(call),
                Flow::Fail(e, m) => out == Flow::<Option<EditorialText>>::Fail(e, m),
                Flow::Done(token, m) => match request(token, m) {
                    Flow::Ask(call) => out == Flow::<Option<EditorialText>>::Ask(call),
                    Flow::Fail(e, n) => out == Flow::<Option<EditorialText>>::Fail(e, n),
                    Flow::Done((status, body), n) => if status != 401 && status != 403 {
                        meaning(status, body, n, out)
                    } else {
                        match token_flow(album_url, true, heard, n) {
                            Flow::Ask(call) => out == Flow::<Option<EditorialText>>::Ask(call),
                            Flow::Fail(e, o) => out == Flow::<Option<EditorialText>>::Fail(e, o),
                            Flow::Done(fresh, o) => match request(fresh, o) {
                                Flow::Ask(call) => out == Flow::<Option<EditorialText>>::Ask(call),
                                Flow::Fail(e, p) => out == Flow::<Option<EditorialText>>::Fail(
                                    e,
                                    p,
                                ),
                                Flow::Done((again, body), p) => meaning(again, body, p, out),
                            },
                        }
                    },
                },
            }
        }),
{
}

} // verus!
