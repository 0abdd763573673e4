//! The anonymous token of the web player.

use vstd::prelude::*;
use vstd::utf8::{decode_utf8, encode_utf8, valid_utf8};

use crate::cache::{
    law_store_keeps_text, read_state_str, stored_text, storing, write_state_str,
};
use crate::host::{extends, follows, stands, Action, Call, Flow, Heard, Mark, Place, Run};
use crate::http::{
    decimal, get_text, is_plain_get, is_success, law_page, law_page_stands, page_flow,
    status_message, MAX_REDIRECTS,
};
use crate::names::TOKEN_KEY;
use crate::scrape::{
    asset_paths, bundles, find_js_bundles, find_jwt, first_jwt, is_jwt, law_token, token_runs,
};
use crate::text::strings;

verus! {

/// No extra header fields.
pub open spec fn no_headers() -> Seq<(Seq<char>, Seq<char>)> {
    seq![]
}

/// Looking for the token in the bundles from the `i`-th on: it is stored as soon as it is found,
/// and a bundle that cannot be had is passed over.
pub open spec fn bundle_flow(paths: Seq<Seq<char>>, i: int, heard: Heard, at: Mark) -> Flow<
    Seq<char>,
>
    decreases paths.len() - i,
{
    if i >= paths.len() {
        Flow::Fail("no anonymous token found in Apple Music bundles"@, at)
    } else {
        match page_flow(
            "https://music.apple.com"@ + paths[i],
            no_headers(),
            MAX_REDIRECTS as nat,
            heard,
            at,
        ) {
            Flow::Ask(call) => Flow::Ask(call),
            Flow::Fail(_, m) => bundle_flow(paths, i + 1, heard, m),
            Flow::Done((status, js), m) => match first_jwt(token_runs(js)) {
                Some(token) if is_success(status) => if m.writes >= heard.writes {
                    Flow::Ask(storing(TOKEN_KEY@, token))
                } else {
                    Flow::Done(token, m.past_write())
                },
                _ => bundle_flow(paths, i + 1, heard, m),
            },
        }
    }
}

/// Scraping the token: from the album's page to its bundles.
pub open spec fn scrape_flow(album_url: Seq<char>, heard: Heard, at: Mark) -> Flow<Seq<char>> {
    match page_flow(album_url, no_headers(), MAX_REDIRECTS as nat, heard, at) {
        Flow::Ask(call) => Flow::Ask(call),
        Flow::Fail(e, m) => Flow::Fail(e, m),
        Flow::Done((status, html), m) => if is_success(status) {
            bundle_flow(bundles(asset_paths(html)), 0, heard, m)
        } else {
            Flow::Fail("album page status "@ + decimal(status as nat), m)
        },
    }
}

/// Getting the token: the stored one unless it is to be replaced or there is none, and else a
/// freshly scraped one.
pub open spec fn token_flow(album_url: Seq<char>, force: bool, heard: Heard, at: Mark) -> Flow<
    Seq<char>,
> {
    if force {
        scrape_flow(album_url, heard, at)
    } else if at.states >= heard.states@.len() {
        Flow::Ask(Call::ReadState(TOKEN_KEY@))
    } else {
        match stored_text(heard.states@[at.states as int]) {
            Some(token) if token.len() > 0 => Flow::Done(token, at.past_read()),
            _ => scrape_flow(album_url, heard, at.past_read()),
        }
    }
}

/// Get the anonymous web-player bearer token. Cached in the scratch store; `force` re-scrapes
/// (used after a 401/403).
pub fn get_token(album_url: &str, force: bool, heard: &Heard, at: &mut Place) -> (run: Run<String>)
    ensures
        follows(run, *final(at), token_flow(album_url@, force, *heard, old(at)@)),
{
    if !force {
        if at.states >= heard.states.len() {
            return Run::Ask(Action::ReadState(TOKEN_KEY.to_string()));
        }
        let stored: Option<String> = read_state_str(&heard.states[at.states]);
        at.states = at.states + 1;
        if let Some(token) = stored {
            if !token.as_str().is_empty() {
                return Run::Done(token);
            }
        }
    }
    scrape_token(album_url, heard, at)
}

/// Scrape the token: from the album's page to its bundles.
fn scrape_token(album_url: &str, heard: &Heard, at: &mut Place) -> (run: Run<String>)
    ensures
        follows(run, *final(at), scrape_flow(album_url@, *heard, old(at)@)),
{
    let extra: Vec<(&str, &str)> = Vec::new();
    assert(extra.deep_view() =~= no_headers());
    let (status, html): (u16, String) = match get_text(album_url, &extra, heard, at) {
        Run::Ask(action) => return Run::Ask(action),
        Run::Fail(e) => return Run::Fail(e),
        Run::Done(page) => page,
    };
    if !(200 <= status && status < 300) {
        return Run::Fail(status_message("album page status ", status));
    }
    let paths: Vec<String> = find_js_bundles(html.as_str());
    let ghost all = strings(paths@);
    for i in 0..paths.len()
        invariant
            all == strings(paths@),
            extra.deep_view() == no_headers(),
            scrape_flow(album_url@, *heard, old(at)@) == bundle_flow(all, i as int, *heard, at@),
    {
        let mut js_url: String = String::new();
        js_url.append("https://music.apple.com");
        js_url.append(paths[i].as_str());
        assert(all[i as int] == paths@[i as int]@);
        match get_text(js_url.as_str(), &extra, heard, at) {
            Run::Ask(action) => return Run::Ask(action),
            Run::Fail(_) => {},
            Run::Done((s, js)) => {
                let found: Option<String> = if 200 <= s && s < 300 {
                    find_jwt(js.as_str())
                } else {
                    None
                };
                if let Some(token) = found {
                    if at.writes >= heard.writes {
                        return Run::Ask(write_state_str(TOKEN_KEY, token.as_str()));
                    }
                    at.writes = at.writes + 1;
                    return Run::Done(token);
                }
            },
        }
    }
    Run::Fail("no anonymous token found in Apple Music bundles".to_string())
}

/// A stored token is used as it is, without a request.
pub proof fn law_stored_token(album_url: Seq<char>, token: Seq<char>, heard: Heard, at: Mark)
    requires
        at.states < heard.states@.len(),
        stored_text(heard.states@[at.states as int]) == Some(token),
        token.len() > 0,
    ensures
        token_flow(album_url, false, heard, at) == Flow::<Seq<char>>::Done(token, at.past_read()),
{
}

/// A call that scraping asks for: a plain request, or the storing of a token.
pub open spec fn is_scraping_call(call: Call) -> bool {
    match call {
        Call::Send(r) => is_plain_get(r),
        Call::WriteState(key, bytes) => key == TOKEN_KEY@ && exists|token: Seq<char>| #[trigger]
            is_jwt(token) && bytes == encode_utf8(token),
        _ => false,
    }
}

/// The bundles are looked through by plain requests, and what is found in them has the shape of a
/// token and is stored before it is used.
pub proof fn law_bundle_token(paths: Seq<Seq<char>>, i: int, heard: Heard, at: Mark)
    ensures
        match bundle_flow(paths, i, heard, at) {
            Flow::Ask(call) => is_scraping_call(call),
            Flow::Fail(_, m) => m.states == at.states && m.writes == at.writes,
            Flow::Done(token, m) => is_jwt(token) && m.states == at.states && m.writes == at.writes
                + 1 && m.writes <= heard.writes,
        },
    decreases paths.len() - i,
{
    if i < paths.len() {
        let url = "https://music.apple.com"@ + paths[i];
        law_page(url, no_headers(), MAX_REDIRECTS as nat, heard, at);
        match page_flow(url, no_headers(), MAX_REDIRECTS as nat, heard, at) {
            Flow::Ask(_) => {},
            Flow::Fail(_, m) => law_bundle_token(paths, i + 1, heard, m),
            Flow::Done((status, js), m) => {
                law_token(js);
                law_bundle_token(paths, i + 1, heard, m);
            },
        }
    }
}

/// A fresh token is had without a look at the store, has the shape of a token, and is stored
/// before it is used; a failure stores nothing.
pub proof fn law_fresh_token(album_url: Seq<char>, heard: Heard, at: Mark)
    ensures
        match token_flow(album_url, true, heard, at) {
            Flow::Ask(call) => is_scraping_call(call),
            Flow::Fail(_, m) => m.states == at.states && m.writes == at.writes,
            Flow::Done(token, m) => is_jwt(token) && m.states == at.states && m.writes == at.writes
                + 1 && m.writes <= heard.writes,
        },
{
    law_page(album_url, no_headers(), MAX_REDIRECTS as nat, heard, at);
    if let Flow::Done((status, html), m) = page_flow(
        album_url,
        no_headers(),
        MAX_REDIRECTS as nat,
        heard,
        at,
    ) {
        law_bundle_token(bundles(asset_paths(html)), 0, heard, m);
    }
}

/// A fresh token serves from then on: where the store gives back what was stored, it is the token
/// that is used, whatever the album.
pub proof fn law_token_is_kept(
    album_url: Seq<char>,
    heard: Heard,
    at: Mark,
    other_url: Seq<char>,
    bytes: Vec<u8>,
    later: Heard,
    next: Mark,
)
    requires
        token_flow(album_url, true, heard, at) is Done,
        bytes@ == encode_utf8(token_flow(album_url, true, heard, at)->Done_0),
        next.states < later.states@.len(),
        later.states@[next.states as int] == Ok::<Option<Vec<u8>>, String>(Some(bytes)),
    ensures
        token_flow(other_url, false, later, next) == Flow::<Seq<char>>::Done(
            token_flow(album_url, true, heard, at)->Done_0,
            next.past_read(),
        ),
{
    law_fresh_token(album_url, heard, at);
    law_store_keeps_text(bytes, token_flow(album_url, true, heard, at)->Done_0);
}

/// Further answers change nothing about bundles that have been looked through.
pub proof fn law_bundles_stand(
    paths: Seq<Seq<char>>,
    i: int,
    heard: Heard,
    later: Heard,
    at: Mark,
)
    requires
        extends(heard, later),
    ensures
        stands(bundle_flow(paths, i, heard, at), bundle_flow(paths, i, later, at)),
    decreases paths.len() - i,
{
    if i < paths.len() {
        let url = "https://music.apple.com"@ + paths[i];
        law_page_stands(url, no_headers(), MAX_REDIRECTS as nat, heard, later, at);
        match page_flow(url, no_headers(), MAX_REDIRECTS as nat, heard, at) {
            Flow::Ask(_) => {},
            Flow::Fail(_, m) => law_bundles_stand(paths, i + 1, heard, later, m),
            Flow::Done(_, m) => law_bundles_stand(paths, i + 1, heard, later, m),
        }
    }
}

/// Further answers change nothing about a token that has been got.
pub proof fn law_token_stands(
    album_url: Seq<char>,
    force: bool,
    heard: Heard,
    later: Heard,
    at: Mark,
)
    requires
        extends(heard, later),
    ensures
        stands(
            token_flow(album_url, force, heard, at),
            token_flow(album_url, force, later, at),
        ),
{
    if !force && at.states < heard.states@.len() {
        assert(later.states@[at.states as int] == heard.states@[at.states as int]);
    }
    let start = if force {
        at
    } else {
        at.past_read()
    };
    law_page_stands(album_url, no_headers(), MAX_REDIRECTS as nat, heard, later, start);
    if let Flow::Done((_, html), m) = page_flow(
        album_url,
        no_headers(),
        MAX_REDIRECTS as nat,
        heard,
        start,
    ) {
        law_bundles_stand(bundles(asset_paths(html)), 0, heard, later, m);
    }
}

/// A bundle that yields no token: it cannot be had, is refused, or holds none. `next` is the place
/// behind it.
pub open spec fn yields_nothing(path: Seq<char>, heard: Heard, at: Mark, next: Mark) -> bool {
    match page_flow("https://music.apple.com"@ + path, seq![], 4, heard, at) {
        Flow::Ask(_) => false,
        Flow::Fail(_, m) => m == next,
        Flow::Done((status, js), m) => m == next && (!(200 <= status < 300) || first_jwt(
            token_runs(js),
        ) is None),
    }
}

/// Looking through bundles that yield nothing.
proof fn lemma_bundles_skipped(
    paths: Seq<Seq<char>>,
    heard: Heard,
    marks: Seq<Mark>,
    k: int,
)
    requires
        0 <= k < marks.len(),
        k <= paths.len(),
        forall|i: int|
            0 <= i < k ==> yields_nothing(#[trigger] paths[i], heard, marks[i], marks[i + 1]),
    ensures
        bundle_flow(paths, 0, heard, marks[0]) == bundle_flow(paths, k, heard, marks[k]),
    decreases k,
{
    if k > 0 {
        lemma_bundles_skipped(paths, heard, marks, k - 1);
        assert(yields_nothing(paths[k - 1], heard, marks[k - 1], marks[k]));
    }
}

/// A fresh token. The album's page lists the bundles, which are fetched in order from the web
/// player's host. The token is that of the first bundle that yields one, and is stored before it is
/// used. It fails where the page cannot be had, or where no bundle yields a token.
pub proof fn law_scraping(album_url: Seq<char>, heard: Heard, at: Mark, marks: Seq<Mark>, k: int)
    requires
        0 <= k < marks.len(),
        match page_flow(album_url, seq![], 4, heard, at) {
            Flow::Done((status, html), m) => 200 <= status < 300 ==> marks[0] == m && k <= bundles(
                asset_paths(html),
            ).len() && forall|i: int|
                0 <= i < k ==> yields_nothing(
                    #[trigger] bundles(asset_paths(html))[i],
                    heard,
                    marks[i],
                    marks[i + 1],
                ),
            _ => true,
        },
    ensures
        match page_flow(album_url, seq![], 4, heard, at) {
            Flow::Ask(call) => token_flow(album_url, true, heard, at) == Flow::<Seq<char>>::Ask(
                call,
            ),
            Flow::Fail(e, m) => token_flow(album_url, true, heard, at) == Flow::<Seq<char>>::Fail(
                e,
                m,
            ),
            Flow::Done((status, html), m) => {
                let out = token_flow(album_url, true, heard, at);
                let paths = bundles(asset_paths(html));
                if !(200 <= status < 300) {
                    out == Flow::<Seq<char>>::Fail(
                        "album page status "@ + decimal(status as nat),
                        m,
                    )
                } else if k == paths.len() {
                    out == Flow::<Seq<char>>::Fail(
                        "no anonymous token found in Apple Music bundles"@,
                        marks[k],
                    )
                } else {
                    match page_flow(
                        "https://music.apple.com"@ + paths[k],
                        seq![],
                        4,
                        heard,
                        marks[k],
                    ) {
                        Flow::Ask(call) => out == Flow::<Seq<char>>::Ask(call),
                        Flow::Fail(_, _) => true,
                        Flow::Done((s, js), n) => 200 <= s < 300 && first_jwt(token_runs(js)) is Some
                            ==> out == (if n.writes >= heard.writes {
                            Flow::<Seq<char>>::Ask(
                                Call::WriteState(
                                    "apple:token"@,
                                    encode_utf8(first_jwt(token_runs(js)).unwrap()),
                                ),
                            )
                        } else {
                            Flow::<Seq<char>>::Done(
                                first_jwt(token_runs(js)).unwrap(),
                                (Mark { writes: n.writes + 1, ..n }),
                            )
                        }),
                    }
                }
            },
        },
{
    assert(no_headers() =~= seq![]);
    if let Flow::Done((status, html), m) = page_flow(album_url, seq![], 4, heard, at) {
        if 200 <= status < 300 {
            lemma_bundles_skipped(bundles(asset_paths(html)), heard, marks, k);
        }
    }
}

/// Where a token comes from: the store is asked unless a fresh one is wanted, and a text in it that
/// is not empty is the token; otherwise the token is fresh.
pub proof fn law_token_source(album_url: Seq<char>, heard: Heard, at: Mark)
    ensures
        at.states >= heard.states@.len() ==> token_flow(album_url, false, heard, at) == Flow::<
            Seq<char>,
        >::Ask(Call::ReadState("apple:token"@)),
        at.states < heard.states@.len() ==> {
            let out = token_flow(album_url, false, heard, at);
            let behind = Mark { states: at.states + 1, ..at };
            let fresh = out == token_flow(album_url, true, heard, behind);
            match heard.states@[at.states as int] {
                Ok(Some(bytes)) => if valid_utf8(bytes@) && decode_utf8(bytes@).len() > 0 {
                    out == Flow::<Seq<char>>::Done(decode_utf8(bytes@), behind)
                } else {
                    fresh
                },
                _ => fresh,
            }
        },
{
}

} // verus!
