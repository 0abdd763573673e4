//! From an artist and a title to the animated covers of the album.

use vstd::prelude::*;
use vstd::utf8::{decode_utf8, encode_utf8, valid_utf8};

use crate::cache::{
    cache_text, cached_text, law_store_keeps_text, read_cache, read_state_str, stored_text,
    storing, write_cache,
};
use crate::catalogue::{
    editorial_flow, fetch_editorial_video, is_catalogue_call, law_editorial, law_editorial_stands,
    Editorial, EditorialText,
};
use crate::host::{extends, follows, stands, Action, Call, Flow, Heard, Mark, Place, Run};
use crate::http::{
    decimal, get_text, is_plain_get, is_success, law_page, law_page_stands, page_flow,
    status_message, MAX_REDIRECTS,
};
use crate::model::{
    details_of, empty_album, AlbumDetails, ArtistDetails, Cached, DetailsText, Motion, MotionText,
};
use crate::names::{album_key, cache_key, law_keys};
use crate::playlist::{
    choice, is_largest, is_listing, law_choice, lines_of, pick_rendition, progressive,
};
use crate::search::{
    itunes_lookup, law_search, law_search_stands, search_flow, Candidate, CandidateText,
};
use crate::text::{chars, same};
use crate::token::no_headers;
use crate::url::resolved;

verus! {

/// How many catalogue candidates we're willing to probe for one album.
///
/// Each attempt costs a bearer-token fetch plus an amp-api call, and Apple rate-limits
/// aggressively, so we stop well before exhausting the search results. Verified matches are
/// probed first, so the cap almost never bites on a well-tagged library.
pub const MAX_CANDIDATES: usize = 3;

/// Resolving a playlist: one page, from which a rendition is picked.
pub open spec fn mp4_flow(url: Seq<char>, prefer_hevc: bool, heard: Heard, at: Mark) -> Flow<
    Seq<char>,
> {
    match page_flow(url, no_headers(), MAX_REDIRECTS as nat, heard, at) {
        Flow::Ask(call) => Flow::Ask(call),
        Flow::Fail(e, m) => Flow::Fail(e, m),
        Flow::Done((status, text), m) => if !is_success(status) {
            Flow::Fail("m3u8 status "@ + decimal(status as nat), m)
        } else {
            match choice(url, text, prefer_hevc) {
                Some(uri) => Flow::Done(uri, m),
                None => Flow::Fail("no playable variant in m3u8"@, m),
            }
        },
    }
}

/// Fetch an HLS master playlist and return a directly-playable progressive `.mp4` URL for the
/// app's native `<video>`.
pub fn resolve_m3u8_to_mp4(m3u8_url: &str, prefer_hevc: bool, heard: &Heard, at: &mut Place) -> (run:
    Run<String>)
    ensures
        follows(run, *final(at), mp4_flow(m3u8_url@, prefer_hevc, *heard, old(at)@)),
{
    let extra: Vec<(&str, &str)> = Vec::new();
    assert(extra.deep_view() =~= no_headers());
    let (status, text): (u16, String) = match get_text(m3u8_url, &extra, heard, at) {
        Run::Ask(action) => return Run::Ask(action),
        Run::Fail(e) => return Run::Fail(e),
        Run::Done(page) => page,
    };
    if !(200 <= status && status < 300) {
        return Run::Fail(status_message("m3u8 status ", status));
    }
    match pick_rendition(m3u8_url, text.as_str(), prefer_hevc) {
        Some(uri) => Run::Done(uri),
        None => Run::Fail("no playable variant in m3u8".to_string()),
    }
}

/// The covers of an editorial video: the square one is needed, and a tall one that cannot be
/// resolved is left out. Whether HEVC is preferred is the user's option.
pub open spec fn covers_flow(editorial: EditorialText, heard: Heard, at: Mark) -> Flow<MotionText> {
    match heard.option {
        None => Flow::Ask(Call::GetOption("prefer_hevc"@)),
        Some(value) => {
            let prefer_hevc = value matches Some(v) && v@ == "true"@;
            match mp4_flow(editorial.square_m3u8, prefer_hevc, heard, at) {
                Flow::Ask(call) => Flow::Ask(call),
                Flow::Fail(e, m) => Flow::Fail(e, m),
                Flow::Done(square, m) => match editorial.tall_m3u8 {
                    None => Flow::Done(MotionText { square, tall: None }, m),
                    Some(url) => match mp4_flow(url, prefer_hevc, heard, m) {
                        Flow::Ask(call) => Flow::Ask(call),
                        Flow::Fail(_, m) => Flow::Done(MotionText { square, tall: None }, m),
                        Flow::Done(tall, m) => Flow::Done(
                            MotionText { square, tall: Some(tall) },
                            m,
                        ),
                    },
                },
            }
        },
    }
}

/// Probing the candidates from the `i`-th on: the first one with an editorial video has the
/// covers, and a failure ends the search.
pub open spec fn probe_flow(candidates: Seq<CandidateText>, i: int, heard: Heard, at: Mark) -> Flow<
    Option<MotionText>,
>
    decreases candidates.len() - i,
{
    if i >= candidates.len() || i >= MAX_CANDIDATES {
        Flow::Done(None, at)
    } else {
        let c = candidates[i];
        match editorial_flow(c.storefront, c.album_id, c.album_url, heard, at) {
            Flow::Ask(call) => Flow::Ask(call),
            Flow::Fail(e, m) => Flow::Fail(e, m),
            Flow::Done(None, m) => probe_flow(candidates, i + 1, heard, m),
            Flow::Done(Some(editorial), m) => match covers_flow(editorial, heard, m) {
                Flow::Ask(call) => Flow::Ask(call),
                Flow::Fail(e, m) => Flow::Fail(e, m),
                Flow::Done(motion, m) => Flow::Done(Some(motion), m),
            },
        }
    }
}

/// Resolving an album: the search, and the candidates it yields.
pub open spec fn resolve_flow(artist: Seq<char>, title: Seq<char>, heard: Heard, at: Mark) -> Flow<
    Option<MotionText>,
> {
    match search_flow(artist, title, heard, at) {
        Flow::Ask(call) => Flow::Ask(call),
        Flow::Fail(e, m) => Flow::Fail(e, m),
        Flow::Done(candidates, m) => probe_flow(candidates, 0, heard, m),
    }
}

/// The covers of an editorial video.
fn resolve_covers(editorial: &Editorial, heard: &Heard, at: &mut Place) -> (run: Run<Motion>)
    ensures
        follows(run, *final(at), covers_flow(editorial.deep_view(), *heard, old(at)@)),
{
    let prefer_hevc: bool = match &heard.option {
        None => return Run::Ask(Action::GetOption("prefer_hevc".to_string())),
        Some(None) => false,
        Some(Some(v)) => same(&chars(v.as_str()), &chars("true")),
    };
    let square: String = match resolve_m3u8_to_mp4(
        editorial.square_m3u8.as_str(),
        prefer_hevc,
        heard,
        at,
    ) {
        Run::Ask(action) => return Run::Ask(action),
        Run::Fail(e) => return Run::Fail(e),
        Run::Done(uri) => uri,
    };
    let tall: Option<String> = match &editorial.tall_m3u8 {
        None => None,
        Some(url) => match resolve_m3u8_to_mp4(url.as_str(), prefer_hevc, heard, at) {
            Run::Ask(action) => return Run::Ask(action),
            Run::Fail(_) => None,
            Run::Done(uri) => Some(uri),
        },
    };
    Run::Done(Motion { square, tall })
}

/// `Done(Some)` = motion found, `Done(None)` = confirmed no motion (cache it), `Fail` = transient
/// failure (don't cache).
pub fn resolve_album(artist: &str, title: &str, heard: &Heard, at: &mut Place) -> (run: Run<
    Option<Motion>,
>)
    ensures
        follows(run, *final(at), resolve_flow(artist@, title@, *heard, old(at)@)),
{
    let candidates: Vec<Candidate> = match itunes_lookup(artist, title, heard, at) {
        Run::Ask(action) => return Run::Ask(action),
        Run::Fail(e) => return Run::Fail(e),
        Run::Done(found) => found,
    };
    let ghost all = candidates.deep_view();
    let mut i: usize = 0;
    while i < candidates.len() && i < MAX_CANDIDATES
        invariant
            i <= candidates@.len(),
            all == candidates.deep_view(),
            resolve_flow(artist@, title@, *heard, old(at)@) == probe_flow(
                all,
                i as int,
                *heard,
                at@,
            ),
        decreases candidates@.len() - i,
    {
        let c: &Candidate = &candidates[i];
        assert(all[i as int] == c.deep_view());
        match fetch_editorial_video(
            c.storefront.as_str(),
            c.album_id.as_str(),
            c.album_url.as_str(),
            heard,
            at,
        ) {
            Run::Ask(action) => return Run::Ask(action),
            Run::Fail(e) => return Run::Fail(e),
            Run::Done(None) => {},
            Run::Done(Some(editorial)) => {
                return match resolve_covers(&editorial, heard, at) {
                    Run::Ask(action) => Run::Ask(action),
                    Run::Fail(e) => Run::Fail(e),
                    Run::Done(motion) => Run::Done(Some(motion)),
                };
            },
        }
        i = i + 1;
    }
    Run::Done(None)
}

/// What the host is told of an album, and what is worth a line in the log.
#[derive(Debug, PartialEq, Eq)]
pub struct Finding {
    /// The record.
    pub details: AlbumDetails,
    /// Why the album could not be resolved, if it could not.
    pub complaint: Option<String>,
}

/// What `Finding` says.
pub struct FindingText {
    /// The record.
    pub details: DetailsText,
    /// Why the album could not be resolved, if it could not.
    pub complaint: Option<Seq<char>>,
}

impl DeepView for Finding {
    type V = FindingText;

    open spec fn deep_view(&self) -> FindingText {
        FindingText {
            details: self.details.deep_view(),
            complaint: self.complaint.deep_view(),
        }
    }
}

/// What is said of an album whose covers are settled.
pub open spec fn settled(found: Option<MotionText>) -> FindingText {
    FindingText { details: details_of(found), complaint: None }
}

/// What is said of an album that could not be resolved.
pub open spec fn unsettled(reason: Seq<char>) -> FindingText {
    FindingText { details: details_of(None), complaint: Some("apple-artwork: "@ + reason) }
}

/// What the store holds of an album, once it has been asked.
pub open spec fn known_cover(heard: Heard) -> Option<Option<MotionText>> {
    match stored_text(heard.states@[0]) {
        Some(raw) => cached_text(raw),
        None => None,
    }
}

/// Where the resolution of an album begins: behind the one read of the store.
pub open spec fn first_read() -> Mark {
    Mark { states: 1, writes: 0, responses: 0 }
}

/// Answering for an album: what is stored of it, and else what its resolution finds, which is
/// stored first. A failure is not stored.
pub open spec fn album_flow(artist: Seq<char>, title: Seq<char>, heard: Heard) -> Flow<
    FindingText,
> {
    let key = album_key(artist, title);
    if heard.states@.len() == 0 {
        Flow::Ask(Call::ReadState(key))
    } else {
        match known_cover(heard) {
            Some(found) => Flow::Done(settled(found), first_read()),
            None => match resolve_flow(artist, title, heard, first_read()) {
                Flow::Ask(call) => Flow::Ask(call),
                Flow::Fail(e, m) => Flow::Done(unsettled(e), m),
                Flow::Done(found, m) => if m.writes >= heard.writes {
                    Flow::Ask(storing(key, cache_text(found)))
                } else {
                    Flow::Done(settled(found), m.past_write())
                },
            },
        }
    }
}

/// What `bytes` say of an album once they are stored under its key: whoever asks for it is told of
/// `found`, and no request is made.
pub open spec fn remembered(key: Seq<char>, bytes: Seq<u8>, found: Option<MotionText>) -> bool {
    forall|artist: Seq<char>, title: Seq<char>, heard: Heard|
        #![trigger album_flow(artist, title, heard)]
        album_key(artist, title) == key && heard.states@.len() > 0 && (heard.states@[0] matches Ok(
            Some(stored),
        ) && stored@ == bytes) ==> album_flow(artist, title, heard) == Flow::<FindingText>::Done(
            settled(found),
            first_read(),
        )
}

/// The plugin.
pub struct AppleArtwork;

impl AppleArtwork {
    /// Not implemented — this plugin only supplies album motion artwork.
    pub fn artist_info(_name: String) -> (out: Result<ArtistDetails, String>)
        ensures
            out matches Ok(d) && d.bio is None && d.image_url is None && d.similar@.len() == 0,
    {
        Ok(ArtistDetails { bio: None, image_url: None, similar: Vec::new() })
    }

    /// Not implemented — see `artist_info`. `Line` is the host's record of a line of lyrics.
    pub fn lyrics<Line>(_artist: String, _title: String) -> (out: Result<Vec<Line>, String>)
        ensures
            out matches Ok(lines) && lines@.len() == 0,
    {
        Ok(Vec::new())
    }

    /// Resolve motion artwork for `(artist, title)`. Never fails: a miss (no match / no motion)
    /// or a transient failure both surface as an empty record, so the host's fallback chain
    /// treats us as "no contribution" rather than a hard error. Confirmed misses are cached;
    /// transient failures are NOT (so a network blip doesn't stick).
    pub fn album_info(artist: &str, title: &str, heard: &Heard) -> (run: Run<Finding>)
        ensures
            match album_flow(artist@, title@, *heard) {
                Flow::Ask(call) => run matches Run::Ask(action) && action.deep_view() == call,
                Flow::Fail(_, _) => false,
                Flow::Done(finding, _) => run matches Run::Done(f) && f.deep_view() == finding,
            },
            match run {
                Run::Ask(Action::WriteState(key, bytes)) => key@ == album_key(artist@, title@) ==> (
                resolve_flow(artist@, title@, *heard, first_read()) matches Flow::Done(found, _)
                    && remembered(key@, bytes@, found)),
                _ => true,
            },
    {
        proof {
            law_album(artist@, title@, *heard);
        }
        let key: String = cache_key(artist, title);
        if heard.states.len() == 0 {
            return Run::Ask(Action::ReadState(key));
        }
        if let Some(raw) = read_state_str(&heard.states[0]) {
            if let Some(cached) = read_cache(raw.as_str()) {
                return Run::Done(Finding { details: cached.into_details(), complaint: None });
            }
        }
        let mut at: Place = Place { states: 1, writes: 0, responses: 0 };
        let found: Cached = match resolve_album(artist, title, heard, &mut at) {
            Run::Ask(action) => return Run::Ask(action),
            Run::Fail(e) => {
                let mut complaint: String = String::new();
                complaint.append("apple-artwork: ");
                complaint.append(e.as_str());
                return Run::Done(
                    Finding { details: empty_album(), complaint: Some(complaint) },
                );
            },
            Run::Done(Some(motion)) => Cached::Motion(motion),
            Run::Done(None) => Cached::Miss,
        };
        if at.writes >= heard.writes {
            let action: Action = write_cache(key.as_str(), &found);
            proof {
                let text = cache_text(found.deep_view());
                assert forall|a: Seq<char>, t: Seq<char>, later: Heard|
                    #![trigger album_flow(a, t, later)]
                    later.states@.len() > 0 && (later.states@[0] matches Ok(Some(stored))
                        && stored@ == encode_utf8(text)) implies album_flow(a, t, later)
                    == Flow::<FindingText>::Done(settled(found.deep_view()), first_read()) by {
                    law_store_keeps_text(later.states@[0]->Ok_0->Some_0, text);
                }
            }
            return Run::Ask(action);
        }
        Run::Done(Finding { details: found.into_details(), complaint: None })
    }
}

/// A call that resolving an album asks for.
pub open spec fn is_resolving_call(call: Call) -> bool {
    ||| is_catalogue_call(call)
    ||| call is DecodeSearch
    ||| call == Call::GetOption("prefer_hevc"@)
}

/// Playlists are fetched by plain requests, and covers are had without the store.
pub proof fn law_covers(editorial: EditorialText, heard: Heard, at: Mark)
    ensures
        match covers_flow(editorial, heard, at) {
            Flow::Ask(Call::Send(r)) => is_plain_get(r),
            Flow::Ask(call) => call == Call::GetOption("prefer_hevc"@),
            Flow::Fail(_, m) | Flow::Done(_, m) => m.states == at.states && m.writes == at.writes,
        },
{
    if let Some(value) = heard.option {
        let hevc = value matches Some(v) && v@ == "true"@;
        law_page(editorial.square_m3u8, no_headers(), MAX_REDIRECTS as nat, heard, at);
        if let Flow::Done(_, m) = mp4_flow(editorial.square_m3u8, hevc, heard, at) {
            if let Some(url) = editorial.tall_m3u8 {
                law_page(url, no_headers(), MAX_REDIRECTS as nat, heard, m);
            }
        }
    }
}

/// Probing asks for nothing but what the catalogue, the playlists and the user's option need.
pub proof fn law_probe(candidates: Seq<CandidateText>, i: int, heard: Heard, at: Mark)
    ensures
        probe_flow(candidates, i, heard, at) matches Flow::Ask(call) ==> is_resolving_call(call),
    decreases candidates.len() - i,
{
    if i < candidates.len() && i < MAX_CANDIDATES {
        let c = candidates[i];
        law_editorial(c.storefront, c.album_id, c.album_url, heard, at);
        match editorial_flow(c.storefront, c.album_id, c.album_url, heard, at) {
            Flow::Done(None, m) => law_probe(candidates, i + 1, heard, m),
            Flow::Done(Some(editorial), m) => law_covers(editorial, heard, m),
            _ => {},
        }
    }
}

/// No more than the first few candidates are ever probed: what comes behind them does not count.
pub proof fn law_candidate_cap(
    candidates: Seq<CandidateText>,
    more: Seq<CandidateText>,
    i: int,
    heard: Heard,
    at: Mark,
)
    requires
        0 <= i <= MAX_CANDIDATES <= candidates.len(),
    ensures
        probe_flow(candidates + more, i, heard, at) == probe_flow(candidates, i, heard, at),
    decreases MAX_CANDIDATES - i,
{
    if i < MAX_CANDIDATES {
        let c = candidates[i];
        assert((candidates + more)[i] == c);
        if let Flow::Done(None, m) = editorial_flow(
            c.storefront,
            c.album_id,
            c.album_url,
            heard,
            at,
        ) {
            law_candidate_cap(candidates, more, i + 1, heard, m);
        }
    }
}

/// Resolving an album never touches what is stored of an album: of the store it uses the token
/// alone.
pub proof fn law_resolving(artist: Seq<char>, title: Seq<char>, heard: Heard, at: Mark)
    ensures
        resolve_flow(artist, title, heard, at) matches Flow::Ask(call) ==> is_resolving_call(call),
{
    law_search(artist, title, heard, at);
    if let Flow::Done(candidates, m) = search_flow(artist, title, heard, at) {
        law_probe(candidates, 0, heard, m);
    }
}

/// What is stored of an album settles it: nothing more is asked.
pub proof fn law_stored_album(
    artist: Seq<char>,
    title: Seq<char>,
    found: Option<MotionText>,
    heard: Heard,
)
    requires
        heard.states@.len() > 0,
        known_cover(heard) == Some(found),
    ensures
        album_flow(artist, title, heard) == Flow::<FindingText>::Done(settled(found), first_read()),
{
}

/// An album is answered for, whatever happens. Where a call is asked for that writes under the
/// album's key, the resolution has ended without a failure and what it found is what is written.
pub proof fn law_album(artist: Seq<char>, title: Seq<char>, heard: Heard)
    ensures
        match album_flow(artist, title, heard) {
            Flow::Ask(Call::WriteState(key, bytes)) => if key == album_key(artist, title) {
                resolve_flow(artist, title, heard, first_read()) matches Flow::Done(found, _)
                    && bytes == encode_utf8(cache_text(found))
            } else {
                is_resolving_call(Call::WriteState(key, bytes))
            },
            Flow::Ask(call) => is_resolving_call(call) || call == Call::ReadState(
                album_key(artist, title),
            ),
            Flow::Fail(_, _) => false,
            Flow::Done(finding, _) => finding.complaint is Some ==> finding.details == details_of(
                None,
            ),
        },
{
    law_resolving(artist, title, heard, first_read());
    law_keys(artist, title, artist, title);
}

/// A failure surfaces as an empty record and a complaint, and is not stored.
pub proof fn law_failure(artist: Seq<char>, title: Seq<char>, heard: Heard)
    requires
        heard.states@.len() > 0,
        known_cover(heard) is None,
        resolve_flow(artist, title, heard, first_read()) is Fail,
    ensures
        album_flow(artist, title, heard) matches Flow::Done(finding, m) && finding == unsettled(
            resolve_flow(artist, title, heard, first_read())->Fail_0,
        ) && m == resolve_flow(artist, title, heard, first_read())->Fail_1,
{
}

/// Further answers change nothing about covers that have been resolved.
pub proof fn law_covers_stand(editorial: EditorialText, heard: Heard, later: Heard, at: Mark)
    requires
        extends(heard, later),
    ensures
        stands(covers_flow(editorial, heard, at), covers_flow(editorial, later, at)),
{
    if let Some(value) = heard.option {
        let hevc = value matches Some(v) && v@ == "true"@;
        let hops = MAX_REDIRECTS as nat;
        law_page_stands(editorial.square_m3u8, no_headers(), hops, heard, later, at);
        if let Flow::Done(_, m) = mp4_flow(editorial.square_m3u8, hevc, heard, at) {
            if let Some(url) = editorial.tall_m3u8 {
                law_page_stands(url, no_headers(), hops, heard, later, m);
            }
        }
    }
}

/// Further answers change nothing about candidates that have been probed.
pub proof fn law_probe_stands(
    candidates: Seq<CandidateText>,
    i: int,
    heard: Heard,
    later: Heard,
    at: Mark,
)
    requires
        extends(heard, later),
    ensures
        stands(probe_flow(candidates, i, heard, at), probe_flow(candidates, i, later, at)),
    decreases candidates.len() - i,
{
    if i < candidates.len() && i < MAX_CANDIDATES {
        let c = candidates[i];
        law_editorial_stands(c.storefront, c.album_id, c.album_url, heard, later, at);
        match editorial_flow(c.storefront, c.album_id, c.album_url, heard, at) {
            Flow::Done(None, m) => law_probe_stands(candidates, i + 1, heard, later, m),
            Flow::Done(Some(editorial), m) => law_covers_stand(editorial, heard, later, m),
            _ => {},
        }
    }
}

/// Further answers change nothing about an album that has been answered for.
pub proof fn law_album_stands(artist: Seq<char>, title: Seq<char>, heard: Heard, later: Heard)
    requires
        extends(heard, later),
    ensures
        stands(album_flow(artist, title, heard), album_flow(artist, title, later)),
{
    if heard.states@.len() > 0 {
        assert(later.states@[0] == heard.states@[0]);
        law_search_stands(artist, title, heard, later, first_read());
        if let Flow::Done(candidates, m) = search_flow(artist, title, heard, first_read()) {
            law_probe_stands(candidates, 0, heard, later, m);
        }
    }
}

/// Whether the user prefers HEVC: the option says so with the word `true`.
pub open spec fn prefers_hevc(value: Option<String>) -> bool {
    value matches Some(v) && v@ == seq!['t', 'r', 'u', 'e']
}

/// A cover that was had from a playlist: the page was fetched with success, and the cover is what
/// its text offers under the preference. `next` is the place behind it.
pub open spec fn is_cover(
    cover: Seq<char>,
    playlist: Seq<char>,
    hevc: bool,
    heard: Heard,
    at: Mark,
    next: Mark,
) -> bool {
    match page_flow(playlist, seq![], 4, heard, at) {
        Flow::Done((status, text), m) => 200 <= status < 300 && m == next && choice(
            playlist,
            text,
            hevc,
        ) == Some(cover),
        _ => false,
    }
}

/// A playlist from which no cover can be had.
pub open spec fn has_no_cover(playlist: Seq<char>, hevc: bool, heard: Heard, at: Mark, next: Mark) -> bool {
    match page_flow(playlist, seq![], 4, heard, at) {
        Flow::Ask(_) => false,
        Flow::Fail(_, m) => m == next,
        Flow::Done((status, text), m) => m == next && (!(200 <= status < 300) || choice(
            playlist,
            text,
            hevc,
        ) is None),
    }
}

/// A playlist is fetched as a page, and what is played is the choice from its text. It fails where
/// the page cannot be had, where its status is no success, and where it offers nothing.
pub proof fn law_playlist(url: Seq<char>, prefer_hevc: bool, heard: Heard, at: Mark)
    ensures
        match page_flow(url, seq![], 4, heard, at) {
            Flow::Ask(call) => mp4_flow(url, prefer_hevc, heard, at) == Flow::<Seq<char>>::Ask(call),
            Flow::Fail(e, m) => mp4_flow(url, prefer_hevc, heard, at) == Flow::<Seq<char>>::Fail(
                e,
                m,
            ),
            Flow::Done((status, text), m) => {
                let out = mp4_flow(url, prefer_hevc, heard, at);
                if !(200 <= status < 300) {
                    out == Flow::<Seq<char>>::Fail("m3u8 status "@ + decimal(status as nat), m)
                } else {
                    match choice(url, text, prefer_hevc) {
                        Some(uri) => out == Flow::<Seq<char>>::Done(uri, m),
                        None => out == Flow::<Seq<char>>::Fail("no playable variant in m3u8"@, m),
                    }
                }
            },
        },
{
    assert(no_headers() =~= seq![]);
}

/// Both covers of an album are chosen under one and the same preference, which is the user's. The
/// square cover is the choice from the square playlist. The tall one is the choice from the tall
/// playlist, and is missing only where there is no such playlist or nothing can be had from it.
pub proof fn law_covers_choice(editorial: EditorialText, heard: Heard, at: Mark)
    ensures
        heard.option is None ==> covers_flow(editorial, heard, at) == Flow::<MotionText>::Ask(
            Call::GetOption("prefer_hevc"@),
        ),
        covers_flow(editorial, heard, at) matches Flow::Done(motion, end) ==> heard.option is Some && {
            let hevc = prefers_hevc(heard.option.unwrap());
            exists|mid: Mark|
                {
                    &&& #[trigger] is_cover(
                        motion.square,
                        editorial.square_m3u8,
                        hevc,
                        heard,
                        at,
                        mid,
                    )
                    &&& match (editorial.tall_m3u8, motion.tall) {
                        (Some(url), Some(tall)) => is_cover(tall, url, hevc, heard, mid, end),
                        (Some(url), None) => has_no_cover(url, hevc, heard, mid, end),
                        (None, tall) => tall is None && end == mid,
                    }
                }
        },
        covers_flow(editorial, heard, at) matches Flow::Fail(_, end) ==> heard.option is Some
            && has_no_cover(
            editorial.square_m3u8,
            prefers_hevc(heard.option.unwrap()),
            heard,
            at,
            end,
        ),
{
    reveal_strlit("true");
    assert("true"@ =~= seq!['t', 'r', 'u', 'e']);
    assert(no_headers() =~= seq![]);
    if let Some(value) = heard.option {
        let hevc = value matches Some(v) && v@ == "true"@;
        assert(hevc == prefers_hevc(value));
        law_playlist(editorial.square_m3u8, hevc, heard, at);
        if let Flow::Done(square, mid) = mp4_flow(editorial.square_m3u8, hevc, heard, at) {
            if let Some(url) = editorial.tall_m3u8 {
                law_playlist(url, hevc, heard, mid);
            }
            if let Flow::Done(motion, end) = covers_flow(editorial, heard, at) {
                assert(motion.square == square);
                assert(is_cover(motion.square, editorial.square_m3u8, hevc, heard, at, mid));
                assert(match (editorial.tall_m3u8, motion.tall) {
                    (Some(url), Some(tall)) => is_cover(tall, url, hevc, heard, mid, end),
                    (Some(url), None) => has_no_cover(url, hevc, heard, mid, end),
                    (None, tall) => tall is None && end == mid,
                });
            }
        }
    }
}

/// Where HEVC is preferred, each cover is the progressive sibling of the largest variant that its
/// playlist describes, as long as it describes one with a sibling.
pub proof fn law_preferred_cover(
    cover: Seq<char>,
    playlist: Seq<char>,
    heard: Heard,
    at: Mark,
    next: Mark,
)
    requires
        is_cover(cover, playlist, true, heard, at, next),
    ensures
        page_flow(playlist, seq![], 4, heard, at) matches Flow::Done((_, text), _) && exists|
            listed: Seq<(Seq<char>, Seq<char>)>,
            spots: Seq<(int, int)>,
        |
            {
                let sibling = |v: (Seq<char>, Seq<char>)| progressive(resolved(playlist, v.1));
                let any = |v: (Seq<char>, Seq<char>)| sibling(v) is Some;
                &&& #[trigger] is_listing(lines_of(text), listed, spots)
                &&& (exists|i: int| 0 <= i < listed.len() && any(#[trigger] listed[i])) ==> exists|
                    k: int,
                | #[trigger]
                    is_largest(listed, k, any) && Some(cover) == sibling(listed[k])
            },
{
    if let Flow::Done((_, text), _) = page_flow(playlist, seq![], 4, heard, at) {
        law_choice(playlist, text, true);
    }
}

/// A candidate without an editorial video. `next` is the place behind it.
pub open spec fn is_bare(c: CandidateText, heard: Heard, at: Mark, next: Mark) -> bool {
    editorial_flow(c.storefront, c.album_id, c.album_url, heard, at) == Flow::<
        Option<EditorialText>,
    >::Done(None, next)
}

/// Passing over candidates without an editorial video.
proof fn lemma_bare(candidates: Seq<CandidateText>, heard: Heard, marks: Seq<Mark>, k: int)
    requires
        0 <= k < marks.len(),
        k <= candidates.len(),
        k <= 3,
        forall|i: int|
            0 <= i < k ==> is_bare(#[trigger] candidates[i], heard, marks[i], marks[i + 1]),
    ensures
        probe_flow(candidates, 0, heard, marks[0]) == probe_flow(candidates, k, heard, marks[k]),
    decreases k,
{
    if k > 0 {
        lemma_bare(candidates, heard, marks, k - 1);
        assert(is_bare(candidates[k - 1], heard, marks[k - 1], marks[k]));
    }
}

/// An album is resolved by the first of its candidates that has an editorial video, among the first
/// three. Those before it are passed over, a failure of any of them is a failure, and where none of
/// the three has a video the album has no covers.
pub proof fn law_first_video(
    artist: Seq<char>,
    title: Seq<char>,
    heard: Heard,
    at: Mark,
    marks: Seq<Mark>,
    k: int,
)
    requires
        0 <= k < marks.len(),
        k <= 3,
        match search_flow(artist, title, heard, at) {
            Flow::Done(candidates, m) => marks[0] == m && k <= candidates.len() && forall|i: int|
                0 <= i < k ==> is_bare(#[trigger] candidates[i], heard, marks[i], marks[i + 1]),
            _ => true,
        },
    ensures
        match search_flow(artist, title, heard, at) {
            Flow::Ask(call) => resolve_flow(artist, title, heard, at) == Flow::<
                Option<MotionText>,
            >::Ask(call),
            Flow::Fail(e, m) => resolve_flow(artist, title, heard, at) == Flow::<
                Option<MotionText>,
            >::Fail(e, m),
            Flow::Done(candidates, _) => {
                let out = resolve_flow(artist, title, heard, at);
                if k == 3 || k == candidates.len() {
                    out == Flow::<Option<MotionText>>::Done(None, marks[k])
                } else {
                    match editorial_flow(
                        candidates[k].storefront,
                        candidates[k].album_id,
                        candidates[k].album_url,
                        heard,
                        marks[k],
                    ) {
                        Flow::Ask(call) => out == Flow::<Option<MotionText>>::Ask(call),
                        Flow::Fail(e, m) => out == Flow::<Option<MotionText>>::Fail(e, m),
                        Flow::Done(None, _) => true,
                        Flow::Done(Some(video), m) => match covers_flow(video, heard, m) {
                            Flow::Ask(call) => out == Flow::<Option<MotionText>>::Ask(call),
                            Flow::Fail(e, n) => out == Flow::<Option<MotionText>>::Fail(e, n),
                            Flow::Done(motion, n) => out == Flow::<Option<MotionText>>::Done(
                                Some(motion),
                                n,
                            ),
                        },
                    }
                }
            },
        },
{
    if let Flow::Done(candidates, _) = search_flow(artist, title, heard, at) {
        lemma_bare(candidates, heard, marks, k);
    }
}

/// What is said of an album. The store is asked for its row first; a row that says what the covers
/// are, or that there are none, is the answer. Otherwise the album is resolved. What is found, covers
/// or none, is written to the row and then said; a failure is said to be nothing found, with a
/// complaint, and no row is written.
pub proof fn law_answer(artist: Seq<char>, title: Seq<char>, heard: Heard)
    ensures
        ({
            let out = album_flow(artist, title, heard);
            let start = Mark { states: 1, writes: 0, responses: 0 };
            if heard.states@.len() == 0 {
                out == Flow::<FindingText>::Ask(Call::ReadState(album_key(artist, title)))
            } else {
                let row = match heard.states@[0] {
                    Ok(Some(bytes)) => if valid_utf8(bytes@) {
                        cached_text(decode_utf8(bytes@))
                    } else {
                        None
                    },
                    _ => None,
                };
                match row {
                    Some(found) => out == Flow::<FindingText>::Done(
                        FindingText { details: details_of(found), complaint: None },
                        start,
                    ),
                    None => match resolve_flow(artist, title, heard, start) {
                        Flow::Ask(call) => out == Flow::<FindingText>::Ask(call),
                        Flow::Fail(e, m) => out == Flow::<FindingText>::Done(
                            FindingText {
                                details: details_of(None),
                                complaint: Some("apple-artwork: "@ + e),
                            },
                            m,
                        ),
                        Flow::Done(found, m) => if m.writes >= heard.writes {
                            out == Flow::<FindingText>::Ask(
                                Call::WriteState(
                                    album_key(artist, title),
                                    encode_utf8(cache_text(found)),
                                ),
                            )
                        } else {
                            out == Flow::<FindingText>::Done(
                                FindingText { details: details_of(found), complaint: None },
                                (Mark { writes: m.writes + 1, ..m }),
                            )
                        },
                    },
                }
            }
        }),
{
}

} // verus!
