//! The catalogue search: which albums may be the one that was asked for.

use vstd::prelude::*;
use vstd::utf8::encode_utf8;

use crate::host::{
    extends, follows, stands, Action, Call, Flow, Heard, ItunesResult, Mark, Place, Run,
};
use crate::http::{
    decimal, get_text, is_plain_get, is_success, law_page, law_page_stands, page_flow,
    status_message, MAX_REDIRECTS,
};
use crate::names::{agreement, rank_album_name, NameMatch};
use crate::url::{album_of, parse_album_url, percent, url_encode};

verus! {

/// One catalogue album we can ask amp-api about.
#[derive(Debug, PartialEq, Eq)]
pub struct Candidate {
    /// The storefront that lists it.
    pub storefront: String,
    /// Its catalogue number.
    pub album_id: String,
    /// Its page.
    pub album_url: String,
}

/// What `Candidate` says.
pub struct CandidateText {
    /// The storefront that lists it.
    pub storefront: Seq<char>,
    /// Its catalogue number.
    pub album_id: Seq<char>,
    /// Its page.
    pub album_url: Seq<char>,
}

impl DeepView for Candidate {
    type V = CandidateText;

    open spec fn deep_view(&self) -> CandidateText {
        CandidateText {
            storefront: self.storefront@,
            album_id: self.album_id@,
            album_url: self.album_url@,
        }
    }
}

/// The album that a search result names, if its page says which one it is.
pub open spec fn candidate_of(r: ItunesResult) -> Option<CandidateText> {
    match r.collection_view_url {
        None => None,
        Some(url) => match album_of(url@) {
            None => None,
            Some((storefront, album_id)) => Some(
                CandidateText { storefront, album_id, album_url: url@ },
            ),
        },
    }
}

/// How well a search result agrees with the title that was asked for.
pub open spec fn rank_of(r: ItunesResult, title: Seq<char>) -> NameMatch {
    match r.collection_name {
        Some(name) => agreement(name@, title),
        None => NameMatch::Other,
    }
}

/// The albums among some search results, in order.
pub open spec fn usable(results: Seq<ItunesResult>) -> Seq<CandidateText>
    decreases results.len(),
{
    if results.len() == 0 {
        seq![]
    } else {
        let known = usable(results.drop_last());
        match candidate_of(results.last()) {
            Some(c) => known.push(c),
            None => known,
        }
    }
}

/// The albums among some search results that agree with the title to a given degree, in order.
pub open spec fn tier(results: Seq<ItunesResult>, title: Seq<char>, rank: NameMatch) -> Seq<
    CandidateText,
>
    decreases results.len(),
{
    if results.len() == 0 {
        seq![]
    } else {
        let known = tier(results.drop_last(), title, rank);
        match candidate_of(results.last()) {
            Some(c) if rank_of(results.last(), title) == rank => known.push(c),
            _ => known,
        }
    }
}

/// The albums to probe: those whose title is the same first, then those whose title contains it,
/// then the others.
pub open spec fn ranked(results: Seq<ItunesResult>, title: Seq<char>) -> Seq<CandidateText> {
    tier(results, title, NameMatch::Exact) + tier(results, title, NameMatch::Partial) + tier(
        results,
        title,
        NameMatch::Other,
    )
}

/// Ranking drops no album and adds none.
pub proof fn law_ranking_keeps_all(results: Seq<ItunesResult>, title: Seq<char>)
    ensures
        ranked(results, title).to_multiset() == usable(results).to_multiset(),
    decreases results.len(),
{
    broadcast use vstd::seq_lib::group_to_multiset_ensures;

    let exact = tier(results, title, NameMatch::Exact);
    let partial = tier(results, title, NameMatch::Partial);
    let other = tier(results, title, NameMatch::Other);
    vstd::seq_lib::lemma_multiset_commutative(exact, partial);
    vstd::seq_lib::lemma_multiset_commutative(exact + partial, other);
    if results.len() > 0 {
        let init = results.drop_last();
        law_ranking_keeps_all(init, title);
        let (e, p, o) = (
            tier(init, title, NameMatch::Exact),
            tier(init, title, NameMatch::Partial),
            tier(init, title, NameMatch::Other),
        );
        vstd::seq_lib::lemma_multiset_commutative(e, p);
        vstd::seq_lib::lemma_multiset_commutative(e + p, o);
        assert(ranked(results, title).to_multiset() =~= usable(results).to_multiset());
    } else {
        assert(ranked(results, title) =~= usable(results));
    }
}

/// The albums to probe, the ones whose title actually matches the request first.
///
/// Apple's own ranking is not reliable here: searching for an album routinely returns the
/// same-named *single* first, and that single usually has no editorial video even when the
/// album does.
pub fn rank_candidates(results: &Vec<ItunesResult>, title: &str) -> (out: Vec<Candidate>)
    ensures
        out.deep_view() == ranked(results@, title@),
{
    let mut exact: Vec<Candidate> = Vec::new();
    let mut partial: Vec<Candidate> = Vec::new();
    let mut other: Vec<Candidate> = Vec::new();
    assert(exact.deep_view() =~= seq![]);
    for i in 0..results.len()
        invariant
            exact.deep_view() == tier(results@.take(i as int), title@, NameMatch::Exact),
            partial.deep_view() == tier(results@.take(i as int), title@, NameMatch::Partial),
            other.deep_view() == tier(results@.take(i as int), title@, NameMatch::Other),
    {
        assert(results@.take(i + 1).drop_last() =~= results@.take(i as int));
        let r: &ItunesResult = &results[i];
        if let Some(url) = &r.collection_view_url {
            if let Some((storefront, album_id)) = parse_album_url(url.as_str()) {
                let c: Candidate = Candidate { storefront, album_id, album_url: url.clone() };
                let rank: NameMatch = match &r.collection_name {
                    Some(name) => rank_album_name(name.as_str(), title),
                    None => NameMatch::Other,
                };
                let ghost (e, p, o) = (exact.deep_view(), partial.deep_view(), other.deep_view());
                match rank {
                    NameMatch::Exact => {
                        exact.push(c);
                        assert(exact.deep_view() =~= e.push(c.deep_view()));
                    },
                    NameMatch::Partial => {
                        partial.push(c);
                        assert(partial.deep_view() =~= p.push(c.deep_view()));
                    },
                    NameMatch::Other => {
                        other.push(c);
                        assert(other.deep_view() =~= o.push(c.deep_view()));
                    },
                }
            }
        }
    }
    assert(results@.take(results@.len() as int) =~= results@);
    let ghost (e, p, o) = (exact.deep_view(), partial.deep_view(), other.deep_view());
    exact.append(&mut partial);
    assert(exact.deep_view() =~= e + p);
    exact.append(&mut other);
    assert(exact.deep_view() =~= e + p + o);
    exact
}

/// Where the search for an album goes.
pub open spec fn search_url(artist: Seq<char>, title: Seq<char>) -> Seq<char> {
    "https://itunes.apple.com/search?term="@ + percent(encode_utf8(artist + " "@ + title))
        + "&entity=album&limit=5&explicit=Yes"@
}

/// The extra header fields of a search.
pub open spec fn search_headers() -> Seq<(Seq<char>, Seq<char>)> {
    seq![("Accept"@, "application/json"@)]
}

/// Searching: one page, whose decoded results are ranked.
pub open spec fn search_flow(artist: Seq<char>, title: Seq<char>, heard: Heard, at: Mark) -> Flow<
    Seq<CandidateText>,
> {
    match page_flow(
        search_url(artist, title),
        search_headers(),
        MAX_REDIRECTS as nat,
        heard,
        at,
    ) {
        Flow::Ask(call) => Flow::Ask(call),
        Flow::Fail(e, m) => Flow::Fail(e, m),
        Flow::Done((status, body), m) => if status == 429 || status == 403 {
            Flow::Fail("itunes rate limited: "@ + decimal(status as nat), m)
        } else if !is_success(status) {
            Flow::Fail("itunes status "@ + decimal(status as nat), m)
        } else {
            match heard.search {
                None => Flow::Ask(Call::DecodeSearch(body)),
                Some(Err(e)) => Flow::Fail("itunes json: "@ + e@, m),
                Some(Ok(results)) => Flow::Done(ranked(results@, title), m),
            }
        },
    }
}

/// Search iTunes for the album and return every usable candidate, the ones whose title actually
/// matches the request first.
///
/// `explicit=Yes` matters: without it Apple can hand back the *clean* edition, which is a
/// different catalogue id and frequently has no editorial video even when the explicit edition
/// does.
pub fn itunes_lookup(artist: &str, title: &str, heard: &Heard, at: &mut Place) -> (run: Run<
    Vec<Candidate>,
>)
    ensures
        follows(run, *final(at), search_flow(artist@, title@, *heard, old(at)@)),
{
    let mut term: String = String::new();
    term.append(artist);
    term.append(" ");
    term.append(title);
    let mut url: String = String::new();
    url.append("https://itunes.apple.com/search?term=");
    url.append(url_encode(term.as_str()).as_str());
    url.append("&entity=album&limit=5&explicit=Yes");
    let extra: Vec<(&str, &str)> = vec![("Accept", "application/json")];
    assert(extra.deep_view() =~= search_headers());
    let (status, body): (u16, String) = match get_text(url.as_str(), &extra, heard, at) {
        Run::Ask(action) => return Run::Ask(action),
        Run::Fail(e) => return Run::Fail(e),
        Run::Done(page) => page,
    };
    if status == 429 || status == 403 {
        return Run::Fail(status_message("itunes rate limited: ", status));
    }
    if !(200 <= status && status < 300) {
        return Run::Fail(status_message("itunes status ", status));
    }
    match &heard.search {
        None => Run::Ask(Action::DecodeSearch(body)),
        Some(Err(e)) => {
            let mut reason: String = String::new();
            reason.append("itunes json: ");
            reason.append(e.as_str());
            Run::Fail(reason)
        },
        Some(Ok(results)) => Run::Done(rank_candidates(results, title)),
    }
}

/// A search asks for plain requests and for the decoding of what came back, and uses no answer of
/// the store.
pub proof fn law_search(artist: Seq<char>, title: Seq<char>, heard: Heard, at: Mark)
    ensures
        match search_flow(artist, title, heard, at) {
            Flow::Ask(Call::Send(r)) => is_plain_get(r),
            Flow::Ask(call) => call is DecodeSearch,
            Flow::Fail(_, m) | Flow::Done(_, m) => m.states == at.states && m.writes == at.writes,
        },
{
    law_page(search_url(artist, title), search_headers(), MAX_REDIRECTS as nat, heard, at);
}

/// Further answers change nothing about a search that has ended.
pub proof fn law_search_stands(
    artist: Seq<char>,
    title: Seq<char>,
    heard: Heard,
    later: Heard,
    at: Mark,
)
    requires
        extends(heard, later),
    ensures
        stands(search_flow(artist, title, heard, at), search_flow(artist, title, later, at)),
{
    law_page_stands(
        search_url(artist, title),
        search_headers(),
        MAX_REDIRECTS as nat,
        heard,
        later,
        at,
    );
}

/// A search result that names an album.
pub open spec fn names_album(r: ItunesResult, c: CandidateText) -> bool {
    r.collection_view_url matches Some(url) && c.album_url == url@ && album_of(url@) == Some(
        (c.storefront, c.album_id),
    )
}

/// How early a search result is probed: titles that agree exactly first, then those that agree in
/// part, then all others.
pub open spec fn turn_of(r: ItunesResult, title: Seq<char>) -> int {
    match r.collection_name {
        Some(name) => match agreement(name@, title) {
            NameMatch::Exact => 0,
            NameMatch::Partial => 1,
            NameMatch::Other => 2,
        },
        None => 2,
    }
}

/// The candidates of one degree of agreement, by their places among the results.
proof fn lemma_tier(results: Seq<ItunesResult>, title: Seq<char>, rank: NameMatch) -> (places: Seq<
    int,
>)
    ensures
        places.len() == tier(results, title, rank).len(),
        forall|k: int|
            #![trigger places[k]]
            0 <= k < places.len() ==> 0 <= places[k] < results.len() && names_album(
                results[places[k]],
                tier(results, title, rank)[k],
            ) && rank_of(results[places[k]], title) == rank,
        forall|k: int, l: int|
            0 <= k < l < places.len() ==> #[trigger] places[k] < #[trigger] places[l],
        forall|x: int|
            0 <= x < results.len() && candidate_of(#[trigger] results[x]) is Some && rank_of(
                results[x],
                title,
            ) == rank ==> places.contains(x),
    decreases results.len(),
{
    if results.len() == 0 {
        seq![]
    } else {
        let init = results.drop_last();
        let n = init.len() as int;
        let old = lemma_tier(init, title, rank);
        let known = tier(init, title, rank);
        let fits = candidate_of(results.last()) is Some && rank_of(results.last(), title) == rank;
        let places = if fits {
            old.push(n)
        } else {
            old
        };
        assert forall|k: int| #![trigger places[k]] 0 <= k < places.len() implies 0 <= places[k]
            < results.len() && names_album(results[places[k]], tier(results, title, rank)[k])
            && rank_of(results[places[k]], title) == rank by {
            if k < old.len() {
                assert(places[k] == old[k]);
                assert(results[old[k]] == init[old[k]]);
            }
        }
        assert forall|k: int, l: int| 0 <= k < l < places.len() implies #[trigger] places[k]
            < #[trigger] places[l] by {
            assert(places[k] == old[k]);
            if l < old.len() {
                assert(places[l] == old[l]);
            }
        }
        assert forall|x: int|
            0 <= x < results.len() && candidate_of(#[trigger] results[x]) is Some && rank_of(
                results[x],
                title,
            ) == rank implies places.contains(x) by {
            if x < n {
                assert(results[x] == init[x]);
                let i = choose|i: int| 0 <= i < old.len() && old[i] == x;
                assert(old.contains(x));
                assert(places[i] == x);
            } else {
                assert(places[old.len() as int] == x);
            }
        }
        places
    }
}

/// The candidates are the albums that the search results name, all of them and each one once. They
/// come by how well the title agrees, and among those that agree equally well in the order of the
/// results.
pub proof fn law_ranking(results: Seq<ItunesResult>, title: Seq<char>)
    ensures
        exists|places: Seq<int>|
            {
                &&& #[trigger] places.len() == ranked(results, title).len()
                &&& forall|k: int|
                    #![trigger places[k]]
                    0 <= k < places.len() ==> 0 <= places[k] < results.len() && names_album(
                        results[places[k]],
                        ranked(results, title)[k],
                    )
                &&& forall|k: int, l: int|
                    #![trigger places[k], places[l]]
                    0 <= k < l < places.len() ==> {
                        let (a, b) = (
                            turn_of(results[places[k]], title),
                            turn_of(results[places[l]], title),
                        );
                        a < b || a == b && places[k] < places[l]
                    }
                &&& forall|x: int, c: CandidateText|
                    0 <= x < results.len() && #[trigger] names_album(results[x], c)
                        ==> places.contains(x)
            },
{
    let a = lemma_tier(results, title, NameMatch::Exact);
    let b = lemma_tier(results, title, NameMatch::Partial);
    let c = lemma_tier(results, title, NameMatch::Other);
    let places = a + b + c;
    let (n, m) = (a.len() as int, (a.len() + b.len()) as int);
    assert forall|k: int| 0 <= k < places.len() implies #[trigger] places[k] == if k < n {
        a[k]
    } else if k < m {
        b[k - n]
    } else {
        c[k - m]
    } by {}
    let all = ranked(results, title);
    let (ta, tb, tc) = (
        tier(results, title, NameMatch::Exact),
        tier(results, title, NameMatch::Partial),
        tier(results, title, NameMatch::Other),
    );
    assert forall|k: int| #![trigger places[k]] 0 <= k < places.len() implies 0 <= places[k]
        < results.len() && names_album(results[places[k]], all[k]) && turn_of(
        results[places[k]],
        title,
    ) == (if k < n {
        0int
    } else if k < m {
        1
    } else {
        2
    }) by {
        if k < n {
            assert(places[k] == a[k]);
            assert(all[k] == ta[k]);
        } else if k < m {
            assert(places[k] == b[k - n]);
            assert(all[k] == tb[k - n]);
        } else {
            assert(places[k] == c[k - m]);
            assert(all[k] == tc[k - m]);
        }
    }
    assert forall|x: int, d: CandidateText|
        0 <= x < results.len() && #[trigger] names_album(results[x], d) implies places.contains(x) by {
        assert(candidate_of(results[x]) is Some);
        match rank_of(results[x], title) {
            NameMatch::Exact => {
                assert(a.contains(x));
                let i = choose|i: int| 0 <= i < a.len() && a[i] == x;
                assert(places[i] == x);
            },
            NameMatch::Partial => {
                assert(b.contains(x));
                let i = choose|i: int| 0 <= i < b.len() && b[i] == x;
                assert(places[n + i] == x);
            },
            NameMatch::Other => {
                assert(c.contains(x));
                let i = choose|i: int| 0 <= i < c.len() && c[i] == x;
                assert(places[m + i] == x);
            },
        }
    }
    assert(places.len() == all.len());
}

/// A search asks for one page, whose address holds artist and title as the term, and what the page
/// means: a status that is no success is a failure, and the decoded results are ranked by the
/// title.
pub proof fn law_search_outcome(artist: Seq<char>, title: Seq<char>, heard: Heard, at: Mark)
    ensures
        match page_flow(
            "https://itunes.apple.com/search?term="@ + percent(
                encode_utf8(artist + seq![' '] + title),
            ) + "&entity=album&limit=5&explicit=Yes"@,
            seq![("Accept"@, "application/json"@)],
            4,
            heard,
            at,
        ) {
            Flow::Ask(call) => search_flow(artist, title, heard, at) == Flow::<
                Seq<CandidateText>,
            >::Ask(call),
            Flow::Fail(e, m) => search_flow(artist, title, heard, at) == Flow::<
                Seq<CandidateText>,
            >::Fail(e, m),
            Flow::Done((status, body), m) => {
                let out = search_flow(artist, title, heard, at);
                &&& status == 429 || status == 403 ==> out == Flow::<Seq<CandidateText>>::Fail(
                    "itunes rate limited: "@ + decimal(status as nat),
                    m,
                )
                &&& status != 429 && status != 403 && !(200 <= status < 300) ==> out == Flow::<
                    Seq<CandidateText>,
                >::Fail("itunes status "@ + decimal(status as nat), m)
                &&& 200 <= status < 300 ==> match heard.search {
                    None => out == Flow::<Seq<CandidateText>>::Ask(Call::DecodeSearch(body)),
                    Some(Err(e)) => out == Flow::<Seq<CandidateText>>::Fail(
                        "itunes json: "@ + e@,
                        m,
                    ),
                    Some(Ok(results)) => out == Flow::<Seq<CandidateText>>::Done(
                        ranked(results@, title),
                        m,
                    ),
                }
            },
        },
{
    reveal_strlit(" ");
    assert(artist + " "@ + title =~= artist + seq![' '] + title);
}

} // verus!
