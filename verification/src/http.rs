//! Fetching pages: requests, redirects, and the text that comes back.

use vstd::prelude::*;
use vstd::utf8::{decode_utf8, valid_utf8};

use crate::chars::ascii_lower;
use crate::host::{
    extends, follows, lossy, lossy_text, patched_utf8, stands, Action, Call, Flow, Heard, Mark, Place, Request,
    RequestText, Run,
};
use crate::text::{chars, optional};
use crate::url::{resolve_url, resolved};

verus! {

/// How the plugin names itself: the product, and the version of this package.
pub const USER_AGENT: &'static str = "WaveFlow/Apple-Artwork/0.1.0";

/// Cap on redirect hops we follow manually (the host disables redirects).
pub const MAX_REDIRECTS: usize = 4;

/// Two texts that are the same but for the case of ASCII letters.
pub open spec fn same_ignoring_case(a: Seq<char>, b: Seq<char>) -> bool {
    a.map_values(|c: char| ascii_lower(c)) == b.map_values(|c: char| ascii_lower(c))
}

/// The value of the first header field of a name, in which case does not count.
pub open spec fn header_value(headers: Seq<(String, String)>, name: Seq<char>) -> Option<Seq<char>>
    decreases headers.len(),
{
    if headers.len() == 0 {
        None
    } else if same_ignoring_case(headers[0].0@, name) {
        Some(headers[0].1@)
    } else {
        header_value(headers.drop_first(), name)
    }
}

/// A letter of ASCII in lower case; every other character as it is.
fn small(c: char) -> (s: char)
    ensures
        s == ascii_lower(c),
{
    if 'A' <= c && c <= 'Z' {
        ((c as u8) + 32) as char
    } else {
        c
    }
}

/// Whether two texts are the same but for the case of ASCII letters.
fn eq_ignoring_case(a: &str, b: &str) -> (r: bool)
    ensures
        r == same_ignoring_case(a@, b@),
{
    let x: Vec<char> = chars(a);
    let y: Vec<char> = chars(b);
    let ghost (lx, ly) = (
        a@.map_values(|c: char| ascii_lower(c)),
        b@.map_values(|c: char| ascii_lower(c)),
    );
    if x.len() != y.len() {
        assert(lx.len() != ly.len());
        return false;
    }
    for i in 0..x.len()
        invariant
            x@ == a@ && y@ == b@,
            x@.len() == y@.len(),
            lx == x@.map_values(|c: char| ascii_lower(c)),
            ly == y@.map_values(|c: char| ascii_lower(c)),
            forall|k: int| 0 <= k < i ==> #[trigger] lx[k] == ly[k],
    {
        if small(x[i]) != small(y[i]) {
            assert(lx[i as int] != ly[i as int]);
            return false;
        }
    }
    assert(lx =~= ly);
    true
}

/// The value of the first header field of a name.
pub fn header_get(headers: &Vec<(String, String)>, name: &str) -> (out: Option<String>)
    ensures
        optional(out) == header_value(headers@, name@),
{
    assert(headers@.skip(0) =~= headers@);
    for i in 0..headers.len()
        invariant
            header_value(headers@, name@) == header_value(headers@.skip(i as int), name@),
    {
        assert(headers@.skip(i as int).drop_first() =~= headers@.skip(i + 1));
        if eq_ignoring_case(headers[i].0.as_str(), name) {
            return Some(headers[i].1.clone());
        }
    }
    None
}

/// The status codes of success.
pub open spec fn is_success(status: u16) -> bool {
    200 <= status < 300
}

/// A number in decimal.
pub open spec fn decimal(n: nat) -> Seq<char>
    decreases n,
{
    let last = ('0' as int + n % 10) as char;
    if n < 10 {
        seq![last]
    } else {
        decimal(n / 10).push(last)
    }
}

/// `what`, and a status code behind it.
pub fn status_message(what: &str, status: u16) -> (out: String)
    ensures
        out@ == what@ + decimal(status as nat),
{
    let mut digits: Vec<char> = Vec::new();
    let mut n: u16 = status;
    while n >= 10
        invariant
            decimal(status as nat) =~= decimal(n as nat) + digits@.reverse(),
        decreases n,
    {
        let ghost before = digits@;
        digits.push((48 + (n % 10) as u8) as char);
        assert(digits@.reverse() =~= seq![digits@.last()] + before.reverse());
        n = n / 10;
    }
    let mut out: String = String::new();
    out.append(what);
    out.push((48 + n as u8) as char);
    let ghost front = out@;
    let mut i: usize = digits.len();
    while i > 0
        invariant
            i <= digits@.len(),
            out@ == front + digits@.reverse().take(digits@.len() - i),
        decreases i,
    {
        i = i - 1;
        out.push(digits[i]);
        assert(digits@.reverse().take(digits@.len() - i) =~= digits@.reverse().take(
            digits@.len() - i - 1,
        ).push(digits@[i as int]));
    }
    assert(digits@.reverse().take(digits@.len() as int) =~= digits@.reverse());
    out
}

/// The header fields of every request, with `extra` behind them.
pub open spec fn header_fields(extra: Seq<(Seq<char>, Seq<char>)>) -> Seq<(Seq<char>, Seq<char>)> {
    seq![
        ("User-Agent"@, USER_AGENT@),
        ("Accept-Language"@, "en-US,en;q=0.9"@),
    ] + extra
}

/// The request for a page.
pub open spec fn page_request(url: Seq<char>, extra: Seq<(Seq<char>, Seq<char>)>) -> RequestText {
    RequestText { method: "GET"@, url, headers: header_fields(extra), body: None }
}

/// Fetching a page: the status and the text of the first answer that does not redirect, of at
/// most `hops` answers.
pub open spec fn page_flow(
    url: Seq<char>,
    extra: Seq<(Seq<char>, Seq<char>)>,
    hops: nat,
    heard: Heard,
    at: Mark,
) -> Flow<(u16, Seq<char>)>
    decreases hops,
{
    if hops == 0 {
        Flow::Fail("too many redirects"@, at)
    } else if at.responses >= heard.responses@.len() {
        Flow::Ask(Call::Send(page_request(url, extra)))
    } else {
        match heard.responses@[at.responses as int] {
            Err(e) => Flow::Fail("http: "@ + e@, at.past_response()),
            Ok(r) => match header_value(r.headers@, "location"@) {
                Some(href) if 300 <= r.status < 400 => page_flow(
                    resolved(url, href),
                    extra,
                    (hops - 1) as nat,
                    heard,
                    at.past_response(),
                ),
                _ => Flow::Done((r.status, lossy_text(r.body@)), at.past_response()),
            },
        }
    }
}

/// GET `url` (following manual redirects), returning `(status, body_text)`.
pub fn get_text(
    url: &str,
    extra_headers: &Vec<(&str, &str)>,
    heard: &Heard,
    at: &mut Place,
) -> (run: Run<(u16, String)>)
    ensures
        follows(
            run,
            *final(at),
            page_flow(
                url@,
                extra_headers.deep_view(),
                MAX_REDIRECTS as nat,
                *heard,
                old(at)@,
            ),
        ),
{
    let ghost extra = extra_headers.deep_view();
    let mut current: String = url.to_string();
    let mut hops: usize = MAX_REDIRECTS;
    while hops > 0
        invariant
            extra == extra_headers.deep_view(),
            page_flow(url@, extra, MAX_REDIRECTS as nat, *heard, old(at)@) == page_flow(
                current@,
                extra,
                hops as nat,
                *heard,
                at@,
            ),
        decreases hops,
    {
        if at.responses >= heard.responses.len() {
            return Run::Ask(Action::Send(request(current.as_str(), extra_headers)));
        }
        let answer = &heard.responses[at.responses];
        at.responses = at.responses + 1;
        match answer {
            Err(e) => {
                let mut reason: String = String::new();
                reason.append("http: ");
                reason.append(e.as_str());
                return Run::Fail(reason);
            },
            Ok(r) => {
                let redirect: Option<String> = if 300 <= r.status && r.status < 400 {
                    header_get(&r.headers, "location")
                } else {
                    None
                };
                match redirect {
                    Some(href) => {
                        current = resolve_url(current.as_str(), href.as_str());
                    },
                    None => {
                        return Run::Done((r.status, lossy(&r.body)));
                    },
                }
            },
        }
        hops = hops - 1;
    }
    Run::Fail("too many redirects".to_string())
}

/// The request for a page.
fn request(url: &str, extra_headers: &Vec<(&str, &str)>) -> (r: Request)
    ensures
        r.deep_view() == page_request(url@, extra_headers.deep_view()),
{
    let mut headers: Vec<(String, String)> = Vec::new();
    headers.push(("User-Agent".to_string(), USER_AGENT.to_string()));
    headers.push(("Accept-Language".to_string(), "en-US,en;q=0.9".to_string()));
    let ghost extra = extra_headers.deep_view();
    assert(headers.deep_view() =~= header_fields(extra.take(0)));
    for i in 0..extra_headers.len()
        invariant
            extra == extra_headers.deep_view(),
            headers.deep_view() == header_fields(extra.take(i as int)),
    {
        let ghost known = headers.deep_view();
        let (k, v) = extra_headers[i];
        headers.push((k.to_string(), v.to_string()));
        assert(headers.deep_view() =~= known.push((k@, v@)));
        assert(extra.take(i + 1) =~= extra.take(i as int).push(extra[i as int]));
        assert(headers.deep_view() =~= header_fields(extra.take(i + 1)));
    }
    assert(extra.take(extra.len() as int) =~= extra);
    Request { method: "GET".to_string(), url: url.to_string(), headers, body: None }
}

/// A request as the plugin sends it: a GET without content, whose first two header fields name
/// the plugin and the language.
pub open spec fn is_plain_get(r: RequestText) -> bool {
    &&& r.method == "GET"@
    &&& r.body is None
    &&& r.headers.len() >= 2
    &&& r.headers[0] == ("User-Agent"@, USER_AGENT@)
    &&& r.headers[1] == ("Accept-Language"@, "en-US,en;q=0.9"@)
}

/// A page is fetched by plain requests alone, all with the same header fields, and takes at most
/// `hops` answers.
pub proof fn law_page(
    url: Seq<char>,
    extra: Seq<(Seq<char>, Seq<char>)>,
    hops: nat,
    heard: Heard,
    at: Mark,
)
    ensures
        match page_flow(url, extra, hops, heard, at) {
            Flow::Ask(call) => call matches Call::Send(r) && is_plain_get(r) && r.headers
                == header_fields(extra),
            Flow::Fail(_, m) => m.responses <= at.responses + hops && m == (Mark {
                responses: m.responses,
                ..at
            }),
            Flow::Done(_, m) => at.responses < m.responses <= at.responses + hops && m == (Mark {
                responses: m.responses,
                ..at
            }),
        },
    decreases hops,
{
    if hops > 0 && at.responses < heard.responses@.len() {
        if let Ok(r) = heard.responses@[at.responses as int] {
            if let Some(href) = header_value(r.headers@, "location"@) {
                law_page(
                    resolved(url, href),
                    extra,
                    (hops - 1) as nat,
                    heard,
                    at.past_response(),
                );
            }
        }
    }
}

/// Further answers change nothing about a page that has been fetched.
pub proof fn law_page_stands(
    url: Seq<char>,
    extra: Seq<(Seq<char>, Seq<char>)>,
    hops: nat,
    heard: Heard,
    later: Heard,
    at: Mark,
)
    requires
        extends(heard, later),
    ensures
        stands(page_flow(url, extra, hops, heard, at), page_flow(url, extra, hops, later, at)),
    decreases hops,
{
    if hops > 0 && at.responses < heard.responses@.len() {
        assert(later.responses@[at.responses as int] == heard.responses@[at.responses as int]);
        if let Ok(r) = heard.responses@[at.responses as int] {
            if let Some(href) = header_value(r.headers@, "location"@) {
                law_page_stands(
                    resolved(url, href),
                    extra,
                    (hops - 1) as nat,
                    heard,
                    later,
                    at.past_response(),
                );
            }
        }
    }
}

/// Names that are the same but for the case of letters: character by character they are equal, or
/// one is the capital of the other.
pub open spec fn is_same_name(a: Seq<char>, b: Seq<char>) -> bool {
    a.len() == b.len() && forall|i: int|
        #![trigger a[i]]
        0 <= i < a.len() ==> {
            ||| a[i] == b[i]
            ||| 'A' <= a[i] <= 'Z' && b[i] as int == a[i] as int + 32
            ||| 'A' <= b[i] <= 'Z' && a[i] as int == b[i] as int + 32
        }
}

/// A header field is looked up by its name, whose case does not count; of several the first one is
/// found, and none only where there is none.
pub proof fn law_header(headers: Seq<(String, String)>, name: Seq<char>)
    ensures
        match header_value(headers, name) {
            Some(value) => exists|i: int|
                {
                    &&& 0 <= i < headers.len()
                    &&& (#[trigger] headers[i]).1@ == value
                    &&& is_same_name(headers[i].0@, name)
                    &&& forall|j: int| 0 <= j < i ==> !is_same_name((#[trigger] headers[j]).0@, name)
                },
            None => forall|j: int|
                0 <= j < headers.len() ==> !is_same_name((#[trigger] headers[j]).0@, name),
        },
    decreases headers.len(),
{
    if headers.len() > 0 {
        lemma_same_name(headers[0].0@, name);
        if !same_ignoring_case(headers[0].0@, name) {
            let rest = headers.drop_first();
            law_header(rest, name);
            assert forall|j: int| 0 < j < headers.len() implies #[trigger] headers[j] == rest[j - 1] by {}
            if let Some(value) = header_value(rest, name) {
                let i = choose|i: int|
                    {
                        &&& 0 <= i < rest.len()
                        &&& (#[trigger] rest[i]).1@ == value
                        &&& is_same_name(rest[i].0@, name)
                        &&& forall|j: int|
                            0 <= j < i ==> !is_same_name((#[trigger] rest[j]).0@, name)
                    };
                assert(headers[i + 1] == rest[i]);
                assert forall|j: int| 0 <= j < i + 1 implies !is_same_name(
                    (#[trigger] headers[j]).0@,
                    name,
                ) by {
                    if j > 0 {
                        assert(!is_same_name(rest[j - 1].0@, name));
                    }
                }
            }
        }
    }
}

/// Two ways to say that names are the same but for case.
proof fn lemma_same_name(a: Seq<char>, b: Seq<char>)
    ensures
        same_ignoring_case(a, b) <==> is_same_name(a, b),
{
    let low = |s: Seq<char>| s.map_values(|c: char| ascii_lower(c));
    if same_ignoring_case(a, b) {
        assert(low(a).len() == low(b).len());
        assert forall|i: int| #![trigger a[i]] 0 <= i < a.len() implies {
            ||| a[i] == b[i]
            ||| 'A' <= a[i] <= 'Z' && b[i] as int == a[i] as int + 32
            ||| 'A' <= b[i] <= 'Z' && a[i] as int == b[i] as int + 32
        } by {
            assert(low(a)[i] == low(b)[i]);
        }
    }
    if is_same_name(a, b) {
        assert forall|i: int| 0 <= i < a.len() implies ascii_lower(#[trigger] a[i]) == ascii_lower(
            b[i],
        ) by {}
        assert(low(a) =~= low(b));
    }
}

/// A number is written with its last digit behind the rest of it, and a digit as itself.
pub proof fn law_decimal(n: nat, d: nat)
    requires
        d < 10,
    ensures
        decimal(d).len() == 1 && decimal(d)[0] as int == '0' as int + d,
        n > 0 ==> decimal(n * 10 + d).len() == decimal(n).len() + 1 && decimal(n).is_prefix_of(
            decimal(n * 10 + d),
        ) && decimal(n * 10 + d).last() as int == '0' as int + d,
{
    if n > 0 {
        let m = n * 10 + d;
        assert(m / 10 == n && m % 10 == d);
        assert(decimal(m).subrange(0, decimal(n).len() as int) =~= decimal(n));
    }
}

/// Following redirects one by one.
proof fn lemma_redirects(
    urls: Seq<Seq<char>>,
    extra: Seq<(Seq<char>, Seq<char>)>,
    hops: nat,
    heard: Heard,
    at: Mark,
    k: nat,
)
    requires
        k < urls.len(),
        k <= hops,
        at.responses + k <= heard.responses@.len(),
        forall|i: int| 0 <= i < k ==> redirects(heard, at, urls, i),
    ensures
        page_flow(urls[0], extra, hops, heard, at) == page_flow(
            urls[k as int],
            extra,
            (hops - k) as nat,
            heard,
            (Mark { responses: at.responses + k, ..at }),
        ),
    decreases k,
{
    if k > 0 {
        let j = (k - 1) as nat;
        lemma_redirects(urls, extra, hops, heard, at, j);
        assert(redirects(heard, at, urls, j as int));
    }
}

/// The `i`-th answer from a place on sends from the `i`-th address to the next one.
pub open spec fn redirects(heard: Heard, at: Mark, urls: Seq<Seq<char>>, i: int) -> bool {
    match heard.responses@[at.responses + i] {
        Ok(r) => match header_value(r.headers@, "location"@) {
            Some(href) => 300 <= r.status < 400 && urls[i + 1] == resolved(urls[i], href),
            None => false,
        },
        Err(_) => false,
    }
}

/// A page behind redirects. As long as answers send on, and up to the fourth, the next address is
/// asked for, always by GET, without content, and with the same header fields. The first answer
/// that does not send on is the page: its status, and its content as text.
pub proof fn law_redirects(
    urls: Seq<Seq<char>>,
    extra: Seq<(Seq<char>, Seq<char>)>,
    heard: Heard,
    at: Mark,
    k: nat,
)
    requires
        k < urls.len(),
        k <= 4,
        at.responses + k <= heard.responses@.len(),
        forall|i: int| 0 <= i < k ==> redirects(heard, at, urls, i),
    ensures
        ({
            let page = page_flow(urls[0], extra, MAX_REDIRECTS as nat, heard, at);
            let behind = Mark { responses: at.responses + k + 1, ..at };
            if k == 4 {
                page == Flow::<(u16, Seq<char>)>::Fail(
                    "too many redirects"@,
                    (Mark { responses: at.responses + 4, ..at }),
                )
            } else if at.responses + k == heard.responses@.len() {
                page == Flow::<(u16, Seq<char>)>::Ask(
                    Call::Send(
                        RequestText {
                            method: "GET"@,
                            url: urls[k as int],
                            headers: seq![
                                ("User-Agent"@, USER_AGENT@),
                                ("Accept-Language"@, "en-US,en;q=0.9"@),
                            ] + extra,
                            body: None,
                        },
                    ),
                )
            } else {
                match heard.responses@[(at.responses + k) as int] {
                    Err(e) => page == Flow::<(u16, Seq<char>)>::Fail("http: "@ + e@, behind),
                    Ok(r) => 300 <= r.status < 400 && header_value(r.headers@, "location"@) is Some
                        || page == Flow::<(u16, Seq<char>)>::Done(
                        (
                            r.status,
                            if valid_utf8(r.body@) {
                                decode_utf8(r.body@)
                            } else {
                                patched_utf8(r.body@)
                            },
                        ),
                        behind,
                    ),
                }
            }
        }),
{
    lemma_redirects(urls, extra, MAX_REDIRECTS as nat, heard, at, k);
}

} // verus!
