//! URLs: resolution of references, query values, and album pages.

use vstd::prelude::*;
use vstd::utf8::encode_utf8;

use crate::chars::{
    ascii_digit, ascii_letter, is_ascii_alnum, is_ascii_digit, is_ascii_letter, is_space,
};
use crate::text::{
    after_mark, before, chars, contains, cut, cut_from, find, find_from, head, law_trim,
    law_trim_parts, lemma_after_mark, lemma_before, lemma_cut, lemma_cut_is, lemma_end_pieces,
    lemma_find, lemma_find_is, occurs_at, past, pieces, slices, split, starts_with, string, trim,
    trimmed, Delimiter,
};

verus! {

/// A reference that names its own scheme, `http` or `https`.
pub open spec fn is_absolute(href: Seq<char>) -> bool {
    "http://"@.is_prefix_of(href) || "https://"@.is_prefix_of(href)
}

/// Where the host of a URL begins: after `://`, or at the start without it.
pub open spec fn host_start(base: Seq<char>) -> int {
    match find_from(base, "://"@, 0) {
        Some(at) => at + 3,
        None => 0,
    }
}

/// Where the host of a URL ends: where its path or its query begins, or at the end.
pub open spec fn host_end(base: Seq<char>) -> int {
    cut_from(base, Delimiter::SlashOrQuery, host_start(base))
}

/// Where the path of a URL ends: where its query begins, or at the end.
pub open spec fn path_end(base: Seq<char>) -> int {
    cut_from(base, Delimiter::Char('?'), host_end(base))
}

/// The last position in `from..to` that holds `c`.
pub open spec fn rfind(s: Seq<char>, c: char, from: int, to: int) -> Option<int>
    decreases to - from,
{
    if to <= from {
        None
    } else if s[to - 1] == c {
        Some(to - 1)
    } else {
        rfind(s, c, from, to - 1)
    }
}

/// What a path-relative reference is put behind: the URL up to the last slash of its path. A host
/// without a path gets the slash that it lacks; what names no host is left without one.
pub open spec fn directory(base: Seq<char>) -> Seq<char> {
    match rfind(base, '/', host_end(base), path_end(base)) {
        Some(at) => base.take(at + 1),
        None => if host_start(base) > 0 {
            base.take(path_end(base)) + "/"@
        } else {
            base.take(path_end(base))
        },
    }
}

/// `href` seen from `base`: itself if it is absolute, below the host if it begins with a slash,
/// and otherwise in place of the last segment of the path. The query of `base` does not count.
pub open spec fn resolved(base: Seq<char>, href: Seq<char>) -> Seq<char> {
    if is_absolute(href) {
        href
    } else if href.len() > 0 && href[0] == '/' {
        base.take(host_end(base)) + href
    } else {
        directory(base) + href
    }
}

/// The bounds of a URL's host and path.
pub proof fn lemma_host(base: Seq<char>)
    ensures
        0 <= host_start(base) <= host_end(base) <= path_end(base) <= base.len(),
        host_end(base) < path_end(base) ==> base[host_end(base)] == '/',
{
    reveal_strlit("://");
    lemma_find(base, "://"@, 0);
    lemma_cut(base, Delimiter::SlashOrQuery, host_start(base));
    lemma_cut(base, Delimiter::Char('?'), host_end(base));
}

/// A reference that is not absolute stays on the host: what it is resolved to begins with the
/// base up to the end of its host, and a slash follows.
pub proof fn law_host_stays(base: Seq<char>, href: Seq<char>)
    requires
        host_start(base) > 0,
        !is_absolute(href),
    ensures
        base.take(host_end(base)).is_prefix_of(resolved(base, href)),
        resolved(base, href).len() > host_end(base),
        resolved(base, href)[host_end(base)] == '/',
{
    reveal_strlit("/");
    lemma_host(base);
    lemma_rfind(base, '/', host_end(base), path_end(base));
    let end = host_end(base);
    assert(base.take(end) =~= resolved(base, href).subrange(0, end));
}

/// What is seen from an absolute URL is an absolute URL.
pub proof fn law_resolved_is_absolute(base: Seq<char>, href: Seq<char>)
    requires
        is_absolute(base),
    ensures
        is_absolute(resolved(base, href)),
{
    reveal_strlit("://");
    reveal_strlit("http://");
    reveal_strlit("https://");
    let scheme = if "http://"@.is_prefix_of(base) {
        "http://"@
    } else {
        "https://"@
    };
    let n = scheme.len() - 3;
    assert forall|i: int| 0 <= i < n + 3 implies base[i] == #[trigger] scheme[i] by {
        assert(base.subrange(0, n + 3)[i] == scheme[i]);
    }
    assert(scheme[n] == ':' && scheme[n + 1] == '/' && scheme[n + 2] == '/');
    assert(base.subrange(n, n + 3) =~= "://"@);
    assert(occurs_at(base, "://"@, n));
    lemma_find(base, "://"@, 0);
    assert(host_start(base) == n + 3) by {
        let at = find_from(base, "://"@, 0).unwrap();
        if at < n {
            assert(base.subrange(at, at + 3)[0] == ':');
            assert(base[at] == scheme[at]);
        }
    }
    lemma_host(base);
    lemma_rfind(base, '/', host_end(base), path_end(base));
    if !is_absolute(href) {
        assert(scheme =~= resolved(base, href).subrange(0, n + 3));
    }
}

/// `rfind` is what it says: a position in the range that holds `c`, if there is any.
proof fn lemma_rfind(s: Seq<char>, c: char, from: int, to: int)
    ensures
        match rfind(s, c, from, to) {
            Some(at) => from <= at < to && s[at] == c,
            None => forall|i: int| from <= i < to ==> s[i] != c,
        },
    decreases to - from,
{
    if from < to {
        lemma_rfind(s, c, from, to - 1);
    }
}

/// Resolve `href` (absolute, root-relative, or path-relative) against `base`.
pub fn resolve_url(base: &str, href: &str) -> (out: String)
    ensures
        out@ == resolved(base@, href@),
{
    let h: Vec<char> = chars(href);
    if starts_with(&h, "http://") || starts_with(&h, "https://") {
        return string(&h);
    }
    let b: Vec<char> = chars(base);
    let mark: Vec<char> = chars("://");
    proof {
        reveal_strlit("://");
        lemma_host(base@);
    }
    assert(b@.len() == b.len());
    let start: usize = match find(&b, &mark) {
        Some(at) => at + 3,
        None => 0,
    };
    let end: usize = cut(&b, Delimiter::SlashOrQuery, start);
    let mut out: String = String::new();
    if h.len() > 0 && h[0] == '/' {
        out.append(string(&b[0..end]).as_str());
        out.append(href);
        return out;
    }
    let stop: usize = cut(&b, Delimiter::Char('?'), end);
    let mut i: usize = stop;
    while end < i && b[i - 1] != '/'
        invariant
            end <= i <= stop <= b@.len(),
            rfind(b@, '/', end as int, stop as int) == rfind(b@, '/', end as int, i as int),
        decreases i,
    {
        i = i - 1;
    }
    if end < i {
        out.append(string(&b[0..i]).as_str());
    } else {
        out.append(string(&b[0..stop]).as_str());
        if start > 0 {
            out.append("/");
        }
    }
    out.append(href);
    out
}

/// The characters that need no escape in a query value.
pub open spec fn is_unreserved(c: char) -> bool {
    is_ascii_alnum(c) || c == '-' || c == '_' || c == '.' || c == '~'
}

/// A number below sixteen as a hexadecimal digit, in capitals.
pub open spec fn hex_digit(n: int) -> char {
    if n < 10 {
        ('0' as int + n) as char
    } else {
        ('A' as int + n - 10) as char
    }
}

/// One byte of a query value: itself, or `%` and its two hexadecimal digits.
pub open spec fn escaped(b: u8) -> Seq<char> {
    if is_unreserved(b as char) {
        seq![b as char]
    } else {
        seq!['%', hex_digit(b as int / 16), hex_digit(b as int % 16)]
    }
}

/// Bytes as a query value.
pub open spec fn percent(bytes: Seq<u8>) -> Seq<char>
    decreases bytes.len(),
{
    if bytes.len() == 0 {
        seq![]
    } else {
        percent(bytes.drop_last()) + escaped(bytes.last())
    }
}

/// The number that a hexadecimal digit stands for.
pub open spec fn hex_value(c: char) -> int {
    if is_ascii_digit(c) {
        c as int - '0' as int
    } else {
        c as int - 'A' as int + 10
    }
}

/// The bytes behind a query value.
pub open spec fn unescaped(s: Seq<char>) -> Seq<u8>
    decreases s.len(),
{
    let n = s.len() as int;
    if n == 0 {
        seq![]
    } else if n >= 3 && s[n - 3] == '%' {
        unescaped(s.take(n - 3)).push((hex_value(s[n - 2]) * 16 + hex_value(s[n - 1])) as u8)
    } else {
        unescaped(s.take(n - 1)).push(s[n - 1] as u8)
    }
}

/// The digits of an escape.
pub open spec fn is_hex_digit(c: char) -> bool {
    is_ascii_digit(c) || 'A' <= c <= 'F'
}

/// A query value holds nothing but unreserved characters and escapes, each of which is `%` and two
/// hexadecimal digits in capitals, and says which bytes it stands for: no two texts share one.
pub proof fn law_query_value(bytes: Seq<u8>)
    ensures
        forall|i: int|
            0 <= i < percent(bytes).len() ==> is_unreserved(#[trigger] percent(bytes)[i])
                || percent(bytes)[i] == '%',
        forall|i: int|
            0 <= i < percent(bytes).len() && #[trigger] percent(bytes)[i] == '%' ==> i + 2
                < percent(bytes).len() && is_hex_digit(percent(bytes)[i + 1]) && is_hex_digit(
                percent(bytes)[i + 2],
            ),
        unescaped(percent(bytes)) == bytes,
    decreases bytes.len(),
{
    let out = percent(bytes);
    if bytes.len() == 0 {
        assert(unescaped(out) =~= bytes);
    } else {
        let init = bytes.drop_last();
        let b = bytes.last();
        let body = percent(init);
        law_query_value(init);
        lemma_no_open_escape(init);
        let n = out.len() as int;
        if is_unreserved(b as char) {
            assert(out.take(n - 1) =~= body);
        } else {
            assert(out.take(n - 3) =~= body);
        }
        assert(unescaped(out) =~= init.push(b));
        assert(init.push(b) =~= bytes);
    }
}

/// No escape is left open at the end of a query value.
proof fn lemma_no_open_escape(bytes: Seq<u8>)
    ensures
        percent(bytes).len() >= 1 ==> percent(bytes).last() != '%',
        percent(bytes).len() >= 2 ==> percent(bytes)[percent(bytes).len() - 2] != '%',
    decreases bytes.len(),
{
    if bytes.len() > 0 {
        lemma_no_open_escape(bytes.drop_last());
    }
}

/// A number below sixteen as a hexadecimal digit.
fn hex(n: u8) -> (c: char)
    requires
        n < 16,
    ensures
        c == hex_digit(n as int),
{
    if n < 10 {
        (48 + n) as char
    } else {
        (55 + n) as char
    }
}

/// Minimal percent-encoder for query values (letters, digits and `-_.~` pass through).
pub fn url_encode(s: &str) -> (out: String)
    ensures
        out@ == percent(encode_utf8(s@)),
{
    let bytes: &[u8] = s.as_bytes();
    let mut out: String = String::new();
    for i in 0..bytes.len()
        invariant
            out@ == percent(bytes@.take(i as int)),
    {
        let b: u8 = bytes[i];
        let c: char = b as char;
        assert(bytes@.take(i + 1).drop_last() =~= bytes@.take(i as int));
        if ascii_letter(c) || ascii_digit(c) || c == '-' || c == '_' || c == '.' || c == '~' {
            out.push(c);
        } else {
            out.push('%');
            out.push(hex(b / 16));
            out.push(hex(b % 16));
        }
        assert(out@ =~= percent(bytes@.take(i as int)) + escaped(b));
    }
    assert(bytes@.take(bytes@.len() as int) =~= bytes@);
    out
}

/// A storefront code: two letters.
pub open spec fn is_storefront(s: Seq<char>) -> bool {
    s.len() == 2 && forall|i: int| 0 <= i < s.len() ==> is_ascii_letter(#[trigger] s[i])
}

/// A catalogue number: one or more digits.
pub open spec fn is_catalogue_number(s: Seq<char>) -> bool {
    s.len() > 0 && forall|i: int| 0 <= i < s.len() ==> is_ascii_digit(#[trigger] s[i])
}

/// The storefront and the catalogue number that an album's URL names: the first and the last
/// segment of the path, which ends where the query begins.
pub open spec fn album_of(url: Seq<char>) -> Option<(Seq<char>, Seq<char>)> {
    match after_mark(url, "music.apple.com/"@) {
        None => None,
        Some(rest) => {
            let segments = pieces(before(rest, Delimiter::Char('?')), Delimiter::Char('/'));
            let store = trim(segments.first());
            let id = trim(segments.last());
            if is_storefront(store) && is_catalogue_number(id) {
                Some((store, id))
            } else {
                None
            }
        },
    }
}

/// `https://music.apple.com/us/album/better-single/1834571502`
/// → `("us", "1834571502")`.
pub fn parse_album_url(url: &str) -> (out: Option<(String, String)>)
    ensures
        match out {
            Some((store, id)) => album_of(url@) == Some((store@, id@)),
            None => album_of(url@) is None,
        },
{
    let u: Vec<char> = chars(url);
    let path: &[char] = match past(&u, "music.apple.com/") {
        Some(rest) => head(rest, Delimiter::Char('?')),
        None => return None,
    };
    let segments: Vec<&[char]> = split(path, Delimiter::Char('/'));
    let ghost all = pieces(path@, Delimiter::Char('/'));
    assert(all.len() >= 1 && segments@.len() == all.len());
    let first: &[char] = segments[0];
    let last: &[char] = segments[segments.len() - 1];
    assert(slices(segments@)[0] == first@ && slices(segments@).last() == last@);
    let store: &[char] = trimmed(first);
    if store.len() != 2 || !ascii_letter(store[0]) || !ascii_letter(store[1]) {
        return None;
    }
    let id: &[char] = trimmed(last);
    if id.len() == 0 {
        return None;
    }
    for i in 0..id.len()
        invariant
            forall|k: int| 0 <= k < i ==> is_ascii_digit(#[trigger] id@[k]),
            album_of(url@) is Some ==> is_catalogue_number(id@),
    {
        if !ascii_digit(id[i]) {
            return None;
        }
    }
    Some((string(store), string(id)))
}

/// A text with white space around it.
pub open spec fn is_padded(s: Seq<char>, t: Seq<char>) -> bool {
    exists|a: Seq<char>, b: Seq<char>|
        {
            &&& #[trigger] (a + t + b) == s
            &&& forall|i: int| 0 <= i < a.len() ==> is_space(#[trigger] a[i])
            &&& forall|i: int| 0 <= i < b.len() ==> is_space(#[trigger] b[i])
        }
}

/// What a reference means. The base is a lead (a scheme, or nothing), a host, the directory and the
/// last segment of a path, and a query. An absolute reference stands alone, a rooted one follows
/// the host, and any other one follows the directory, which for a host without a path is the root.
pub proof fn law_resolve(
    lead: Seq<char>,
    host: Seq<char>,
    dir: Seq<char>,
    file: Seq<char>,
    query: Seq<char>,
    href: Seq<char>,
)
    requires
        lead.len() == 0 ==> !contains(host + dir + file + query, "://"@),
        lead.len() > 0 ==> "://"@.is_suffix_of(lead) && forall|i: int|
            0 <= i < lead.len() - 3 ==> #[trigger] lead[i] != ':',
        forall|i: int| 0 <= i < host.len() ==> #[trigger] host[i] != '/' && host[i] != '?',
        dir.len() > 0 ==> dir[0] == '/' && dir.last() == '/',
        dir.len() == 0 ==> file.len() == 0,
        forall|i: int| 0 <= i < dir.len() ==> #[trigger] dir[i] != '?',
        forall|i: int| 0 <= i < file.len() ==> #[trigger] file[i] != '/' && file[i] != '?',
        query.len() > 0 ==> query[0] == '?',
    ensures
        ({
            let absolute = "http://"@.is_prefix_of(href) || "https://"@.is_prefix_of(href);
            let rooted = href.len() > 0 && href[0] == '/';
            let out = resolved(lead + host + dir + file + query, href);
            &&& absolute ==> out == href
            &&& !absolute && rooted ==> out == lead + host + href
            &&& !absolute && !rooted && dir.len() > 0 ==> out == lead + host + dir + href
            &&& !absolute && !rooted && dir.len() == 0 && lead.len() > 0 ==> out == lead + host
                + seq!['/'] + href
            &&& !absolute && !rooted && dir.len() == 0 && lead.len() == 0 ==> out == host + href
        }),
{
    reveal_strlit("://");
    reveal_strlit("/");
    let base = lead + host + dir + file + query;
    let mark = "://"@;
    let l = lead.len() as int;
    lemma_find(base, mark, 0);
    if l == 0 {
        assert(base =~= host + dir + file + query);
    } else {
        let n = l - 3;
        assert(base.subrange(n, l) =~= mark) by {
            assert(lead.subrange(n, l) =~= mark);
            assert(base.subrange(n, l) =~= lead.subrange(n, l));
        }
        assert forall|i: int| 0 <= i < n implies !occurs_at(base, mark, i) by {
            if occurs_at(base, mark, i) {
                assert(base.subrange(i, i + 3)[0] == base[i]);
                assert(base[i] == lead[i]);
            }
        }
        lemma_find_is(base, mark, n);
    }
    assert(host_start(base) == l);
    let h = l + host.len();
    let p = h + dir.len() + file.len();
    assert forall|i: int| l <= i < h implies !Delimiter::SlashOrQuery.has(#[trigger] base[i]) by {
        assert(base[i] == host[i - l]);
    }
    if dir.len() > 0 {
        assert(base[h] == dir[0]);
    } else if query.len() > 0 {
        assert(base[h] == query[0]);
    }
    lemma_cut_is(base, Delimiter::SlashOrQuery, l, h);
    assert forall|i: int| h <= i < p implies !Delimiter::Char('?').has(#[trigger] base[i]) by {
        if i < h + dir.len() {
            assert(base[i] == dir[i - h]);
        } else {
            assert(base[i] == file[i - h - dir.len()]);
        }
    }
    if query.len() > 0 {
        assert(base[p] == query[0]);
    }
    lemma_cut_is(base, Delimiter::Char('?'), h, p);
    assert(base.take(h) =~= lead + host);
    assert(base.take(h + dir.len()) =~= lead + host + dir);
    if dir.len() > 0 {
        let at = h + dir.len() - 1;
        assert(base[at] == dir.last());
        assert forall|i: int| at < i < p implies #[trigger] base[i] != '/' by {
            assert(base[i] == file[i - h - dir.len()]);
        }
        lemma_rfind_is(base, '/', h, p, at);
    }
    let out = resolved(base, href);
    assert(lead + host + "/"@ + href =~= lead + host + seq!['/'] + href);
    assert(lead.len() == 0 ==> lead + host =~= host);
}

/// A position that fits the description of the last one is what `rfind` finds.
proof fn lemma_rfind_is(s: Seq<char>, c: char, from: int, to: int, at: int)
    requires
        from <= at < to,
        s[at] == c,
        forall|i: int| at < i < to ==> #[trigger] s[i] != c,
    ensures
        rfind(s, c, from, to) == Some(at),
    decreases to - at,
{
    if at < to - 1 {
        lemma_rfind_is(s, c, from, to - 1, at);
    }
}

/// A query value is made byte by byte: letters, digits and `-_.~` stand for themselves, and every
/// other byte is `%` and the two digits of its value to the base sixteen.
pub proof fn law_percent(a: Seq<u8>, b: u8)
    ensures
        percent(seq![]) == Seq::<char>::empty(),
        ({
            let c = b as char;
            let plain = 'a' <= c <= 'z' || 'A' <= c <= 'Z' || '0' <= c <= '9' || c == '-' || c
                == '_' || c == '.' || c == '~';
            let out = percent(a.push(b));
            let n = percent(a).len() as int;
            &&& percent(a).is_prefix_of(out)
            &&& plain ==> out == percent(a).push(c)
            &&& !plain ==> out.len() == n + 3 && out[n] == '%' && exists|hi: int, lo: int|
                #![trigger "0123456789ABCDEF"@[hi], "0123456789ABCDEF"@[lo]]
                0 <= hi < 16 && 0 <= lo < 16 && hi * 16 + lo == b && out[n + 1]
                    == "0123456789ABCDEF"@[hi] && out[n + 2] == "0123456789ABCDEF"@[lo]
        }),
{
    reveal_strlit("0123456789ABCDEF");
    assert(a.push(b).drop_last() =~= a);
    let out = percent(a.push(b));
    let n = percent(a).len() as int;
    assert(out.subrange(0, n) =~= percent(a));
    let c = b as char;
    if is_unreserved(c) {
        assert(out =~= percent(a).push(c));
    } else {
        let (hi, lo) = (b as int / 16, b as int % 16);
        assert(out[n + 1] == hex_digit(hi));
        assert(out[n + 2] == hex_digit(lo));
        assert(hex_digit(hi) == "0123456789ABCDEF"@[hi]);
        assert(hex_digit(lo) == "0123456789ABCDEF"@[lo]);
    }
}

/// The page of an album names its storefront and its number: whatever stands between the first and
/// the last segment of the path, the one is the first and the other the last, and a query behind
/// them does not count.
pub proof fn law_album_page(
    front: Seq<char>,
    first: Seq<char>,
    store: Seq<char>,
    between: Seq<char>,
    last: Seq<char>,
    id: Seq<char>,
    tail: Seq<char>,
)
    requires
        !contains(front, "music.apple.com/"@),
        is_padded(first, store),
        store.len() == 2,
        forall|i: int|
            0 <= i < 2 ==> 'a' <= #[trigger] store[i] <= 'z' || 'A' <= store[i] <= 'Z',
        between.len() > 0 && between[0] == '/' && between.last() == '/',
        forall|i: int| 0 <= i < between.len() ==> #[trigger] between[i] != '?',
        !contains(between, "music.apple.com/"@),
        is_padded(last, id),
        id.len() > 0,
        forall|i: int| 0 <= i < id.len() ==> '0' <= #[trigger] id[i] <= '9',
        tail.len() > 0 ==> tail[0] == '?',
    ensures
        album_of(front + "music.apple.com/"@ + (first + between + last + tail)) == Some((store, id)),
{
    reveal_strlit("music.apple.com/");
    let mark = "music.apple.com/"@;
    let (a, b) = choose|a: Seq<char>, b: Seq<char>|
        {
            &&& #[trigger] (a + store + b) == first
            &&& forall|i: int| 0 <= i < a.len() ==> is_space(#[trigger] a[i])
            &&& forall|i: int| 0 <= i < b.len() ==> is_space(#[trigger] b[i])
        };
    let (c, d) = choose|a: Seq<char>, b: Seq<char>|
        {
            &&& #[trigger] (a + id + b) == last
            &&& forall|i: int| 0 <= i < a.len() ==> is_space(#[trigger] a[i])
            &&& forall|i: int| 0 <= i < b.len() ==> is_space(#[trigger] b[i])
        };
    assert forall|i: int| 0 <= i < first.len() implies is_space(#[trigger] first[i])
        || is_ascii_letter(first[i]) by {
        if i < a.len() {
            assert(first[i] == a[i]);
        } else if i < a.len() + 2 {
            assert(first[i] == store[i - a.len()]);
        } else {
            assert(first[i] == b[i - a.len() - 2]);
        }
    }
    assert forall|i: int| 0 <= i < last.len() implies is_space(#[trigger] last[i])
        || is_ascii_digit(last[i]) by {
        if i < c.len() {
            assert(last[i] == c[i]);
        } else if i < c.len() + id.len() {
            assert(last[i] == id[i - c.len()]);
        } else {
            assert(last[i] == d[i - c.len() - id.len()]);
        }
    }
    let path = first + between + last;
    let rest = path + tail;
    assert(rest =~= first + between + last + tail);
    let (f, g) = (first.len() as int, (first.len() + between.len()) as int);
    assert forall|i: int| 0 <= i < path.len() implies !occurs_at(rest, mark, i) by {
        if occurs_at(rest, mark, i) {
            let w = rest.subrange(i, i + 16);
            assert forall|k: int| 0 <= k < 16 implies rest[i + k] == #[trigger] mark[k] by {
                assert(w[k] == rest[i + k]);
            }
            if i < f {
                if i + 5 < f {
                    assert(rest[i + 5] == first[i + 5]);
                    assert(mark[5] == '.');
                } else {
                    assert(rest[f] == between[0]);
                    assert(mark[f - i] == '/');
                }
            } else if i >= g {
                assert(rest[i] == last[i - g]);
                assert(mark[0] == 'm');
            } else if i + 16 <= g {
                assert(between.subrange(i - f, i - f + 16) =~= w);
                assert(occurs_at(between, mark, i - f));
            } else {
                assert(rest[g - 1] == between.last());
                assert(mark[g - 1 - i] == '/');
            }
        }
    }
    lemma_find(rest, mark, 0);
    lemma_after_mark(front, mark, rest);
    let piece = match find_from(rest, mark, 0) {
        Some(again) => rest.take(again),
        None => rest,
    };
    let kept = piece.skip(path.len() as int);
    assert(piece =~= path + kept);
    assert(kept.len() > 0 ==> kept[0] == tail[0]);
    assert forall|i: int| 0 <= i < path.len() implies !Delimiter::Char('?').has(
        #[trigger] path[i],
    ) by {
        if i < f {
            assert(path[i] == first[i]);
        } else if i < g {
            assert(path[i] == between[i - f]);
        } else {
            assert(path[i] == last[i - g]);
        }
    }
    lemma_before(path, kept, Delimiter::Char('?'));
    lemma_end_pieces(path, '/');
    let segments = pieces(path, Delimiter::Char('/'));
    let (x, y) = (segments.first(), segments.last());
    assert(path[f] == '/' && path[g - 1] == '/');
    assert(x =~= first) by {
        assert(x == path.subrange(0, x.len() as int));
        if x.len() < f {
            assert(path[x.len() as int] == first[x.len() as int]);
        } else if x.len() > f {
            assert(x[f] == path[f]);
        }
    }
    assert(y =~= last) by {
        let n = path.len() as int;
        assert(y == path.subrange(n - y.len(), n));
        if y.len() < last.len() {
            assert(path[n - y.len() - 1] == last[last.len() - y.len() - 1]);
        } else if y.len() > last.len() {
            assert(y[y.len() - last.len() - 1] == path[g - 1]);
        }
    }
    law_trim(a, store, b);
    law_trim(c, id, d);
    assert(front + mark + rest =~= front + mark + (first + between + last + tail));
}

/// What is named as an album is there: behind the host two letters are the first segment of the
/// path and digits are the last, with nothing but white space around them, and the path ends with
/// the URL, with a query, or where the host is named again.
pub proof fn law_album_is_named(url: Seq<char>)
    ensures
        album_of(url) matches Some((store, id)) ==> {
            &&& store.len() == 2
            &&& forall|i: int|
                0 <= i < 2 ==> 'a' <= #[trigger] store[i] <= 'z' || 'A' <= store[i] <= 'Z'
            &&& id.len() > 0
            &&& forall|i: int| 0 <= i < id.len() ==> '0' <= #[trigger] id[i] <= '9'
            &&& exists|front: Seq<char>, first: Seq<char>, last: Seq<char>, path: Seq<char>, tail:
                Seq<char>|
                {
                    &&& url == #[trigger] (front + "music.apple.com/"@ + path + tail)
                    &&& !contains(front, "music.apple.com/"@)
                    &&& forall|i: int| 0 <= i < path.len() ==> #[trigger] path[i] != '?'
                    &&& tail.len() == 0 || tail[0] == '?' || "music.apple.com/"@.is_prefix_of(tail)
                    &&& #[trigger] first.is_prefix_of(path) && is_padded(first, store)
                    &&& first.len() < path.len() && path[first.len() as int] == '/'
                    &&& #[trigger] last.is_suffix_of(path) && is_padded(last, id)
                    &&& last.len() < path.len() && path[path.len() - last.len() - 1] == '/'
                }
        },
{
    reveal_strlit("music.apple.com/");
    let mark = "music.apple.com/"@;
    if let Some((store, id)) = album_of(url) {
        lemma_find(url, mark, 0);
        let at = find_from(url, mark, 0).unwrap();
        let front = url.take(at);
        let rest = url.skip(at + 16);
        assert(!contains(front, mark)) by {
            if contains(front, mark) {
                let i = choose|i: int| occurs_at(front, mark, i);
                assert(url.subrange(i, i + 16) =~= front.subrange(i, i + 16));
                assert(occurs_at(url, mark, i));
            }
        }
        lemma_find(rest, mark, 0);
        let piece = after_mark(url, mark).unwrap();
        lemma_cut(piece, Delimiter::Char('?'), 0);
        let path = before(piece, Delimiter::Char('?'));
        let tail = rest.skip(path.len() as int);
        assert(url.subrange(at, at + 16) =~= mark);
        assert(url =~= front + mark + path + tail);
        assert forall|i: int| 0 <= i < path.len() implies #[trigger] path[i] != '?' by {
            assert(!Delimiter::Char('?').has(piece[i]));
        }
        if path.len() < piece.len() {
            assert(tail[0] == piece[path.len() as int]);
        } else if let Some(again) = find_from(rest, mark, 0) {
            assert(rest.subrange(again, again + 16) =~= tail.subrange(0, 16));
        }
        lemma_end_pieces(path, '/');
        let segments = pieces(path, Delimiter::Char('/'));
        let (first, last) = (segments.first(), segments.last());
        law_trim_parts(first);
        law_trim_parts(last);
        if first.len() == path.len() {
            assert(first =~= path);
            if last.len() < path.len() {
                assert(first[path.len() - last.len() - 1] == '/');
            }
            assert(last =~= path);
            assert(is_ascii_letter(store[0]) && is_ascii_digit(id[0]));
        } else {
            if last.len() == path.len() {
                assert(last =~= path);
                assert(last[first.len() as int] == '/');
            }
        }
        assert(first.is_prefix_of(path) && last.is_suffix_of(path));
        assert(is_padded(first, store) && is_padded(last, id));
    }
}

} // verus!
