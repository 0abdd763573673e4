//! What the web player's pages give away: its script bundles, and the token inside them.

use vstd::prelude::*;

use crate::chars::is_space;
use crate::text::{
    chars, contains, cut, cut_from, ends_with, find, find_from, has, is_token_char, lemma_cut,
    lemma_cut_is, lemma_find, lemma_find_is, occurs_at, pieces, same, slices, split, string,
    strings, Delimiter,
};

verus! {

/// Of each piece between delimiters that holds `mark`, the part from its first `mark` on.
pub open spec fn marked(s: Seq<char>, d: Delimiter, mark: Seq<char>) -> Seq<Seq<char>>
    decreases s.len(),
{
    let end = cut_from(s, d, 0);
    proof {
        lemma_cut(s, d, 0);
    }
    let piece = s.take(end);
    let first = match find_from(piece, mark, 0) {
        Some(at) => seq![piece.skip(at)],
        None => seq![],
    };
    if end >= s.len() {
        first
    } else {
        first + marked(s.skip(end + 1), d, mark)
    }
}

/// The path of a script that is likely to carry the token.
pub open spec fn is_bundle(path: Seq<char>) -> bool {
    ".js"@.is_suffix_of(path) && (contains(path, "index"@) || contains(path, "web-client"@)
        || contains(path, "apple-music"@))
}

/// The bundles among some paths, each where it comes first.
pub open spec fn bundles(paths: Seq<Seq<char>>) -> Seq<Seq<char>>
    decreases paths.len(),
{
    if paths.len() == 0 {
        seq![]
    } else {
        let known = bundles(paths.drop_last());
        if is_bundle(paths.last()) && !known.contains(paths.last()) {
            known.push(paths.last())
        } else {
            known
        }
    }
}

/// The asset paths in a page: from `/assets/` up to the closing quote or white space.
pub open spec fn asset_paths(html: Seq<char>) -> Seq<Seq<char>> {
    marked(html, Delimiter::QuoteOrSpace, "/assets/"@)
}

/// A text shaped like a JSON Web Token: header, payload and signature, plausibly long.
pub open spec fn is_jwt(t: Seq<char>) -> bool {
    pieces(t, Delimiter::Char('.')).len() == 3 && t.len() > 80
}

/// The runs of token characters in a script, each from its first `eyJ` on.
pub open spec fn token_runs(js: Seq<char>) -> Seq<Seq<char>> {
    marked(js, Delimiter::NotToken, "eyJ"@)
}

/// The first text that is shaped like a token.
pub open spec fn first_jwt(runs: Seq<Seq<char>>) -> Option<Seq<char>>
    decreases runs.len(),
{
    if runs.len() == 0 {
        None
    } else if is_jwt(runs[0]) {
        Some(runs[0])
    } else {
        first_jwt(runs.drop_first())
    }
}

/// Of each piece between delimiters that holds `mark`, the part from its first `mark` on.
fn scan<'a>(s: &'a [char], d: Delimiter, mark: &[char]) -> (out: Vec<&'a [char]>)
    ensures
        slices(out@) == marked(s@, d, mark@),
{
    let mut out: Vec<&'a [char]> = Vec::new();
    let mut rest: &'a [char] = s;
    assert(slices(out@) + marked(rest@, d, mark@) =~= marked(s@, d, mark@));
    loop
        invariant
            slices(out@) + marked(rest@, d, mark@) == marked(s@, d, mark@),
        decreases rest@.len(),
    {
        let end: usize = cut(rest, d, 0);
        let ghost acc = slices(out@);
        let piece: &'a [char] = &rest[0..end];
        assert(piece@ =~= rest@.take(end as int));
        if let Some(at) = find(piece, mark) {
            let part: &'a [char] = &piece[at..piece.len()];
            out.push(part);
            assert(part@ =~= piece@.skip(at as int));
            assert(slices(out@) =~= acc.push(part@));
        }
        if end == rest.len() {
            assert(slices(out@) =~= acc + marked(rest@, d, mark@));
            return out;
        }
        let next: &'a [char] = &rest[end + 1..rest.len()];
        proof {
            assert(next@ =~= rest@.skip(end + 1));
            assert(slices(out@) + marked(next@, d, mark@) =~= acc + marked(rest@, d, mark@));
        }
        rest = next;
    }
}

/// Scan the album-page HTML for `/assets/*.js` bundle paths likely to carry the token (index /
/// web-client / apple-music), de-duplicated in order.
pub fn find_js_bundles(html: &str) -> (out: Vec<String>)
    ensures
        strings(out@) == bundles(asset_paths(html@)),
{
    let page: Vec<char> = chars(html);
    let index: Vec<char> = chars("index");
    let client: Vec<char> = chars("web-client");
    let music: Vec<char> = chars("apple-music");
    let paths: Vec<&[char]> = scan(&page, Delimiter::QuoteOrSpace, &chars("/assets/"));
    let ghost all = slices(paths@);
    let mut out: Vec<String> = Vec::new();
    for i in 0..paths.len()
        invariant
            all == slices(paths@),
            index@ == "index"@,
            client@ == "web-client"@,
            music@ == "apple-music"@,
            strings(out@) == bundles(all.take(i as int)),
    {
        let path: &[char] = paths[i];
        let ghost known = strings(out@);
        assert(all.take(i + 1).drop_last() =~= all.take(i as int));
        assert(all.take(i + 1).last() == path@);
        if ends_with(path, ".js") && (has(path, &index) || has(path, &client) || has(path, &music)) {
            let mut fresh: bool = true;
            for k in 0..out.len()
                invariant
                    known == strings(out@),
                    fresh == !known.take(k as int).contains(path@),
            {
                assert(known.take(k + 1) =~= known.take(k as int).push(out@[k as int]@));
                if same(&chars(out[k].as_str()), path) {
                    assert(known.take(k + 1)[k as int] == path@);
                    fresh = false;
                }
                proof {
                    let (seen, more) = (known.take(k as int), known.take(k + 1));
                    assert forall|x: int| 0 <= x < seen.len() implies #[trigger] seen[x] == more[x] by {}
                    if seen.contains(path@) {
                        let x = choose|x: int| 0 <= x < seen.len() && seen[x] == path@;
                        assert(more[x] == path@);
                    }
                }
            }
            assert(known.take(known.len() as int) =~= known);
            if fresh {
                out.push(string(path));
                assert(strings(out@) =~= known.push(path@));
            }
        }
    }
    assert(all.take(all.len() as int) =~= all);
    out
}

/// Find the first JWT-shaped token (`eyJ…` header, three base64url segments) in a JS bundle.
pub fn find_jwt(js: &str) -> (out: Option<String>)
    ensures
        match out {
            Some(t) => first_jwt(token_runs(js@)) == Some(t@),
            None => first_jwt(token_runs(js@)) is None,
        },
{
    let script: Vec<char> = chars(js);
    let runs: Vec<&[char]> = scan(&script, Delimiter::NotToken, &chars("eyJ"));
    let ghost all = slices(runs@);
    assert(all.skip(0) =~= all);
    for i in 0..runs.len()
        invariant
            all == slices(runs@),
            all == token_runs(js@),
            first_jwt(all) == first_jwt(all.skip(i as int)),
    {
        let run: &[char] = runs[i];
        assert(all.skip(i as int)[0] == run@);
        assert(all.skip(i as int).drop_first() =~= all.skip(i + 1));
        let segments: Vec<&[char]> = split(run, Delimiter::Char('.'));
        assert(slices(segments@).len() == segments@.len());
        if segments.len() == 3 && run.len() > 80 {
            return Some(string(run));
        }
    }
    None
}

/// Each marked part begins with the mark, holds no delimiter, and stands in the text.
pub proof fn law_marked(s: Seq<char>, d: Delimiter, mark: Seq<char>, i: int)
    requires
        0 <= i < marked(s, d, mark).len(),
    ensures
        mark.is_prefix_of(marked(s, d, mark)[i]),
        forall|k: int|
            0 <= k < marked(s, d, mark)[i].len() ==> !d.has(#[trigger] marked(s, d, mark)[i][k]),
        contains(s, marked(s, d, mark)[i]),
    decreases s.len(),
{
    let end = cut_from(s, d, 0);
    lemma_cut(s, d, 0);
    let piece = s.take(end);
    lemma_find(piece, mark, 0);
    let part = marked(s, d, mark)[i];
    let rest = s.skip(end + 1);
    match find_from(piece, mark, 0) {
        Some(at) if i == 0 => {
            assert(part == piece.skip(at));
            assert(mark =~= part.subrange(0, mark.len() as int));
            assert(s.subrange(at, at + part.len()) =~= part);
            assert(occurs_at(s, part, at));
        },
        _ => {
            let shift: int = if find_from(piece, mark, 0) is Some {
                1
            } else {
                0
            };
            assert(part == marked(rest, d, mark)[i - shift]);
            law_marked(rest, d, mark, i - shift);
            let at = choose|at: int| occurs_at(rest, part, at);
            assert(s.subrange(end + 1 + at, end + 1 + at + part.len()) =~= part);
            assert(occurs_at(s, part, end + 1 + at));
        },
    }
}

/// Every bundle among the paths is listed, nothing else is, and nothing is listed twice.
pub proof fn law_bundles(paths: Seq<Seq<char>>)
    ensures
        forall|p: Seq<char>| #[trigger]
            bundles(paths).contains(p) <==> paths.contains(p) && is_bundle(p),
        bundles(paths).no_duplicates(),
    decreases paths.len(),
{
    if paths.len() > 0 {
        let init = paths.drop_last();
        let last = paths.last();
        law_bundles(init);
        let known = bundles(init);
        let out = bundles(paths);
        assert forall|p: Seq<char>| #[trigger] out.contains(p) <==> paths.contains(p) && is_bundle(p) by {
            if out.contains(p) {
                let i = choose|i: int| 0 <= i < out.len() && out[i] == p;
                if i < known.len() {
                    assert(known.contains(p));
                    let j = choose|j: int| 0 <= j < init.len() && init[j] == p;
                    assert(paths[j] == p);
                }
            }
            if paths.contains(p) && is_bundle(p) {
                let j = choose|j: int| 0 <= j < paths.len() && paths[j] == p;
                if j < init.len() {
                    assert(init[j] == p);
                    assert(known.contains(p));
                    let i = choose|i: int| 0 <= i < known.len() && known[i] == p;
                    assert(out[i] == p);
                } else if known.contains(p) {
                    let i = choose|i: int| 0 <= i < known.len() && known[i] == p;
                    assert(out[i] == p);
                } else {
                    assert(out[known.len() as int] == p);
                }
            }
        }
    }
}

/// A token that is found begins with `eyJ`, has three segments and more than 80 characters, all
/// of them of base64url, and stands in the script. Where none is found, no run of token
/// characters is shaped like one.
pub proof fn law_token(js: Seq<char>)
    ensures
        match first_jwt(token_runs(js)) {
            Some(t) => {
                &&& "eyJ"@.is_prefix_of(t)
                &&& is_jwt(t)
                &&& forall|k: int| 0 <= k < t.len() ==> is_token_char(#[trigger] t[k])
                &&& contains(js, t)
            },
            None => forall|i: int| 0 <= i < token_runs(js).len() ==> !is_jwt(#[trigger] token_runs(js)[i]),
        },
{
    let runs = token_runs(js);
    lemma_first_jwt(runs);
    if let Some(t) = first_jwt(runs) {
        let i = choose|i: int| 0 <= i < runs.len() && runs[i] == t;
        law_marked(js, Delimiter::NotToken, "eyJ"@, i);
        assert forall|k: int| 0 <= k < t.len() implies is_token_char(#[trigger] t[k]) by {
            assert(!Delimiter::NotToken.has(runs[i][k]));
        }
    }
}

/// `first_jwt` is what it says: one of the runs, and none only where none is shaped right.
proof fn lemma_first_jwt(runs: Seq<Seq<char>>)
    ensures
        match first_jwt(runs) {
            Some(t) => is_jwt(t) && exists|i: int| 0 <= i < runs.len() && #[trigger] runs[i] == t,
            None => forall|i: int| 0 <= i < runs.len() ==> !is_jwt(#[trigger] runs[i]),
        },
    decreases runs.len(),
{
    if runs.len() > 0 && !is_jwt(runs[0]) {
        let rest = runs.drop_first();
        lemma_first_jwt(rest);
        match first_jwt(runs) {
            Some(t) => {
                let i = choose|i: int| 0 <= i < rest.len() && #[trigger] rest[i] == t;
                assert(runs[i + 1] == t);
            },
            None => {
                assert forall|i: int| 0 <= i < runs.len() implies !is_jwt(#[trigger] runs[i]) by {
                    if i > 0 {
                        assert(runs[i] == rest[i - 1]);
                    }
                }
            },
        }
    }
}

/// A delimiter parts the marked pieces before it from those behind it.
proof fn lemma_marked_part(a: Seq<char>, c: char, b: Seq<char>, d: Delimiter, mark: Seq<char>)
    requires
        d.has(c),
    ensures
        marked(a.push(c) + b, d, mark) == marked(a, d, mark) + marked(b, d, mark),
    decreases a.len(),
{
    let s = a.push(c) + b;
    let end = cut_from(a, d, 0);
    lemma_cut(a, d, 0);
    assert forall|i: int| 0 <= i < end implies !d.has(#[trigger] s[i]) by {
        assert(s[i] == a[i]);
    }
    lemma_cut_is(s, d, 0, end);
    assert(s.take(end) =~= a.take(end));
    if end == a.len() {
        assert(s.skip(end + 1) =~= b);
    } else {
        let rest = a.skip(end + 1);
        assert(s.skip(end + 1) =~= rest.push(c) + b);
        lemma_marked_part(rest, c, b, d, mark);
    }
    assert(marked(s, d, mark) =~= marked(a, d, mark) + marked(b, d, mark));
}

/// Of a text without delimiters the part from its first mark on is marked, if it has one.
proof fn lemma_marked_one(s: Seq<char>, d: Delimiter, mark: Seq<char>)
    requires
        forall|i: int| 0 <= i < s.len() ==> !d.has(#[trigger] s[i]),
    ensures
        marked(s, d, mark) == match find_from(s, mark, 0) {
            Some(at) => seq![s.skip(at)],
            None => seq![],
        },
{
    lemma_cut_is(s, d, 0, s.len() as int);
    assert(s.take(s.len() as int) =~= s);
}

/// The first of two lists of runs comes first.
proof fn lemma_first_jwt_add(a: Seq<Seq<char>>, b: Seq<Seq<char>>)
    ensures
        first_jwt(a + b) == match first_jwt(a) {
            Some(t) => Some(t),
            None => first_jwt(b),
        },
    decreases a.len(),
{
    if a.len() == 0 {
        assert(a + b =~= b);
    } else {
        assert((a + b)[0] == a[0]);
        assert((a + b).drop_first() =~= a.drop_first() + b);
        lemma_first_jwt_add(a.drop_first(), b);
    }
}

/// A text with exactly two dots.
pub open spec fn has_two_dots(t: Seq<char>) -> bool {
    exists|i: int, j: int|
        {
            &&& 0 <= i < j < t.len()
            &&& #[trigger] t[i] == '.' && #[trigger] t[j] == '.'
            &&& forall|k: int| 0 <= k < t.len() && k != i && k != j ==> #[trigger] t[k] != '.'
        }
}

/// The first dot of a text parts its first segment from the others.
proof fn lemma_first_segment(t: Seq<char>) -> (x: int)
    ensures
        0 <= x <= t.len(),
        forall|k: int| 0 <= k < x ==> #[trigger] t[k] != '.',
        x == t.len() ==> pieces(t, Delimiter::Char('.')).len() == 1,
        x < t.len() ==> t[x] == '.' && pieces(t, Delimiter::Char('.')).len() == 1 + pieces(
            t.skip(x + 1),
            Delimiter::Char('.'),
        ).len(),
{
    let d = Delimiter::Char('.');
    let x = cut_from(t, d, 0);
    lemma_cut(t, d, 0);
    assert forall|k: int| 0 <= k < x implies #[trigger] t[k] != '.' by {
        assert(!d.has(t[k]));
    }
    x
}

/// The dots of a text and its segments: two dots make three.
proof fn lemma_segments(t: Seq<char>)
    ensures
        pieces(t, Delimiter::Char('.')).len() == 3 <==> has_two_dots(t),
{
    let x = lemma_first_segment(t);
    if x < t.len() {
        let r = t.skip(x + 1);
        let y = lemma_first_segment(r);
        let j = x + 1 + y;
        assert forall|k: int| x < k < j implies #[trigger] t[k] != '.' by {
            assert(r[k - x - 1] != '.');
        }
        if y < r.len() {
            let q = r.skip(y + 1);
            let z = lemma_first_segment(q);
            assert(t[j] == r[y]);
            if z < q.len() {
                let w = lemma_first_segment(q.skip(z + 1));
                let l = j + 1 + z;
                assert(t[l] == q[z]);
                assert(!has_two_dots(t)) by {
                    assert(t[x] == '.' && t[j] == '.' && t[l] == '.' && x < j < l);
                }
            } else {
                assert forall|k: int| 0 <= k < t.len() && k != x && k != j implies #[trigger] t[k]
                    != '.' by {
                    if k > j {
                        assert(q[k - j - 1] != '.');
                    }
                }
                assert(t[x] == '.' && t[j] == '.');
                assert(has_two_dots(t));
            }
        } else {
            assert(!has_two_dots(t));
        }
    } else {
        assert(!has_two_dots(t));
    }
}

/// A text is shaped like a token exactly where it has two dots and more than 80 characters.
pub proof fn law_token_shape(t: Seq<char>)
    ensures
        is_jwt(t) <==> has_two_dots(t) && t.len() > 80,
{
    lemma_segments(t);
}

/// The token of a script. A maximal run of letters, digits, `-`, `_` and `.` holds a token where
/// what begins with its first `eyJ` has two dots and more than 80 characters, and holds none
/// otherwise. The token of the script is that of the first run that holds one.
pub proof fn law_first_token(front: Seq<char>, run: Seq<char>, back: Seq<char>)
    requires
        forall|i: int|
            #![trigger run[i]]
            0 <= i < run.len() ==> 'a' <= run[i] <= 'z' || 'A' <= run[i] <= 'Z' || '0' <= run[i]
                <= '9' || run[i] == '-' || run[i] == '_' || run[i] == '.',
        front.len() > 0 ==> {
            let c = front.last();
            !('a' <= c <= 'z' || 'A' <= c <= 'Z' || '0' <= c <= '9' || c == '-' || c == '_' || c
                == '.')
        },
        back.len() > 0 ==> {
            let c = back[0];
            !('a' <= c <= 'z' || 'A' <= c <= 'Z' || '0' <= c <= '9' || c == '-' || c == '_' || c
                == '.')
        },
    ensures
        ({
            let found = |js: Seq<char>| first_jwt(token_runs(js));
            let all = found(front + run + back);
            &&& found(front) is Some ==> all == found(front)
            &&& found(front) is None && found(run) is Some ==> all == found(run)
            &&& found(front) is None && found(run) is None ==> all == found(back)
            &&& forall|k: int|
                #![trigger run.skip(k)]
                0 <= k <= run.len() - 3 && run.subrange(k, k + 3) == "eyJ"@ && (forall|i: int|
                    0 <= i < k ==> #[trigger] run.subrange(i, i + 3) != "eyJ"@) ==> found(run) == (
                if has_two_dots(run.skip(k)) && run.len() - k > 80 {
                    Some(run.skip(k))
                } else {
                    None
                })
            &&& (forall|i: int|
                0 <= i <= run.len() - 3 ==> #[trigger] run.subrange(i, i + 3) != "eyJ"@)
                ==> found(run) is None
        }),
{
    reveal_strlit("eyJ");
    let d = Delimiter::NotToken;
    let mark = "eyJ"@;
    let none = Seq::<char>::empty();
    assert(marked(none, d, mark) =~= seq![]) by {
        lemma_marked_one(none, d, mark);
        assert(find_from(none, mark, 0) is None);
    }
    // The runs of the whole text.
    let tail = run + back;
    if back.len() > 0 {
        let rest = back.drop_first();
        lemma_marked_part(run, back[0], rest, d, mark);
        lemma_marked_part(none, back[0], rest, d, mark);
        assert(run.push(back[0]) + rest =~= tail);
        assert(none.push(back[0]) + rest =~= back);
        assert(marked(tail, d, mark) =~= marked(run, d, mark) + marked(back, d, mark));
    } else {
        assert(tail =~= run);
        assert(back =~= none);
        assert(marked(tail, d, mark) =~= marked(run, d, mark) + marked(back, d, mark));
    }
    if front.len() > 0 {
        let init = front.drop_last();
        lemma_marked_part(init, front.last(), tail, d, mark);
        lemma_marked_part(init, front.last(), none, d, mark);
        assert(init.push(front.last()) + tail =~= front + run + back);
        assert(init.push(front.last()) + none =~= front);
    } else {
        assert(front =~= none);
        assert(front + run + back =~= tail);
    }
    assert(marked(front + run + back, d, mark) =~= marked(front, d, mark) + (marked(run, d, mark)
        + marked(back, d, mark)));
    lemma_first_jwt_add(token_runs(front), token_runs(run) + token_runs(back));
    lemma_first_jwt_add(token_runs(run), token_runs(back));
    // The one run.
    assert forall|i: int| 0 <= i < run.len() implies !d.has(#[trigger] run[i]) by {}
    lemma_marked_one(run, d, mark);
    lemma_find(run, mark, 0);
    let found = first_jwt(token_runs(run));
    assert forall|k: int|
        #![trigger run.skip(k)]
        0 <= k <= run.len() - 3 && run.subrange(k, k + 3) == mark && (forall|i: int|
            0 <= i < k ==> #[trigger] run.subrange(i, i + 3) != mark) implies found == (
    if has_two_dots(run.skip(k)) && run.len() - k > 80 {
        Some(run.skip(k))
    } else {
        None
    }) by {
        assert forall|i: int| 0 <= i < k implies !occurs_at(run, mark, i) by {
            assert(run.subrange(i, i + 3) != mark);
        }
        assert(occurs_at(run, mark, k));
        lemma_find_is(run, mark, k);
        lemma_segments(run.skip(k));
        lemma_single(run.skip(k));
        assert(token_runs(run) == seq![run.skip(k)]);
    }
    if forall|i: int| 0 <= i <= run.len() - 3 ==> #[trigger] run.subrange(i, i + 3) != mark {
        if let Some(k) = find_from(run, mark, 0) {
            assert(run.subrange(k, k + 3) == mark);
        }
    }
}

/// The first of one run.
proof fn lemma_single(t: Seq<char>)
    ensures
        first_jwt(seq![t]) == (if is_jwt(t) {
            Some(t)
        } else {
            None
        }),
{
    assert(seq![t].drop_first() =~= seq![]);
    assert(first_jwt(seq![t].drop_first()) is None);
}

/// The asset paths of a page. Quotation marks and white space part a page, and of each part that
/// holds `/assets/` what begins with the first one is a path; the paths come in the order of the
/// parts.
pub proof fn law_asset_paths(front: Seq<char>, c: char, back: Seq<char>, part: Seq<char>)
    requires
        c == '"' || c == '\'' || is_space(c),
        forall|i: int|
            0 <= i < part.len() ==> #[trigger] part[i] != '"' && part[i] != '\'' && !is_space(
                part[i],
            ),
    ensures
        asset_paths(front.push(c) + back) == asset_paths(front) + asset_paths(back),
        forall|k: int|
            #![trigger part.skip(k)]
            0 <= k <= part.len() - 8 && part.subrange(k, k + 8) == "/assets/"@ && (forall|i: int|
                0 <= i < k ==> #[trigger] part.subrange(i, i + 8) != "/assets/"@) ==> asset_paths(
                part,
            ) == seq![part.skip(k)],
        (forall|i: int|
            0 <= i <= part.len() - 8 ==> #[trigger] part.subrange(i, i + 8) != "/assets/"@)
            ==> asset_paths(part).len() == 0,
{
    reveal_strlit("/assets/");
    let d = Delimiter::QuoteOrSpace;
    let mark = "/assets/"@;
    lemma_marked_part(front, c, back, d, mark);
    assert forall|i: int| 0 <= i < part.len() implies !d.has(#[trigger] part[i]) by {}
    lemma_marked_one(part, d, mark);
    lemma_find(part, mark, 0);
    assert forall|k: int|
        #![trigger part.skip(k)]
        0 <= k <= part.len() - 8 && part.subrange(k, k + 8) == mark && (forall|i: int|
            0 <= i < k ==> #[trigger] part.subrange(i, i + 8) != mark) implies asset_paths(part)
        == seq![part.skip(k)] by {
        assert forall|i: int| 0 <= i < k implies !occurs_at(part, mark, i) by {
            assert(part.subrange(i, i + 8) != mark);
        }
        assert(occurs_at(part, mark, k));
        lemma_find_is(part, mark, k);
    }
    if forall|i: int| 0 <= i <= part.len() - 8 ==> #[trigger] part.subrange(i, i + 8) != mark {
        if let Some(k) = find_from(part, mark, 0) {
            assert(part.subrange(k, k + 8) == mark);
        }
    }
}

/// A text that stands in another.
pub open spec fn stands_in(pat: Seq<char>, s: Seq<char>) -> bool {
    exists|i: int| 0 <= i <= s.len() - pat.len() && #[trigger] s.subrange(i, i + pat.len()) == pat
}

/// The bundles of a page are those of its asset paths that end in `.js` and name the index, the web
/// client or Apple Music: each one once, in the order in which they first come.
pub proof fn law_bundle_order(paths: Seq<Seq<char>>)
    ensures
        exists|order: Seq<int>|
            {
                &&& #[trigger] order.len() == bundles(paths).len()
                &&& forall|k: int|
                    #![trigger order[k]]
                    0 <= k < order.len() ==> {
                        &&& 0 <= order[k] < paths.len()
                        &&& paths[order[k]] == bundles(paths)[k]
                        &&& !paths.take(order[k]).contains(paths[order[k]])
                        &&& k > 0 ==> order[k - 1] < order[k]
                    }
            },
        forall|p: Seq<char>| #[trigger]
            bundles(paths).contains(p) <==> paths.contains(p) && ".js"@.is_suffix_of(p) && (
            stands_in("index"@, p) || stands_in("web-client"@, p) || stands_in(
                "apple-music"@,
                p,
            )),
{
    law_bundles(paths);
    assert forall|p: Seq<char>, w: Seq<char>| contains(p, w) == #[trigger] stands_in(w, p) by {
        if contains(p, w) {
            let i = choose|i: int| occurs_at(p, w, i);
            assert(p.subrange(i, i + w.len()) == w);
        }
        if stands_in(w, p) {
            let i = choose|i: int|
                0 <= i <= p.len() - w.len() && #[trigger] p.subrange(i, i + w.len()) == w;
            assert(occurs_at(p, w, i));
        }
    }
    let order = lemma_bundle_order(paths);
    assert(order.len() == bundles(paths).len());
}

/// Where the bundles first come.
proof fn lemma_bundle_order(paths: Seq<Seq<char>>) -> (order: Seq<int>)
    ensures
        order.len() == bundles(paths).len(),
        forall|k: int|
            #![trigger order[k]]
            0 <= k < order.len() ==> {
                &&& 0 <= order[k] < paths.len()
                &&& paths[order[k]] == bundles(paths)[k]
                &&& !paths.take(order[k]).contains(paths[order[k]])
                &&& k > 0 ==> order[k - 1] < order[k]
            },
    decreases paths.len(),
{
    if paths.len() == 0 {
        seq![]
    } else {
        let init = paths.drop_last();
        let n = init.len() as int;
        let known = bundles(init);
        let before = lemma_bundle_order(init);
        let last = paths.last();
        let order = if is_bundle(last) && !known.contains(last) {
            before.push(n)
        } else {
            before
        };
        law_bundles(init);
        assert forall|k: int| #![trigger order[k]] 0 <= k < order.len() implies {
            &&& 0 <= order[k] < paths.len()
            &&& paths[order[k]] == bundles(paths)[k]
            &&& !paths.take(order[k]).contains(paths[order[k]])
            &&& k > 0 ==> order[k - 1] < order[k]
        } by {
            if k < before.len() {
                assert(order[k] == before[k]);
                assert(paths.take(order[k]) =~= init.take(order[k]));
                if k > 0 {
                    assert(order[k - 1] == before[k - 1]);
                }
            } else {
                assert(paths.take(n) =~= init);
                assert(!init.contains(last)) by {
                    if init.contains(last) {
                        assert(known.contains(last));
                    }
                }
                if k > 0 {
                    assert(order[k - 1] == before[k - 1]);
                }
            }
        }
        order
    }
}

} // verus!
