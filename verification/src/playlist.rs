//! HLS master playlists: which rendition of a motion cover to play.

use vstd::prelude::*;

use crate::chars::{ascii_digit, is_ascii_digit, is_space};
use crate::text::{
    after_mark, before, chars, contains, cut, cut_from, ends_with, find, find_from, has, head,
    law_pieces, law_trim, lemma_after_mark, lemma_before, lemma_cut, lemma_cut_is, lemma_find,
    lemma_mark_first, occurs_at, past, pieces, slices, split, starts_with, string, trim, trimmed,
    Delimiter,
};
use crate::url::{resolve_url, resolved};

verus! {

/// The number that some digits write.
pub open spec fn decimal_value(digits: Seq<char>) -> nat
    decreases digits.len(),
{
    if digits.len() == 0 {
        0
    } else {
        decimal_value(digits.drop_last()) * 10 + (digits.last() as int - '0' as int) as nat
    }
}

/// The digits of a number: what follows the plus sign that may stand before it.
pub open spec fn unsigned(s: Seq<char>) -> Seq<char> {
    if s.len() > 0 && s[0] == '+' {
        s.skip(1)
    } else {
        s
    }
}

/// One or more digits.
pub open spec fn is_decimal(s: Seq<char>) -> bool {
    s.len() > 0 && forall|i: int| 0 <= i < s.len() ==> is_ascii_digit(#[trigger] s[i])
}

/// The number that a text writes, if it writes one that fits.
pub open spec fn number_of(s: Seq<char>) -> Option<u64> {
    let digits = unsigned(s);
    if is_decimal(digits) && decimal_value(digits) <= u64::MAX {
        Some(decimal_value(digits) as u64)
    } else {
        None
    }
}

/// A pixel count, or the largest number where it does not fit.
pub open spec fn area(w: u64, h: u64) -> u64 {
    if w * h <= u64::MAX {
        (w * h) as u64
    } else {
        u64::MAX
    }
}

/// The pixel count of a `RESOLUTION=<width>x<height>` attribute.
pub open spec fn pixels_of(line: Seq<char>) -> Option<u64> {
    match after_mark(line, "RESOLUTION="@) {
        None => None,
        Some(rest) => {
            let dims = before(rest, Delimiter::CommaOrSpace);
            let x = cut_from(dims, Delimiter::Char('x'), 0);
            if x >= dims.len() {
                None
            } else {
                match (number_of(trim(dims.take(x))), number_of(trim(dims.skip(x + 1)))) {
                    (Some(w), Some(h)) => Some(area(w, h)),
                    _ => None,
                }
            }
        },
    }
}

/// More digits make no smaller number.
proof fn lemma_decimal_grows(digits: Seq<char>, i: int)
    requires
        0 <= i <= digits.len(),
    ensures
        decimal_value(digits.take(i)) <= decimal_value(digits),
    decreases digits.len() - i,
{
    if i == digits.len() {
        assert(digits.take(i) =~= digits);
    } else {
        assert(digits.take(i + 1).drop_last() =~= digits.take(i));
        lemma_decimal_grows(digits, i + 1);
    }
}

/// The number that a text writes, if it writes one that fits.
fn number(s: &[char]) -> (out: Option<u64>)
    ensures
        out == number_of(s@),
{
    let start: usize = if s.len() > 0 && s[0] == '+' {
        1
    } else {
        0
    };
    let digits: &[char] = &s[start..s.len()];
    assert(digits@ =~= unsigned(s@));
    if digits.len() == 0 {
        return None;
    }
    let mut value: u64 = 0;
    for i in 0..digits.len()
        invariant
            digits@ == unsigned(s@),
            value == decimal_value(digits@.take(i as int)),
            forall|k: int| 0 <= k < i ==> is_ascii_digit(#[trigger] digits@[k]),
    {
        let c: char = digits[i];
        if !ascii_digit(c) {
            return None;
        }
        let d: u64 = (c as u32 - 48) as u64;
        proof {
            assert(digits@.take(i + 1).drop_last() =~= digits@.take(i as int));
            lemma_decimal_grows(digits@, i + 1);
        }
        value = match value.checked_mul(10) {
            Some(tens) => match tens.checked_add(d) {
                Some(sum) => sum,
                None => return None,
            },
            None => return None,
        };
    }
    assert(digits@.take(digits@.len() as int) =~= digits@);
    Some(value)
}

/// Parse `RESOLUTION=2160x2160` from an `#EXT-X-STREAM-INF` line into a pixel count for picking
/// the largest variant.
pub fn parse_resolution(line: &str) -> (out: Option<u64>)
    ensures
        out == pixels_of(line@),
{
    pixels(&chars(line))
}

/// The pixel count of a `RESOLUTION=<width>x<height>` attribute.
fn pixels(line: &[char]) -> (out: Option<u64>)
    ensures
        out == pixels_of(line@),
{
    let rest: &[char] = match past(line, "RESOLUTION=") {
        Some(t) => t,
        None => return None,
    };
    let dims: &[char] = head(rest, Delimiter::CommaOrSpace);
    let x: usize = cut(dims, Delimiter::Char('x'), 0);
    if x == dims.len() {
        return None;
    }
    let left: &[char] = &dims[0..x];
    let right: &[char] = &dims[x + 1..dims.len()];
    assert(left@ =~= dims@.take(x as int));
    assert(right@ =~= dims@.skip(x + 1));
    match (number(trimmed(left)), number(trimmed(right))) {
        (Some(w), Some(h)) => Some(
            match w.checked_mul(h) {
                Some(p) => p,
                None => u64::MAX,
            },
        ),
        _ => None,
    }
}

/// What an `#EXT-X-STREAM-INF` line's `CODECS="…"` attribute says. An attribute that is not
/// closed by a quotation mark says nothing.
pub open spec fn codecs_of(line: Seq<char>) -> Option<Seq<char>> {
    match (find_from(line, "CODECS=\""@, 0), after_mark(line, "CODECS=\""@)) {
        (Some(at), Some(piece)) => {
            let rest = line.skip(at + "CODECS=\""@.len());
            if cut_from(rest, Delimiter::Char('"'), 0) < rest.len() {
                Some(before(piece, Delimiter::Char('"')))
            } else {
                None
            }
        },
        _ => None,
    }
}

/// Whether the codecs that a line names contain `needle`.
pub open spec fn names_codec(line: Seq<char>, needle: Seq<char>) -> bool {
    match codecs_of(line) {
        Some(codecs) => contains(codecs, needle),
        None => false,
    }
}

/// True when an `#EXT-X-STREAM-INF` line's `CODECS="…"` attribute contains `needle` (e.g.
/// `"avc1"`). Missing/malformed attribute → false.
pub fn codecs_contains(stream_inf: &str, needle: &str) -> (b: bool)
    ensures
        b == names_codec(stream_inf@, needle@),
{
    codec_named(&chars(stream_inf), needle)
}

/// Whether the codecs that a line names contain `needle`.
fn codec_named(line: &[char], needle: &str) -> (b: bool)
    ensures
        b == names_codec(line@, needle@),
{
    let mark: Vec<char> = chars("CODECS=\"");
    let len: usize = line.len();
    let at: usize = match find(line, &mark) {
        Some(at) => at,
        None => return false,
    };
    let rest: &[char] = &line[at + mark.len()..len];
    assert(rest@ =~= line@.skip(at + mark@.len()));
    if cut(rest, Delimiter::Char('"'), 0) == rest.len() {
        return false;
    }
    match past(line, "CODECS=\"") {
        Some(piece) => has(head(piece, Delimiter::Char('"')), &chars(needle)),
        None => false,
    }
}

/// The progressive sibling of a variant playlist: `.m3u8` at the end of the path, which leaves
/// out the query, gives way to `-.mp4`.
pub open spec fn progressive(url: Seq<char>) -> Option<Seq<char>> {
    let path = before(url, Delimiter::Char('?'));
    if ".m3u8"@.is_suffix_of(path) {
        Some(path.take(path.len() - ".m3u8"@.len()) + "-.mp4"@)
    } else {
        None
    }
}

/// Derive the progressive mp4 sibling of an HLS variant playlist URL: `…_1080x1080.m3u8` →
/// `…_1080x1080-.mp4`. Returns `None` for a URL that isn't a `.m3u8` (nothing to swap).
pub fn derive_progressive_mp4(variant_url: &str) -> (out: Option<String>)
    ensures
        match out {
            Some(mp4) => progressive(variant_url@) == Some(mp4@),
            None => progressive(variant_url@) is None,
        },
{
    let url: Vec<char> = chars(variant_url);
    let path: &[char] = head(&url, Delimiter::Char('?'));
    if !ends_with(path, ".m3u8") {
        return None;
    }
    proof {
        reveal_strlit(".m3u8");
    }
    let stem: &[char] = &path[0..path.len() - 5];
    assert(stem@ =~= path@.take(path@.len() - 5));
    let mut out: String = string(stem);
    out.append("-.mp4");
    Some(out)
}

/// A rendition that could be played: its pixel count, and where it is.
pub open spec fn offer_of(o: Option<(u64, String)>) -> Option<(u64, Seq<char>)> {
    match o {
        Some((p, uri)) => Some((p, uri@)),
        None => None,
    }
}

/// Whether a rendition of so many pixels takes the place of the best one so far.
pub open spec fn beats(pixels: u64, current: Option<(u64, Seq<char>)>) -> bool {
    match current {
        Some((p, _)) => pixels > p,
        None => true,
    }
}

/// Whether a rendition of so many pixels takes the place of the best one so far.
pub fn better(current: &Option<(u64, String)>, pixels: u64) -> (b: bool)
    ensures
        b == beats(pixels, offer_of(*current)),
{
    match current {
        Some((p, _)) => pixels > *p,
        None => true,
    }
}

/// The largest of some renditions, and of equally large ones the first.
pub open spec fn best(offers: Seq<(u64, Seq<char>)>) -> Option<(u64, Seq<char>)>
    decreases offers.len(),
{
    if offers.len() == 0 {
        None
    } else {
        let current = best(offers.drop_last());
        if beats(offers.last().0, current) {
            Some(offers.last())
        } else {
            current
        }
    }
}

/// A blank line or a comment: a line of a playlist that is no URI.
pub open spec fn is_aside(line: Seq<char>) -> bool {
    line.len() == 0 || line[0] == '#'
}

/// The lines of a text, without the white space around them.
pub open spec fn lines_of(text: Seq<char>) -> Seq<Seq<char>> {
    pieces(text, Delimiter::Char('\n')).map_values(|line: Seq<char>| trim(line))
}

/// The variants that a playlist lists, each as its `#EXT-X-STREAM-INF` line and its URI, and
/// the line whose URI is still to come. The URI is the next line that is no aside.
pub open spec fn variants(lines: Seq<Seq<char>>) -> (
    Seq<(Seq<char>, Seq<char>)>,
    Option<Seq<char>>,
)
    decreases lines.len(),
{
    if lines.len() == 0 {
        (seq![], None)
    } else {
        let (listed, open) = variants(lines.drop_last());
        let line = lines.last();
        match open {
            Some(info) => if is_aside(line) {
                (listed, open)
            } else {
                (listed.push((info, line)), None)
            },
            None => if "#EXT-X-STREAM-INF"@.is_prefix_of(line) {
                (listed, Some(line))
            } else {
                (listed, None)
            },
        }
    }
}

/// The kinds of renditions among which one is picked.
pub enum Kind {
    /// A progressive `.mp4` that the playlist lists itself.
    Literal,
    /// The progressive sibling of an H.264 variant.
    Avc1,
    /// The progressive sibling of a variant in any codec.
    Any,
}

/// What a variant offers of a kind.
pub open spec fn offer(base: Seq<char>, v: (Seq<char>, Seq<char>), kind: Kind) -> Option<
    (u64, Seq<char>),
> {
    let uri = resolved(base, v.1);
    let size = match pixels_of(v.0) {
        Some(p) => p,
        None => 0,
    };
    if ".mp4"@.is_suffix_of(before(uri, Delimiter::Char('?'))) {
        if kind is Literal {
            Some((size, uri))
        } else {
            None
        }
    } else {
        match progressive(uri) {
            Some(mp4) => if kind is Any || (kind is Avc1 && names_codec(v.0, "avc1"@)) {
                Some((size, mp4))
            } else {
                None
            },
            None => None,
        }
    }
}

/// What the variants of a playlist offer of a kind, in order.
pub open spec fn offers(base: Seq<char>, listed: Seq<(Seq<char>, Seq<char>)>, kind: Kind) -> Seq<
    (u64, Seq<char>),
>
    decreases listed.len(),
{
    if listed.len() == 0 {
        seq![]
    } else {
        let known = offers(base, listed.drop_last(), kind);
        match offer(base, listed.last(), kind) {
            Some(o) => known.push(o),
            None => known,
        }
    }
}

/// The best rendition of a kind that a playlist offers.
pub open spec fn best_of(base: Seq<char>, text: Seq<char>, kind: Kind) -> Option<(u64, Seq<char>)> {
    best(offers(base, variants(lines_of(text)).0, kind))
}

/// The rendition to play: by default the best in H.264, then the best that is listed as an mp4,
/// then the best in any codec. Where HEVC is preferred, the best in any codec comes first.
pub open spec fn choice(base: Seq<char>, text: Seq<char>, prefer_hevc: bool) -> Option<Seq<char>> {
    let avc1 = best_of(base, text, Kind::Avc1);
    let literal = best_of(base, text, Kind::Literal);
    let any = best_of(base, text, Kind::Any);
    let pick = if prefer_hevc {
        if any is Some {
            any
        } else if avc1 is Some {
            avc1
        } else {
            literal
        }
    } else {
        if avc1 is Some {
            avc1
        } else if literal is Some {
            literal
        } else {
            any
        }
    };
    match pick {
        Some((_, uri)) => Some(uri),
        None => None,
    }
}

/// Pick a directly-playable progressive `.mp4` URL from an HLS master playlist.
///
/// Apple's motion master playlist lists segmented HLS variants (`…_WxH.m3u8`). Each of them has
/// a sibling progressive mp4 at the same URL with the trailing `.m3u8` swapped for `-.mp4`. Order
/// of preference: highest-res avc1 mp4 → a literal `.mp4` variant → highest-res mp4 of any codec
/// as a last resort; with `prefer_hevc` the highest-res mp4 of any codec comes first.
pub fn pick_rendition(m3u8_url: &str, text: &str, prefer_hevc: bool) -> (out: Option<String>)
    ensures
        match out {
            Some(uri) => choice(m3u8_url@, text@, prefer_hevc) == Some(uri@),
            None => choice(m3u8_url@, text@, prefer_hevc) is None,
        },
{
    let body: Vec<char> = chars(text);
    let raw: Vec<&[char]> = split(&body, Delimiter::Char('\n'));
    let ghost all = lines_of(text@);
    let mut best_avc1: Option<(u64, String)> = None;
    let mut best_literal: Option<(u64, String)> = None;
    let mut best_any: Option<(u64, String)> = None;
    let mut open: Option<&[char]> = None;
    assert(all =~= slices(raw@).map_values(|line: Seq<char>| trim(line)));
    for i in 0..raw.len()
        invariant
            all == slices(raw@).map_values(|line: Seq<char>| trim(line)),
            match open {
                Some(info) => variants(all.take(i as int)).1 == Some(info@),
                None => variants(all.take(i as int)).1 is None,
            },
            offer_of(best_avc1) == best(
                offers(m3u8_url@, variants(all.take(i as int)).0, Kind::Avc1),
            ),
            offer_of(best_literal) == best(
                offers(m3u8_url@, variants(all.take(i as int)).0, Kind::Literal),
            ),
            offer_of(best_any) == best(
                offers(m3u8_url@, variants(all.take(i as int)).0, Kind::Any),
            ),
    {
        let line: &[char] = trimmed(raw[i]);
        let ghost listed = variants(all.take(i as int)).0;
        proof {
            assert(all.take(i + 1).drop_last() =~= all.take(i as int));
            assert(all.take(i + 1).last() == line@);
        }
        match open {
            None => {
                if starts_with(line, "#EXT-X-STREAM-INF") {
                    open = Some(line);
                }
            },
            Some(info) => {
                if !(line.len() == 0 || line[0] == '#') {
                    let ghost v = (info@, line@);
                    proof {
                        assert(variants(all.take(i + 1)).0 == listed.push(v));
                        assert(listed.push(v).drop_last() =~= listed);
                        assert(forall|k: Kind| #[trigger]
                            offers(m3u8_url@, listed.push(v), k) == match offer(m3u8_url@, v, k) {
                                Some(o) => offers(m3u8_url@, listed, k).push(o),
                                None => offers(m3u8_url@, listed, k),
                            });
                        assert forall|s: Seq<(u64, Seq<char>)>, o: (u64, Seq<char>)| #[trigger]
                            best(s.push(o)) == if beats(o.0, best(s)) {
                                Some(o)
                            } else {
                                best(s)
                            } by {
                            assert(s.push(o).drop_last() =~= s);
                        }
                    }
                    let size: u64 = match pixels(info) {
                        Some(p) => p,
                        None => 0,
                    };
                    let avc1: bool = codec_named(info, "avc1");
                    let uri: String = resolve_url(m3u8_url, string(line).as_str());
                    let full: Vec<char> = chars(uri.as_str());
                    if ends_with(head(&full, Delimiter::Char('?')), ".mp4") {
                        if better(&best_literal, size) {
                            best_literal = Some((size, uri));
                        }
                    } else if let Some(mp4) = derive_progressive_mp4(uri.as_str()) {
                        if avc1 && better(&best_avc1, size) {
                            best_avc1 = Some((size, mp4.clone()));
                        }
                        if better(&best_any, size) {
                            best_any = Some((size, mp4));
                        }
                    }
                    open = None;
                }
            },
        }
    }
    assert(all.take(all.len() as int) =~= all);
    let pick: Option<(u64, String)> = if prefer_hevc {
        if best_any.is_some() {
            best_any
        } else if best_avc1.is_some() {
            best_avc1
        } else {
            best_literal
        }
    } else {
        if best_avc1.is_some() {
            best_avc1
        } else if best_literal.is_some() {
            best_literal
        } else {
            best_any
        }
    };
    match pick {
        Some((_, uri)) => Some(uri),
        None => None,
    }
}

/// The best of some renditions is one of them, is as large as any, and larger than each before
/// it; only where there are none is there no best one.
pub proof fn law_best(all: Seq<(u64, Seq<char>)>)
    ensures
        best(all) is None <==> all.len() == 0,
        best(all) matches Some(b) ==> exists|i: int|
            {
                &&& 0 <= i < all.len()
                &&& #[trigger] all[i] == b
                &&& forall|j: int| 0 <= j < all.len() ==> (#[trigger] all[j]).0 <= b.0
                &&& forall|j: int| 0 <= j < i ==> (#[trigger] all[j]).0 < b.0
            },
    decreases all.len(),
{
    if all.len() > 0 {
        let init = all.drop_last();
        law_best(init);
        let n = init.len() as int;
        match best(init) {
            None => {
                assert(all[0] == all.last());
            },
            Some(c) => {
                let i = choose|i: int|
                    {
                        &&& 0 <= i < init.len()
                        &&& #[trigger] init[i] == c
                        &&& forall|j: int| 0 <= j < init.len() ==> (#[trigger] init[j]).0 <= c.0
                        &&& forall|j: int| 0 <= j < i ==> (#[trigger] init[j]).0 < c.0
                    };
                assert forall|j: int| 0 <= j < n implies (#[trigger] all[j]).0 <= c.0 by {
                    assert(all[j] == init[j]);
                }
                assert forall|j: int| 0 <= j < i implies (#[trigger] all[j]).0 < c.0 by {
                    assert(all[j] == init[j]);
                }
                assert(all[i] == c);
                assert(all[n] == all.last());
            },
        }
    }
}

/// Every H.264 rendition also counts among those of any codec.
proof fn lemma_avc1_is_any(base: Seq<char>, listed: Seq<(Seq<char>, Seq<char>)>)
    ensures
        forall|o: (u64, Seq<char>)| #[trigger]
            offers(base, listed, Kind::Avc1).contains(o) ==> offers(
                base,
                listed,
                Kind::Any,
            ).contains(o),
    decreases listed.len(),
{
    if listed.len() > 0 {
        let init = listed.drop_last();
        lemma_avc1_is_any(base, init);
        let (a0, y0) = (offers(base, init, Kind::Avc1), offers(base, init, Kind::Any));
        let (a, y) = (offers(base, listed, Kind::Avc1), offers(base, listed, Kind::Any));
        assert forall|o: (u64, Seq<char>)| #[trigger] a.contains(o) implies y.contains(o) by {
            let i = choose|i: int| 0 <= i < a.len() && a[i] == o;
            if i < a0.len() {
                assert(a0[i] == o);
                assert(a0.contains(o));
                let k = choose|k: int| 0 <= k < y0.len() && y0[k] == o;
                assert(y[k] == o);
            } else {
                assert(y[y0.len() as int] == o);
            }
        }
    }
}

/// By default a cover that has an H.264 rendition is played in H.264, at the highest resolution
/// it has there.
pub proof fn law_default_is_h264(base: Seq<char>, text: Seq<char>)
    requires
        offers(base, variants(lines_of(text)).0, Kind::Avc1).len() > 0,
    ensures
        best_of(base, text, Kind::Avc1) matches Some((size, uri)) && {
            &&& choice(base, text, false) == Some(uri)
            &&& forall|j: int|
                0 <= j < offers(base, variants(lines_of(text)).0, Kind::Avc1).len() ==> (
                #[trigger] offers(base, variants(lines_of(text)).0, Kind::Avc1)[j]).0 <= size
        },
{
    law_best(offers(base, variants(lines_of(text)).0, Kind::Avc1));
}

/// Where HEVC is preferred, the rendition has the highest resolution of all progressive siblings,
/// which is no less than that of any H.264 one.
pub proof fn law_hevc_is_largest(base: Seq<char>, text: Seq<char>)
    requires
        offers(base, variants(lines_of(text)).0, Kind::Any).len() > 0,
    ensures
        best_of(base, text, Kind::Any) matches Some((size, uri)) && {
            &&& choice(base, text, true) == Some(uri)
            &&& forall|j: int|
                0 <= j < offers(base, variants(lines_of(text)).0, Kind::Any).len()
                    ==> (#[trigger] offers(base, variants(lines_of(text)).0, Kind::Any)[j]).0 <= size
            &&& (best_of(base, text, Kind::Avc1) matches Some((smaller, _)) ==> smaller <= size)
        },
{
    let listed = variants(lines_of(text)).0;
    let (a, y) = (offers(base, listed, Kind::Avc1), offers(base, listed, Kind::Any));
    law_best(y);
    law_best(a);
    lemma_avc1_is_any(base, listed);
    if let Some(b) = best(a) {
        let i = choose|i: int| 0 <= i < a.len() && #[trigger] a[i] == b;
        assert(a.contains(b));
        let k = choose|k: int| 0 <= k < y.len() && y[k] == b;
        assert(y[k].0 <= best(y).unwrap().0);
    }
}

/// A playlist that offers anything at all yields a rendition, whatever is preferred.
pub proof fn law_any_offer_is_played(base: Seq<char>, text: Seq<char>, prefer_hevc: bool)
    ensures
        choice(base, text, prefer_hevc) is None <==> offers(
            base,
            variants(lines_of(text)).0,
            Kind::Any,
        ).len() == 0 && offers(base, variants(lines_of(text)).0, Kind::Literal).len() == 0,
{
    let listed = variants(lines_of(text)).0;
    let a = offers(base, listed, Kind::Avc1);
    law_best(a);
    law_best(offers(base, listed, Kind::Any));
    law_best(offers(base, listed, Kind::Literal));
    lemma_avc1_is_any(base, listed);
    if a.len() > 0 {
        assert(a.contains(a[0]));
    }
}

/// The value of decimal digits, read from the left.
pub proof fn law_decimal_value(digits: Seq<char>, c: char)
    requires
        '0' <= c <= '9',
    ensures
        decimal_value(seq![]) == 0,
        decimal_value(digits.push(c)) == decimal_value(digits) * 10 + (c as int - '0' as int),
{
    assert(digits.push(c).drop_last() =~= digits);
}

/// One or more digits, perhaps behind a plus sign.
pub open spec fn is_number_text(s: Seq<char>, digits: Seq<char>) -> bool {
    &&& s == digits || s == seq!['+'] + digits
    &&& digits.len() > 0
    &&& forall|i: int| 0 <= i < digits.len() ==> '0' <= #[trigger] digits[i] <= '9'
}

/// The number that a text of digits writes.
proof fn lemma_number_of(s: Seq<char>, digits: Seq<char>)
    requires
        is_number_text(s, digits),
    ensures
        trim(s) == s,
        number_of(s) == (if decimal_value(digits) <= u64::MAX {
            Some(decimal_value(digits) as u64)
        } else {
            None
        }),
        forall|i: int|
            #![trigger s[i]]
            0 <= i < s.len() ==> s[i] == '+' || '0' <= s[i] <= '9',
{
    assert('0' <= digits[0] <= '9');
    assert('0' <= digits[digits.len() - 1] <= '9');
    let none = Seq::<char>::empty();
    assert(none + s + none =~= s);
    law_trim(none, s, none);
    if s != digits {
        assert(s.skip(1) =~= digits);
        assert forall|i: int| #![trigger s[i]] 0 <= i < s.len() implies s[i] == '+' || '0' <= s[i]
            <= '9' by {
            if i > 0 {
                assert(s[i] == digits[i - 1]);
            }
        }
    }
    assert(unsigned(s) == digits);
}

/// A resolution is the number of pixels: width times height, or the largest number where that does
/// not fit.
pub proof fn law_resolution(
    front: Seq<char>,
    w: Seq<char>,
    width: Seq<char>,
    h: Seq<char>,
    height: Seq<char>,
    rest: Seq<char>,
)
    requires
        !contains(front, "RESOLUTION="@),
        is_number_text(w, width),
        is_number_text(h, height),
        rest.len() == 0 || rest[0] == ',' || is_space(rest[0]),
    ensures
        pixels_of(front + "RESOLUTION="@ + (w + seq!['x'] + h + rest)) == (if decimal_value(width)
            > u64::MAX || decimal_value(height) > u64::MAX {
            None
        } else if decimal_value(width) * decimal_value(height) > u64::MAX {
            Some(u64::MAX)
        } else {
            Some((decimal_value(width) * decimal_value(height)) as u64)
        }),
{
    reveal_strlit("RESOLUTION=");
    let mark = "RESOLUTION="@;
    let dims = w + seq!['x'] + h;
    let tail = dims + rest;
    assert(tail =~= w + seq!['x'] + h + rest);
    lemma_number_of(w, width);
    lemma_number_of(h, height);
    let n = w.len() as int;
    assert forall|i: int| 0 <= i < dims.len() implies #[trigger] dims[i] == 'x' || dims[i] == '+'
        || '0' <= dims[i] <= '9' by {
        if i < n {
            assert(dims[i] == w[i]);
        } else if i > n {
            assert(dims[i] == h[i - n - 1]);
        }
    }
    assert forall|i: int| 0 <= i < dims.len() implies !occurs_at(tail, mark, i) by {
        if occurs_at(tail, mark, i) {
            assert(tail.subrange(i, i + 11)[0] == tail[i]);
            assert(tail[i] == dims[i]);
            assert(mark[0] == 'R');
        }
    }
    lemma_find(tail, mark, 0);
    lemma_after_mark(front, mark, tail);
    let piece = match find_from(tail, mark, 0) {
        Some(again) => tail.take(again),
        None => tail,
    };
    let kept = piece.skip(dims.len() as int);
    assert(piece =~= dims + kept);
    assert(kept.len() > 0 ==> kept[0] == rest[0]);
    assert forall|i: int| 0 <= i < dims.len() implies !Delimiter::CommaOrSpace.has(
        #[trigger] dims[i],
    ) by {
        assert(dims[i] == 'x' || dims[i] == '+' || '0' <= dims[i] <= '9');
    }
    lemma_before(dims, kept, Delimiter::CommaOrSpace);
    assert forall|i: int| 0 <= i < n implies !Delimiter::Char('x').has(#[trigger] dims[i]) by {
        assert(dims[i] == w[i]);
    }
    lemma_cut_is(dims, Delimiter::Char('x'), 0, n);
    assert(dims.take(n) =~= w);
    assert(dims.skip(n + 1) =~= h);
}

/// Where a resolution is read there is one: a number, an `x` and a number behind the attribute's
/// name, up to a comma, white space, the end, or where the attribute is named again.
pub proof fn law_resolution_is_there(line: Seq<char>)
    ensures
        pixels_of(line) is Some ==> exists|
            front: Seq<char>,
            w: Seq<char>,
            width: Seq<char>,
            h: Seq<char>,
            height: Seq<char>,
            rest: Seq<char>,
        |
            {
                &&& line == #[trigger] (front + "RESOLUTION="@ + (w + seq!['x'] + h + rest))
                &&& !contains(front, "RESOLUTION="@)
                &&& #[trigger] is_number_text(w, width)
                &&& #[trigger] is_number_text(h, height)
                &&& rest.len() == 0 || rest[0] == ',' || is_space(rest[0])
                    || "RESOLUTION="@.is_prefix_of(rest)
            },
{
    reveal_strlit("RESOLUTION=");
    let mark = "RESOLUTION="@;
    if pixels_of(line) is Some {
        lemma_find(line, mark, 0);
        let at = find_from(line, mark, 0).unwrap();
        let front = line.take(at);
        let tail = line.skip(at + 11);
        assert(!contains(front, mark)) by {
            if contains(front, mark) {
                let i = choose|i: int| occurs_at(front, mark, i);
                assert(line.subrange(i, i + 11) =~= front.subrange(i, i + 11));
                assert(occurs_at(line, mark, i));
            }
        }
        lemma_find(tail, mark, 0);
        let piece = after_mark(line, mark).unwrap();
        lemma_cut(piece, Delimiter::CommaOrSpace, 0);
        let dims = before(piece, Delimiter::CommaOrSpace);
        lemma_cut(dims, Delimiter::Char('x'), 0);
        let x = cut_from(dims, Delimiter::Char('x'), 0);
        let (w, h) = (dims.take(x), dims.skip(x + 1));
        let rest = tail.skip(dims.len() as int);
        assert(line.subrange(at, at + 11) =~= mark);
        assert(line =~= front + mark + (w + seq!['x'] + h + rest));
        if dims.len() < piece.len() {
            assert(rest[0] == piece[dims.len() as int]);
        } else if let Some(again) = find_from(tail, mark, 0) {
            assert(tail.subrange(again, again + 11) =~= rest.subrange(0, 11));
        }
        assert forall|i: int| 0 <= i < dims.len() implies !is_space(#[trigger] dims[i]) by {
            assert(!Delimiter::CommaOrSpace.has(piece[i]));
        }
        lemma_trim_same(w);
        lemma_trim_same(h);
        lemma_number_text(w);
        lemma_number_text(h);
    }
}

/// A text without white space is left as it is.
proof fn lemma_trim_same(s: Seq<char>)
    requires
        forall|i: int| 0 <= i < s.len() ==> !is_space(#[trigger] s[i]),
    ensures
        trim(s) == s,
{
    let none = Seq::<char>::empty();
    assert(none + s + none =~= s);
    law_trim(none, s, none);
}

/// What is read as a number is one.
proof fn lemma_number_text(s: Seq<char>)
    requires
        number_of(s) is Some,
    ensures
        is_number_text(s, unsigned(s)),
{
    let digits = unsigned(s);
    if s.len() > 0 && s[0] == '+' {
        assert(s =~= seq!['+'] + digits);
    }
    assert forall|i: int| 0 <= i < digits.len() implies '0' <= #[trigger] digits[i] <= '9' by {
        assert(is_ascii_digit(digits[i]));
    }
}

/// The codecs of a variant are what stands between the quotation marks behind the attribute's
/// name; an attribute that is missing or not closed names none.
pub proof fn law_codecs(front: Seq<char>, body: Seq<char>, post: Seq<char>, needle: Seq<char>)
    requires
        !contains(front, "CODECS=\""@),
        forall|i: int| 0 <= i < body.len() ==> #[trigger] body[i] != '"',
        !contains(body.push('"'), "CODECS=\""@),
    ensures
        names_codec(front + "CODECS=\""@ + (body.push('"') + post), needle) <==> exists|i: int|
            0 <= i <= body.len() - needle.len() && #[trigger] body.subrange(i, i + needle.len())
                == needle,
        !names_codec(front + "CODECS=\""@ + body, needle),
        !names_codec(front, needle),
{
    reveal_strlit("CODECS=\"");
    let mark = "CODECS=\""@;
    let rest = body.push('"') + post;
    let n = body.len() as int;
    lemma_mark_first(front, mark, rest);
    lemma_after_mark(front, mark, rest);
    let line = front + mark + rest;
    assert(line.skip(front.len() as int + 8) =~= rest);
    let d = Delimiter::Char('"');
    assert forall|i: int| 0 <= i < n implies !d.has(#[trigger] rest[i]) by {
        assert(rest[i] == body[i]);
    }
    assert(rest[n] == '"');
    lemma_cut_is(rest, d, 0, n);
    assert forall|i: int| 0 <= i <= n implies !occurs_at(rest, mark, i) by {
        if occurs_at(rest, mark, i) {
            let w = rest.subrange(i, i + 8);
            assert(w[7] == rest[i + 7] && w[0] == rest[i]);
            if i == n {
                assert(mark[0] == 'C');
            } else if i + 7 < n {
                assert(rest[i + 7] == body[i + 7]);
            } else if i + 7 == n {
                assert(body.push('"').subrange(i, i + 8) =~= w);
                assert(occurs_at(body.push('"'), mark, i));
            } else {
                assert(w[n - i] == rest[n]);
            }
        }
    }
    lemma_find(rest, mark, 0);
    let piece = match find_from(rest, mark, 0) {
        Some(again) => rest.take(again),
        None => rest,
    };
    let kept = piece.skip(n);
    assert(piece =~= body + kept);
    assert(kept[0] == rest[n]);
    lemma_before(body, kept, d);
    if contains(body, needle) {
        let i = choose|i: int| occurs_at(body, needle, i);
        assert(body.subrange(i, i + needle.len()) == needle);
    }
    if exists|i: int|
        0 <= i <= body.len() - needle.len() && #[trigger] body.subrange(i, i + needle.len())
            == needle {
        let i = choose|i: int|
            0 <= i <= body.len() - needle.len() && #[trigger] body.subrange(i, i + needle.len())
                == needle;
        assert(occurs_at(body, needle, i));
    }
    // The open attribute.
    lemma_mark_first(front, mark, body);
    let open = front + mark + body;
    assert(open.skip(front.len() as int + 8) =~= body);
    assert forall|i: int| 0 <= i < n implies !d.has(#[trigger] body[i]) by {}
    lemma_cut_is(body, d, 0, n);
    // No attribute.
    lemma_find(front, mark, 0);
}

/// The progressive sibling of a variant: its path with `.m3u8` at the end changed to `-.mp4`, and
/// without the query. Nothing else has one.
pub proof fn law_progressive(stem: Seq<char>, tail: Seq<char>, url: Seq<char>)
    requires
        forall|i: int| 0 <= i < stem.len() ==> #[trigger] stem[i] != '?',
        tail.len() > 0 ==> tail[0] == '?',
    ensures
        progressive(stem + ".m3u8"@ + tail) == Some(stem + "-.mp4"@),
        progressive(url) matches Some(mp4) ==> exists|a: Seq<char>, b: Seq<char>|
            {
                &&& url == #[trigger] (a + ".m3u8"@ + b)
                &&& forall|i: int| 0 <= i < a.len() ==> #[trigger] a[i] != '?'
                &&& b.len() > 0 ==> b[0] == '?'
                &&& mp4 == a + "-.mp4"@
            },
{
    reveal_strlit(".m3u8");
    let d = Delimiter::Char('?');
    let path = stem + ".m3u8"@;
    assert forall|i: int| 0 <= i < path.len() implies !d.has(#[trigger] path[i]) by {
        if i < stem.len() {
            assert(path[i] == stem[i]);
        }
    }
    lemma_before(path, tail, d);
    let n = path.len() as int;
    assert(path.subrange(n - 5, n) =~= ".m3u8"@);
    assert(path.take(n - 5) =~= stem);
    if let Some(mp4) = progressive(url) {
        lemma_cut(url, d, 0);
        let path = before(url, d);
        let n = path.len() as int;
        let a = path.take(n - 5);
        let b = url.skip(n);
        assert(path.subrange(n - 5, n) =~= ".m3u8"@);
        assert(url =~= a + ".m3u8"@ + b);
        assert forall|i: int| 0 <= i < a.len() implies #[trigger] a[i] != '?' by {
            assert(!d.has(url[i]));
        }
    }
}

/// A text is made of lines, each up to a line feed and without the white space around it.
pub proof fn law_lines(a: Seq<char>, b: Seq<char>, line: Seq<char>)
    requires
        forall|i: int| 0 <= i < line.len() ==> #[trigger] line[i] != '\n',
    ensures
        lines_of(a.push('\n') + b) == lines_of(a) + lines_of(b),
        lines_of(line) == seq![trim(line)],
{
    let d = Delimiter::Char('\n');
    law_pieces(a, '\n', b, d);
    assert(lines_of(a.push('\n') + b) =~= lines_of(a) + lines_of(b));
    law_pieces(a, '\n', line, d);
    assert(lines_of(line) =~= seq![trim(line)]);
}

/// A line that describes a variant.
pub open spec fn describes(line: Seq<char>) -> bool {
    "#EXT-X-STREAM-INF"@.is_prefix_of(line)
}

/// A line that says where a variant is: neither blank nor a comment.
pub open spec fn is_address(line: Seq<char>) -> bool {
    line.len() > 0 && line[0] != '#'
}

/// No address among the lines between two.
pub open spec fn no_address(lines: Seq<Seq<char>>, from: int, to: int) -> bool {
    forall|x: int| from < x < to ==> !is_address(#[trigger] lines[x])
}

/// A variant at its place: a line that describes one, and the next address.
pub open spec fn is_spot(lines: Seq<Seq<char>>, spot: (int, int), v: (Seq<char>, Seq<char>)) -> bool {
    &&& 0 <= spot.0 < spot.1 < lines.len()
    &&& v == (lines[spot.0], lines[spot.1])
    &&& describes(lines[spot.0])
    &&& no_address(lines, spot.0, spot.1)
    &&& is_address(lines[spot.1])
}

/// A line that lies within one of some variants.
pub open spec fn is_within(spots: Seq<(int, int)>, x: int) -> bool {
    exists|k: int| 0 <= k < spots.len() && (#[trigger] spots[k]).0 <= x <= spots[k].1
}

/// The variants of a playlist by their places, one behind the other. No line that describes one is
/// left out: it lies within a variant, or no address follows it.
pub open spec fn is_listing(
    lines: Seq<Seq<char>>,
    listed: Seq<(Seq<char>, Seq<char>)>,
    spots: Seq<(int, int)>,
) -> bool {
    &&& spots.len() == listed.len()
    &&& forall|k: int| 0 <= k < spots.len() ==> is_spot(lines, #[trigger] spots[k], listed[k])
    &&& forall|k: int| 0 < k < spots.len() ==> spots[k - 1].1 < (#[trigger] spots[k]).0
    &&& forall|x: int|
        0 <= x < lines.len() && describes(#[trigger] lines[x]) ==> is_within(spots, x)
            || no_address(lines, x, lines.len() as int)
}

/// A line that describes a variant is a comment.
proof fn lemma_describes(line: Seq<char>)
    requires
        describes(line),
    ensures
        !is_address(line),
{
    reveal_strlit("#EXT-X-STREAM-INF");
    assert(line.subrange(0, 17)[0] == line[0]);
}

/// What is known of the variants once some lines have been read: `open` is the line that describes
/// one whose address is still to come, or the number of lines.
spec fn is_read(
    lines: Seq<Seq<char>>,
    listed: Seq<(Seq<char>, Seq<char>)>,
    pending: Option<Seq<char>>,
    spots: Seq<(int, int)>,
    open: int,
) -> bool {
    &&& spots.len() == listed.len()
    &&& 0 <= open <= lines.len()
    &&& forall|k: int| 0 <= k < spots.len() ==> is_spot(lines, #[trigger] spots[k], listed[k])
    &&& forall|k: int| 0 < k < spots.len() ==> spots[k - 1].1 < (#[trigger] spots[k]).0
    &&& forall|k: int| 0 <= k < spots.len() ==> (#[trigger] spots[k]).1 < open
    &&& forall|x: int|
        0 <= x < lines.len() && describes(#[trigger] lines[x]) ==> is_within(spots, x) || x >= open
    &&& match pending {
        Some(info) => open < lines.len() && lines[open] == info && describes(info) && no_address(
            lines,
            open,
            lines.len() as int,
        ),
        None => open == lines.len(),
    }
}

/// A variant stays at its place when a line is added.
proof fn lemma_spot_stays(lines: Seq<Seq<char>>, line: Seq<char>, spot: (int, int), v: (
    Seq<char>,
    Seq<char>,
))
    requires
        is_spot(lines, spot, v),
    ensures
        is_spot(lines.push(line), spot, v),
{
    assert forall|x: int| spot.0 < x < spot.1 implies !is_address(
        #[trigger] lines.push(line)[x],
    ) by {
        assert(!is_address(lines[x]));
    }
}

/// One line more.
proof fn lemma_read_line(
    lines: Seq<Seq<char>>,
    line: Seq<char>,
    spots: Seq<(int, int)>,
    open: int,
) -> (r: (Seq<(int, int)>, int))
    requires
        is_read(lines, variants(lines).0, variants(lines).1, spots, open),
    ensures
        is_read(
            lines.push(line),
            variants(lines.push(line)).0,
            variants(lines.push(line)).1,
            r.0,
            r.1,
        ),
{
    let all = lines.push(line);
    let n = lines.len() as int;
    assert(all.drop_last() =~= lines);
    let (listed, pending) = variants(lines);
    let (now, next) = variants(all);
    if describes(line) {
        lemma_describes(line);
    }
    assert forall|k: int| 0 <= k < spots.len() implies is_spot(all, #[trigger] spots[k], listed[k]) by {
        lemma_spot_stays(lines, line, spots[k], listed[k]);
    }
    let finished = pending is Some && is_address(line);
    let kept = spots;
    let spots = if finished {
        kept.push((open, n))
    } else {
        kept
    };
    let at: int = if pending is Some && !is_address(line) {
        open
    } else if pending is None && describes(line) {
        n
    } else {
        n + 1
    };
    if pending is Some {
        assert forall|x: int| open < x < n implies !is_address(#[trigger] all[x]) by {
            assert(!is_address(lines[x]));
        }
    }
    assert forall|x: int| is_within(kept, x) implies is_within(spots, x) by {
        let k = choose|k: int| 0 <= k < kept.len() && (#[trigger] kept[k]).0 <= x <= kept[k].1;
        assert(spots[k] == kept[k]);
    }
    assert forall|x: int| 0 <= x < all.len() && describes(#[trigger] all[x]) implies is_within(
        spots,
        x,
    ) || x >= at by {
        if x < n {
            assert(all[x] == lines[x]);
            if !is_within(kept, x) && finished {
                assert(spots[kept.len() as int] == (open, n));
            }
        }
    }
    assert forall|k: int| 0 <= k < spots.len() implies is_spot(all, #[trigger] spots[k], now[k]) by {
        if k < kept.len() {
            assert(spots[k] == kept[k]);
        }
    }
    assert forall|k: int| 0 < k < spots.len() implies spots[k - 1].1 < (#[trigger] spots[k]).0 by {
        assert(spots[k - 1] == kept[k - 1]);
        if k < kept.len() {
            assert(spots[k] == kept[k]);
        }
    }
    assert forall|k: int| 0 <= k < spots.len() implies (#[trigger] spots[k]).1 < at by {
        if k < kept.len() {
            assert(spots[k] == kept[k]);
        }
    }
    (spots, at)
}

/// Where the variants of a playlist are.
proof fn lemma_read(lines: Seq<Seq<char>>) -> (r: (Seq<(int, int)>, int))
    ensures
        is_read(lines, variants(lines).0, variants(lines).1, r.0, r.1),
    decreases lines.len(),
{
    if lines.len() == 0 {
        (seq![], 0)
    } else {
        let (spots, open) = lemma_read(lines.drop_last());
        assert(lines.drop_last().push(lines.last()) =~= lines);
        lemma_read_line(lines.drop_last(), lines.last(), spots, open)
    }
}

/// Where the variants of a playlist are.
proof fn lemma_listing(lines: Seq<Seq<char>>) -> (spots: Seq<(int, int)>)
    ensures
        is_listing(lines, variants(lines).0, spots),
{
    let (spots, open) = lemma_read(lines);
    assert forall|x: int| 0 <= x < lines.len() && describes(#[trigger] lines[x]) implies is_within(
        spots,
        x,
    ) || no_address(lines, x, lines.len() as int) by {}
    spots
}

/// Every variant that a playlist describes counts, and nothing else does.
pub proof fn law_variants(lines: Seq<Seq<char>>)
    ensures
        exists|spots: Seq<(int, int)>| is_listing(lines, variants(lines).0, spots),
{
    let spots = lemma_listing(lines);
}

/// How many pixels a variant has; none where it does not say.
pub open spec fn size_of(v: (Seq<char>, Seq<char>)) -> u64 {
    match pixels_of(v.0) {
        Some(p) => p,
        None => 0,
    }
}

/// The largest of those variants of which `p` holds, and of equally large ones the first.
pub open spec fn is_largest(
    listed: Seq<(Seq<char>, Seq<char>)>,
    k: int,
    p: spec_fn((Seq<char>, Seq<char>)) -> bool,
) -> bool {
    &&& 0 <= k < listed.len()
    &&& p(listed[k])
    &&& forall|i: int|
        #![trigger listed[i]]
        0 <= i < listed.len() && p(listed[i]) ==> size_of(listed[i]) <= size_of(listed[k]) && (i < k
            ==> size_of(listed[i]) < size_of(listed[k]))
}

/// The best offer of a kind is that of the largest variant that has one.
proof fn lemma_best_offer(base: Seq<char>, listed: Seq<(Seq<char>, Seq<char>)>, kind: Kind) -> (k:
    int)
    ensures
        best(offers(base, listed, kind)) is None ==> forall|i: int|
            0 <= i < listed.len() ==> offer(base, #[trigger] listed[i], kind) is None,
        best(offers(base, listed, kind)) is Some ==> is_largest(
            listed,
            k,
            |v: (Seq<char>, Seq<char>)| offer(base, v, kind) is Some,
        ) && best(offers(base, listed, kind)) == offer(base, listed[k], kind),
    decreases listed.len(),
{
    if listed.len() == 0 {
        0
    } else {
        let init = listed.drop_last();
        let n = init.len() as int;
        let k = lemma_best_offer(base, init, kind);
        let known = offers(base, init, kind);
        let p = |v: (Seq<char>, Seq<char>)| offer(base, v, kind) is Some;
        assert(forall|i: int| 0 <= i < n ==> #[trigger] listed[i] == init[i]);
        match offer(base, listed.last(), kind) {
            Some(o) => {
                assert(known.push(o).drop_last() =~= known);
                assert(o.0 == size_of(listed.last()));
                if beats(o.0, best(known)) {
                    assert(is_largest(listed, n, p));
                    n
                } else {
                    assert(best(known).unwrap().0 == size_of(init[k]));
                    assert(is_largest(listed, k, p));
                    k
                }
            },
            None => {
                if best(known) is Some {
                    assert(is_largest(listed, k, p));
                }
                k
            },
        }
    }
}

/// The rendition to play. A variant whose address is a playlist offers its progressive sibling,
/// and one whose address is an mp4 offers that. By default the largest sibling in H.264 is played,
/// where there is none the largest mp4, and else the largest sibling of all. Where HEVC is
/// preferred, the largest sibling of all is played, and the largest mp4 where there is none. Where
/// nothing is offered, nothing is played.
pub proof fn law_choice(base: Seq<char>, text: Seq<char>, prefer_hevc: bool)
    ensures
        exists|listed: Seq<(Seq<char>, Seq<char>)>, spots: Seq<(int, int)>|
            {
                let sibling = |v: (Seq<char>, Seq<char>)| progressive(resolved(base, v.1));
                let any = |v: (Seq<char>, Seq<char>)| sibling(v) is Some;
                let h264 = |v: (Seq<char>, Seq<char>)|
                    sibling(v) is Some && names_codec(v.0, "avc1"@);
                let mp4 = |v: (Seq<char>, Seq<char>)|
                    ".mp4"@.is_suffix_of(before(resolved(base, v.1), Delimiter::Char('?')));
                let found = choice(base, text, prefer_hevc);
                let some = |p: spec_fn((Seq<char>, Seq<char>)) -> bool|
                    exists|i: int| 0 <= i < listed.len() && p(#[trigger] listed[i]);
                &&& #[trigger] is_listing(lines_of(text), listed, spots)
                &&& found is None <==> !some(any) && !some(mp4)
                &&& prefer_hevc && some(any) ==> exists|k: int| #[trigger]
                    is_largest(listed, k, any) && found == sibling(listed[k])
                &&& !prefer_hevc && some(h264) ==> exists|k: int| #[trigger]
                    is_largest(listed, k, h264) && found == sibling(listed[k])
                &&& !some(any) && some(mp4) ==> exists|k: int| #[trigger]
                    is_largest(listed, k, mp4) && found == Some(resolved(base, listed[k].1))
                &&& !prefer_hevc && !some(h264) && some(mp4) ==> exists|k: int| #[trigger]
                    is_largest(listed, k, mp4) && found == Some(resolved(base, listed[k].1))
                &&& !prefer_hevc && !some(h264) && !some(mp4) && some(any) ==> exists|k: int|
                    #[trigger] is_largest(listed, k, any) && found == sibling(listed[k])
            },
{
    let lines = lines_of(text);
    let spots = lemma_listing(lines);
    let listed = variants(lines).0;
    let sibling = |v: (Seq<char>, Seq<char>)| progressive(resolved(base, v.1));
    let any = |v: (Seq<char>, Seq<char>)| sibling(v) is Some;
    let h264 = |v: (Seq<char>, Seq<char>)| sibling(v) is Some && names_codec(v.0, "avc1"@);
    let mp4 = |v: (Seq<char>, Seq<char>)|
        ".mp4"@.is_suffix_of(before(resolved(base, v.1), Delimiter::Char('?')));
    let some = |p: spec_fn((Seq<char>, Seq<char>)) -> bool|
        exists|i: int| 0 <= i < listed.len() && p(#[trigger] listed[i]);
    assert forall|v: (Seq<char>, Seq<char>)| #[trigger] any(v) implies !mp4(v) by {
        reveal_strlit(".mp4");
        reveal_strlit(".m3u8");
        let path = before(resolved(base, v.1), Delimiter::Char('?'));
        let n = path.len() as int;
        if mp4(v) {
            assert(path.subrange(n - 4, n)[3] == path[n - 1]);
            assert(path.subrange(n - 5, n)[4] == path[n - 1]);
        }
    }
    assert forall|v: (Seq<char>, Seq<char>)| #[trigger]
        any(v) == offer(base, v, Kind::Any) is Some by {}
    assert forall|v: (Seq<char>, Seq<char>)| #[trigger]
        h264(v) == offer(base, v, Kind::Avc1) is Some by {
        if sibling(v) is Some {
            assert(any(v));
        }
    }
    assert forall|v: (Seq<char>, Seq<char>)| #[trigger]
        mp4(v) == offer(base, v, Kind::Literal) is Some by {}
    let a = lemma_best_offer(base, listed, Kind::Any);
    let b = lemma_best_offer(base, listed, Kind::Avc1);
    let c = lemma_best_offer(base, listed, Kind::Literal);
    let (x, y, z) = (
        best_of(base, text, Kind::Any),
        best_of(base, text, Kind::Avc1),
        best_of(base, text, Kind::Literal),
    );
    assert(x is Some == some(any)) by {
        if x is Some {
            assert(any(listed[a]));
        } else if some(any) {
            let i = choose|i: int| 0 <= i < listed.len() && any(#[trigger] listed[i]);
            assert(offer(base, listed[i], Kind::Any) is None);
        }
    }
    assert(y is Some == some(h264)) by {
        if y is Some {
            assert(h264(listed[b]));
        } else if some(h264) {
            let i = choose|i: int| 0 <= i < listed.len() && h264(#[trigger] listed[i]);
            assert(offer(base, listed[i], Kind::Avc1) is None);
        }
    }
    assert(z is Some == some(mp4)) by {
        if z is Some {
            assert(mp4(listed[c]));
        } else if some(mp4) {
            let i = choose|i: int| 0 <= i < listed.len() && mp4(#[trigger] listed[i]);
            assert(offer(base, listed[i], Kind::Literal) is None);
        }
    }
    assert(some(h264) ==> some(any)) by {
        if some(h264) {
            let i = choose|i: int| 0 <= i < listed.len() && h264(#[trigger] listed[i]);
            assert(any(listed[i]));
        }
    }
    if x is Some {
        assert(any(listed[a]));
        assert(is_largest(listed, a, any));
        assert(x.unwrap().1 == sibling(listed[a]).unwrap());
    }
    if y is Some {
        assert(h264(listed[b]) && any(listed[b]));
        assert(is_largest(listed, b, h264));
        assert(y.unwrap().1 == sibling(listed[b]).unwrap());
    }
    if z is Some {
        assert(mp4(listed[c]));
        assert(is_largest(listed, c, mp4));
        assert(z.unwrap().1 == resolved(base, listed[c].1));
    }
    assert(is_listing(lines_of(text), listed, spots));
}

} // verus!
