//! Album and artist names: how they are compared, and the keys they are stored under.

use vstd::prelude::*;

use crate::chars::{
    all_ascii, ascii_lower, has_sigma, is_alnum, is_ascii, is_space, lower, lower_chars, lowered,
    text_lower,
};
use crate::text::{
    all_chars, chars, contains, cut_from, has, is_word, join, joined, lemma_cut, lemma_cut_is,
    lemma_join_all, lemma_no_words, lemma_words, lemma_words_all, lemma_words_join,
    lemma_words_part, occurs_at, same, slices, split_words, words, Delimiter,
};

verus! {

/// The signs that stand for an apostrophe.
pub open spec fn is_apostrophe(c: char) -> bool {
    c == '\'' || c == '\u{2019}' || c == '\u{02BC}' || c == '`'
}

/// A text without its apostrophes.
pub open spec fn plain(s: Seq<char>) -> Seq<char>
    decreases s.len(),
{
    if s.len() == 0 {
        seq![]
    } else if is_apostrophe(s.last()) {
        plain(s.drop_last())
    } else {
        plain(s.drop_last()).push(s.last())
    }
}

/// The words of a name that decide a match: runs of letters and digits in lower case, in which
/// apostrophes do not count.
pub open spec fn album_words(s: Seq<char>) -> Seq<Seq<char>> {
    words(plain(s), Delimiter::NotAlnum).map_values(|w: Seq<char>| lowered(w))
}

/// A name reduced to its words, with one space between each two.
pub open spec fn album_name(s: Seq<char>) -> Seq<char> {
    join(album_words(s), seq![' '])
}

/// A name without a word: all of its letters and digits are signs that stand for an apostrophe.
pub open spec fn is_wordless(s: Seq<char>) -> bool {
    forall|i: int| 0 <= i < s.len() ==> !is_alnum(#[trigger] s[i]) || is_apostrophe(s[i])
}

/// How well a catalogue title agrees with the one we asked for.
#[derive(PartialEq, Eq, Structural, Clone, Copy, Debug)]
pub enum NameMatch {
    /// The same words.
    Exact,
    /// The words of the request, and others around them.
    Partial,
    /// Neither.
    Other,
}

/// The key under which the web player's token is stored.
pub const TOKEN_KEY: &'static str = "apple:token";

/// The agreement of two names.
pub open spec fn agreement(found: Seq<char>, requested: Seq<char>) -> NameMatch {
    let f = album_name(found);
    let r = album_name(requested);
    if f.len() == 0 || r.len() == 0 {
        NameMatch::Other
    } else if f == r {
        NameMatch::Exact
    } else if contains(f, r) {
        NameMatch::Partial
    } else {
        NameMatch::Other
    }
}

/// Lowercase and flatten punctuation, so only the words decide a match.
///
/// Apostrophes are dropped: they sit inside words, and a library tagged `Dont Call Me Up` has
/// to match `Don't Call Me Up`. Every other run of characters that are neither letters nor
/// digits becomes a single space, which keeps the word boundaries. Nothing is left exactly where
/// the name has no word.
pub fn normalize_album_name(input: &str) -> (out: String)
    ensures
        out@ == album_name(input@),
        out@.len() == 0 <==> is_wordless(input@),
{
    let all: Vec<char> = chars(input);
    let mut kept: Vec<char> = Vec::new();
    for i in 0..all.len()
        invariant
            kept@ == plain(all@.take(i as int)),
    {
        let c: char = all[i];
        assert(all@.take(i + 1).drop_last() =~= all@.take(i as int));
        if !(c == '\'' || c == '\u{2019}' || c == '\u{02BC}' || c == '`') {
            kept.push(c);
        }
    }
    assert(all@.take(all@.len() as int) =~= all@);
    let parts: Vec<&[char]> = split_words(&kept, Delimiter::NotAlnum);
    proof {
        lemma_wordless(input@);
        lemma_words(kept@, Delimiter::NotAlnum);
    }
    let ghost low = album_words(input@);
    assert(low =~= slices(parts@).map_values(|w: Seq<char>| lowered(w)));
    let mut out: String = String::new();
    for i in 0..parts.len()
        invariant
            low == slices(parts@).map_values(|w: Seq<char>| lowered(w)),
            out@ == join(low.take(i as int), seq![' ']),
            slices(parts@) == words(kept@, Delimiter::NotAlnum),
            forall|k: int|
                0 <= k < words(kept@, Delimiter::NotAlnum).len() ==> is_word(
                    #[trigger] words(kept@, Delimiter::NotAlnum)[k],
                    Delimiter::NotAlnum,
                ),
            i > 0 ==> out@.len() > 0,
    {
        assert(low.take(i + 1).drop_last() =~= low.take(i as int));
        assert(low.take(i + 1).last() == lowered(parts@[i as int]@));
        if i > 0 {
            out.push(' ');
        }
        let word: &[char] = parts[i];
        assert(slices(parts@)[i as int] == word@);
        let ghost acc = out@;
        for k in 0..word.len()
            invariant
                out@ == acc + lowered(word@.take(k as int)),
                k > 0 ==> out@.len() > 0,
        {
            assert(word@.take(k + 1).drop_last() =~= word@.take(k as int));
            let small: Vec<char> = lower_chars(word[k]);
            let ghost sofar = out@;
            for j in 0..small.len()
                invariant
                    out@ == sofar + small@.take(j as int),
            {
                out.push(small[j]);
                assert(small@.take(j + 1) =~= small@.take(j as int).push(small@[j as int]));
            }
            assert(small@.take(small@.len() as int) =~= small@);
        }
        assert(word@.take(word@.len() as int) =~= word@);
    }
    assert(low.take(low.len() as int) =~= low);
    out
}

/// Compare a catalogue album title against the requested one.
///
/// Both sides are reduced to their words first, so apostrophes, dashes and stray double spaces
/// never decide the outcome. A name without a word agrees with nothing.
pub fn rank_album_name(found: &str, requested: &str) -> (m: NameMatch)
    ensures
        m == agreement(found@, requested@),
        is_wordless(found@) || is_wordless(requested@) ==> m == NameMatch::Other,
        m == NameMatch::Exact <==> album_name(found@) == album_name(requested@) && !is_wordless(
            requested@,
        ),
{
    let f: Vec<char> = chars(normalize_album_name(found).as_str());
    let r: Vec<char> = chars(normalize_album_name(requested).as_str());
    if f.len() == 0 || r.len() == 0 {
        return NameMatch::Other;
    }
    if same(&f, &r) {
        return NameMatch::Exact;
    }
    if has(&f, &r) {
        return NameMatch::Partial;
    }
    NameMatch::Other
}

/// A character of a key: itself if it is a letter or a digit, else a space.
pub open spec fn key_char(c: char) -> char {
    if is_alnum(c) {
        c
    } else {
        ' '
    }
}

/// A name as it stands in a key: in lower case, its words parted by single spaces.
pub open spec fn key_name(s: Seq<char>) -> Seq<char> {
    join(
        words(text_lower(s).map_values(|c: char| key_char(c)), Delimiter::Space),
        seq![' '],
    )
}

/// The key under which what is known of an album is stored.
pub open spec fn album_key(artist: Seq<char>, title: Seq<char>) -> Seq<char> {
    "motion:"@ + key_name(artist) + "|"@ + key_name(title)
}

/// Lower case, with each run of punctuation and white space made a single space.
pub fn normalise(s: &str) -> (out: String)
    ensures
        out@ == key_name(s@),
{
    let small: Vec<char> = chars(s.to_lowercase().as_str());
    let mut mapped: Vec<char> = Vec::new();
    for i in 0..small.len()
        invariant
            mapped@ == small@.take(i as int).map_values(|c: char| key_char(c)),
    {
        let c: char = small[i];
        mapped.push(
            if c.is_alphanumeric() {
                c
            } else {
                ' '
            },
        );
        assert(mapped@ =~= small@.take(i + 1).map_values(|c: char| key_char(c)));
    }
    assert(small@.take(small@.len() as int) =~= small@);
    joined(&split_words(&mapped, Delimiter::Space), ' ')
}

/// Normalised `motion:<artist>|<title>` cache key, so trivial tag differences hit the same row.
pub fn cache_key(artist: &str, title: &str) -> (out: String)
    ensures
        out@ == album_key(artist@, title@),
{
    let mut out: String = String::new();
    out.append("motion:");
    out.append(normalise(artist).as_str());
    out.append("|");
    out.append(normalise(title).as_str());
    out
}

/// Apostrophes never decide a match: a name with one more is the same name.
pub proof fn law_apostrophes(a: Seq<char>, q: char, b: Seq<char>)
    requires
        is_apostrophe(q),
    ensures
        album_name(a.push(q) + b) == album_name(a + b),
{
    lemma_plain_add(a.push(q), b);
    lemma_plain_add(a, b);
    assert(a.push(q).drop_last() =~= a);
}

/// Other punctuation only parts words: which sign it is, whether it is doubled, and whether it
/// stands at an end of the name never decide a match.
pub proof fn law_punctuation(a: Seq<char>, c: char, d: char, b: Seq<char>)
    requires
        !is_alnum(c) && !is_apostrophe(c),
        !is_alnum(d) && !is_apostrophe(d),
    ensures
        album_name(a.push(c) + b) == album_name(a.push(d) + b),
        album_name(a.push(c).push(d) + b) == album_name(a.push(c) + b),
        album_name(a.push(c)) == album_name(a),
        album_name(seq![c] + b) == album_name(b),
{
    let k = Delimiter::NotAlnum;
    let none = Seq::<char>::empty();
    let (pa, pb) = (plain(a), plain(b));
    lemma_plain_add(a.push(c), b);
    lemma_plain_add(a.push(d), b);
    lemma_plain_add(a.push(c).push(d), b);
    lemma_plain_add(seq![c], b);
    assert(a.push(c).drop_last() =~= a);
    assert(a.push(d).drop_last() =~= a);
    assert(a.push(c).push(d).drop_last() =~= a.push(c));
    assert(seq![c].drop_last() =~= none);
    assert(plain(none) =~= none);
    assert(plain(seq![c]) =~= none.push(c));
    assert(words(none, k) =~= seq![]);
    lemma_words_part(pa, c, pb, k);
    lemma_words_part(pa, d, pb, k);
    lemma_words_part(pa.push(c), d, pb, k);
    lemma_words_part(pa, c, none, k);
    lemma_words_part(none, c, pb, k);
    assert(pa.push(c) + none =~= pa.push(c));
    assert(words(pa, k) + words(none, k) =~= words(pa, k));
    assert(words(none, k) + words(pb, k) =~= words(pb, k));
}

/// Characters that differ in case alone, if at all.
pub open spec fn alike(a: char, b: char) -> bool {
    &&& lower(a) == lower(b)
    &&& is_alnum(a) == is_alnum(b)
    &&& is_apostrophe(a) == is_apostrophe(b)
}

/// Texts whose characters differ in case alone, if at all.
pub open spec fn all_alike(a: Seq<char>, b: Seq<char>) -> bool {
    a.len() == b.len() && forall|i: int| 0 <= i < a.len() ==> alike(#[trigger] a[i], b[i])
}

/// Case never decides a match.
pub proof fn law_case(a: Seq<char>, b: Seq<char>)
    requires
        all_alike(a, b),
    ensures
        album_name(a) == album_name(b),
{
    lemma_plain_alike(a, b);
    lemma_words_alike(plain(a), plain(b));
}

/// A character of ASCII and its lower case differ in case alone.
pub proof fn law_ascii_case(s: Seq<char>)
    requires
        all_ascii(s),
    ensures
        all_alike(s.map_values(|c: char| ascii_lower(c)), s),
        lowered(s) == s.map_values(|c: char| ascii_lower(c)),
        !has_sigma(s),
    decreases s.len(),
{
    if s.len() > 0 {
        law_ascii_case(s.drop_last());
    }
    assert(lowered(s) =~= s.map_values(|c: char| ascii_lower(c)));
    assert forall|i: int| 0 <= i < s.len() implies s[i] != '\u{3a3}' by {
        assert(is_ascii(s[i]));
    }
}

/// Names with the same words, at least one, agree exactly.
pub proof fn law_same_words(found: Seq<char>, requested: Seq<char>)
    requires
        album_words(found) == album_words(requested),
        album_name(requested).len() > 0,
    ensures
        agreement(found, requested) == NameMatch::Exact,
{
}

/// A character whose lower case is made of letters and digits that are in lower case themselves.
pub open spec fn is_steady(c: char) -> bool {
    lower(c).len() > 0 && forall|i: int|
        0 <= i < lower(c).len() ==> is_steady_form(#[trigger] lower(c)[i])
}

/// A letter or a digit that is in lower case, and no apostrophe.
pub open spec fn is_steady_form(c: char) -> bool {
    is_alnum(c) && !is_apostrophe(c) && lower(c) == seq![c]
}

/// A name whose letters and digits all are steady, as those of ASCII are.
pub open spec fn is_steady_name(s: Seq<char>) -> bool {
    forall|i: int|
        0 <= i < s.len() && is_alnum(#[trigger] s[i]) && !is_apostrophe(s[i]) ==> is_steady(s[i])
}

/// Every name in ASCII is steady.
pub proof fn law_ascii_is_steady(s: Seq<char>)
    requires
        all_ascii(s),
    ensures
        is_steady_name(s),
{
    assert forall|i: int| 0 <= i < s.len() && is_alnum(#[trigger] s[i]) implies is_steady(s[i]) by {
        assert(is_ascii(s[i]));
        assert(lower(ascii_lower(s[i])) =~= seq![ascii_lower(s[i])]);
    }
}

/// A steady name that is reduced to its words has the same words still.
pub proof fn law_reduced_once(s: Seq<char>)
    requires
        is_steady_name(s),
    ensures
        album_words(album_name(s)) == album_words(s),
        album_name(album_name(s)) == album_name(s),
{
    let ws = album_words(s);
    lemma_album_words(s);
    let p = |c: char| !is_apostrophe(c);
    assert forall|i: int| 0 <= i < ws.len() implies all_chars(#[trigger] ws[i], p) by {
        assert forall|j: int| 0 <= j < ws[i].len() implies p(#[trigger] ws[i][j]) by {
            assert(is_steady_form(ws[i][j]));
        }
    }
    lemma_join_all(ws, ' ', p);
    assert forall|i: int| 0 <= i < album_name(s).len() implies !is_apostrophe(
        #[trigger] album_name(s)[i],
    ) by {
        assert(p(album_name(s)[i]));
    }
    lemma_plain_same(album_name(s));
    lemma_words_join(ws, ' ', Delimiter::NotAlnum);
    assert(album_words(album_name(s)) =~= ws);
}

/// The words of steady names can be told from what they are reduced to: names agree exactly when
/// they have the same words, at least one.
pub proof fn law_exact_is_same_words(found: Seq<char>, requested: Seq<char>)
    requires
        is_steady_name(found) && is_steady_name(requested),
    ensures
        agreement(found, requested) == NameMatch::Exact <==> album_words(found) == album_words(
            requested,
        ) && album_words(requested).len() > 0,
{
    law_reduced_once(found);
    law_reduced_once(requested);
    lemma_album_words(requested);
    let ws = album_words(requested);
    if ws.len() > 0 {
        assert(is_word(ws.last(), Delimiter::NotAlnum));
    }
}

/// A name in the form of a key holds letters, digits and spaces, and no space at an end of it or
/// next to another.
pub proof fn law_key_shape(s: Seq<char>)
    ensures
        forall|i: int|
            0 <= i < key_name(s).len() ==> is_alnum(#[trigger] key_name(s)[i]) || key_name(s)[i]
                == ' ',
        key_name(s).len() > 0 ==> key_name(s)[0] != ' ' && key_name(s).last() != ' ',
        forall|i: int|
            0 < i < key_name(s).len() && #[trigger] key_name(s)[i] == ' ' ==> key_name(s)[i - 1]
                != ' ',
{
    let mapped = text_lower(s).map_values(|c: char| key_char(c));
    let ws = words(mapped, Delimiter::Space);
    let p = |c: char| is_alnum(c) || c == ' ';
    assert(all_chars(mapped, p));
    lemma_words_all(mapped, Delimiter::Space, p);
    lemma_join_all(ws, ' ', p);
    assert forall|i: int| 0 <= i < key_name(s).len() implies is_alnum(#[trigger] key_name(s)[i])
        || key_name(s)[i] == ' ' by {
        assert(p(key_name(s)[i]));
    }
    lemma_words(mapped, Delimiter::Space);
    lemma_join_spaces(ws);
}

/// A character that is its own lower case, wherever it stands.
pub open spec fn is_small(c: char) -> bool {
    c != '\u{3a3}' && lower(c) == seq![c]
}

/// A name whose letters in lower case are in lower case, as those of every name in ASCII are, stays
/// as it is once it is in the form of a key.
pub proof fn law_key_form(s: Seq<char>)
    requires
        forall|i: int|
            0 <= i < text_lower(s).len() && is_alnum(#[trigger] text_lower(s)[i]) ==> is_small(
                text_lower(s)[i],
            ),
    ensures
        key_name(key_name(s)) == key_name(s),
{
    let mapped = text_lower(s).map_values(|c: char| key_char(c));
    let ws = words(mapped, Delimiter::Space);
    lemma_words(mapped, Delimiter::Space);
    lemma_words_join(ws, ' ', Delimiter::Space);
    let p = |c: char| (is_alnum(c) || c == ' ') && is_small(c);
    assert forall|i: int| 0 <= i < mapped.len() implies p(#[trigger] mapped[i]) by {
        assert(mapped[i] == key_char(text_lower(s)[i]));
        assert(lower(' ') =~= seq![' ']);
    }
    lemma_words_all(mapped, Delimiter::Space, p);
    lemma_join_all(ws, ' ', p);
    let name = key_name(s);
    assert forall|i: int| 0 <= i < name.len() implies p(#[trigger] name[i]) by {}
    lemma_lowered_small(name);
    assert(!has_sigma(name));
    assert(name.map_values(|c: char| key_char(c)) =~= name);
}

/// The lower case of a name in ASCII is in lower case.
pub proof fn law_ascii_is_small(s: Seq<char>)
    requires
        all_ascii(s),
    ensures
        forall|i: int| 0 <= i < text_lower(s).len() ==> is_small(#[trigger] text_lower(s)[i]),
{
    law_ascii_case(s);
    assert forall|i: int| 0 <= i < text_lower(s).len() implies is_small(
        #[trigger] text_lower(s)[i],
    ) by {
        assert(is_ascii(s[i]));
        assert(lower(ascii_lower(s[i])) =~= seq![ascii_lower(s[i])]);
    }
}

/// Albums share a key exactly when both their names are the same in it, and no album's key is
/// that of the stored token.
pub proof fn law_keys(artist: Seq<char>, title: Seq<char>, artist2: Seq<char>, title2: Seq<char>)
    ensures
        album_key(artist, title) == album_key(artist2, title2) <==> key_name(artist) == key_name(
            artist2,
        ) && key_name(title) == key_name(title2),
        album_key(artist, title) != TOKEN_KEY@,
{
    reveal_strlit("motion:");
    reveal_strlit("|");
    reveal_strlit("apple:token");
    let (a, t, a2, t2) = (key_name(artist), key_name(title), key_name(artist2), key_name(title2));
    let (k, k2) = (album_key(artist, title), album_key(artist2, title2));
    law_key_shape(artist);
    law_key_shape(artist2);
    assert(k[0] == 'm');
    assert(TOKEN_KEY@[0] == 'a');
    let (n, n2) = (a.len() as int, a2.len() as int);
    if k == k2 {
        if n < n2 {
            assert(k[7 + n] == '|');
            assert(k2[7 + n] == a2[n]);
        } else if n2 < n {
            assert(k2[7 + n2] == '|');
            assert(k[7 + n2] == a[n2]);
        }
        assert(a =~= k.subrange(7, 7 + n));
        assert(a2 =~= k2.subrange(7, 7 + n2));
        assert(t =~= k.skip(8 + n));
        assert(t2 =~= k2.skip(8 + n2));
    }
}

/// Names that differ in case alone have the same form in a key. A capital sigma is left out: its
/// lower case depends on where it stands.
pub proof fn law_key_case(s: Seq<char>, t: Seq<char>)
    requires
        !has_sigma(s) && !has_sigma(t),
        s.len() == t.len(),
        forall|i: int| 0 <= i < s.len() ==> lower(#[trigger] s[i]) == lower(t[i]),
    ensures
        key_name(s) == key_name(t),
{
    lemma_lowered_same(s, t);
}

/// Names that differ in punctuation between words alone have the same form in a key. A capital
/// sigma is left out: its lower case depends on the punctuation behind it.
pub proof fn law_key_punctuation(a: Seq<char>, c: char, d: char, b: Seq<char>)
    requires
        !has_sigma(a) && !has_sigma(b),
        !is_alnum(c) && is_small(c),
        !is_alnum(d) && is_small(d),
    ensures
        key_name(a.push(c) + b) == key_name(a.push(d) + b),
        key_name(a.push(c).push(d) + b) == key_name(a.push(c) + b),
        key_name(a.push(c)) == key_name(a),
        key_name(seq![c] + b) == key_name(b),
{
    let k = Delimiter::Space;
    let none = Seq::<char>::empty();
    let form = |s: Seq<char>| lowered(s).map_values(|c: char| key_char(c));
    let (fa, fb) = (form(a), form(b));
    lemma_lowered_part(a, c, b);
    lemma_lowered_part(a, d, b);
    lemma_lowered_part(a.push(c), d, b);
    lemma_lowered_part(a, c, none);
    lemma_lowered_part(none, c, b);
    assert(a.push(c) + none =~= a.push(c));
    assert(none.push(c) + b =~= seq![c] + b);
    assert(form(a.push(c)) =~= fa.push(' '));
    assert(form(a.push(c) + b) =~= fa.push(' ') + fb);
    assert(form(a.push(d) + b) =~= fa.push(' ') + fb);
    assert(form(a.push(c).push(d) + b) =~= fa.push(' ').push(' ') + fb);
    assert(form(seq![c] + b) =~= none.push(' ') + fb);
    assert(words(none, k) =~= seq![]);
    lemma_words_part(fa, ' ', fb, k);
    lemma_words_part(fa.push(' '), ' ', fb, k);
    lemma_words_part(fa, ' ', none, k);
    lemma_words_part(none, ' ', fb, k);
    assert(fa.push(' ') + none =~= fa.push(' '));
    assert(words(fa, k) + words(none, k) =~= words(fa, k));
    assert(words(none, k) + words(fb, k) =~= words(fb, k));
}

/// A character that is its own lower case, and no sigma, leaves a text around it to be lowered on
/// its own.
proof fn lemma_lowered_part(a: Seq<char>, c: char, b: Seq<char>)
    requires
        !has_sigma(a) && !has_sigma(b) && is_small(c),
    ensures
        lowered(a.push(c) + b) == lowered(a).push(c) + lowered(b),
        !has_sigma(a.push(c) + b),
    decreases b.len(),
{
    let s = a.push(c) + b;
    assert forall|i: int| 0 <= i < s.len() implies s[i] != '\u{3a3}' by {
        if i < a.len() {
            assert(a.contains(a[i]));
        } else if i > a.len() {
            assert(b.contains(b[i - a.len() - 1]));
        }
    }
    if b.len() == 0 {
        assert(s =~= a.push(c));
        assert(s.drop_last() =~= a);
        assert(lowered(s) =~= lowered(a).push(c) + lowered(b));
    } else {
        let init = b.drop_last();
        assert forall|i: int| 0 <= i < init.len() implies init[i] != '\u{3a3}' by {
            assert(b.contains(b[i]));
        }
        lemma_lowered_part(a, c, init);
        assert(s.drop_last() =~= a.push(c) + init);
        assert(lowered(s) =~= lowered(a).push(c) + lowered(b));
    }
}

/// Texts whose characters have the same lower case have the same lower case.
proof fn lemma_lowered_same(s: Seq<char>, t: Seq<char>)
    requires
        s.len() == t.len(),
        forall|i: int| 0 <= i < s.len() ==> lower(#[trigger] s[i]) == lower(t[i]),
    ensures
        lowered(s) == lowered(t),
    decreases s.len(),
{
    if s.len() > 0 {
        lemma_lowered_same(s.drop_last(), t.drop_last());
        assert(lower(s[s.len() - 1]) == lower(t[s.len() - 1]));
    }
}

/// A text whose characters are their own lower case is its own lower case.
proof fn lemma_lowered_small(s: Seq<char>)
    requires
        forall|i: int| 0 <= i < s.len() ==> lower(#[trigger] s[i]) == seq![s[i]],
    ensures
        lowered(s) == s,
    decreases s.len(),
{
    if s.len() > 0 {
        lemma_lowered_small(s.drop_last());
        assert(lower(s[s.len() - 1]) == seq![s.last()]);
    }
    assert(lowered(s) =~= s);
}

/// Words joined by single spaces: none stands at an end, or next to another.
proof fn lemma_join_spaces(parts: Seq<Seq<char>>)
    requires
        forall|i: int| 0 <= i < parts.len() ==> is_word(#[trigger] parts[i], Delimiter::Space),
    ensures
        parts.len() > 0 ==> join(parts, seq![' ']).len() > 0,
        join(parts, seq![' ']).len() > 0 ==> join(parts, seq![' '])[0] != ' ' && join(
            parts,
            seq![' '],
        ).last() != ' ',
        forall|i: int|
            0 < i < join(parts, seq![' ']).len() && #[trigger] join(parts, seq![' '])[i] == ' '
                ==> join(parts, seq![' '])[i - 1] != ' ',
    decreases parts.len(),
{
    if parts.len() > 0 {
        let last = parts.last();
        assert(is_word(parts[parts.len() - 1], Delimiter::Space));
        assert forall|i: int| 0 <= i < last.len() implies #[trigger] last[i] != ' ' by {
            assert(!Delimiter::Space.has(last[i]));
        }
        if parts.len() > 1 {
            let init = join(parts.drop_last(), seq![' ']);
            lemma_join_spaces(parts.drop_last());
            let s = join(parts, seq![' ']);
            assert(s =~= init.push(' ') + last);
            let n = init.len() as int;
            assert forall|i: int| 0 < i < s.len() && #[trigger] s[i] == ' ' implies s[i - 1]
                != ' ' by {
                if i < n {
                    assert(init[i] == ' ');
                } else if i == n {
                    assert(s[i - 1] == init.last());
                } else {
                    assert(s[i] == last[i - n - 1]);
                }
            }
        }
    }
}

/// Apostrophes leave a text wherever it is cut in two.
proof fn lemma_plain_add(a: Seq<char>, b: Seq<char>)
    ensures
        plain(a + b) == plain(a) + plain(b),
    decreases b.len(),
{
    if b.len() == 0 {
        assert(a + b =~= a);
        assert(plain(a) + plain(b) =~= plain(a));
    } else {
        lemma_plain_add(a, b.drop_last());
        assert((a + b).drop_last() =~= a + b.drop_last());
        assert(plain(a + b) =~= plain(a) + plain(b));
    }
}

/// A name has no words to compare exactly where it is wordless.
proof fn lemma_wordless(s: Seq<char>)
    ensures
        words(plain(s), Delimiter::NotAlnum).len() == 0 <==> is_wordless(s),
{
    lemma_no_words(plain(s), Delimiter::NotAlnum);
    lemma_plain_wordless(s);
}

/// A name is wordless exactly where it holds no letter or digit without its apostrophes.
proof fn lemma_plain_wordless(s: Seq<char>)
    ensures
        all_chars(plain(s), |c: char| Delimiter::NotAlnum.has(c)) <==> is_wordless(s),
    decreases s.len(),
{
    if s.len() > 0 {
        let init = s.drop_last();
        let p = |c: char| Delimiter::NotAlnum.has(c);
        lemma_plain_wordless(init);
        assert(is_wordless(s) <==> is_wordless(init) && (!is_alnum(s.last()) || is_apostrophe(
            s.last(),
        ))) by {
            if is_wordless(s) {
                assert forall|i: int| 0 <= i < init.len() implies !is_alnum(#[trigger] init[i])
                    || is_apostrophe(init[i]) by {
                    assert(init[i] == s[i]);
                }
                assert(s[s.len() - 1] == s.last());
            } else if is_wordless(init) {
                let i = choose|i: int|
                    0 <= i < s.len() && is_alnum(#[trigger] s[i]) && !is_apostrophe(s[i]);
                if i < init.len() {
                    assert(init[i] == s[i]);
                }
            }
        }
        if !is_apostrophe(s.last()) {
            let q = plain(init);
            assert(all_chars(q.push(s.last()), p) <==> all_chars(q, p) && p(s.last())) by {
                if all_chars(q.push(s.last()), p) {
                    assert forall|i: int| 0 <= i < q.len() implies p(#[trigger] q[i]) by {
                        assert(p(q.push(s.last())[i]));
                    }
                    assert(p(q.push(s.last())[q.len() as int]));
                }
            }
        }
    }
}

/// Texts that differ in case alone still do so without their apostrophes.
proof fn lemma_plain_alike(a: Seq<char>, b: Seq<char>)
    requires
        all_alike(a, b),
    ensures
        all_alike(plain(a), plain(b)),
    decreases a.len(),
{
    if a.len() > 0 {
        lemma_plain_alike(a.drop_last(), b.drop_last());
        assert(alike(a[a.len() - 1], b[a.len() - 1]));
    }
}

/// Texts that differ in case alone have the same words in lower case.
proof fn lemma_words_alike(a: Seq<char>, b: Seq<char>)
    requires
        all_alike(a, b),
    ensures
        words(a, Delimiter::NotAlnum).map_values(|w: Seq<char>| lowered(w)) == words(
            b,
            Delimiter::NotAlnum,
        ).map_values(|w: Seq<char>| lowered(w)),
    decreases a.len(),
{
    let k = Delimiter::NotAlnum;
    let low = |w: Seq<char>| lowered(w);
    let end = cut_from(a, k, 0);
    lemma_cut(a, k, 0);
    if end < a.len() {
        assert(alike(a[end], b[end]));
    }
    assert forall|i: int| 0 <= i < end implies !k.has(#[trigger] b[i]) by {
        assert(alike(a[i], b[i]));
        assert(!k.has(a[i]));
    }
    lemma_cut_is(b, k, 0, end);
    assert forall|i: int| 0 <= i < end implies lower(#[trigger] a.take(end)[i]) == lower(
        b.take(end)[i],
    ) by {
        assert(alike(a[i], b[i]));
    }
    lemma_lowered_same(a.take(end), b.take(end));
    if end < a.len() {
        let (ra, rb) = (a.skip(end + 1), b.skip(end + 1));
        assert forall|i: int| 0 <= i < ra.len() implies alike(#[trigger] ra[i], rb[i]) by {
            assert(alike(a[end + 1 + i], b[end + 1 + i]));
        }
        lemma_words_alike(ra, rb);
        let (wa, wb) = (words(ra, k), words(rb, k));
        assert(wa.map_values(low).len() == wb.map_values(low).len());
        assert forall|i: int| 0 <= i < wa.len() implies lowered(#[trigger] wa[i]) == lowered(
            wb[i],
        ) by {
            assert(wa.map_values(low)[i] == wb.map_values(low)[i]);
        }
    }
    assert(words(a, k).map_values(low) =~= words(b, k).map_values(low));
}

/// What is left of a text without its apostrophes: none of them, and nothing that was not there.
proof fn lemma_plain_all(s: Seq<char>, p: spec_fn(char) -> bool)
    requires
        all_chars(s, p),
    ensures
        all_chars(plain(s), |c: char| p(c) && !is_apostrophe(c)),
    decreases s.len(),
{
    if s.len() > 0 {
        assert(p(s[s.len() - 1]));
        assert(all_chars(s.drop_last(), p));
        lemma_plain_all(s.drop_last(), p);
    }
}

/// A word of steady characters in lower case: it is not empty, and its characters are steady forms.
proof fn lemma_lowered_steady(w: Seq<char>)
    requires
        forall|i: int| 0 <= i < w.len() ==> is_steady(#[trigger] w[i]),
    ensures
        w.len() > 0 ==> lowered(w).len() > 0,
        forall|i: int| 0 <= i < lowered(w).len() ==> is_steady_form(#[trigger] lowered(w)[i]),
    decreases w.len(),
{
    if w.len() > 0 {
        let init = w.drop_last();
        lemma_lowered_steady(init);
        assert(is_steady(w[w.len() - 1]));
        assert forall|i: int| 0 <= i < lowered(w).len() implies is_steady_form(
            #[trigger] lowered(w)[i],
        ) by {
            let n = lowered(init).len() as int;
            if i < n {
                assert(lowered(w)[i] == lowered(init)[i]);
            } else {
                assert(lowered(w)[i] == lower(w.last())[i - n]);
            }
        }
    }
}

/// A text without apostrophes is left as it is.
proof fn lemma_plain_same(s: Seq<char>)
    requires
        forall|i: int| 0 <= i < s.len() ==> !is_apostrophe(#[trigger] s[i]),
    ensures
        plain(s) == s,
    decreases s.len(),
{
    if s.len() > 0 {
        lemma_plain_same(s.drop_last());
    }
    assert(plain(s) =~= s);
}

/// The words of a steady name: each is a word still, and stays as it is in lower case.
proof fn lemma_album_words(s: Seq<char>)
    requires
        is_steady_name(s),
    ensures
        forall|i: int|
            0 <= i < album_words(s).len() ==> is_word(
                #[trigger] album_words(s)[i],
                Delimiter::NotAlnum,
            ) && lowered(album_words(s)[i]) == album_words(s)[i],
        forall|i: int, j: int|
            0 <= i < album_words(s).len() && 0 <= j < album_words(s)[i].len() ==> is_steady_form(
                #[trigger] album_words(s)[i][j],
            ),
{
    let k = Delimiter::NotAlnum;
    let p = |c: char| is_alnum(c) && !is_apostrophe(c) ==> is_steady(c);
    let q = |c: char| p(c) && !is_apostrophe(c);
    assert(all_chars(s, p));
    lemma_plain_all(s, p);
    assert(all_chars(plain(s), q));
    lemma_words_all(plain(s), k, q);
    lemma_words(plain(s), k);
    let ws = words(plain(s), k);
    assert forall|i: int| 0 <= i < ws.len() implies is_word(#[trigger] album_words(s)[i], k)
        && lowered(album_words(s)[i]) == album_words(s)[i] && (forall|j: int|
        0 <= j < album_words(s)[i].len() ==> is_steady_form(#[trigger] album_words(s)[i][j])) by {
        let w = ws[i];
        assert(is_word(w, k) && all_chars(w, q));
        assert forall|j: int| 0 <= j < w.len() implies is_steady(#[trigger] w[j]) by {
            assert(!k.has(w[j]) && q(w[j]));
        }
        lemma_lowered_steady(w);
        let l = album_words(s)[i];
        assert(l == lowered(w));
        assert forall|j: int| 0 <= j < l.len() implies !k.has(#[trigger] l[j]) && lower(l[j])
            == seq![l[j]] by {
            assert(is_steady_form(l[j]));
        }
        lemma_lowered_small(l);
    }
}

/// Two lists of texts joined to one.
proof fn lemma_join_add(x: Seq<Seq<char>>, y: Seq<Seq<char>>, sep: Seq<char>)
    ensures
        x.len() == 0 ==> join(x + y, sep) == join(y, sep),
        y.len() == 0 ==> join(x + y, sep) == join(x, sep),
        x.len() > 0 && y.len() > 0 ==> join(x + y, sep) == join(x, sep) + sep + join(y, sep),
    decreases y.len(),
{
    if y.len() == 0 {
        assert(x + y =~= x);
    } else if x.len() == 0 {
        assert(x + y =~= y);
    } else {
        let init = y.drop_last();
        assert((x + y).drop_last() =~= x + init);
        lemma_join_add(x, init, sep);
        if init.len() == 0 {
            assert(join(y, sep) == y.last());
        } else {
            assert(join(x + y, sep) =~= join(x, sep) + sep + join(y, sep));
        }
    }
}

/// What a name is reduced to: the reductions of its parts, with one space between them where both
/// have a word. A part is what a character leaves that is no letter, no digit and no apostrophe.
pub proof fn law_name_parts(a: Seq<char>, c: char, b: Seq<char>)
    requires
        !is_alnum(c),
        c != '\'' && c != '\u{2019}' && c != '\u{02BC}' && c != '`',
    ensures
        ({
            let wordless = |s: Seq<char>|
                forall|i: int|
                    #![trigger s[i]]
                    0 <= i < s.len() ==> !is_alnum(s[i]) || s[i] == '\'' || s[i] == '\u{2019}' || s[i]
                        == '\u{02BC}' || s[i] == '`';
            let out = album_name(a.push(c) + b);
            &&& wordless(a) ==> out == album_name(b) && album_name(a).len() == 0
            &&& wordless(b) ==> out == album_name(a) && album_name(b).len() == 0
            &&& !wordless(a) && !wordless(b) ==> out == album_name(a) + seq![' '] + album_name(b)
        }),
{
    let k = Delimiter::NotAlnum;
    let wordless = |s: Seq<char>|
        forall|i: int|
            #![trigger s[i]]
            0 <= i < s.len() ==> !is_alnum(s[i]) || s[i] == '\'' || s[i] == '\u{2019}' || s[i]
                == '\u{02BC}' || s[i] == '`';
    assert(wordless(a) == is_wordless(a));
    assert(wordless(b) == is_wordless(b));
    lemma_wordless(a);
    lemma_wordless(b);
    lemma_plain_add(a.push(c), b);
    assert(a.push(c).drop_last() =~= a);
    assert(plain(a.push(c) + b) == plain(a).push(c) + plain(b));
    lemma_words_part(plain(a), c, plain(b), k);
    assert(album_words(a.push(c) + b) =~= album_words(a) + album_words(b));
    lemma_join_add(album_words(a), album_words(b), seq![' ']);
}

/// A run of letters and digits is reduced to its lower case, letter by letter; apostrophes inside
/// a name leave no trace.
pub proof fn law_name_run(w: Seq<char>, c: char, a: Seq<char>, q: char, b: Seq<char>)
    requires
        forall|i: int|
            #![trigger w[i]]
            0 <= i < w.len() ==> is_alnum(w[i]) && w[i] != '\'' && w[i] != '\u{2019}' && w[i]
                != '\u{02BC}' && w[i] != '`',
        is_alnum(c) && c != '\'' && c != '\u{2019}' && c != '\u{02BC}' && c != '`',
        q == '\'' || q == '\u{2019}' || q == '\u{02BC}' || q == '`',
    ensures
        album_name(seq![]).len() == 0,
        album_name(w.push(c)) == album_name(w) + lower(c),
        album_name(a.push(q) + b) == album_name(a + b),
{
    law_apostrophes(a, q, b);
    let none = Seq::<char>::empty();
    lemma_name_run(none);
    lemma_name_run(w);
    lemma_name_run(w.push(c));
    assert(w.push(c).drop_last() =~= w);
}

/// A run of letters and digits is reduced to its lower case.
proof fn lemma_name_run(w: Seq<char>)
    requires
        forall|i: int| 0 <= i < w.len() ==> is_alnum(#[trigger] w[i]) && !is_apostrophe(w[i]),
    ensures
        album_name(w) == lowered(w),
{
    let k = Delimiter::NotAlnum;
    lemma_plain_same(w);
    lemma_cut_is(w, k, 0, w.len() as int);
    assert(w.take(w.len() as int) =~= w);
    if w.len() > 0 {
        assert(album_words(w) =~= seq![lowered(w)]);
    } else {
        assert(album_words(w) =~= seq![]);
        assert(lowered(w) =~= seq![]);
    }
}

/// Titles agree exactly where they are reduced to the same text, which is not empty, and in part
/// where what was asked for stands anywhere in what was found.
pub proof fn law_agreement(found: Seq<char>, requested: Seq<char>)
    ensures
        ({
            let (f, r) = (album_name(found), album_name(requested));
            let inside = exists|i: int|
                0 <= i <= f.len() - r.len() && #[trigger] f.subrange(i, i + r.len()) == r;
            &&& agreement(found, requested) == NameMatch::Exact <==> f == r && r.len() > 0
            &&& agreement(found, requested) == NameMatch::Partial <==> f != r && r.len() > 0 && inside
        }),
{
    let (f, r) = (album_name(found), album_name(requested));
    if contains(f, r) {
        let i = choose|i: int| occurs_at(f, r, i);
        assert(f.subrange(i, i + r.len()) == r);
    }
    if exists|i: int| 0 <= i <= f.len() - r.len() && #[trigger] f.subrange(i, i + r.len()) == r {
        let i = choose|i: int|
            0 <= i <= f.len() - r.len() && #[trigger] f.subrange(i, i + r.len()) == r;
        assert(occurs_at(f, r, i));
    }
}

/// The form of a name in a key: that of its parts, with one space between them where both have
/// one. A part is what a character of the lower case leaves that is no letter and no digit. What is
/// all letters and digits is its own lower case.
pub proof fn law_key_parts(s: Seq<char>, a: Seq<char>, c: char, b: Seq<char>)
    requires
        text_lower(s) == text_lower(a).push(c) + text_lower(b),
        !is_alnum(c),
    ensures
        key_name(a).len() == 0 ==> key_name(s) == key_name(b),
        key_name(b).len() == 0 ==> key_name(s) == key_name(a),
        key_name(a).len() > 0 && key_name(b).len() > 0 ==> key_name(s) == key_name(a) + seq![' ']
            + key_name(b),
{
    let k = Delimiter::Space;
    let form = |t: Seq<char>| t.map_values(|c: char| key_char(c));
    let (fa, fb) = (form(text_lower(a)), form(text_lower(b)));
    assert(form(text_lower(s)) =~= fa.push(' ') + fb);
    lemma_words_part(fa, ' ', fb, k);
    lemma_join_add(words(fa, k), words(fb, k), seq![' ']);
    lemma_words(fa, k);
    lemma_words(fb, k);
    lemma_join_spaces(words(fa, k));
    lemma_join_spaces(words(fb, k));
}

/// A name whose lower case is all letters and digits stands in a key as its lower case.
pub proof fn law_key_run(w: Seq<char>)
    requires
        forall|i: int|
            0 <= i < text_lower(w).len() ==> is_alnum(#[trigger] text_lower(w)[i]) && !is_space(
                text_lower(w)[i],
            ),
    ensures
        key_name(w) == text_lower(w),
{
    let t = text_lower(w);
    let k = Delimiter::Space;
    let mapped = t.map_values(|c: char| key_char(c));
    assert(mapped =~= t);
    lemma_cut_is(t, k, 0, t.len() as int);
    assert(t.take(t.len() as int) =~= t);
    if t.len() > 0 {
        assert(words(mapped, k) =~= seq![t]);
    } else {
        assert(words(mapped, k) =~= seq![]);
        assert(key_name(w) =~= t);
    }
}

/// The words of a name in the form of a key are all the runs of letters and digits of its lower
/// case.
proof fn lemma_key_words(u: Seq<char>)
    requires
        forall|i: int| 0 <= i < u.len() && is_alnum(#[trigger] u[i]) ==> !is_space(u[i]),
    ensures
        words(u.map_values(|c: char| key_char(c)), Delimiter::Space) == words(
            u,
            Delimiter::NotAlnum,
        ),
    decreases u.len(),
{
    let (k, d) = (Delimiter::NotAlnum, Delimiter::Space);
    let m = u.map_values(|c: char| key_char(c));
    let end = cut_from(u, k, 0);
    lemma_cut(u, k, 0);
    assert forall|i: int| 0 <= i < end implies !d.has(#[trigger] m[i]) by {
        assert(!k.has(u[i]));
    }
    lemma_cut_is(m, d, 0, end);
    assert(m.take(end) =~= u.take(end)) by {
        assert forall|i: int| 0 <= i < end implies m[i] == u[i] by {
            assert(!k.has(u[i]));
        }
    }
    if end < u.len() {
        let rest = u.skip(end + 1);
        assert(m.skip(end + 1) =~= rest.map_values(|c: char| key_char(c)));
        assert forall|i: int| 0 <= i < rest.len() && is_alnum(#[trigger] rest[i]) implies !is_space(
            rest[i],
        ) by {
            assert(rest[i] == u[end + 1 + i]);
        }
        lemma_key_words(rest);
    }
    assert(words(m, d) =~= words(u, k));
}

/// Names have the same form in a key exactly where their lower cases have the same runs of letters
/// and digits, all of them and in the same order.
pub proof fn law_key_words(s: Seq<char>, t: Seq<char>)
    requires
        forall|i: int|
            0 <= i < text_lower(s).len() && is_alnum(#[trigger] text_lower(s)[i]) ==> !is_space(
                text_lower(s)[i],
            ),
        forall|i: int|
            0 <= i < text_lower(t).len() && is_alnum(#[trigger] text_lower(t)[i]) ==> !is_space(
                text_lower(t)[i],
            ),
    ensures
        key_name(s) == key_name(t) <==> words(text_lower(s), Delimiter::NotAlnum) == words(
            text_lower(t),
            Delimiter::NotAlnum,
        ),
        words(key_name(s), Delimiter::Space) == words(text_lower(s), Delimiter::NotAlnum),
{
    let d = Delimiter::Space;
    lemma_key_words(text_lower(s));
    lemma_key_words(text_lower(t));
    let form = |u: Seq<char>| u.map_values(|c: char| key_char(c));
    lemma_words(form(text_lower(s)), d);
    lemma_words(form(text_lower(t)), d);
    lemma_words_join(words(form(text_lower(s)), d), ' ', d);
    lemma_words_join(words(form(text_lower(t)), d), ' ', d);
}

/// Albums with names in ASCII share a row exactly where artist and title have the same words, case
/// apart.
pub proof fn law_album_row(
    artist: Seq<char>,
    title: Seq<char>,
    artist2: Seq<char>,
    title2: Seq<char>,
)
    requires
        all_ascii(artist) && all_ascii(title) && all_ascii(artist2) && all_ascii(title2),
    ensures
        ({
            let runs = |s: Seq<char>|
                words(s.map_values(|c: char| ascii_lower(c)), Delimiter::NotAlnum);
            album_key(artist, title) == album_key(artist2, title2) <==> runs(artist) == runs(artist2)
                && runs(title) == runs(title2)
        }),
{
    law_keys(artist, title, artist2, title2);
    law_ascii_case(artist);
    law_ascii_case(title);
    law_ascii_case(artist2);
    law_ascii_case(title2);
    law_key_words(artist, artist2);
    law_key_words(title, title2);
}

/// The key of an album: what it is a key of, and the two names, of which the first holds no bar.
pub proof fn law_key_layout(artist: Seq<char>, title: Seq<char>)
    ensures
        album_key(artist, title) == "motion:"@ + key_name(artist) + seq!['|'] + key_name(title),
        forall|i: int| 0 <= i < key_name(artist).len() ==> #[trigger] key_name(artist)[i] != '|',
{
    reveal_strlit("|");
    law_key_shape(artist);
    assert(album_key(artist, title) =~= "motion:"@ + key_name(artist) + seq!['|'] + key_name(
        title,
    ));
}

} // verus!
