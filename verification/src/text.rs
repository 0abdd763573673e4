//! Searching, splitting and trimming of texts, as sequences of characters.

use vstd::prelude::*;

use crate::chars::{ascii_digit, ascii_letter, is_alnum, is_ascii_alnum, is_space};

verus! {

/// The sets of characters at which texts are cut apart.
#[derive(Clone, Copy)]
pub enum Delimiter {
    /// One given character.
    Char(char),
    /// White space.
    Space,
    /// A comma or white space.
    CommaOrSpace,
    /// A quotation mark of either kind, or white space.
    QuoteOrSpace,
    /// A slash or a question mark.
    SlashOrQuery,
    /// Everything that is neither a letter nor a digit.
    NotAlnum,
    /// Everything outside the alphabet of dotted base64url.
    NotToken,
}

/// The alphabet of base64url, and the dot that joins its segments.
pub open spec fn is_token_char(c: char) -> bool {
    is_ascii_alnum(c) || c == '-' || c == '_' || c == '.'
}

impl Delimiter {
    /// Whether `c` belongs to the set.
    pub open spec fn has(self, c: char) -> bool {
        match self {
            Delimiter::Char(d) => c == d,
            Delimiter::Space => is_space(c),
            Delimiter::CommaOrSpace => c == ',' || is_space(c),
            Delimiter::QuoteOrSpace => c == '"' || c == '\'' || is_space(c),
            Delimiter::SlashOrQuery => c == '/' || c == '?',
            Delimiter::NotAlnum => !is_alnum(c),
            Delimiter::NotToken => !is_token_char(c),
        }
    }

    /// Whether `c` belongs to the set.
    pub fn cuts(self, c: char) -> (b: bool)
        ensures
            b == self.has(c),
    {
        match self {
            Delimiter::Char(d) => c == d,
            Delimiter::Space => c.is_whitespace(),
            Delimiter::CommaOrSpace => c == ',' || c.is_whitespace(),
            Delimiter::QuoteOrSpace => c == '"' || c == '\'' || c.is_whitespace(),
            Delimiter::SlashOrQuery => c == '/' || c == '?',
            Delimiter::NotAlnum => !c.is_alphanumeric(),
            Delimiter::NotToken => !(ascii_letter(c) || ascii_digit(c) || c == '-' || c == '_'
                || c == '.'),
        }
    }
}

/// The first position from `from` on that holds a delimiter; the length where none does.
pub open spec fn cut_from(s: Seq<char>, d: Delimiter, from: int) -> int
    decreases s.len() - from,
{
    if from >= s.len() {
        s.len() as int
    } else if d.has(s[from]) {
        from
    } else {
        cut_from(s, d, from + 1)
    }
}

/// What comes before the first delimiter; all of it where there is none.
pub open spec fn before(s: Seq<char>, d: Delimiter) -> Seq<char> {
    s.take(cut_from(s, d, 0))
}

/// The pieces between delimiters, empty ones included.
pub open spec fn pieces(s: Seq<char>, d: Delimiter) -> Seq<Seq<char>>
    decreases s.len(),
{
    let end = cut_from(s, d, 0);
    proof {
        lemma_cut(s, d, 0);
    }
    if end >= s.len() {
        seq![s]
    } else {
        seq![s.take(end)] + pieces(s.skip(end + 1), d)
    }
}

/// The pieces between delimiters that hold at least one character.
pub open spec fn words(s: Seq<char>, d: Delimiter) -> Seq<Seq<char>>
    decreases s.len(),
{
    let end = cut_from(s, d, 0);
    proof {
        lemma_cut(s, d, 0);
    }
    let first = if end > 0 {
        seq![s.take(end)]
    } else {
        seq![]
    };
    if end >= s.len() {
        first
    } else {
        first + words(s.skip(end + 1), d)
    }
}

/// A text of whose characters `p` holds.
pub open spec fn all_chars(s: Seq<char>, p: spec_fn(char) -> bool) -> bool {
    forall|i: int| 0 <= i < s.len() ==> p(#[trigger] s[i])
}

/// A text of at least one character and without delimiters.
pub open spec fn is_word(s: Seq<char>, d: Delimiter) -> bool {
    s.len() > 0 && forall|i: int| 0 <= i < s.len() ==> !d.has(#[trigger] s[i])
}

/// Texts one after the other, with `sep` between each two of them.
pub open spec fn join(parts: Seq<Seq<char>>, sep: Seq<char>) -> Seq<char>
    decreases parts.len(),
{
    if parts.len() == 0 {
        seq![]
    } else if parts.len() == 1 {
        parts[0]
    } else {
        join(parts.drop_last(), sep) + sep + parts.last()
    }
}

/// Whether `pat` stands in `s` at position `i`.
pub open spec fn occurs_at(s: Seq<char>, pat: Seq<char>, i: int) -> bool {
    &&& 0 <= i
    &&& i + pat.len() <= s.len()
    &&& s.subrange(i, i + pat.len()) == pat
}

/// The first position from `from` on at which `pat` stands in `s`.
pub open spec fn find_from(s: Seq<char>, pat: Seq<char>, from: int) -> Option<int>
    decreases s.len() - from + 1,
{
    if from + pat.len() > s.len() {
        None
    } else if occurs_at(s, pat, from) {
        Some(from)
    } else {
        find_from(s, pat, from + 1)
    }
}

/// Whether `pat` stands anywhere in `s`.
pub open spec fn contains(s: Seq<char>, pat: Seq<char>) -> bool {
    exists|i: int| occurs_at(s, pat, i)
}

/// What follows the first occurrence of `mark`, up to the second one where there is one.
pub open spec fn after_mark(s: Seq<char>, mark: Seq<char>) -> Option<Seq<char>> {
    match find_from(s, mark, 0) {
        None => None,
        Some(at) => {
            let rest = s.skip(at + mark.len());
            match find_from(rest, mark, 0) {
                None => Some(rest),
                Some(again) => Some(rest.take(again)),
            }
        },
    }
}

/// A text without the white space at its end.
pub open spec fn trim_end(s: Seq<char>) -> Seq<char>
    decreases s.len(),
{
    if s.len() > 0 && is_space(s.last()) {
        trim_end(s.drop_last())
    } else {
        s
    }
}

/// A text without the white space at its start.
pub open spec fn trim_start(s: Seq<char>) -> Seq<char>
    decreases s.len(),
{
    if s.len() > 0 && is_space(s[0]) {
        trim_start(s.drop_first())
    } else {
        s
    }
}

/// A text without the white space at its two ends.
pub open spec fn trim(s: Seq<char>) -> Seq<char> {
    trim_end(trim_start(s))
}

/// The texts that some slices hold.
pub open spec fn slices(v: Seq<&[char]>) -> Seq<Seq<char>> {
    v.map_values(|t: &[char]| t@)
}

/// The texts that some strings hold.
pub open spec fn strings(v: Seq<String>) -> Seq<Seq<char>> {
    v.map_values(|t: String| t@)
}

/// The text of an optional string.
pub open spec fn optional(o: Option<String>) -> Option<Seq<char>> {
    match o {
        Some(s) => Some(s@),
        None => None,
    }
}

/// `cut_from` is what it says: the first delimiter from `from` on, or the length.
pub proof fn lemma_cut(s: Seq<char>, d: Delimiter, from: int)
    requires
        0 <= from <= s.len(),
    ensures
        from <= cut_from(s, d, from) <= s.len(),
        cut_from(s, d, from) < s.len() ==> d.has(s[cut_from(s, d, from)]),
        forall|i: int| from <= i < cut_from(s, d, from) ==> !d.has(#[trigger] s[i]),
    decreases s.len() - from,
{
    if from < s.len() && !d.has(s[from]) {
        lemma_cut(s, d, from + 1);
    }
}

/// A position that fits the description of the first delimiter is `cut_from`.
pub proof fn lemma_cut_is(s: Seq<char>, d: Delimiter, from: int, end: int)
    requires
        0 <= from <= end <= s.len(),
        end < s.len() ==> d.has(s[end]),
        forall|i: int| from <= i < end ==> !d.has(#[trigger] s[i]),
    ensures
        cut_from(s, d, from) == end,
    decreases end - from,
{
    if from < end {
        lemma_cut_is(s, d, from + 1, end);
    }
}

/// A delimiter parts the words before it from the words behind it.
pub proof fn lemma_words_part(a: Seq<char>, c: char, b: Seq<char>, d: Delimiter)
    requires
        d.has(c),
    ensures
        words(a.push(c) + b, d) == words(a, d) + words(b, d),
    decreases a.len(),
{
    let s = a.push(c) + b;
    let end = cut_from(a, d, 0);
    lemma_cut(a, d, 0);
    lemma_cut_is(s, d, 0, end);
    assert(s.take(end) =~= a.take(end));
    if end == a.len() {
        assert(a.take(end) =~= a);
        assert(s.skip(end + 1) =~= b);
        assert(words(s, d) =~= words(a, d) + words(b, d));
    } else {
        let rest = a.skip(end + 1);
        assert(s.skip(end + 1) =~= rest.push(c) + b);
        lemma_words_part(rest, c, b, d);
        assert(words(s, d) =~= words(a, d) + words(b, d));
    }
}

/// Words hold at least one character each, and no delimiter.
pub proof fn lemma_words(s: Seq<char>, d: Delimiter)
    ensures
        forall|i: int| 0 <= i < words(s, d).len() ==> is_word(#[trigger] words(s, d)[i], d),
    decreases s.len(),
{
    let end = cut_from(s, d, 0);
    lemma_cut(s, d, 0);
    if end < s.len() {
        let rest = s.skip(end + 1);
        lemma_words(rest, d);
        let shift: int = if end > 0 {
            1
        } else {
            0
        };
        assert forall|i: int| 0 <= i < words(s, d).len() implies is_word(
            #[trigger] words(s, d)[i],
            d,
        ) by {
            if i >= shift {
                assert(words(s, d)[i] == words(rest, d)[i - shift]);
            }
        }
    }
}

/// A text has no words exactly where it holds nothing but delimiters.
pub proof fn lemma_no_words(s: Seq<char>, d: Delimiter)
    ensures
        words(s, d).len() == 0 <==> all_chars(s, |c: char| d.has(c)),
    decreases s.len(),
{
    let end = cut_from(s, d, 0);
    lemma_cut(s, d, 0);
    let p = |c: char| d.has(c);
    if end > 0 {
        assert(!p(s[0]));
    } else if s.len() > 0 {
        let rest = s.skip(1);
        lemma_no_words(rest, d);
        if all_chars(rest, p) {
            assert forall|i: int| 0 <= i < s.len() implies p(#[trigger] s[i]) by {
                if i > 0 {
                    assert(p(rest[i - 1]));
                }
            }
        }
        if all_chars(s, p) {
            assert forall|i: int| 0 <= i < rest.len() implies p(#[trigger] rest[i]) by {
                assert(p(s[i + 1]));
            }
        }
    }
}

/// What holds of every character of a text holds of every character of its words.
pub proof fn lemma_words_all(s: Seq<char>, d: Delimiter, p: spec_fn(char) -> bool)
    requires
        all_chars(s, p),
    ensures
        forall|i: int| 0 <= i < words(s, d).len() ==> all_chars(#[trigger] words(s, d)[i], p),
    decreases s.len(),
{
    let end = cut_from(s, d, 0);
    lemma_cut(s, d, 0);
    assert(all_chars(s.take(end), p));
    if end < s.len() {
        let rest = s.skip(end + 1);
        lemma_words_all(rest, d, p);
        let shift: int = if end > 0 {
            1
        } else {
            0
        };
        assert forall|i: int| 0 <= i < words(s, d).len() implies all_chars(
            #[trigger] words(s, d)[i],
            p,
        ) by {
            if i >= shift {
                assert(words(s, d)[i] == words(rest, d)[i - shift]);
            }
        }
    }
}

/// What holds of every character of some texts, and of the one between them, holds of every
/// character of what they are joined to.
pub proof fn lemma_join_all(parts: Seq<Seq<char>>, c: char, p: spec_fn(char) -> bool)
    requires
        p(c),
        forall|i: int| 0 <= i < parts.len() ==> all_chars(#[trigger] parts[i], p),
    ensures
        all_chars(join(parts, seq![c]), p),
    decreases parts.len(),
{
    if parts.len() > 1 {
        lemma_join_all(parts.drop_last(), c, p);
    }
}

/// Words that are joined by a delimiter can be told apart again.
pub proof fn lemma_words_join(parts: Seq<Seq<char>>, c: char, d: Delimiter)
    requires
        d.has(c),
        forall|i: int| 0 <= i < parts.len() ==> is_word(#[trigger] parts[i], d),
    ensures
        words(join(parts, seq![c]), d) == parts,
    decreases parts.len(),
{
    if parts.len() > 0 {
        let last = parts.last();
        lemma_cut_is(last, d, 0, last.len() as int);
        assert(last.take(last.len() as int) =~= last);
        assert(words(last, d) =~= seq![last]);
        if parts.len() == 1 {
            assert(parts =~= seq![last]);
        } else {
            let init = parts.drop_last();
            lemma_words_join(init, c, d);
            lemma_words_part(join(init, seq![c]), c, last, d);
            assert(join(parts, seq![c]) =~= join(init, seq![c]).push(c) + last);
            assert(init + seq![last] =~= parts);
        }
    } else {
        assert(words(join(parts, seq![c]), d) =~= parts);
    }
}

/// `find_from` is what it says: the first occurrence from `from` on, if there is any.
pub proof fn lemma_find(s: Seq<char>, pat: Seq<char>, from: int)
    requires
        0 <= from,
    ensures
        match find_from(s, pat, from) {
            Some(at) => {
                &&& from <= at
                &&& occurs_at(s, pat, at)
                &&& forall|i: int| from <= i < at ==> !occurs_at(s, pat, i)
            },
            None => forall|i: int| from <= i ==> !occurs_at(s, pat, i),
        },
    decreases s.len() - from + 1,
{
    if from + pat.len() <= s.len() && !occurs_at(s, pat, from) {
        lemma_find(s, pat, from + 1);
    }
}

/// The characters of a string.
pub fn chars(s: &str) -> (out: Vec<char>)
    ensures
        out@ == s@,
{
    let mut out: Vec<char> = Vec::new();
    for c in it: s.chars()
        invariant
            out@ == s@.take(it.index()),
            it.seq() == s@,
    {
        out.push(c);
    }
    out
}

/// The string made of some characters.
pub fn string(cs: &[char]) -> (out: String)
    ensures
        out@ == cs@,
{
    let mut out: String = String::new();
    for i in 0..cs.len()
        invariant
            out@ == cs@.take(i as int),
    {
        out.push(cs[i]);
    }
    out
}

/// The position of the first delimiter from `from` on; the length where there is none.
pub fn cut(s: &[char], d: Delimiter, from: usize) -> (end: usize)
    requires
        from <= s@.len(),
    ensures
        end == cut_from(s@, d, from as int),
        from <= end <= s@.len(),
{
    let mut i: usize = from;
    while i < s.len() && !d.cuts(s[i])
        invariant
            from <= i <= s@.len(),
            cut_from(s@, d, from as int) == cut_from(s@, d, i as int),
        decreases s@.len() - i,
    {
        i = i + 1;
    }
    i
}

/// What comes before the first delimiter.
pub fn head<'a>(s: &'a [char], d: Delimiter) -> (out: &'a [char])
    ensures
        out@ == before(s@, d),
{
    let end: usize = cut(s, d, 0);
    &s[0..end]
}

/// The pieces between delimiters, empty ones included.
pub fn split<'a>(s: &'a [char], d: Delimiter) -> (out: Vec<&'a [char]>)
    ensures
        slices(out@) == pieces(s@, d),
{
    let mut out: Vec<&'a [char]> = Vec::new();
    let mut rest: &'a [char] = s;
    assert(slices(out@) + pieces(rest@, d) =~= pieces(s@, d));
    loop
        invariant
            slices(out@) + pieces(rest@, d) == pieces(s@, d),
        decreases rest@.len(),
    {
        let end: usize = cut(rest, d, 0);
        let ghost acc = slices(out@);
        out.push(&rest[0..end]);
        proof {
            assert(slices(out@) =~= acc.push(rest@.take(end as int)));
        }
        if end == rest.len() {
            assert(rest@.take(end as int) =~= rest@);
            return out;
        }
        let next: &'a [char] = &rest[end + 1..rest.len()];
        proof {
            assert(next@ =~= rest@.skip(end + 1));
            assert(slices(out@) + pieces(next@, d) =~= acc + pieces(rest@, d));
        }
        rest = next;
    }
}

/// The pieces between delimiters that hold at least one character.
pub fn split_words<'a>(s: &'a [char], d: Delimiter) -> (out: Vec<&'a [char]>)
    ensures
        slices(out@) == words(s@, d),
{
    let mut out: Vec<&'a [char]> = Vec::new();
    let mut rest: &'a [char] = s;
    assert(slices(out@) + words(rest@, d) =~= words(s@, d));
    loop
        invariant
            slices(out@) + words(rest@, d) == words(s@, d),
        decreases rest@.len(),
    {
        let end: usize = cut(rest, d, 0);
        let ghost acc = slices(out@);
        if end > 0 {
            out.push(&rest[0..end]);
            assert(slices(out@) =~= acc.push(rest@.take(end as int)));
        }
        if end == rest.len() {
            assert(slices(out@) =~= acc + words(rest@, d));
            return out;
        }
        let next: &'a [char] = &rest[end + 1..rest.len()];
        proof {
            assert(next@ =~= rest@.skip(end + 1));
            assert(slices(out@) + words(next@, d) =~= acc + words(rest@, d));
        }
        rest = next;
    }
}

/// Whether `pat` stands in `s` at position `i`.
fn stands_at(s: &[char], pat: &[char], i: usize) -> (b: bool)
    requires
        i + pat@.len() <= s@.len(),
    ensures
        b == occurs_at(s@, pat@, i as int),
{
    let len: usize = s.len();
    let ghost window = s@.subrange(i as int, i + pat@.len());
    for k in 0..pat.len()
        invariant
            i + pat@.len() <= s@.len() == len,
            window == s@.subrange(i as int, i + pat@.len()),
            window.take(k as int) == pat@.take(k as int),
    {
        if s[i + k] != pat[k] {
            assert(window[k as int] != pat@[k as int]);
            return false;
        }
        assert(window.take(k + 1) =~= window.take(k as int).push(window[k as int]));
        assert(pat@.take(k + 1) =~= pat@.take(k as int).push(pat@[k as int]));
    }
    assert(window.take(pat@.len() as int) =~= window);
    assert(pat@.take(pat@.len() as int) =~= pat@);
    true
}

/// The first position at which `pat` stands in `s`.
pub fn find(s: &[char], pat: &[char]) -> (at: Option<usize>)
    ensures
        match at {
            Some(i) => find_from(s@, pat@, 0) == Some(i as int) && i + pat@.len() <= s@.len(),
            None => find_from(s@, pat@, 0) is None,
        },
{
    if pat.len() > s.len() {
        return None;
    }
    let mut i: usize = 0;
    while i <= s.len() - pat.len()
        invariant
            pat@.len() <= s@.len(),
            i <= s@.len() - pat@.len() + 1,
            find_from(s@, pat@, 0) == find_from(s@, pat@, i as int),
        decreases s@.len() - pat@.len() + 1 - i,
    {
        if stands_at(s, pat, i) {
            return Some(i);
        }
        if i == s.len() - pat.len() {
            assert(find_from(s@, pat@, i + 1) is None);
            return None;
        }
        i = i + 1;
    }
    None
}

/// Whether `pat` stands anywhere in `s`.
pub fn has(s: &[char], pat: &[char]) -> (b: bool)
    ensures
        b == contains(s@, pat@),
{
    proof {
        lemma_find(s@, pat@, 0);
    }
    match find(s, pat) {
        Some(_) => true,
        None => false,
    }
}

/// Whether `s` begins with `prefix`.
pub fn starts_with(s: &[char], prefix: &str) -> (b: bool)
    ensures
        b == prefix@.is_prefix_of(s@),
{
    let p: Vec<char> = chars(prefix);
    p.len() <= s.len() && stands_at(s, &p, 0)
}

/// Whether `s` ends with `suffix`.
pub fn ends_with(s: &[char], suffix: &str) -> (b: bool)
    ensures
        b == suffix@.is_suffix_of(s@),
{
    let p: Vec<char> = chars(suffix);
    p.len() <= s.len() && stands_at(s, &p, s.len() - p.len())
}

/// What follows the first occurrence of `mark`, up to the second one where there is one.
pub fn past<'a>(s: &'a [char], mark: &str) -> (out: Option<&'a [char]>)
    ensures
        match out {
            Some(t) => after_mark(s@, mark@) == Some(t@),
            None => after_mark(s@, mark@) is None,
        },
{
    let m: Vec<char> = chars(mark);
    match find(s, &m) {
        None => None,
        Some(at) => {
            let len: usize = s.len();
            let rest: &'a [char] = &s[at + m.len()..len];
            assert(rest@ =~= s@.skip(at + m@.len()));
            match find(rest, &m) {
                None => Some(rest),
                Some(again) => {
                    let piece: &'a [char] = &rest[0..again];
                    assert(piece@ =~= rest@.take(again as int));
                    Some(piece)
                },
            }
        },
    }
}

/// A text without the white space at its two ends.
pub fn trimmed<'a>(s: &'a [char]) -> (out: &'a [char])
    ensures
        out@ == trim(s@),
{
    let mut i: usize = 0;
    assert(s@.subrange(0, s@.len() as int) =~= s@);
    while i < s.len() && s[i].is_whitespace()
        invariant
            i <= s@.len(),
            trim_start(s@) == trim_start(s@.subrange(i as int, s@.len() as int)),
        decreases s@.len() - i,
    {
        assert(s@.subrange(i as int, s@.len() as int).drop_first() =~= s@.subrange(
            i + 1,
            s@.len() as int,
        ));
        i = i + 1;
    }
    let ghost start = s@.subrange(i as int, s@.len() as int);
    let mut j: usize = s.len();
    while i < j && s[j - 1].is_whitespace()
        invariant
            i <= j <= s@.len(),
            trim_end(start) == trim_end(s@.subrange(i as int, j as int)),
        decreases j,
    {
        assert(s@.subrange(i as int, j as int).drop_last() =~= s@.subrange(i as int, j - 1));
        j = j - 1;
    }
    &s[i..j]
}

/// Texts one after the other, with `sep` between each two of them.
pub fn joined(parts: &Vec<&[char]>, sep: char) -> (out: String)
    ensures
        out@ == join(slices(parts@), seq![sep]),
{
    let mut out: String = String::new();
    for i in 0..parts.len()
        invariant
            out@ == join(slices(parts@).take(i as int), seq![sep]),
    {
        let ghost all = slices(parts@);
        proof {
            assert(all.take(i + 1).drop_last() =~= all.take(i as int));
            assert(all.take(i + 1).last() == parts@[i as int]@);
        }
        if i > 0 {
            out.push(sep);
        }
        let part: &[char] = parts[i];
        let ghost acc = out@;
        for k in 0..part.len()
            invariant
                out@ == acc + part@.take(k as int),
        {
            out.push(part[k]);
            assert(part@.take(k + 1) =~= part@.take(k as int).push(part@[k as int]));
        }
        assert(part@.take(part@.len() as int) =~= part@);
    }
    assert(slices(parts@).take(parts@.len() as int) =~= slices(parts@));
    out
}

/// Whether two texts hold the same characters.
pub fn same(a: &[char], b: &[char]) -> (r: bool)
    ensures
        r == (a@ == b@),
{
    if a.len() != b.len() {
        return false;
    }
    let r: bool = stands_at(a, b, 0);
    assert(a@.subrange(0, a@.len() as int) =~= a@);
    r
}

/// What comes before a delimiter is found by it.
pub proof fn lemma_before(a: Seq<char>, tail: Seq<char>, d: Delimiter)
    requires
        forall|i: int| 0 <= i < a.len() ==> !d.has(#[trigger] a[i]),
        tail.len() == 0 || d.has(tail[0]),
    ensures
        cut_from(a + tail, d, 0) == a.len(),
        before(a + tail, d) == a,
{
    let s = a + tail;
    assert forall|i: int| 0 <= i < a.len() implies !d.has(#[trigger] s[i]) by {
        assert(s[i] == a[i]);
    }
    lemma_cut_is(s, d, 0, a.len() as int);
    assert(s.take(a.len() as int) =~= a);
}

/// A position that fits the description of the first occurrence is `find_from`.
pub proof fn lemma_find_is(s: Seq<char>, pat: Seq<char>, at: int)
    requires
        occurs_at(s, pat, at),
        forall|i: int| 0 <= i < at ==> !occurs_at(s, pat, i),
    ensures
        find_from(s, pat, 0) == Some(at),
{
    lemma_find(s, pat, 0);
}

/// A mark that ends in a sign of its own stands first behind a text that does not hold it.
pub proof fn lemma_mark_first(front: Seq<char>, mark: Seq<char>, rest: Seq<char>)
    requires
        mark.len() > 0,
        forall|k: int| 0 <= k < mark.len() - 1 ==> #[trigger] mark[k] != mark.last(),
        !contains(front, mark),
    ensures
        find_from(front + mark + rest, mark, 0) == Some(front.len() as int),
{
    let s = front + mark + rest;
    let n = mark.len() as int;
    let at = front.len() as int;
    assert(s.subrange(at, at + n) =~= mark);
    assert forall|i: int| 0 <= i < at implies !occurs_at(s, mark, i) by {
        if occurs_at(s, mark, i) {
            let w = s.subrange(i, i + n);
            if i + n <= at {
                assert(front.subrange(i, i + n) =~= w);
                assert(occurs_at(front, mark, i));
            } else {
                assert(w[n - 1] == s[i + n - 1]);
                assert(s[i + n - 1] == mark[i + n - 1 - at]);
            }
        }
    }
    lemma_find_is(s, mark, at);
}

/// What follows a mark that stands first.
pub proof fn lemma_after_mark(front: Seq<char>, mark: Seq<char>, rest: Seq<char>)
    requires
        mark.len() > 0,
        forall|k: int| 0 <= k < mark.len() - 1 ==> #[trigger] mark[k] != mark.last(),
        !contains(front, mark),
    ensures
        after_mark(front + mark + rest, mark) == Some(
            match find_from(rest, mark, 0) {
                Some(again) => rest.take(again),
                None => rest,
            },
        ),
{
    lemma_mark_first(front, mark, rest);
    let s = front + mark + rest;
    assert(s.skip((front.len() + mark.len()) as int) =~= rest);
}

/// White space at the start of a text is what `trim_start` takes away.
proof fn lemma_trim_start(a: Seq<char>, u: Seq<char>)
    requires
        forall|i: int| 0 <= i < a.len() ==> is_space(#[trigger] a[i]),
        u.len() > 0 ==> !is_space(u[0]),
    ensures
        trim_start(a + u) == u,
    decreases a.len(),
{
    let s = a + u;
    if a.len() > 0 {
        assert(is_space(a[0]) && s[0] == a[0]);
        assert(s.drop_first() =~= a.drop_first() + u);
        lemma_trim_start(a.drop_first(), u);
    } else {
        assert(s =~= u);
    }
}

/// White space at the end of a text is what `trim_end` takes away.
proof fn lemma_trim_end(u: Seq<char>, b: Seq<char>)
    requires
        forall|i: int| 0 <= i < b.len() ==> is_space(#[trigger] b[i]),
        u.len() > 0 ==> !is_space(u.last()),
    ensures
        trim_end(u + b) == u,
    decreases b.len(),
{
    let s = u + b;
    if b.len() > 0 {
        assert(is_space(b[b.len() - 1]) && s.last() == b.last());
        assert(s.drop_last() =~= u + b.drop_last());
        lemma_trim_end(u, b.drop_last());
    } else {
        assert(s =~= u);
    }
}

/// Trimming takes white space from both ends of a text, and nothing else.
pub proof fn law_trim(a: Seq<char>, t: Seq<char>, b: Seq<char>)
    requires
        forall|i: int| 0 <= i < a.len() ==> is_space(#[trigger] a[i]),
        forall|i: int| 0 <= i < b.len() ==> is_space(#[trigger] b[i]),
        t.len() > 0 ==> !is_space(t[0]) && !is_space(t.last()),
    ensures
        trim(a + t + b) == t,
{
    if t.len() > 0 {
        assert(a + t + b =~= a + (t + b));
        lemma_trim_start(a, t + b);
        lemma_trim_end(t, b);
    } else {
        let s = a + t + b;
        assert forall|i: int| 0 <= i < s.len() implies is_space(#[trigger] s[i]) by {
            if i < a.len() {
                assert(s[i] == a[i]);
            } else {
                assert(s[i] == b[i - a.len()]);
            }
        }
        assert(s + t =~= s);
        lemma_trim_start(s, t);
        assert(trim_end(t) == t);
    }
}

/// Every text is what trimming leaves of it, between white space.
pub proof fn law_trim_parts(s: Seq<char>)
    ensures
        trim(s).len() > 0 ==> !is_space(trim(s)[0]) && !is_space(trim(s).last()),
        exists|a: Seq<char>, b: Seq<char>|
            {
                &&& #[trigger] (a + trim(s) + b) == s
                &&& forall|i: int| 0 <= i < a.len() ==> is_space(#[trigger] a[i])
                &&& forall|i: int| 0 <= i < b.len() ==> is_space(#[trigger] b[i])
            },
{
    let i = lemma_spaces_start(s);
    let u = s.skip(i);
    let j = lemma_spaces_end(u);
    let a = s.take(i);
    let t = u.take(j);
    let b = u.skip(j);
    assert(a + t + b =~= s);
    law_trim(a, t, b);
    assert(a + trim(s) + b == s);
}

/// How many characters of white space a text begins with.
proof fn lemma_spaces_start(s: Seq<char>) -> (n: int)
    ensures
        0 <= n <= s.len(),
        forall|i: int| 0 <= i < s.take(n).len() ==> is_space(#[trigger] s.take(n)[i]),
        s.skip(n).len() > 0 ==> !is_space(s.skip(n)[0]),
    decreases s.len(),
{
    if s.len() > 0 && is_space(s[0]) {
        let n = lemma_spaces_start(s.drop_first());
        assert forall|i: int| 0 <= i < s.take(n + 1).len() implies is_space(
            #[trigger] s.take(n + 1)[i],
        ) by {
            if i > 0 {
                assert(s.take(n + 1)[i] == s.drop_first().take(n)[i - 1]);
            }
        }
        assert(s.skip(n + 1) =~= s.drop_first().skip(n));
        n + 1
    } else {
        0
    }
}

/// Where the white space begins that a text ends with.
proof fn lemma_spaces_end(s: Seq<char>) -> (n: int)
    requires
        s.len() > 0 ==> !is_space(s[0]),
    ensures
        0 <= n <= s.len(),
        forall|i: int| 0 <= i < s.skip(n).len() ==> is_space(#[trigger] s.skip(n)[i]),
        s.take(n).len() > 0 ==> !is_space(s.take(n)[0]) && !is_space(s.take(n).last()),
    decreases s.len(),
{
    if s.len() > 0 && is_space(s.last()) {
        let init = s.drop_last();
        let n = lemma_spaces_end(init);
        assert forall|i: int| 0 <= i < s.skip(n).len() implies is_space(#[trigger] s.skip(n)[i]) by {
            if i < init.skip(n).len() {
                assert(s.skip(n)[i] == init.skip(n)[i]);
            } else {
                assert(s.skip(n)[i] == s.last());
            }
        }
        assert(s.take(n) =~= init.take(n));
        n
    } else {
        assert(s.take(s.len() as int) =~= s);
        s.len() as int
    }
}

/// Splitting parts a text at every delimiter and nowhere else.
pub proof fn law_pieces(a: Seq<char>, c: char, b: Seq<char>, d: Delimiter)
    requires
        d.has(c),
    ensures
        pieces(a.push(c) + b, d) == pieces(a, d) + pieces(b, d),
        (forall|i: int| 0 <= i < b.len() ==> !d.has(#[trigger] b[i])) ==> pieces(b, d) == seq![b],
    decreases a.len(),
{
    let s = a.push(c) + b;
    let end = cut_from(a, d, 0);
    lemma_cut(a, d, 0);
    assert forall|i: int| 0 <= i < end implies !d.has(#[trigger] s[i]) by {
        assert(s[i] == a[i]);
    }
    lemma_cut_is(s, d, 0, end);
    assert(s.take(end) =~= a.take(end));
    if end == a.len() {
        assert(a.take(end) =~= a);
        assert(s.skip(end + 1) =~= b);
    } else {
        let rest = a.skip(end + 1);
        assert(s.skip(end + 1) =~= rest.push(c) + b);
        law_pieces(rest, c, b, d);
    }
    assert(pieces(s, d) =~= pieces(a, d) + pieces(b, d));
    if forall|i: int| 0 <= i < b.len() ==> !d.has(#[trigger] b[i]) {
        lemma_cut_is(b, d, 0, b.len() as int);
    }
}

/// The first and the last piece of a text, and how the text goes on next to them.
pub proof fn lemma_end_pieces(s: Seq<char>, c: char)
    ensures
        pieces(s, Delimiter::Char(c)).len() > 0,
        ({
            let first = pieces(s, Delimiter::Char(c)).first();
            let last = pieces(s, Delimiter::Char(c)).last();
            &&& forall|i: int| 0 <= i < first.len() ==> #[trigger] first[i] != c
            &&& forall|i: int| 0 <= i < last.len() ==> #[trigger] last[i] != c
            &&& first.is_prefix_of(s) && (first.len() < s.len() ==> s[first.len() as int] == c)
            &&& last.is_suffix_of(s) && (last.len() < s.len() ==> s[s.len() - last.len() - 1] == c)
        }),
    decreases s.len(),
{
    let d = Delimiter::Char(c);
    let end = cut_from(s, d, 0);
    lemma_cut(s, d, 0);
    if end < s.len() {
        let rest = s.skip(end + 1);
        lemma_end_pieces(rest, c);
        let first = s.take(end);
        assert forall|i: int| 0 <= i < first.len() implies #[trigger] first[i] != c by {
            assert(!d.has(s[i]));
        }
        assert(first =~= s.subrange(0, end));
        let last = pieces(rest, d).last();
        assert(pieces(s, d).last() == last);
        assert(last =~= s.subrange(s.len() - last.len(), s.len() as int));
    } else {
        assert forall|i: int| 0 <= i < s.len() implies #[trigger] s[i] != c by {
            assert(!d.has(s[i]));
        }
        assert(s =~= s.subrange(0, s.len() as int));
    }
}

} // verus!
