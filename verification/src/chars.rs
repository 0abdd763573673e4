//! Character classes, and the parts of the standard library that decide them.

use vstd::prelude::*;

verus! {

/// The characters of Unicode's `White_Space` property.
pub open spec fn is_space(c: char) -> bool {
    ||| '\u{9}' <= c <= '\u{d}'
    ||| c == '\u{20}'
    ||| c == '\u{85}'
    ||| c == '\u{a0}'
    ||| c == '\u{1680}'
    ||| '\u{2000}' <= c <= '\u{200a}'
    ||| c == '\u{2028}'
    ||| c == '\u{2029}'
    ||| c == '\u{202f}'
    ||| c == '\u{205f}'
    ||| c == '\u{3000}'
}

/// The characters of ASCII.
pub open spec fn is_ascii(c: char) -> bool {
    c <= '\u{7f}'
}

/// The 26 letters, in either case.
pub open spec fn is_ascii_letter(c: char) -> bool {
    'a' <= c <= 'z' || 'A' <= c <= 'Z'
}

/// The ten decimal digits.
pub open spec fn is_ascii_digit(c: char) -> bool {
    '0' <= c <= '9'
}

/// A letter or a digit of ASCII.
pub open spec fn is_ascii_alnum(c: char) -> bool {
    is_ascii_letter(c) || is_ascii_digit(c)
}

/// A capital letter of ASCII in lower case; every other character as it is.
pub open spec fn ascii_lower(c: char) -> char {
    if 'A' <= c <= 'Z' {
        (c as u32 + 32) as char
    } else {
        c
    }
}

/// Whether a character beyond ASCII is alphabetic or numeric in Unicode.
pub uninterp spec fn unicode_alnum(c: char) -> bool;

/// The lower-case mapping of a character beyond ASCII.
pub uninterp spec fn unicode_lower(c: char) -> Seq<char>;

/// The lower-case form of a text that holds a capital sigma.
pub uninterp spec fn unicode_text_lower(s: Seq<char>) -> Seq<char>;

/// A letter or a digit: the characters that words are made of.
pub open spec fn is_alnum(c: char) -> bool {
    if is_ascii(c) {
        is_ascii_alnum(c)
    } else {
        unicode_alnum(c)
    }
}

/// One character in lower case, which may take several characters.
pub open spec fn lower(c: char) -> Seq<char> {
    if is_ascii(c) {
        seq![ascii_lower(c)]
    } else {
        unicode_lower(c)
    }
}

/// A text all of whose characters are ASCII.
pub open spec fn all_ascii(s: Seq<char>) -> bool {
    forall|i: int| 0 <= i < s.len() ==> is_ascii(#[trigger] s[i])
}

/// A text in lower case, character by character.
pub open spec fn lowered(s: Seq<char>) -> Seq<char>
    decreases s.len(),
{
    if s.len() == 0 {
        seq![]
    } else {
        lowered(s.drop_last()) + lower(s.last())
    }
}

/// Whether a text holds the capital sigma, whose lower case depends on where it stands in a word.
pub open spec fn has_sigma(s: Seq<char>) -> bool {
    s.contains('\u{3a3}')
}

/// A whole text in lower case.
pub open spec fn text_lower(s: Seq<char>) -> Seq<char> {
    if has_sigma(s) {
        unicode_text_lower(s)
    } else {
        lowered(s)
    }
}

/// `char::is_whitespace` decides Unicode's `White_Space` property.
pub assume_specification[ char::is_whitespace ](c: char) -> (b: bool)
    ensures
        b == is_space(c),
;

/// `char::is_alphanumeric` decides whether a character is alphabetic or numeric. In ASCII
/// these are the letters and the digits; beyond ASCII the answer is only named.
pub assume_specification[ char::is_alphanumeric ](c: char) -> (b: bool)
    ensures
        b == (if is_ascii(c) {
            is_ascii_alnum(c)
        } else {
            unicode_alnum(c)
        }),
;

/// `String::push` appends one character.
pub assume_specification[ String::push ](s: &mut String, c: char)
    ensures
        final(s)@ == old(s)@.push(c),
;

/// `char::to_lowercase` yields one or more characters: the ASCII lower-case letter for an ASCII
/// character, and the Unicode mapping, which is only named, for any other.
#[verifier::external_body]
pub(crate) fn lower_chars(c: char) -> (out: Vec<char>)
    ensures
        out@ == (if is_ascii(c) {
            seq![ascii_lower(c)]
        } else {
            unicode_lower(c)
        }),
        out@.len() > 0,
{
    c.to_lowercase().collect()
}

/// `str::to_lowercase` maps a text without a capital sigma character by character, each as
/// `char::to_lowercase` does. What becomes of a sigma depends on its place in a word, so the
/// lower-case form of a text that holds one is only named. That lower case stays as it is when it
/// is lowered again is left unsaid.
pub assume_specification[ str::to_lowercase ](s: &str) -> (out: String)
    ensures
        out@ == (if has_sigma(s@) {
            unicode_text_lower(s@)
        } else {
            lowered(s@)
        }),
;

/// Whether `c` is a letter of ASCII.
pub fn ascii_letter(c: char) -> (b: bool)
    ensures
        b == is_ascii_letter(c),
{
    ('a' <= c && c <= 'z') || ('A' <= c && c <= 'Z')
}

/// Whether `c` is a decimal digit of ASCII.
pub fn ascii_digit(c: char) -> (b: bool)
    ensures
        b == is_ascii_digit(c),
{
    '0' <= c && c <= '9'
}

/// Lower case is taken character by character but for the capital sigma; a capital letter of ASCII
/// becomes its small one, and every other character of ASCII stays.
pub proof fn law_lower(s: Seq<char>, c: char)
    ensures
        text_lower(seq![]).len() == 0,
        (forall|i: int| 0 <= i < s.len() ==> #[trigger] s[i] != '\u{3a3}') && c != '\u{3a3}'
            ==> text_lower(s.push(c)) == text_lower(s) + lower(c),
        (exists|i: int| 0 <= i < s.len() && #[trigger] s[i] == '\u{3a3}') ==> text_lower(s)
            == unicode_text_lower(s),
        'A' <= c <= 'Z' ==> lower(c).len() == 1 && lower(c)[0] as int == c as int + 32,
        c <= '\u{7f}' && !('A' <= c <= 'Z') ==> lower(c) == seq![c],
        c > '\u{7f}' ==> lower(c) == unicode_lower(c),
{
    let none = Seq::<char>::empty();
    assert(!has_sigma(none));
    if (forall|i: int| 0 <= i < s.len() ==> #[trigger] s[i] != '\u{3a3}') && c != '\u{3a3}' {
        assert(!has_sigma(s));
        assert forall|i: int| 0 <= i < s.push(c).len() implies s.push(c)[i] != '\u{3a3}' by {
            if i < s.len() {
                assert(s[i] != '\u{3a3}');
            }
        }
        assert(!has_sigma(s.push(c)));
        assert(s.push(c).drop_last() =~= s);
    }
}

/// Letters and digits in ASCII are the 26 letters in either case and the ten digits.
pub proof fn law_alnum(c: char)
    ensures
        c <= '\u{7f}' ==> (is_alnum(c) <==> 'a' <= c <= 'z' || 'A' <= c <= 'Z' || '0' <= c <= '9'),
        c > '\u{7f}' ==> is_alnum(c) == unicode_alnum(c),
{
}

} // verus!
