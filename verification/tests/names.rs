use apple_artwork::names::{
    cache_key, normalise, normalize_album_name, rank_album_name, NameMatch, TOKEN_KEY,
};
use apple_artwork::text::Delimiter;

#[test]
fn album_name_is_lower_case_words() {
    assert_eq!(normalize_album_name("  Short n' Sweet (Deluxe) "), "short n sweet deluxe");
    assert_eq!(normalize_album_name("A---B  c"), "a b c");
    assert_eq!(normalize_album_name("1989"), "1989");
    assert_eq!(normalize_album_name("?!"), "");
    assert_eq!(normalize_album_name(""), "");
}

#[test]
fn apostrophes_do_not_part_words() {
    for q in ["'", "\u{2019}", "\u{02BC}", "`"] {
        let name = format!("Don{q}t Call Me Up");
        assert_eq!(normalize_album_name(&name), "dont call me up");
        assert_eq!(rank_album_name(&name, "Dont Call Me Up"), NameMatch::Exact);
    }
    assert_eq!(normalize_album_name("\"Heroes\""), "heroes");
    assert_eq!(normalize_album_name("a\u{2018}b"), "a b");
}

#[test]
fn punctuation_only_parts_words() {
    assert_eq!(normalize_album_name("a-b"), normalize_album_name("a/b"));
    assert_eq!(normalize_album_name("a--b"), normalize_album_name("a-b"));
    assert_eq!(normalize_album_name("a!"), normalize_album_name("a"));
    assert_eq!(normalize_album_name("(b"), normalize_album_name("b"));
}

#[test]
fn case_does_not_decide() {
    assert_eq!(normalize_album_name("BRAT"), normalize_album_name("brat"));
    assert_eq!(rank_album_name("BRAT", "brat"), NameMatch::Exact);
}

#[test]
fn letters_beyond_ascii_count() {
    assert_eq!(normalize_album_name("Édith — Œuvre"), "édith œuvre");
    assert_eq!(normalize_album_name("İ"), "i\u{307}");
    assert_eq!(normalize_album_name("ΟΔΟΣ"), "οδοσ");
    assert_eq!(normalize_album_name("東京・夜"), "東京 夜");
}

#[test]
fn agreement_has_three_degrees() {
    assert_eq!(rank_album_name("Short n' Sweet", "short n sweet"), NameMatch::Exact);
    assert_eq!(rank_album_name("Short n' Sweet (Deluxe)", "Short n' Sweet"), NameMatch::Partial);
    assert_eq!(rank_album_name("Better - Single", "Better"), NameMatch::Partial);
    assert_eq!(rank_album_name("Better", "Better - Single"), NameMatch::Other);
    assert_eq!(rank_album_name("Worse", "Better"), NameMatch::Other);
    assert_eq!(rank_album_name("", "Better"), NameMatch::Other);
    assert_eq!(rank_album_name("Better", "..."), NameMatch::Other);
    assert_eq!(rank_album_name("...", "..."), NameMatch::Other);
    assert_eq!(rank_album_name("Unbetterable", "better"), NameMatch::Partial);
}

#[test]
fn key_holds_both_names() {
    assert_eq!(cache_key("AC/DC", "Back  In\tBlack!"), "motion:ac dc|back in black");
    assert_eq!(cache_key("", ""), "motion:|");
    assert_eq!(normalise("Don't"), "don t");
    assert_eq!(normalise(" \u{3000}x\u{a0}Y "), "x y");
}

#[test]
fn key_follows_unicode_case() {
    assert_eq!(normalise("ΟΔΟΣ"), "οδος");
    assert_eq!(normalise("ÉTÉ"), "été");
    assert_eq!(normalise("İ"), "i");
}

#[test]
fn keys_differ_where_names_do() {
    assert_ne!(cache_key("a b", "c"), cache_key("a", "b c"));
    assert_ne!(cache_key("a|b", "c"), cache_key("a", "b|c"));
    assert_eq!(cache_key("A-b", "C"), cache_key("a B", "c"));
    assert_ne!(cache_key("apple", "token"), TOKEN_KEY);
}

#[test]
fn white_space_is_the_unicode_property() {
    let listed = [
        '\u{9}', '\u{a}', '\u{b}', '\u{c}', '\u{d}', '\u{20}', '\u{85}', '\u{a0}', '\u{1680}',
        '\u{2000}', '\u{2001}', '\u{2002}', '\u{2003}', '\u{2004}', '\u{2005}', '\u{2006}',
        '\u{2007}', '\u{2008}', '\u{2009}', '\u{200a}', '\u{2028}', '\u{2029}', '\u{202f}',
        '\u{205f}', '\u{3000}',
    ];
    for c in '\0'..=char::MAX {
        assert_eq!(Delimiter::Space.cuts(c), listed.contains(&c), "{:?}", c);
    }
}

#[test]
fn ascii_words_are_letters_and_digits() {
    for c in '\0'..='\u{7f}' {
        let word = c.is_ascii_alphanumeric();
        assert_eq!(Delimiter::NotAlnum.cuts(c), !word, "{:?}", c);
        let name = if word { c.to_ascii_lowercase().to_string() } else { String::new() };
        assert_eq!(normalize_album_name(&c.to_string()), name, "{:?}", c);
        assert_eq!(normalise(&c.to_string()), name, "{:?}", c);
    }
}

#[test]
fn reduced_names_stay_as_they_are() {
    for s in ["Short n' Sweet (Deluxe)", "A--B", "", "  ", "1989"] {
        let once = normalize_album_name(s);
        assert_eq!(normalize_album_name(&once), once);
        let key = normalise(s);
        assert_eq!(normalise(&key), key);
    }
}

#[test]
fn lower_case_is_taken_character_by_character() {
    for c in '\0'..=char::MAX {
        if c == '\u{3a3}' {
            continue;
        }
        let mut mapped = String::new();
        for d in c.to_lowercase() {
            mapped.push(if d.is_alphanumeric() { d } else { ' ' });
        }
        let expected = format!("x{mapped}y");
        let parts: Vec<&str> = expected.split_whitespace().collect();
        assert_eq!(normalise(&format!("X{c}Y")), parts.join(" "), "{:?}", c);
    }
}

#[test]
fn key_form_stays_as_it_is_beyond_ascii() {
    for c in '\0'..=char::MAX {
        let once = normalise(&format!("a {c}"));
        assert_eq!(normalise(&once), once, "{:?}", c);
    }
    for s in ["ΟΔΟΣ ΑΣ.Β", "İSTANBUL", "ǅ ÀÉ"] {
        let once = normalise(s);
        assert_eq!(normalise(&once), once);
    }
}

#[test]
fn key_form_has_single_spaces_inside() {
    assert_eq!(normalise("  Don't  Stop! "), "don t stop");
    assert_eq!(normalise(" . "), "");
}

#[test]
fn case_does_not_decide_beyond_ascii() {
    assert_eq!(normalize_album_name("ÀÉ ΟΔΟΣ Ж"), normalize_album_name("àé οδοσ ж"));
    assert_eq!(rank_album_name("ÉTÉ", "été"), NameMatch::Exact);
    assert_eq!(cache_key("BJÖRK", "ВОЙНА"), cache_key("Björk", "Война"));
    assert_eq!(cache_key("Sigur Rós—Ágætis", "x"), cache_key("sigur rós ágætis", "X"));
}

#[test]
fn sigma_depends_on_its_place() {
    assert_eq!(normalise("ΑΣ.Β"), "ασ β");
    assert_eq!(normalise("ΑΣ Β"), "ας β");
    assert_ne!(normalise("ΟΔΟΣ"), normalise("οδοσ"));
}

#[test]
fn names_that_grow_in_lower_case_are_not_steady() {
    let once = normalize_album_name("İ");
    assert_eq!(once, "i\u{307}");
    assert_eq!(normalize_album_name(&once), "i");
}

#[test]
fn only_wordless_names_reduce_to_nothing() {
    for c in '\0'..=char::MAX {
        let apostrophe = ['\'', '\u{2019}', '\u{02BC}', '`'].contains(&c);
        let wordless = !c.is_alphanumeric() || apostrophe;
        assert_eq!(normalize_album_name(&c.to_string()).is_empty(), wordless, "{:?}", c);
        assert_eq!(normalize_album_name(&format!("-{c}'")).is_empty(), wordless, "{:?}", c);
    }
    assert_eq!(normalize_album_name("\u{02BC}\u{02BC} ' !"), "");
}

#[test]
fn wordless_names_agree_with_nothing() {
    assert_eq!(rank_album_name("\u{02BC}", "\u{02BC}"), NameMatch::Other);
    assert_eq!(rank_album_name("!!!", "!!!"), NameMatch::Other);
    assert_eq!(rank_album_name("İ", "İ"), NameMatch::Exact);
}
