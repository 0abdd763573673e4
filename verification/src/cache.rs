//! The scratch store: how results are written to it and read back.

use vstd::prelude::*;
use vstd::utf8::{
    decode_utf8, encode_utf8, encode_utf8_decode_utf8, encode_utf8_valid_utf8, valid_utf8,
};

use crate::host::{strict, Action, Call};
use crate::json::{insert, lookup, read, reading, render, rendering, text_of, tree, Tree};
use crate::model::{Cached, Motion, MotionText};
use crate::text::optional;

verus! {

/// The text that is stored for an album without covers.
pub const MISS: &'static str = "{\"n\":1}";

/// The text that an answer of the store holds, if it holds one.
pub open spec fn stored_text(answer: Result<Option<Vec<u8>>, String>) -> Option<Seq<char>> {
    match answer {
        Ok(Some(bytes)) if valid_utf8(bytes@) => Some(decode_utf8(bytes@)),
        _ => None,
    }
}

/// The text that an answer of the store holds, if it holds one.
pub fn read_state_str(answer: &Result<Option<Vec<u8>>, String>) -> (out: Option<String>)
    ensures
        optional(out) == stored_text(*answer),
{
    match answer {
        Ok(Some(bytes)) => strict(vstd::slice::slice_to_vec(bytes.as_slice())),
        _ => None,
    }
}

/// The call that stores a text.
pub open spec fn storing(key: Seq<char>, value: Seq<char>) -> Call {
    Call::WriteState(key, encode_utf8(value))
}

/// The call that stores a text.
pub fn write_state_str(key: &str, value: &str) -> (out: Action)
    ensures
        out.deep_view() == storing(key@, value@),
{
    Action::WriteState(key.to_string(), value.as_bytes_vec())
}

/// What a stored document says of an album: with a member `n` that it has no covers, and else
/// that its covers are the strings `s` and, where it is there, `t`.
pub open spec fn cached_in(t: Tree) -> Option<Option<MotionText>> {
    match t {
        Tree::Object(m) => if m.contains_key("n"@) {
            Some(None)
        } else if m.contains_key("s"@) && m["s"@] is Text {
            Some(
                Some(
                    MotionText {
                        square: m["s"@]->Text_0,
                        tall: if m.contains_key("t"@) {
                            text_of(m["t"@])
                        } else {
                            None
                        },
                    },
                ),
            )
        } else {
            None
        },
        _ => None,
    }
}

/// What a stored text says of an album, if it says anything.
pub open spec fn cached_text(raw: Seq<char>) -> Option<Option<MotionText>> {
    if raw == MISS@ {
        Some(None)
    } else {
        match reading(raw) {
            Ok(t) => cached_in(t),
            Err(_) => None,
        }
    }
}

/// The document that is stored for an album with covers.
pub open spec fn motion_document(m: MotionText) -> Tree {
    let square = Map::<Seq<char>, Tree>::empty().insert("s"@, Tree::Text(m.square));
    match m.tall {
        Some(t) => Tree::Object(square.insert("t"@, Tree::Text(t))),
        None => Tree::Object(square),
    }
}

/// The text that is stored of an album.
pub open spec fn cache_text(found: Option<MotionText>) -> Seq<char> {
    match found {
        Some(m) => rendering(motion_document(m)),
        None => MISS@,
    }
}

/// What a stored document, once parsed, says of an album.
pub fn cached_value(v: &serde_json::Value) -> (out: Option<Cached>)
    ensures
        out.deep_view() == cached_in(tree(*v)),
{
    if lookup(v, "n").is_some() {
        return Some(Cached::Miss);
    }
    let square: String = match lookup(v, "s") {
        Some(s) => match s.as_str() {
            Some(s) => s.to_string(),
            None => return None,
        },
        None => return None,
    };
    let tall: Option<String> = match lookup(v, "t") {
        Some(t) => match t.as_str() {
            Some(t) => Some(t.to_string()),
            None => None,
        },
        None => None,
    };
    Some(Cached::Motion(Motion { square, tall }))
}

/// Read what is stored of an album; nothing where the text says nothing of one.
pub fn read_cache(raw: &str) -> (out: Option<Cached>)
    ensures
        out.deep_view() == cached_text(raw@),
{
    match read(raw) {
        Ok(v) => cached_value(&v),
        Err(_) => None,
    }
}

/// The call that stores what is known of an album. What it stores reads back as the same.
pub fn write_cache(key: &str, cached: &Cached) -> (out: Action)
    ensures
        out.deep_view() == storing(key@, cache_text(cached.deep_view())),
        cached_text(cache_text(cached.deep_view())) == Some(cached.deep_view()),
{
    match cached {
        Cached::Miss => write_state_str(key, MISS),
        Cached::Motion(m) => {
            proof {
                reveal_strlit("n");
                reveal_strlit("s");
                reveal_strlit("t");
                assert("n"@[0] == 'n' && "s"@[0] == 's' && "t"@[0] == 't');
            }
            let mut obj = serde_json::Map::new();
            insert(&mut obj, "s", m.square.as_str());
            if let Some(t) = &m.tall {
                insert(&mut obj, "t", t.as_str());
            }
            let raw: String = render(obj);
            write_state_str(key, raw.as_str())
        },
    }
}

/// What is stored is what is read back: the bytes of a text are an answer that holds the text.
pub proof fn law_store_keeps_text(bytes: Vec<u8>, text: Seq<char>)
    requires
        bytes@ == encode_utf8(text),
    ensures
        stored_text(Ok(Some(bytes))) == Some(text),
{
    encode_utf8_valid_utf8(text);
    encode_utf8_decode_utf8(text);
}

/// What is stored of an album, and what stored documents say. An album without covers is the
/// document with the number `1` under `n`; covers are an object with the square one under `s` and
/// the tall one, where there is one, under `t`. A document with an `n` says that there are no
/// covers, and one without a string under `s` says nothing.
pub proof fn law_documents(m: MotionText, raw: Seq<char>)
    ensures
        cache_text(None) == "{\"n\":1}"@,
        cached_text("{\"n\":1}"@) == Some(None::<MotionText>),
        m.tall is None ==> cache_text(Some(m)) == rendering(
            Tree::Object(Map::<Seq<char>, Tree>::empty().insert("s"@, Tree::Text(m.square))),
        ),
        m.tall is Some ==> cache_text(Some(m)) == rendering(
            Tree::Object(
                Map::<Seq<char>, Tree>::empty().insert("s"@, Tree::Text(m.square)).insert(
                    "t"@,
                    Tree::Text(m.tall.unwrap()),
                ),
            ),
        ),
        raw != "{\"n\":1}"@ ==> match reading(raw) {
            Ok(Tree::Object(doc)) => {
                let no_covers = doc.contains_key("n"@);
                let square = doc.contains_key("s"@) && doc["s"@] is Text;
                let tall = doc.contains_key("t"@) && doc["t"@] is Text;
                &&& no_covers ==> cached_text(raw) == Some(None::<MotionText>)
                &&& !no_covers && !square ==> cached_text(raw) is None
                &&& !no_covers && square ==> cached_text(raw) == Some(
                    Some(
                        MotionText {
                            square: doc["s"@]->Text_0,
                            tall: if tall {
                                Some(doc["t"@]->Text_0)
                            } else {
                                None
                            },
                        },
                    ),
                )
            },
            _ => cached_text(raw) is None,
        },
{
}

/// An answer of the store holds a text exactly where it holds bytes of valid UTF-8, and then the
/// text is what they encode; a text is stored as its UTF-8 bytes.
pub proof fn law_stored_bytes(answer: Result<Option<Vec<u8>>, String>, key: Seq<char>, text: Seq<char>)
    ensures
        match answer {
            Ok(Some(bytes)) => if valid_utf8(bytes@) {
                stored_text(answer) == Some(decode_utf8(bytes@))
            } else {
                stored_text(answer) is None
            },
            _ => stored_text(answer) is None,
        },
        storing(key, text) == Call::WriteState(key, encode_utf8(text)),
{
}

} // verus!
