use apple_artwork::cache::{
    cached_value, read_cache, read_state_str, write_cache, write_state_str, MISS,
};
use apple_artwork::host::Action;
use apple_artwork::model::{empty_album, AlbumDetails, Cached, Motion};

fn motion(square: &str, tall: Option<&str>) -> Motion {
    Motion { square: square.to_string(), tall: tall.map(|t| t.to_string()) }
}

fn written(cached: &Cached) -> String {
    match write_cache("k", cached) {
        Action::WriteState(key, bytes) => {
            assert_eq!(key, "k");
            String::from_utf8(bytes).unwrap()
        }
        other => panic!("{:?}", other),
    }
}

#[test]
fn store_answers_are_texts() {
    assert_eq!(read_state_str(&Ok(Some("hé".as_bytes().to_vec()))), Some("hé".to_string()));
    assert_eq!(read_state_str(&Ok(Some(Vec::new()))), Some(String::new()));
    assert_eq!(read_state_str(&Ok(Some(vec![0x61, 0xff]))), None);
    assert_eq!(read_state_str(&Ok(None)), None);
    assert_eq!(read_state_str(&Err("down".to_string())), None);
}

#[test]
fn texts_are_stored_as_bytes() {
    assert_eq!(
        write_state_str("key", "é!"),
        Action::WriteState("key".to_string(), vec![0xc3, 0xa9, b'!'])
    );
}

#[test]
fn stored_text_is_read_back() {
    for text in ["", "plain", "\u{0}😀\u{fffd}"] {
        match write_state_str("k", text) {
            Action::WriteState(_, bytes) => {
                assert_eq!(read_state_str(&Ok(Some(bytes))), Some(text.to_string()));
            }
            other => panic!("{:?}", other),
        }
    }
}

#[test]
fn miss_is_a_sentinel() {
    assert_eq!(written(&Cached::Miss), "{\"n\":1}");
    assert_eq!(MISS, "{\"n\":1}");
    assert_eq!(read_cache(MISS), Some(Cached::Miss));
}

#[test]
fn covers_are_a_document() {
    assert_eq!(written(&Cached::Motion(motion("a", None))), "{\"s\":\"a\"}");
    assert_eq!(
        written(&Cached::Motion(motion("a\"\\\n", Some("ü")))),
        "{\"s\":\"a\\\"\\\\\\n\",\"t\":\"ü\"}"
    );
}

#[test]
fn covers_are_read_back() {
    for m in [
        motion("https://x/a-.mp4", Some("https://x/b-.mp4")),
        motion("", None),
        motion("\u{0}\u{1f}\u{7f}\u{2028}😀\"\\/", Some("{\"n\":1}")),
    ] {
        let cached = Cached::Motion(m);
        assert_eq!(read_cache(&written(&cached)), Some(cached));
    }
}

#[test]
fn other_documents_say_nothing() {
    for raw in ["", "x", "null", "[]", "\"s\"", "{}", "{\"s\":1}", "{\"t\":\"a\"}", "{\"s\":\"a\"} x"] {
        assert_eq!(read_cache(raw), None, "{}", raw);
    }
}

#[test]
fn documents_are_read_by_their_members() {
    assert_eq!(read_cache("{\"n\":null}"), Some(Cached::Miss));
    assert_eq!(read_cache("{\"s\":\"a\",\"n\":0}"), Some(Cached::Miss));
    assert_eq!(
        read_cache(" { \"t\" : 5 , \"s\" : \"\\u0061\" } "),
        Some(Cached::Motion(motion("a", None)))
    );
    assert_eq!(
        read_cache("{\"s\":\"a\",\"s\":\"b\",\"t\":\"c\"}"),
        Some(Cached::Motion(motion("b", Some("c"))))
    );
}

#[test]
fn parsed_documents_are_read_alike() {
    let mut members = serde_json::Map::new();
    members.insert("s".to_string(), serde_json::Value::String("a".to_string()));
    assert_eq!(
        cached_value(&serde_json::Value::Object(members.clone())),
        Some(Cached::Motion(motion("a", None)))
    );
    members.insert("n".to_string(), serde_json::Value::Bool(false));
    assert_eq!(cached_value(&serde_json::Value::Object(members)), Some(Cached::Miss));
    assert_eq!(cached_value(&serde_json::Value::Null), None);
}

#[test]
fn records_hold_the_covers_alone() {
    let full = AlbumDetails {
        description: None,
        cover_url: None,
        track_count: None,
        motion_cover_url: Some("a".to_string()),
        motion_cover_tall_url: Some("b".to_string()),
    };
    assert_eq!(motion("a", Some("b")).into_details(), full);
    assert_eq!(Cached::Motion(motion("a", Some("b"))).into_details(), full);
    let empty = AlbumDetails {
        motion_cover_url: None,
        motion_cover_tall_url: None,
        ..full
    };
    assert_eq!(Cached::Miss.into_details(), empty);
    assert_eq!(empty_album(), empty);
}
