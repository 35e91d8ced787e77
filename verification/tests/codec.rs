//! Tests of the document codec and the state-token rendering and parsing.

use salada::document::Document;
use salada::token::{parse_state_str, render_state};

fn doc(pairs: &[(&str, &str)]) -> Document {
    let mut d = Document::new();
    for (k, v) in pairs {
        d.set(k.to_string(), v.to_string());
    }
    d
}

#[test]
fn encode_is_length_prefixed() {
    assert_eq!(Document::new().encode(), "");
    assert_eq!(doc(&[("a", "b")]).encode(), "1:a:1:b;");
    assert_eq!(
        doc(&[("name", "Ada"), ("tel", "7")]).encode(),
        "4:name:3:Ada;3:tel:1:7;"
    );
}

#[test]
fn decode_round_trips() {
    let cases: Vec<Document> = vec![
        Document::new(),
        doc(&[("a", "b")]),
        doc(&[("name", "Ada"), ("email", "a@b.c")]),
        // separators inside texts are carried verbatim
        doc(&[("k:ey", "v;al:ue"), ("", "")]),
        doc(&[("semi", ";;;"), ("colon", ":::")]),
    ];
    for d in cases {
        let text = d.encode();
        let back = Document::decode(&text).expect("decode its own encoding");
        assert_eq!(back.encode(), text);
        assert_eq!(back.props.len(), d.props.len());
        for (k, v) in &d.props {
            assert_eq!(back.get_value(k).as_deref(), Some(v.as_str()));
        }
    }
}

#[test]
fn decode_rejects_malformed_text() {
    assert!(Document::decode("garbage").is_none());
    assert!(Document::decode("1:a").is_none());
    assert!(Document::decode("1:a:1:b").is_none());
    assert!(Document::decode("2:a:1:b;").is_none());
    assert!(Document::decode("01:a:1:b;").is_none());
    assert!(Document::decode(":a:1:b;").is_none());
    assert!(Document::decode("1:a:1:b;x").is_none());
}

#[test]
fn tokens_render_in_decimal() {
    assert_eq!(render_state(0), "0");
    assert_eq!(render_state(1), "1");
    assert_eq!(render_state(42), "42");
    assert_eq!(render_state(9007199254740993), "9007199254740993");
    assert_eq!(render_state(i64::MAX), "9223372036854775807");
}

#[test]
fn token_parsing_clamps_and_rejects() {
    assert_eq!(parse_state_str("0"), 0);
    assert_eq!(parse_state_str("17"), 17);
    assert_eq!(parse_state_str("+7"), 7);
    assert_eq!(parse_state_str("-5"), 0);
    assert_eq!(parse_state_str(""), 0);
    assert_eq!(parse_state_str("abc"), 0);
    assert_eq!(parse_state_str("12x"), 0);
    assert_eq!(parse_state_str("9223372036854775807"), i64::MAX);
    assert_eq!(parse_state_str("9223372036854775808"), 0);
    assert_eq!(parse_state_str("99999999999999999999999"), 0);
}

#[test]
fn documents_upsert_in_place() {
    let mut d = doc(&[("a", "1"), ("b", "2")]);
    d.set("a".to_string(), "9".to_string());
    assert_eq!(d.props.len(), 2);
    assert_eq!(d.get_value("a").as_deref(), Some("9"));
    let merged = doc(&[("a", "1"), ("b", "2")]).merged_with(&doc(&[("b", "X"), ("c", "3")]));
    assert_eq!(merged.get_value("a").as_deref(), Some("1"));
    assert_eq!(merged.get_value("b").as_deref(), Some("X"));
    assert_eq!(merged.get_value("c").as_deref(), Some("3"));
    let filtered = merged.filtered(&vec!["a".to_string(), "c".to_string()]);
    assert_eq!(filtered.props.len(), 2);
    assert_eq!(filtered.get_value("b"), None);
}
