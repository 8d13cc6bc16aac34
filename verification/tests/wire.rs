use sharesheet::{
    decode_share_event, encode_share_event, encode_share_payload, ShareEvent, SharesheetOptions,
    SharesheetPayload,
};

fn opts(mime_type: Option<&str>, title: Option<&str>) -> SharesheetOptions {
    SharesheetOptions {
        mime_type: mime_type.map(|s| s.to_string()),
        title: title.map(|s| s.to_string()),
    }
}

fn payload(text: &str, options: SharesheetOptions) -> SharesheetPayload {
    SharesheetPayload { text: text.to_string(), options }
}

#[test]
fn payload_wire_form_no_options() {
    let p = payload("hello", opts(None, None));
    assert_eq!(encode_share_payload(&p), "{\"text\":\"hello\",\"options\":{}}");
}

#[test]
fn payload_wire_form_mime_only() {
    let p = payload("hi", opts(Some("text/plain"), None));
    assert_eq!(
        encode_share_payload(&p),
        "{\"text\":\"hi\",\"options\":{\"mimeType\":\"text/plain\"}}"
    );
}

#[test]
fn payload_wire_form_title_only() {
    let p = payload("hi", opts(None, Some("Greeting")));
    assert_eq!(
        encode_share_payload(&p),
        "{\"text\":\"hi\",\"options\":{\"title\":\"Greeting\"}}"
    );
}

#[test]
fn payload_wire_form_both_hints() {
    let p = payload("hi", opts(Some("text/plain"), Some("Greeting")));
    assert_eq!(
        encode_share_payload(&p),
        "{\"text\":\"hi\",\"options\":{\"mimeType\":\"text/plain\",\"title\":\"Greeting\"}}"
    );
}

#[test]
fn payload_escapes_quotes_backslashes_and_controls() {
    let p = payload("a\"b\\c\nd\u{1}", opts(None, None));
    assert_eq!(
        encode_share_payload(&p),
        "{\"text\":\"a\\\"b\\\\c\\u000ad\\u0001\",\"options\":{}}"
    );
}

#[test]
fn payload_empty_text() {
    let p = payload("", opts(None, None));
    assert_eq!(encode_share_payload(&p), "{\"text\":\"\",\"options\":{}}");
}

// The wire payload must round-trip to exactly {text, options} under a real
// JSON parser, with no transformation of the values.
#[test]
fn payload_round_trips_through_json_parser() {
    let text = "line one\nline two \"quoted\" back\\slash\ttab\u{7}";
    let p = payload(text, opts(Some("text/plain"), Some("A title")));
    let wire = encode_share_payload(&p);
    let v: serde_json::Value = serde_json::from_str(&wire).expect("wire payload is valid JSON");
    assert_eq!(v.get("text").unwrap().as_str().unwrap(), text);
    let o = v.get("options").unwrap();
    assert_eq!(o.get("mimeType").unwrap().as_str().unwrap(), "text/plain");
    assert_eq!(o.get("title").unwrap().as_str().unwrap(), "A title");
    assert_eq!(o.as_object().unwrap().len(), 2);
}

#[test]
fn payload_absent_hints_are_omitted_on_the_wire() {
    let p = payload("x", opts(None, None));
    let wire = encode_share_payload(&p);
    let v: serde_json::Value = serde_json::from_str(&wire).unwrap();
    assert!(v.get("options").unwrap().as_object().unwrap().is_empty());
}

#[test]
fn event_wire_form() {
    let e = ShareEvent { mime_type: "text/plain".to_string(), data: "hello".to_string() };
    assert_eq!(
        encode_share_event(&e),
        "{\"mimeType\":\"text/plain\",\"data\":\"hello\"}"
    );
}

#[test]
fn event_decodes_canonical_envelope() {
    let e = decode_share_event("{\"mimeType\":\"text/plain\",\"data\":\"hello\"}").unwrap();
    assert_eq!(e.mime_type, "text/plain");
    assert_eq!(e.data, "hello");
}

#[test]
fn event_decodes_with_whitespace_and_reversed_members() {
    let e = decode_share_event(" { \"data\" : \"hello\" , \"mimeType\" : \"text/plain\" } ")
        .unwrap();
    assert_eq!(e.mime_type, "text/plain");
    assert_eq!(e.data, "hello");
}

#[test]
fn event_decodes_escapes() {
    let e = decode_share_event(
        "{\"mimeType\":\"text\\u002Fplain\",\"data\":\"a\\\"b\\\\c\\nd\\te\\u0041\"}",
    )
    .unwrap();
    assert_eq!(e.mime_type, "text/plain");
    assert_eq!(e.data, "a\"b\\c\nd\teA");
}

#[test]
fn event_round_trips_through_encoder() {
    let e = ShareEvent { mime_type: "image/png".to_string(), data: "pay\"load\n".to_string() };
    let wire = encode_share_event(&e);
    let back = decode_share_event(&wire).unwrap();
    assert_eq!(back.mime_type, e.mime_type);
    assert_eq!(back.data, e.data);
}

#[test]
fn event_rejects_invalid_text() {
    assert!(decode_share_event("").is_none());
    assert!(decode_share_event("not json").is_none());
    assert!(decode_share_event("{\"mimeType\":\"a\"}").is_none());
    assert!(decode_share_event("{\"mimeType\":\"a\",\"data\":\"b\",\"x\":\"y\"}").is_none());
    assert!(decode_share_event("{\"mimeType\":\"a\",\"other\":\"b\"}").is_none());
    assert!(decode_share_event("{\"mimeType\":\"a\",\"data\":\"b\"} trailing").is_none());
    assert!(decode_share_event("{\"mimeType\":\"a\",\"data\":1}").is_none());
    // an unpaired surrogate escape is not a scalar value
    assert!(decode_share_event("{\"mimeType\":\"a\",\"data\":\"\\uD800\"}").is_none());
    // a raw control character may not stand inside a JSON string
    assert!(decode_share_event("{\"mimeType\":\"a\",\"data\":\"x\u{1}y\"}").is_none());
}

#[test]
fn event_decode_agrees_with_json_parser_on_the_canonical_form() {
    let wire = "{\"mimeType\":\"text/plain\",\"data\":\"he\\u00e9llo\"}";
    let ours = decode_share_event(wire).unwrap();
    let theirs: serde_json::Value = serde_json::from_str(wire).unwrap();
    assert_eq!(ours.mime_type, theirs.get("mimeType").unwrap().as_str().unwrap());
    assert_eq!(ours.data, theirs.get("data").unwrap().as_str().unwrap());
}
