use sharesheet::{
    init, relay_share_event, Error, NativeEventBody, SharesheetOptions,
};

#[test]
fn share_text_builds_the_share_request() {
    let facade = init();
    let req = facade.share_text(
        "hello".to_string(),
        SharesheetOptions { mime_type: Some("text/plain".to_string()), title: None },
    );
    assert_eq!(req.method, "share_text");
    assert_eq!(
        req.payload,
        "{\"text\":\"hello\",\"options\":{\"mimeType\":\"text/plain\"}}"
    );
}

#[test]
fn relay_publishes_one_decoded_event() {
    let body =
        NativeEventBody::Json("{\"mimeType\":\"text/plain\",\"data\":\"hello\"}".to_string());
    let p = relay_share_event(&body);
    assert_eq!(p.topic, "/share");
    assert_eq!(p.events.len(), 1);
    let e = p.events[0].as_ref().unwrap();
    assert_eq!(e.mime_type, "text/plain");
    assert_eq!(e.data, "hello");
    assert!(p.ack);
}

#[test]
fn relay_publishes_empty_marker_on_invalid_json() {
    let body = NativeEventBody::Json("not json at all".to_string());
    let p = relay_share_event(&body);
    assert_eq!(p.topic, "/share");
    assert_eq!(p.events.len(), 1);
    assert!(p.events[0].is_none());
    assert!(p.ack);
}

#[test]
fn relay_publishes_empty_marker_on_binary_blob() {
    let body = NativeEventBody::Raw(vec![0u8, 159, 146, 150]);
    let p = relay_share_event(&body);
    assert_eq!(p.topic, "/share");
    assert_eq!(p.events.len(), 1);
    assert!(p.events[0].is_none());
    assert!(p.ack);
}

#[test]
fn setup_registers_the_handler_exactly_once() {
    let mut facade = init();
    let first = facade.setup();
    assert_eq!(
        first.as_deref(),
        Some("setShareEventHandler"),
        "the first setup performs the registration"
    );
    assert!(facade.setup().is_none(), "a second setup must not register again");
    assert!(facade.setup().is_none());
}

#[test]
fn bridge_failure_surfaces_as_the_single_error_kind() {
    let facade = init();
    let failed: Result<(), String> = Err("plugin not registered".to_string());
    match facade.complete_share(failed) {
        Err(e) => {
            let Error::PluginInvoke(detail) = &e;
            assert_eq!(detail, "plugin not registered");
            assert_eq!(e.detail(), "plugin not registered");
        }
        Ok(()) => panic!("a bridge failure must surface as an error"),
    }
}

#[test]
fn bridge_success_passes_through() {
    let facade = init();
    assert!(facade.complete_share(Ok(())).is_ok());
}

#[test]
fn default_options_carry_no_hints() {
    let o = SharesheetOptions::default();
    assert!(o.mime_type.is_none());
    assert!(o.title.is_none());
}
