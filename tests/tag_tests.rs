use tag::document::{build_parsed_data, generate_xml, InputState, ParseError, ParsedData};
use tag::ident::clean_identifier;
use tag::session::{Action, ClipboardError, FieldId, KeyEvent, Session, Signal};

fn input(tag: &str, rows: &[(&str, &str)]) -> InputState {
    InputState {
        tag: tag.to_string(),
        attributes: rows.iter().map(|(k, v)| (k.to_string(), v.to_string())).collect(),
    }
}

fn attrs(d: &ParsedData) -> Vec<(String, Option<String>)> {
    d.attributes.clone()
}

#[test]
fn clean_identifier_examples() {
    assert_eq!(clean_identifier("  my tag  "), "my_tag");
    assert_eq!(clean_identifier("invalid-chars!?"), "invalid-chars");
    assert_eq!(clean_identifier("   "), "");
    assert_eq!(clean_identifier(" a b-c_d "), "a_b-c_d");
}

#[test]
fn clean_identifier_empty_and_runs() {
    assert_eq!(clean_identifier(""), "");
    assert_eq!(clean_identifier("a \t\n b"), "a_b");
    assert_eq!(clean_identifier("a !! b"), "a__b");
    assert_eq!(clean_identifier("x<y>&z"), "xyz");
}

#[test]
fn clean_identifier_unicode() {
    // ideographic space and no-break space are whitespace; accented letters are alphanumeric
    assert_eq!(clean_identifier("caf\u{e9}\u{3000}bar\u{a0}"), "caf\u{e9}_bar");
    assert_eq!(clean_identifier("\u{2003}\u{663}"), "\u{663}");
}

#[test]
fn clean_identifier_idempotent_samples() {
    for s in ["  my tag  ", "a !! b", "", " ?? ", "x-y_z", "\u{3000}q\u{3000}r"] {
        let once = clean_identifier(s);
        assert_eq!(clean_identifier(&once), once);
    }
}

#[test]
fn build_empty_tag() {
    assert_eq!(build_parsed_data(&input("", &[])).unwrap_err(), ParseError::EmptyTag);
    assert_eq!(
        build_parsed_data(&input(" \t ", &[("k", "v")])).unwrap_err(),
        ParseError::EmptyTag
    );
}

#[test]
fn build_invalid_tag_characters() {
    assert_eq!(
        build_parsed_data(&input("???", &[])).unwrap_err(),
        ParseError::InvalidTagCharacters
    );
}

#[test]
fn build_drops_blank_keys_and_keeps_order() {
    let d = build_parsed_data(&input("div", &[("key1", "val1"), ("", "ignored"), ("flag", "")]))
        .unwrap();
    assert_eq!(d.tag, "div");
    assert_eq!(
        attrs(&d),
        vec![
            ("key1".to_string(), Some("val1".to_string())),
            ("flag".to_string(), None)
        ]
    );
}

#[test]
fn build_invalid_attribute_key() {
    let r = build_parsed_data(&input("div", &[("ok", "1"), ("!!!", "x"), ("also", "2")]));
    assert_eq!(r.unwrap_err(), ParseError::InvalidAttributeKey);
    let r = build_parsed_data(&input("div", &[("!!!", "")]));
    assert_eq!(r.unwrap_err(), ParseError::InvalidAttributeKey);
}

#[test]
fn build_trims_values_and_keeps_duplicates() {
    let d = build_parsed_data(&input(" my tag ", &[("a b", "  x & <y>  "), ("a b", "   ")]))
        .unwrap();
    assert_eq!(d.tag, "my_tag");
    assert_eq!(
        attrs(&d),
        vec![
            ("a_b".to_string(), Some("x & <y>".to_string())),
            ("a_b".to_string(), None)
        ]
    );
}

#[test]
fn generate_xml_escapes_quotes() {
    let d = ParsedData {
        tag: "div".to_string(),
        attributes: vec![
            ("class".to_string(), Some("a\"b".to_string())),
            ("disabled".to_string(), None),
        ],
    };
    assert_eq!(generate_xml(&d), "<div class=\"a&quot;b\" disabled>\n\n</div>");
}

#[test]
fn generate_xml_no_attributes() {
    let d = ParsedData { tag: "p".to_string(), attributes: vec![] };
    assert_eq!(generate_xml(&d), "<p>\n\n</p>");
}

fn session_with(tag: &str, rows: &[(&str, &str)]) -> Session {
    let mut s = Session::new();
    s.edit_tag(tag.to_string());
    for (i, (k, v)) in rows.iter().enumerate() {
        s.add_row();
        s.edit_key(i, k.to_string());
        s.edit_value(i, v.to_string());
    }
    s
}

#[test]
fn enter_commits_element() {
    let mut s = session_with("Img", &[("src", "pic.png"), (" ", " ")]);
    match s.handle_key(Some(FieldId::Tag), KeyEvent::Enter) {
        Action::Copy(text) => assert_eq!(text, "<Img src=\"pic.png\">\n\n</Img>"),
        _ => panic!("expected a copy request"),
    }
    assert_eq!(s.finish_copy(Ok(())), Signal::Commit);
    assert!(!s.has_parse_error);
}

#[test]
fn enter_with_failed_clipboard_stays_open() {
    let mut s = session_with("b", &[]);
    assert!(matches!(s.handle_key(None, KeyEvent::Enter), Action::Copy(_)));
    assert_eq!(s.finish_copy(Err(ClipboardError::ClipboardWriteFailed)), Signal::Stay);
    assert!(s.has_parse_error);
    assert!(matches!(s.handle_key(None, KeyEvent::Enter), Action::Copy(_)));
    assert_eq!(s.finish_copy(Err(ClipboardError::ClipboardUnavailable)), Signal::Stay);
    assert!(s.has_parse_error);
    assert!(matches!(s.handle_key(None, KeyEvent::Enter), Action::Copy(_)));
    assert_eq!(s.finish_copy(Ok(())), Signal::Commit);
    assert!(!s.has_parse_error);
}

#[test]
fn enter_with_invalid_input_sets_error() {
    let mut s = session_with("???", &[]);
    assert!(matches!(s.handle_key(Some(FieldId::Tag), KeyEvent::Enter), Action::Nothing));
    assert!(s.has_parse_error);
}

#[test]
fn escape_cancels() {
    let mut s = session_with("x", &[("a", "b")]);
    assert!(matches!(s.handle_key(Some(FieldId::AttrKey(0)), KeyEvent::Escape), Action::Cancel));
    assert_eq!(s.input_state.attributes.len(), 1);
}

#[test]
fn tab_from_tag_adds_first_row() {
    let mut s = Session::new();
    assert_eq!(s.take_focus_request(), Some(FieldId::Tag));
    assert_eq!(s.take_focus_request(), None);
    assert!(matches!(s.handle_key(Some(FieldId::Tag), KeyEvent::Tab), Action::Nothing));
    assert_eq!(s.input_state.attributes, vec![(String::new(), String::new())]);
    assert_eq!(s.take_focus_request(), Some(FieldId::AttrKey(0)));
    // a second Tab from the tag, now that a row exists, adds nothing
    s.handle_key(Some(FieldId::Tag), KeyEvent::Tab);
    assert_eq!(s.input_state.attributes.len(), 1);
}

#[test]
fn tab_from_values() {
    let mut s = session_with("x", &[("a", "1"), ("b", "2")]);
    s.take_focus_request();
    s.handle_key(Some(FieldId::AttrValue(0)), KeyEvent::Tab);
    assert_eq!(s.input_state.attributes.len(), 2);
    assert_eq!(s.focus_next_frame, None);
    s.handle_key(Some(FieldId::AttrKey(1)), KeyEvent::Tab);
    assert_eq!(s.input_state.attributes.len(), 2);
    s.handle_key(Some(FieldId::AttrValue(1)), KeyEvent::Tab);
    assert_eq!(s.input_state.attributes.len(), 3);
    assert_eq!(s.take_focus_request(), Some(FieldId::AttrKey(2)));
}

#[test]
fn edits_clear_error() {
    let mut s = session_with("", &[("k", "v"), ("j", "w")]);
    s.handle_key(None, KeyEvent::Enter);
    assert!(s.has_parse_error);
    s.edit_tag("   ".to_string());
    assert!(!s.has_parse_error);

    s.handle_key(None, KeyEvent::Enter);
    assert!(s.has_parse_error);
    s.edit_key(0, "!!!".to_string());
    assert!(!s.has_parse_error);
    assert_eq!(s.input_state.attributes[0], ("!!!".to_string(), "v".to_string()));

    s.handle_key(None, KeyEvent::Enter);
    assert!(s.has_parse_error);
    s.edit_value(1, "z".to_string());
    assert!(!s.has_parse_error);
    assert_eq!(s.input_state.attributes[1], ("j".to_string(), "z".to_string()));

    s.handle_key(None, KeyEvent::Enter);
    assert!(s.has_parse_error);
    s.remove_row(0);
    assert!(!s.has_parse_error);
    assert_eq!(s.input_state.attributes, vec![("j".to_string(), "z".to_string())]);
}

#[test]
fn add_row_requests_key_focus() {
    let mut s = session_with("x", &[("a", "1")]);
    s.take_focus_request();
    s.add_row();
    assert_eq!(s.input_state.attributes.len(), 2);
    assert_eq!(s.take_focus_request(), Some(FieldId::AttrKey(1)));
}
