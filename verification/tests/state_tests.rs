use serve_md::state::{parse_collapsible_headers, HeaderRuleError, State};

#[test]
fn pch_test_ascii_digits() {
    let mut results = vec![];
    for char in '0'..='9' {
        let value = format!("h{char}:other");
        results.push(parse_collapsible_headers(&value));
    }
    assert_eq!(results.len(), 10);
    for i in 0..=9 {
        match &results[i] {
            Err(e) => {
                if i == 0 || i > 6 {
                    let ex = format!("Header level {i} does not fall within 1..6.");
                    let msg = e.message();
                    assert!(msg.contains(&ex));
                }
            }
            Ok(v) => {
                assert_eq!(v.0, i as u8);
                assert_eq!(v.1, "other");
            }
        }
    }
}

#[test]
fn pch_test_non_ascii_digits() {
    let mut results = vec![];
    let values = ['a', 'b', 'c'];
    for char in values {
        let value = format!("h{char}:other");
        results.push(parse_collapsible_headers(&value));
    }
    assert_eq!(results.len(), 3);
    for i in 0..3 {
        match &results[i] {
            Err(e) => {
                let ex = format!("Header level is not a digit, it was {}.", values[i]);
                let msg = e.message();
                assert!(msg.contains(&ex));
            }
            Ok(v) => {
                assert_eq!(v.0, i as u8);
                assert_eq!(v.1, "other");
            }
        }
    }
}

#[test]
fn pch_test_separator() {
    let mut results = vec![];
    let values = ["h1:other", "h2=other", "h3,other"];
    for value in values {
        results.push(parse_collapsible_headers(value));
    }
    assert_eq!(results.len(), 3);
    for i in 0..3 {
        match &results[i] {
            Ok(v) => {
                assert_eq!(v.0, (i + 1) as u8);
                assert_eq!(v.1, "other");
            }
            Err(e) => {
                let ex = format!(
                    "The third character after `h{}` must be a colon `:` or equals sign `=`.",
                    (i + 1)
                );
                let msg = e.message();
                assert!(msg.contains(&ex));
            }
        }
    }
}

#[test]
fn pch_test_for_missing_text() {
    let mut results = vec![];
    let values = ["h1:other", "h2:", "h3"];
    for value in values {
        results.push(parse_collapsible_headers(value));
    }
    assert_eq!(results.len(), 3);
    for i in 0..3 {
        match &results[i] {
            Ok(v) => {
                assert_eq!(v.0, (i + 1) as u8);
                assert_eq!(v.1, "other");
            }
            Err(e) => {
                let ex = format!("Some text to match against is required after h{}.", (i + 1));
                let msg = e.message();
                assert!(msg.contains(&ex));
            }
        }
    }
}

#[test]
fn pch_no_prefix_is_all_marker_text_at_level_one() {
    let r = parse_collapsible_headers("plain marker");
    assert_eq!(r, Ok((1, "plain marker".to_string())));
    let r = parse_collapsible_headers("h");
    assert_eq!(r, Ok((1, "h".to_string())));
    let r = parse_collapsible_headers("");
    assert_eq!(r, Err(HeaderRuleError::MissingText(1)));
}

#[test]
fn pch_error_variants() {
    assert_eq!(
        parse_collapsible_headers("h0:x"),
        Err(HeaderRuleError::LevelOutOfRange(0))
    );
    assert_eq!(
        parse_collapsible_headers("h7:x"),
        Err(HeaderRuleError::LevelOutOfRange(7))
    );
    assert_eq!(
        parse_collapsible_headers("hq:x"),
        Err(HeaderRuleError::NotADigit('q'))
    );
    assert_eq!(
        parse_collapsible_headers("h3;x"),
        Err(HeaderRuleError::BadSeparator(3))
    );
    assert_eq!(
        parse_collapsible_headers("h2:"),
        Err(HeaderRuleError::MissingText(2))
    );
}

#[test]
fn header_rule_messages_exact() {
    assert_eq!(
        HeaderRuleError::LevelOutOfRange(0).message(),
        "Header level 0 does not fall within 1..6."
    );
    assert_eq!(
        HeaderRuleError::LevelOutOfRange(9).message(),
        "Header level 9 does not fall within 1..6."
    );
    assert_eq!(
        HeaderRuleError::NotADigit('z').message(),
        "Header level is not a digit, it was z."
    );
    assert_eq!(
        HeaderRuleError::BadSeparator(4).message(),
        "The third character after `h4` must be a colon `:` or equals sign `=`."
    );
    assert_eq!(
        HeaderRuleError::MissingText(2).message(),
        "Some text to match against is required after h2."
    );
}

#[test]
fn state_defaults_and_set_missing() {
    let mut state = State::default();
    assert_eq!(state.port, 0);
    assert!(!state.emoji_shortcodes);
    assert!(state.collapsible_headers.is_none());
    assert!(state.front_matter.is_none());
    state.set_missing();
    assert_eq!(state.port, 0);
    assert!(state.root.is_none());
}
