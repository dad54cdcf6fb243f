use serve_md::matter::{RefDef, RefDefMatter};

#[test]
fn refdef_scan_and_parse_groups_by_id() {
    let input = b"[key]: /uri/path \"title\"\n[key]: /dif/path\n\n# Header\nsome text.\n";
    let mut matter = RefDefMatter::new(input);
    matter.scan();
    let groups = matter.parse_gray_matter().expect("a leading refdef run");
    // Both definitions share one id and keep their order; the pattern leaves
    // the space before the quoted title inside the target.
    assert_eq!(groups.len(), 1);
    assert_eq!(groups[0].0, "key");
    assert_eq!(
        groups[0].1,
        vec![
            RefDef { uri: "/uri/path ".to_string(), title: Some("title".to_string()) },
            RefDef { uri: "/dif/path".to_string(), title: None },
        ]
    );
}

#[test]
fn refdef_two_ids_keep_first_appearance_order() {
    let input = b"[b]: /two\n[a]: /one\n[b]: /three\n\nrest";
    let mut matter = RefDefMatter::new(input);
    matter.scan();
    let groups = matter.parse_gray_matter().expect("a leading refdef run");
    assert_eq!(groups.len(), 2);
    assert_eq!(groups[0].0, "b");
    assert_eq!(
        groups[0].1,
        vec![
            RefDef { uri: "/two".to_string(), title: None },
            RefDef { uri: "/three".to_string(), title: None },
        ]
    );
    assert_eq!(groups[1].0, "a");
    assert_eq!(groups[1].1, vec![RefDef { uri: "/one".to_string(), title: None }]);
}

#[test]
fn refdef_scan_without_leading_bracket_finds_nothing() {
    let mut matter = RefDefMatter::new(b"# Header\n[key]: /uri\n");
    matter.scan();
    assert_eq!(matter.parse_gray_matter(), None);
}

#[test]
fn refdef_nothing_scanned_parses_to_nothing() {
    let matter = RefDefMatter::new(b"[key]: /uri\n");
    assert_eq!(matter.parse_gray_matter(), None);
}

#[test]
fn refdef_line_without_pattern_adds_no_group() {
    let input = b"[not a refdef\n[key]: /uri\n\nrest";
    let mut matter = RefDefMatter::new(input);
    matter.scan();
    let groups = matter.parse_gray_matter().expect("a leading refdef run");
    assert_eq!(groups.len(), 1);
    assert_eq!(groups[0].0, "key");
    assert_eq!(groups[0].1, vec![RefDef { uri: "/uri".to_string(), title: None }]);
}
