use serve_md::pipeline::{
    check_collection_with, make_commonmark_plugins, process_commonmark_tokens,
    rewrite_collection_with,
};
use serve_md::plugin::{CollapsibleHeaders, Emoji, Plugin};
use serve_md::state::State;
use serve_md::token::{Tag, Token};
use serve_md::MatchRange;

fn sample_tokens() -> Vec<Token> {
    vec![
        Token::Start(Tag::Heading(6, 0)),
        Token::Start(Tag::Emphasis),
        Token::Text("text".to_string()),
        Token::End(Tag::Emphasis),
        Token::End(Tag::Heading(6, 0)),
        Token::Start(Tag::Paragraph),
        Token::Text("body :+1: here".to_string()),
        Token::End(Tag::Paragraph),
    ]
}

#[test]
fn orchestrator_identity_with_no_plugins() {
    let tokens = sample_tokens();
    let out = process_commonmark_tokens(tokens.clone(), Vec::new());
    assert_eq!(out, tokens);
}

#[test]
fn orchestrator_noop_plugin_leaves_tokens_unchanged() {
    // A plugin whose checks never match degenerates to an identity copy.
    let tokens = sample_tokens();
    let plugins = vec![Plugin::CollapsibleHeaders(CollapsibleHeaders::new(
        5,
        "no such marker".to_string(),
    ))];
    let out = process_commonmark_tokens(tokens.clone(), plugins);
    assert_eq!(out, tokens);
}

#[test]
fn threshold_not_met_yields_no_ranges() {
    // Requiring level seven when headings only reach level six produces zero
    // ranges and the output equals the input.
    let tokens = sample_tokens();
    let mut indexed: Vec<(usize, Token)> = Vec::new();
    for (k, t) in tokens.iter().enumerate() {
        indexed.push((k, t.clone()));
    }
    let mut plugin = Plugin::CollapsibleHeaders(CollapsibleHeaders::new(7, "text".to_string()));
    assert_eq!(check_collection_with(&mut plugin, &indexed), None);

    let plugins = vec![Plugin::CollapsibleHeaders(CollapsibleHeaders::new(
        7,
        "text".to_string(),
    ))];
    let out = process_commonmark_tokens(tokens.clone(), plugins);
    assert_eq!(out, tokens);
}

#[test]
fn chained_plugins_see_reindexed_output() {
    // Collapsible sections first, emoji substitution second: the emoji pass
    // must match inside the already rewritten, re-indexed sequence.
    let tokens = sample_tokens();
    let plugins = vec![
        Plugin::CollapsibleHeaders(CollapsibleHeaders::new(6, "text".to_string())),
        Plugin::Emoji(Emoji),
    ];
    let out = process_commonmark_tokens(tokens, plugins);
    assert_eq!(
        out,
        vec![
            Token::Html("<details open>".to_string()),
            Token::SoftBreak,
            Token::Html("<summary>".to_string()),
            Token::Start(Tag::Emphasis),
            Token::Text("text".to_string()),
            Token::End(Tag::Emphasis),
            Token::Html("</summary>".to_string()),
            Token::Start(Tag::Paragraph),
            Token::Text("body 👍 here".to_string()),
            Token::Html("</details>".to_string()),
            Token::End(Tag::Paragraph),
        ]
    );
}

#[test]
fn scanner_and_splicer_on_two_spans() {
    // Two independent spans: the first closes at the thematic break, the
    // second at the end of the document.
    let tokens = vec![
        Token::Start(Tag::Heading(6, 0)),
        Token::Start(Tag::Emphasis),
        Token::Text("text".to_string()),
        Token::End(Tag::Emphasis),
        Token::End(Tag::Heading(6, 0)),
        Token::Rule,
        Token::Start(Tag::Heading(6, 0)),
        Token::Start(Tag::Emphasis),
        Token::Text("text".to_string()),
        Token::End(Tag::Emphasis),
        Token::End(Tag::Heading(6, 0)),
    ];
    let mut indexed: Vec<(usize, Token)> = Vec::new();
    for (k, t) in tokens.iter().enumerate() {
        indexed.push((k, t.clone()));
    }
    let mut plugin = Plugin::CollapsibleHeaders(CollapsibleHeaders::new(6, "text".to_string()));
    let ranges = check_collection_with(&mut plugin, &indexed).expect("two spans expected");
    assert_eq!(ranges, vec![MatchRange::new(0, 5), MatchRange::new(6, 10)]);
    let out = rewrite_collection_with(&plugin, &indexed, &ranges);
    assert_eq!(
        out,
        vec![
            Token::Html("<details open>".to_string()),
            Token::SoftBreak,
            Token::Html("<summary>".to_string()),
            Token::Start(Tag::Emphasis),
            Token::Text("text".to_string()),
            Token::End(Tag::Emphasis),
            Token::Html("</summary>".to_string()),
            Token::Html("</details>".to_string()),
            Token::Rule,
            Token::Html("<details open>".to_string()),
            Token::SoftBreak,
            Token::Html("<summary>".to_string()),
            Token::Start(Tag::Emphasis),
            Token::Text("text".to_string()),
            Token::End(Tag::Emphasis),
            Token::Html("</summary>".to_string()),
            Token::Html("</details>".to_string()),
            Token::End(Tag::Heading(6, 0)),
        ]
    );
}

#[test]
fn plugin_list_follows_configuration() {
    let mut state = State::default();
    assert_eq!(make_commonmark_plugins(&state), vec![]);

    state.emoji_shortcodes = true;
    assert_eq!(make_commonmark_plugins(&state), vec![Plugin::Emoji(Emoji)]);

    state.collapsible_headers = Some((3, "marker".to_string()));
    assert_eq!(
        make_commonmark_plugins(&state),
        vec![
            Plugin::Emoji(Emoji),
            Plugin::CollapsibleHeaders(CollapsibleHeaders::new(3, "marker".to_string())),
        ]
    );
}

#[test]
fn match_range_length_and_membership() {
    let r = MatchRange::new(3, 7);
    assert_eq!(r.len(), 4);
    assert!(!r.contains(2));
    assert!(r.contains(3));
    assert!(r.contains(6));
    assert!(!r.contains(7));
}

#[test]
fn coverage_bound_on_concrete_scan() {
    // The matched ranges of one pass cover strictly fewer positions than
    // the sequence holds.
    let tokens = vec![
        Token::Start(Tag::Heading(6, 0)),
        Token::Start(Tag::Emphasis),
        Token::Text("text".to_string()),
        Token::End(Tag::Emphasis),
        Token::End(Tag::Heading(6, 0)),
        Token::Rule,
        Token::Start(Tag::Heading(6, 0)),
        Token::Start(Tag::Emphasis),
        Token::Text("text".to_string()),
        Token::End(Tag::Emphasis),
        Token::End(Tag::Heading(6, 0)),
    ];
    let mut indexed: Vec<(usize, Token)> = Vec::new();
    for (k, t) in tokens.iter().enumerate() {
        indexed.push((k, t.clone()));
    }
    let mut plugin = Plugin::CollapsibleHeaders(CollapsibleHeaders::new(6, "text".to_string()));
    let ranges = check_collection_with(&mut plugin, &indexed).expect("two spans expected");
    let covered: usize = ranges.iter().map(|r| r.end - r.start).sum();
    assert!(covered < tokens.len());
    for pair in ranges.windows(2) {
        assert!(pair[0].end <= pair[1].start);
    }

    let mut emoji = Plugin::Emoji(Emoji);
    let emoji_input = vec![
        (0usize, Token::Text(":+1:".to_string())),
        (1usize, Token::Text("plain".to_string())),
    ];
    let ranges = check_collection_with(&mut emoji, &emoji_input).expect("one match expected");
    let covered: usize = ranges.iter().map(|r| r.end - r.start).sum();
    assert!(covered < emoji_input.len());
}

#[test]
fn sequence_shorter_than_window_yields_no_windows() {
    // Two tokens cannot fill a four-token window; the boundary check still
    // runs but a fresh plugin has no span to close.
    let indexed = vec![
        (0usize, Token::Start(Tag::Paragraph)),
        (1usize, Token::End(Tag::Paragraph)),
    ];
    let mut plugin = Plugin::CollapsibleHeaders(CollapsibleHeaders::new(1, "text".to_string()));
    assert_eq!(check_collection_with(&mut plugin, &indexed), None);
}

#[test]
fn empty_sequence_passes_through() {
    let plugins = vec![
        Plugin::Emoji(Emoji),
        Plugin::CollapsibleHeaders(CollapsibleHeaders::new(1, "text".to_string())),
    ];
    let out = process_commonmark_tokens(Vec::new(), plugins);
    assert_eq!(out, Vec::<Token>::new());
}
