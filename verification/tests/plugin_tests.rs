use serve_md::plugin::{CollapsibleHeaders, Emoji};
use serve_md::token::{Tag, Token};
use serve_md::MatchRange;

#[test]
fn emoji_test_check_and_replace_slice() {
    let mut plugin = Emoji {};
    let input = [
        (
            0usize,
            Token::Text("Random text w/ shortcode :+1: emoji :smile: mixed in. :tada:".to_string()),
        ),
        (1usize, Token::Text(":rocket::rocket::rocket:".to_string())),
    ];
    let mut ranges = vec![];
    let expected = [
        Token::Text("Random text w/ shortcode 👍 emoji 😄 mixed in. 🎉".to_string()),
        Token::Text("🚀🚀🚀".to_string()),
    ];
    for slice in input.windows(plugin.window_size()) {
        ranges.push(plugin.check_slice(slice));
    }
    assert!(!ranges.is_empty());
    assert_eq!(ranges.len(), 2);
    assert_eq!(ranges.iter().filter(|o| o.is_some()).count(), 2);
    let mut results = vec![];
    for op in ranges {
        if let Some(range) = op {
            results.extend_from_slice(&plugin.replace_slice(&input[range.start..range.end]))
        } else {
            assert!(false);
        }
    }
    assert!(!results.is_empty());
    assert_eq!(expected.len(), results.len());
    for i in 0..expected.len() {
        assert_eq!(expected[i], results[i]);
    }
}

#[test]
fn emoji_test_incomplete_shortcode() {
    let mut plugin = Emoji {};
    let input = [(0usize, Token::Text(":+1::+1:+1:".to_string()))];
    let mut ranges = vec![];
    let expected = [Token::Text("👍👍+1:".to_string())];
    for slice in input.windows(plugin.window_size()) {
        ranges.push(plugin.check_slice(slice));
    }
    assert!(!ranges.is_empty());
    assert_eq!(ranges.len(), 1);
    assert_eq!(ranges.iter().filter(|o| o.is_some()).count(), 1);
    let mut results = vec![];
    for op in ranges {
        if let Some(range) = op {
            results.extend_from_slice(&plugin.replace_slice(&input[range.start..range.end]))
        } else {
            assert!(false);
        }
    }
    assert!(!results.is_empty());
    assert_eq!(expected.len(), results.len());
    for i in 0..expected.len() {
        assert_eq!(expected[i], results[i]);
    }
}

#[test]
fn ch_test_check_and_replace_slice() {
    let input = [
        (0usize, Token::Start(Tag::Heading(6, 0))),
        (1, Token::Start(Tag::Emphasis)),
        (2, Token::Text("text".to_string())),
        (3, Token::End(Tag::Emphasis)),
        (4, Token::End(Tag::Heading(6, 0))),
        (5, Token::Start(Tag::Paragraph)),
        (6, Token::Text("some test text. a lil bit more.".to_string())),
        (7, Token::End(Tag::Paragraph)),
        (8, Token::Rule),
        (9, Token::Start(Tag::Paragraph)),
        (
            10,
            Token::Text("Some more text that should not be captured by the plugin.".to_string()),
        ),
        (11, Token::End(Tag::Paragraph)),
        (12, Token::Start(Tag::Heading(6, 0))),
        (13, Token::Start(Tag::Emphasis)),
        (14, Token::Text("text".to_string())),
        (15, Token::End(Tag::Emphasis)),
        (16, Token::End(Tag::Heading(6, 0))),
    ];

    let level = 5;
    let mut ranges = vec![];
    let mut plugin = CollapsibleHeaders::new(level, "text".to_string());
    for slice in input.windows(plugin.window_size()) {
        if let Some(range) = plugin.check_slice(slice) {
            ranges.push(range);
        }
    }
    // Checks for any partially open ranges.
    if let Some(range) = plugin.final_check(input.len()) {
        ranges.push(range);
    }

    // As heading level 6 is the max no matches should exist beyond it.
    if level > 6 {
        assert!(ranges.is_empty());
    } else {
        assert_eq!(ranges.len(), 2);
        assert_eq!(ranges[0], MatchRange::new(0, 8));
        assert_eq!(ranges[1], MatchRange::new(12, 17));

        let output = &plugin.replace_slice(&input[ranges[0].start..ranges[0].end]);
        assert!(!output.is_empty());
        assert_eq!(
            [
                Token::Html("<details open>".to_string()),
                Token::SoftBreak,
                Token::Html("<summary>".to_string()),
                Token::Start(Tag::Emphasis),
                Token::Text("text".to_string()),
                Token::End(Tag::Emphasis),
                Token::Html("</summary>".to_string()),
                Token::Start(Tag::Paragraph),
                Token::Text("some test text. a lil bit more.".to_string()),
                Token::End(Tag::Paragraph),
                Token::Html("</details>".to_string()),
            ][..],
            output[..]
        );

        let output = &plugin.replace_slice(&input[ranges[1].start..ranges[1].end]);
        assert!(!output.is_empty());
        assert_eq!(
            [
                Token::Html("<details open>".to_string()),
                Token::SoftBreak,
                Token::Html("<summary>".to_string()),
                Token::Start(Tag::Emphasis),
                Token::Text("text".to_string()),
                Token::End(Tag::Emphasis),
                Token::Html("</summary>".to_string()),
                Token::Html("</details>".to_string()),
            ][..],
            output[..]
        );
    }
}

#[test]
fn emoji_final_check_returns_nothing() {
    let mut plugin = Emoji {};
    assert_eq!(plugin.final_check(0), None);
    assert_eq!(plugin.final_check(17), None);
}

#[test]
fn emoji_unresolvable_shortcode_left_untouched() {
    let mut plugin = Emoji {};
    let input = [(0usize, Token::Text(":notanemojiatall: and :+1:".to_string()))];
    // The first colon pair holds an unknown name, so the window is no match.
    assert_eq!(plugin.check_slice(&input[0..1]), None);
    // Replacement of the same window still resolves the later shortcode and
    // leaves the unknown one untouched, colons included.
    let out = plugin.replace_slice(&input[0..1]);
    assert_eq!(out, vec![Token::Text(":notanemojiatall: and 👍".to_string())]);
}

#[test]
fn ch_marker_pair_closes_at_second_marker() {
    // A second marker while a span is open closes the span at the new
    // marker's closing token.
    let input = [
        (0usize, Token::Start(Tag::Heading(6, 0))),
        (1, Token::Start(Tag::Emphasis)),
        (2, Token::Text("text".to_string())),
        (3, Token::End(Tag::Emphasis)),
        (4, Token::Start(Tag::Heading(6, 0))),
        (5, Token::Start(Tag::Emphasis)),
        (6, Token::Text("text".to_string())),
        (7, Token::End(Tag::Emphasis)),
    ];
    let mut plugin = CollapsibleHeaders::new(5, "text".to_string());
    let mut ranges = vec![];
    for slice in input.windows(plugin.window_size()) {
        if let Some(range) = plugin.check_slice(slice) {
            ranges.push(range);
        }
    }
    assert_eq!(ranges, vec![MatchRange::new(0, 7)]);
    assert_eq!(plugin.final_check(input.len()), None);
}

#[test]
fn ch_shallower_heading_closes_span() {
    let input = [
        (0usize, Token::Start(Tag::Heading(6, 0))),
        (1, Token::Start(Tag::Emphasis)),
        (2, Token::Text("text".to_string())),
        (3, Token::End(Tag::Emphasis)),
        (4, Token::End(Tag::Heading(6, 0))),
        (5, Token::Start(Tag::Heading(2, 0))),
        (6, Token::Text("plain".to_string())),
        (7, Token::End(Tag::Heading(2, 0))),
        (8, Token::Start(Tag::Paragraph)),
        (9, Token::Text("after".to_string())),
        (10, Token::End(Tag::Paragraph)),
    ];
    let mut plugin = CollapsibleHeaders::new(5, "text".to_string());
    let mut ranges = vec![];
    for slice in input.windows(plugin.window_size()) {
        if let Some(range) = plugin.check_slice(slice) {
            ranges.push(range);
        }
    }
    // The level-two heading at position five is shallower than the
    // threshold, so it ends the range at its own position.
    assert_eq!(ranges, vec![MatchRange::new(0, 5)]);
    assert_eq!(plugin.final_check(input.len()), None);
}

#[test]
fn plugin_emoji_test_check_and_replace_slice() {
    let mut plugin = Emoji {};
    let input = [
        (
            0usize,
            Token::Text("Random text w/ shortcode :+1: emoji :smile: mixed in. :tada:".to_string()),
        ),
        (1usize, Token::Text(":rocket::rocket::rocket:".to_string())),
    ];
    let mut ranges = vec![];
    let expected = [
        Token::Text("Random text w/ shortcode 👍 emoji 😄 mixed in. 🎉".to_string()),
        Token::Text("🚀🚀🚀".to_string()),
    ];
    for slice in input.windows(plugin.window_size()) {
        ranges.push(plugin.check_slice(slice));
    }
    assert!(!ranges.is_empty());
    assert_eq!(ranges.len(), 2);
    assert_eq!(ranges.iter().filter(|o| o.is_some()).count(), 2);
    let mut results = vec![];
    for op in ranges {
        if let Some(range) = op {
            results.extend_from_slice(&plugin.replace_slice(&input[range.start..range.end]))
        } else {
            assert!(false);
        }
    }
    assert!(!results.is_empty());
    assert_eq!(expected.len(), results.len());
    for i in 0..expected.len() {
        assert_eq!(expected[i], results[i]);
    }
}

#[test]
fn plugin_emoji_test_incomplete_shortcode() {
    let mut plugin = Emoji {};
    let input = [(0usize, Token::Text(":+1::+1:+1:".to_string()))];
    let mut ranges = vec![];
    let expected = [Token::Text("👍👍+1:".to_string())];
    for slice in input.windows(plugin.window_size()) {
        ranges.push(plugin.check_slice(slice));
    }
    assert!(!ranges.is_empty());
    assert_eq!(ranges.len(), 1);
    assert_eq!(ranges.iter().filter(|o| o.is_some()).count(), 1);
    let mut results = vec![];
    for op in ranges {
        if let Some(range) = op {
            results.extend_from_slice(&plugin.replace_slice(&input[range.start..range.end]))
        } else {
            assert!(false);
        }
    }
    assert!(!results.is_empty());
    assert_eq!(expected.len(), results.len());
    for i in 0..expected.len() {
        assert_eq!(expected[i], results[i]);
    }
}

#[test]
fn emoji_substitutes_each_run_in_place() {
    // Runs are replaced positionally: the unresolved `:q:` run keeps both
    // colons, and the plain `+1` between runs is untouched.
    let mut plugin = Emoji {};
    let input = [(0usize, Token::Text(":+1::q:+1:+1:".to_string()))];
    assert!(plugin.check_slice(&input[0..1]).is_some());
    let out = plugin.replace_slice(&input[0..1]);
    assert_eq!(out, vec![Token::Text("👍:q:+1👍".to_string())]);
}

#[test]
fn emoji_trailing_partial_run_is_untouched() {
    // A partial run after an unpaired colon is no candidate: it is copied
    // verbatim, not substituted.
    let mut plugin = Emoji {};
    let input = [(0usize, Token::Text(":+1: :+1x".to_string()))];
    assert!(plugin.check_slice(&input[0..1]).is_some());
    let out = plugin.replace_slice(&input[0..1]);
    assert_eq!(out, vec![Token::Text("👍 :+1x".to_string())]);
}
