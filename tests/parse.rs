use prose::{parse, BlockNode, FailureKind, InlineNode};

fn plain(t: &str) -> InlineNode {
    InlineNode::Plaintext { text: t.to_string() }
}

fn paragraph(content: Vec<InlineNode>) -> BlockNode {
    BlockNode::Paragraph { content }
}

fn blocks(text: &str) -> Vec<BlockNode> {
    parse(text).expect("input should parse").blocks
}

#[test]
fn bold_line_is_one_bold_node() {
    assert_eq!(
        blocks("**strong words**\n"),
        vec![paragraph(vec![InlineNode::Bold { text: "strong words".to_string() }])]
    );
}

#[test]
fn italic_line_is_one_italic_node() {
    assert_eq!(
        blocks("*leaning*\n"),
        vec![paragraph(vec![InlineNode::Italic { text: "leaning".to_string() }])]
    );
}

#[test]
fn double_star_is_bold_not_empty_italic() {
    assert_eq!(
        blocks("**bold**\n"),
        vec![paragraph(vec![InlineNode::Bold { text: "bold".to_string() }])]
    );
}

#[test]
fn line_without_reserved_characters_is_one_plain_node() {
    assert_eq!(blocks("just some words, ok!\n"), vec![paragraph(vec![plain("just some words, ok!")])]);
}

#[test]
fn heading_level_counts_hashes() {
    assert_eq!(
        blocks("### h3\n"),
        vec![BlockNode::Heading { level: 3, content: vec![plain("h3")] }]
    );
}

#[test]
fn heading_level_has_no_upper_bound() {
    assert_eq!(
        blocks("######### deep\n"),
        vec![BlockNode::Heading { level: 9, content: vec![plain("deep")] }]
    );
}

#[test]
fn hashes_without_space_are_a_paragraph() {
    assert_eq!(blocks("#tag\n"), vec![paragraph(vec![plain("#tag")])]);
}

#[test]
fn second_space_after_hashes_belongs_to_the_line() {
    assert_eq!(
        blocks("#  two\n"),
        vec![BlockNode::Heading { level: 1, content: vec![plain(" two")] }]
    );
}

#[test]
fn unordered_list_stops_at_first_non_item() {
    assert_eq!(
        blocks("- a\n- b\nc\n"),
        vec![
            BlockNode::UnorderedList { items: vec![vec![plain("a")], vec![plain("b")]] },
            paragraph(vec![plain("c")]),
        ]
    );
}

#[test]
fn ordered_list_numbers_are_not_checked() {
    assert_eq!(
        blocks("3. x\n10. y\n3. z\n"),
        vec![BlockNode::OrderedList {
            items: vec![vec![plain("x")], vec![plain("y")], vec![plain("z")]]
        }]
    );
}

#[test]
fn unordered_then_ordered_list_are_two_blocks() {
    assert_eq!(
        blocks("- a\n1. b\n"),
        vec![
            BlockNode::UnorderedList { items: vec![vec![plain("a")]] },
            BlockNode::OrderedList { items: vec![vec![plain("b")]] },
        ]
    );
}

#[test]
fn list_item_with_spans() {
    assert_eq!(
        blocks("- *a* and `b`\n"),
        vec![BlockNode::UnorderedList {
            items: vec![vec![
                InlineNode::Italic { text: "a".to_string() },
                plain(" and "),
                InlineNode::InlineCode { text: "b".to_string() },
            ]]
        }]
    );
}

#[test]
fn missing_trailing_newline_fails() {
    let f = parse("plain text").unwrap_err();
    assert_eq!(f.kind, FailureKind::MissingNewline);
    assert_eq!(f.offset, 10);
    assert_eq!(f.rest, "");
}

#[test]
fn last_line_without_newline_fails_the_whole_parse() {
    let f = parse("# title\nmore").unwrap_err();
    assert_eq!(f.kind, FailureKind::MissingNewline);
    assert_eq!(f.offset, 12);
}

#[test]
fn unterminated_marker_fails() {
    let f = parse("*unterminated\n").unwrap_err();
    assert_eq!(f.kind, FailureKind::UnclosedMarker);
    assert_eq!(f.offset, 0);
    assert_eq!(f.rest, "*unterminated\n");
}

#[test]
fn unclosed_marker_after_text_reports_its_offset() {
    let f = parse("ok\nsee [here\n").unwrap_err();
    assert_eq!(f.kind, FailureKind::UnclosedMarker);
    assert_eq!(f.offset, 7);
    assert_eq!(f.rest, "[here\n");
}

#[test]
fn newline_inside_span_does_not_close_it() {
    assert!(parse("*a\nb*\n").is_err());
}

#[test]
fn image_takes_precedence_over_link() {
    assert_eq!(
        blocks("![a](b)\n"),
        vec![paragraph(vec![InlineNode::Image { alt: "a".to_string(), url: "b".to_string() }])]
    );
}

#[test]
fn link_after_text() {
    assert_eq!(
        blocks("see [docs](http://x.y/z) now\n"),
        vec![paragraph(vec![
            plain("see "),
            InlineNode::Link { text: "docs".to_string(), url: "http://x.y/z".to_string() },
            plain(" now"),
        ])]
    );
}

#[test]
fn bang_without_bracket_is_plain() {
    assert_eq!(blocks("wow! [l](u)\n"), vec![paragraph(vec![
        plain("wow! "),
        InlineNode::Link { text: "l".to_string(), url: "u".to_string() },
    ])]);
}

#[test]
fn empty_input_is_empty_document() {
    assert_eq!(blocks(""), Vec::<BlockNode>::new());
}

#[test]
fn blank_line_is_an_empty_paragraph() {
    assert_eq!(blocks("\n"), vec![paragraph(vec![])]);
}

#[test]
fn mixed_spans_on_one_line() {
    assert_eq!(
        blocks("a **b** *c* `d`\n"),
        vec![paragraph(vec![
            plain("a "),
            InlineNode::Bold { text: "b".to_string() },
            plain(" "),
            InlineNode::Italic { text: "c".to_string() },
            plain(" "),
            InlineNode::InlineCode { text: "d".to_string() },
        ])]
    );
}

#[test]
fn non_ascii_text_is_kept() {
    assert_eq!(blocks("héllo wörld ✓\n"), vec![paragraph(vec![plain("héllo wörld ✓")])]);
    let f = parse("é*").unwrap_err();
    assert_eq!(f.offset, 1);
    assert_eq!(f.rest, "*");
}

#[test]
fn fenced_code_block_keeps_raw_lines() {
    assert_eq!(
        blocks("```rust\nlet *x* = [1];\n\n```\nafter\n"),
        vec![
            BlockNode::Codeblock { raw: "let *x* = [1];\n\n".to_string() },
            paragraph(vec![plain("after")]),
        ]
    );
}

#[test]
fn empty_fenced_code_block() {
    assert_eq!(blocks("```\n```\n"), vec![BlockNode::Codeblock { raw: String::new() }]);
}

#[test]
fn unclosed_fence_fails() {
    let f = parse("```\ncode\n").unwrap_err();
    assert_eq!(f.kind, FailureKind::UnclosedMarker);
    assert_eq!(f.offset, 0);
}

#[test]
fn empty_span_content_is_rejected() {
    assert!(parse("``\n").is_err());
    assert!(parse("[](u)\n").is_err());
    assert!(parse("[t]()\n").is_err());
}
