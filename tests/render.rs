use prose::{parse, to_html};

fn html(text: &str) -> String {
    to_html(&parse(text).expect("input should parse"))
}

#[test]
fn paragraph_with_spans_renders() {
    assert_eq!(
        html("a **b** *c* `d`\n"),
        "<p>a <strong>b</strong> <em>c</em> <code>d</code></p>"
    );
}

#[test]
fn heading_levels_render_up_to_h6() {
    assert_eq!(html("## two\n"), "<h2>two</h2>");
    assert_eq!(html("######## eight\n"), "<h6>eight</h6>");
}

#[test]
fn lists_render_items() {
    assert_eq!(html("- a\n- b\n"), "<ul><li>a</li><li>b</li></ul>");
    assert_eq!(html("1. a\n2. b\n"), "<ol><li>a</li><li>b</li></ol>");
}

#[test]
fn links_and_images_render() {
    assert_eq!(html("[t](u)\n"), "<p><a href=\"u\">t</a></p>");
    assert_eq!(html("![a](b)\n"), "<p><img src=\"b\" alt=\"a\"></p>");
}

#[test]
fn text_is_escaped() {
    assert_eq!(html("x < y & \"z\" > w\n"), "<p>x &lt; y &amp; &quot;z&quot; &gt; w</p>");
}

#[test]
fn code_block_renders_raw_text() {
    assert_eq!(html("```\n<b>\n```\n"), "<pre><code>&lt;b&gt;\n</code></pre>");
}

#[test]
fn blocks_render_in_order() {
    assert_eq!(html("# t\n\nbody\n"), "<h1>t</h1><p></p><p>body</p>");
}

#[test]
fn empty_document_renders_empty() {
    assert_eq!(html(""), "");
}
