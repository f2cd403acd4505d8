//! Rendering a document as HTML text.
use vstd::prelude::*;
use vstd::string::StringExecFns;
use crate::model::{BlockNode, BlockView, Document, InlineNode, InlineView};
use crate::text::{chars_of, push_char};

verus! {

/// One character as HTML text: `<`, `>`, `&` and `"` become entities.
pub open spec fn escape_char(c: char) -> Seq<char> {
    if c == '<' {
        "&lt;"@
    } else if c == '>' {
        "&gt;"@
    } else if c == '&' {
        "&amp;"@
    } else if c == '"' {
        "&quot;"@
    } else {
        seq![c]
    }
}

/// A text as HTML text, character by character.
pub open spec fn escape(t: Seq<char>) -> Seq<char>
    decreases t.len(),
{
    if t.len() == 0 {
        seq![]
    } else {
        escape(t.drop_last()) + escape_char(t.last())
    }
}

/// One inline node as HTML.
pub open spec fn inline_html(n: InlineView) -> Seq<char> {
    match n {
        InlineView::Link { text, url } => "<a href=\""@ + escape(url) + "\">"@ + escape(text)
            + "</a>"@,
        InlineView::Image { alt, url } => "<img src=\""@ + escape(url) + "\" alt=\""@ + escape(alt)
            + "\">"@,
        InlineView::InlineCode { text } => "<code>"@ + escape(text) + "</code>"@,
        InlineView::Bold { text } => "<strong>"@ + escape(text) + "</strong>"@,
        InlineView::Italic { text } => "<em>"@ + escape(text) + "</em>"@,
        InlineView::Plaintext { text } => escape(text),
    }
}

/// The nodes of a line as HTML, one after another.
pub open spec fn line_html(l: Seq<InlineView>) -> Seq<char>
    decreases l.len(),
{
    if l.len() == 0 {
        seq![]
    } else {
        line_html(l.drop_last()) + inline_html(l.last())
    }
}

/// The items of a list as HTML, each in an `li` element.
pub open spec fn items_html(items: Seq<Seq<InlineView>>) -> Seq<char>
    decreases items.len(),
{
    if items.len() == 0 {
        seq![]
    } else {
        items_html(items.drop_last()) + "<li>"@ + line_html(items.last()) + "</li>"@
    }
}

/// The element name of a heading: `h1` to `h6`, deeper levels taking `h6`.
pub open spec fn heading_tag(level: nat) -> Seq<char> {
    if level <= 1 {
        "h1"@
    } else if level == 2 {
        "h2"@
    } else if level == 3 {
        "h3"@
    } else if level == 4 {
        "h4"@
    } else if level == 5 {
        "h5"@
    } else {
        "h6"@
    }
}

/// One block as HTML.
pub open spec fn block_html(b: BlockView) -> Seq<char> {
    match b {
        BlockView::Heading { level, content } => "<"@ + heading_tag(level) + ">"@ + line_html(
            content,
        ) + "</"@ + heading_tag(level) + ">"@,
        BlockView::UnorderedList { items } => "<ul>"@ + items_html(items) + "</ul>"@,
        BlockView::OrderedList { items } => "<ol>"@ + items_html(items) + "</ol>"@,
        BlockView::Paragraph { content } => "<p>"@ + line_html(content) + "</p>"@,
        BlockView::Codeblock { raw } => "<pre><code>"@ + escape(raw) + "</code></pre>"@,
    }
}

/// The blocks of a document as HTML, one after another.
pub open spec fn document_html(bs: Seq<BlockView>) -> Seq<char>
    decreases bs.len(),
{
    if bs.len() == 0 {
        seq![]
    } else {
        document_html(bs.drop_last()) + block_html(bs.last())
    }
}

/// Appends `t` to `out` as HTML text.
fn push_escaped(out: &mut String, t: &String)
    ensures
        final(out)@ == old(out)@ + escape(t@),
{
    let ghost start = out@;
    let cs = chars_of(t.as_str());
    let mut i: usize = 0;
    while i < cs.len()
        invariant
            i <= cs@.len(),
            cs@ == t@,
            out@ == start + escape(cs@.take(i as int)),
        decreases cs@.len() - i,
    {
        let c = cs[i];
        assert(cs@.take(i + 1).drop_last() =~= cs@.take(i as int));
        if c == '<' {
            out.append("&lt;");
        } else if c == '>' {
            out.append("&gt;");
        } else if c == '&' {
            out.append("&amp;");
        } else if c == '"' {
            out.append("&quot;");
        } else {
            push_char(out, c);
        }
        assert(out@ =~= start + escape(cs@.take(i + 1)));
        i += 1;
    }
    assert(cs@.take(i as int) =~= t@);
}

/// Appends one inline node to `out` as HTML.
fn push_inline(out: &mut String, n: &InlineNode)
    ensures
        final(out)@ == old(out)@ + inline_html(n.deep_view()),
{
    let ghost start = out@;
    match n {
        InlineNode::Link { text, url } => {
            out.append("<a href=\"");
            push_escaped(out, url);
            out.append("\">");
            push_escaped(out, text);
            out.append("</a>");
        },
        InlineNode::Image { alt, url } => {
            out.append("<img src=\"");
            push_escaped(out, url);
            out.append("\" alt=\"");
            push_escaped(out, alt);
            out.append("\">");
        },
        InlineNode::InlineCode { text } => {
            out.append("<code>");
            push_escaped(out, text);
            out.append("</code>");
        },
        InlineNode::Bold { text } => {
            out.append("<strong>");
            push_escaped(out, text);
            out.append("</strong>");
        },
        InlineNode::Italic { text } => {
            out.append("<em>");
            push_escaped(out, text);
            out.append("</em>");
        },
        InlineNode::Plaintext { text } => {
            push_escaped(out, text);
        },
    }
    assert(out@ =~= start + inline_html(n.deep_view()));
}

/// Appends the nodes of a line to `out` as HTML.
fn push_line(out: &mut String, l: &Vec<InlineNode>)
    ensures
        final(out)@ == old(out)@ + line_html(l.deep_view()),
{
    let ghost start = out@;
    let mut i: usize = 0;
    while i < l.len()
        invariant
            i <= l@.len(),
            out@ == start + line_html(l.deep_view().take(i as int)),
        decreases l@.len() - i,
    {
        assert(l.deep_view().take(i + 1).drop_last() =~= l.deep_view().take(i as int));
        push_inline(out, &l[i]);
        assert(out@ =~= start + line_html(l.deep_view().take(i + 1)));
        i += 1;
    }
    assert(l.deep_view().take(i as int) =~= l.deep_view());
}

/// Appends the items of a list to `out` as HTML.
fn push_items(out: &mut String, items: &Vec<Vec<InlineNode>>)
    ensures
        final(out)@ == old(out)@ + items_html(items.deep_view()),
{
    let ghost start = out@;
    let mut i: usize = 0;
    while i < items.len()
        invariant
            i <= items@.len(),
            out@ == start + items_html(items.deep_view().take(i as int)),
        decreases items@.len() - i,
    {
        assert(items.deep_view().take(i + 1).drop_last() =~= items.deep_view().take(i as int));
        out.append("<li>");
        push_line(out, &items[i]);
        out.append("</li>");
        assert(out@ =~= start + items_html(items.deep_view().take(i + 1)));
        i += 1;
    }
    assert(items.deep_view().take(i as int) =~= items.deep_view());
}

/// The element name of a heading of the given level.
fn heading_tag_of(level: usize) -> (r: &'static str)
    ensures
        r@ == heading_tag(level as nat),
{
    if level <= 1 {
        "h1"
    } else if level == 2 {
        "h2"
    } else if level == 3 {
        "h3"
    } else if level == 4 {
        "h4"
    } else if level == 5 {
        "h5"
    } else {
        "h6"
    }
}

/// Appends one block to `out` as HTML.
fn push_block(out: &mut String, b: &BlockNode)
    ensures
        final(out)@ == old(out)@ + block_html(b.deep_view()),
{
    let ghost start = out@;
    match b {
        BlockNode::Heading { level, content } => {
            let tag = heading_tag_of(*level);
            out.append("<");
            out.append(tag);
            out.append(">");
            push_line(out, content);
            out.append("</");
            out.append(tag);
            out.append(">");
        },
        BlockNode::UnorderedList { items } => {
            out.append("<ul>");
            push_items(out, items);
            out.append("</ul>");
        },
        BlockNode::OrderedList { items } => {
            out.append("<ol>");
            push_items(out, items);
            out.append("</ol>");
        },
        BlockNode::Paragraph { content } => {
            out.append("<p>");
            push_line(out, content);
            out.append("</p>");
        },
        BlockNode::Codeblock { raw } => {
            out.append("<pre><code>");
            push_escaped(out, raw);
            out.append("</code></pre>");
        },
    }
    assert(out@ =~= start + block_html(b.deep_view()));
}

/// The document as HTML: each block in its element, the text escaped.
pub fn to_html(doc: &Document) -> (r: String)
    ensures
        r@ == document_html(doc@),
{
    let mut out = String::new();
    let mut i: usize = 0;
    while i < doc.blocks.len()
        invariant
            i <= doc.blocks@.len(),
            out@ == document_html(doc@.take(i as int)),
        decreases doc.blocks@.len() - i,
    {
        assert(doc@.take(i + 1).drop_last() =~= doc@.take(i as int));
        push_block(&mut out, &doc.blocks[i]);
        assert(out@ =~= document_html(doc@.take(i + 1)));
        i += 1;
    }
    assert(doc@.take(i as int) =~= doc@);
    out
}

} // verus!
