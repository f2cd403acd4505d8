use vstd::prelude::*;

verus! {

/// The abstract value of an inline node: its fields as character sequences.
pub enum InlineView {
    Link { text: Seq<char>, url: Seq<char> },
    Image { alt: Seq<char>, url: Seq<char> },
    InlineCode { text: Seq<char> },
    Bold { text: Seq<char> },
    Italic { text: Seq<char> },
    Plaintext { text: Seq<char> },
}

/// The abstract value of a block node.
pub enum BlockView {
    Heading { level: nat, content: Seq<InlineView> },
    UnorderedList { items: Seq<Seq<InlineView>> },
    OrderedList { items: Seq<Seq<InlineView>> },
    Paragraph { content: Seq<InlineView> },
    Codeblock { raw: Seq<char> },
}

/// An atomic span within one source line.
#[derive(Debug, Clone, PartialEq, Eq)]
pub enum InlineNode {
    Link { text: String, url: String },
    Image { alt: String, url: String },
    InlineCode { text: String },
    Bold { text: String },
    Italic { text: String },
    Plaintext { text: String },
}

impl DeepView for InlineNode {
    type V = InlineView;

    open spec fn deep_view(&self) -> InlineView {
        match self {
            InlineNode::Link { text, url } => InlineView::Link { text: text@, url: url@ },
            InlineNode::Image { alt, url } => InlineView::Image { alt: alt@, url: url@ },
            InlineNode::InlineCode { text } => InlineView::InlineCode { text: text@ },
            InlineNode::Bold { text } => InlineView::Bold { text: text@ },
            InlineNode::Italic { text } => InlineView::Italic { text: text@ },
            InlineNode::Plaintext { text } => InlineView::Plaintext { text: text@ },
        }
    }
}

/// A structural unit of the document. A `Line` is the parsed inline content of
/// one source line, `Vec<InlineNode>`.
#[derive(Debug, Clone, PartialEq, Eq)]
pub enum BlockNode {
    Heading { level: usize, content: Vec<InlineNode> },
    UnorderedList { items: Vec<Vec<InlineNode>> },
    OrderedList { items: Vec<Vec<InlineNode>> },
    Paragraph { content: Vec<InlineNode> },
    Codeblock { raw: String },
}

impl DeepView for BlockNode {
    type V = BlockView;

    open spec fn deep_view(&self) -> BlockView {
        match self {
            BlockNode::Heading { level, content } => BlockView::Heading {
                level: *level as nat,
                content: content.deep_view(),
            },
            BlockNode::UnorderedList { items } => BlockView::UnorderedList {
                items: items.deep_view(),
            },
            BlockNode::OrderedList { items } => BlockView::OrderedList { items: items.deep_view() },
            BlockNode::Paragraph { content } => BlockView::Paragraph { content: content.deep_view() },
            BlockNode::Codeblock { raw } => BlockView::Codeblock { raw: raw@ },
        }
    }
}

/// The result of a successful parse: the blocks in reading order.
#[derive(Debug, Clone, PartialEq, Eq)]
pub struct Document {
    pub blocks: Vec<BlockNode>,
}

impl View for Document {
    type V = Seq<BlockView>;

    open spec fn view(&self) -> Seq<BlockView> {
        self.blocks.deep_view()
    }
}

/// Which grammar rule a failed parse stopped at.
#[derive(Debug, Clone, Copy, PartialEq, Eq, Structural)]
pub enum FailureKind {
    /// The input ended where a newline terminator was expected.
    MissingNewline,
    /// A reserved marker (`*`, `` ` ``, `[`, `![`) could not be closed into a span.
    UnclosedMarker,
}

/// Why a parse failed: the rule, the character offset at which it failed and
/// the unconsumed input from there on.
#[derive(Debug, Clone, PartialEq, Eq)]
pub struct ParseFailure {
    pub kind: FailureKind,
    pub offset: usize,
    pub rest: String,
}

/// `t` is non-empty and holds neither `c` nor a newline.
pub open spec fn span_text_wf(t: Seq<char>, c: char) -> bool {
    t.len() > 0 && forall|k: int| 0 <= k < t.len() ==> t[k] != c && t[k] != '\n'
}

/// The invariant of an inline node: no field holds a newline, and no span
/// holds its own delimiter.
pub open spec fn inline_wf(n: InlineView) -> bool {
    match n {
        InlineView::Link { text, url } => span_text_wf(text, ']') && span_text_wf(url, ')'),
        InlineView::Image { alt, url } => span_text_wf(alt, ']') && span_text_wf(url, ')'),
        InlineView::InlineCode { text } => span_text_wf(text, '`'),
        InlineView::Bold { text } => span_text_wf(text, '*'),
        InlineView::Italic { text } => span_text_wf(text, '*'),
        InlineView::Plaintext { text } => span_text_wf(text, '\n'),
    }
}

pub open spec fn line_wf(l: Seq<InlineView>) -> bool {
    forall|k: int| 0 <= k < l.len() ==> #[trigger] inline_wf(l[k])
}

pub open spec fn items_wf(items: Seq<Seq<InlineView>>) -> bool {
    items.len() > 0 && forall|k: int| 0 <= k < items.len() ==> #[trigger] line_wf(items[k])
}

/// The invariant of a block: a heading has a level of one or more, a list one
/// or more items, and every line is well formed.
pub open spec fn block_wf(b: BlockView) -> bool {
    match b {
        BlockView::Heading { level, content } => level >= 1 && line_wf(content),
        BlockView::UnorderedList { items } => items_wf(items),
        BlockView::OrderedList { items } => items_wf(items),
        BlockView::Paragraph { content } => line_wf(content),
        BlockView::Codeblock { raw } => true,
    }
}

} // verus!
