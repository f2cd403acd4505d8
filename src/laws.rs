//! Laws of the grammar, proved over the spec functions that the parser's
//! contracts are stated with.
use vstd::prelude::*;
use crate::grammar::{
    block_at, blocks_from, bold_at, delimited, digits_end, inline_at, inlines, is_reserved,
    item_prefix_end, lemma_block_advances, line_at, list_at, list_items, parse_spec, plain_end,
    run_end, scan_to, heading_at, codeblock_at, item_at, lemma_scan_to_bounds,
    lemma_plain_end_bounds, lemma_inline_advances, lemma_item_advances, bracketed, image_at,
    link_at,
};
use crate::model::{block_wf, inline_wf, line_wf, span_text_wf, BlockView, InlineView};

verus! {

/// `scan_to` stops at the first position from `a` on that holds `c`, a newline
/// or the end.
proof fn lemma_scan_to_at(s: Seq<char>, a: int, b: int, c: char)
    requires
        0 <= a <= b <= s.len(),
        forall|k: int| a <= k < b ==> s[k] != c && s[k] != '\n',
        b == s.len() || s[b] == c || s[b] == '\n',
    ensures
        scan_to(s, a, c) == b,
    decreases b - a,
{
    if a < b {
        lemma_scan_to_at(s, a + 1, b, c);
    }
}

/// `plain_end` stops at the first reserved position from `a` on, or the end.
proof fn lemma_plain_end_at(s: Seq<char>, a: int, b: int)
    requires
        0 <= a <= b <= s.len(),
        forall|k: int| a <= k < b ==> !is_reserved(s, k),
        b == s.len() || is_reserved(s, b),
    ensures
        plain_end(s, a) == b,
    decreases b - a,
{
    if a < b {
        lemma_plain_end_at(s, a + 1, b);
    }
}

/// A final newline matches no inline node, so a line ends there.
proof fn lemma_line_ends_at_newline(s: Seq<char>, k: int)
    requires
        0 <= k < s.len(),
        s[k] == '\n',
    ensures
        inlines(s, k) == (Seq::<InlineView>::empty(), k),
        line_at(s, k) == Some((Seq::<InlineView>::empty(), k + 1)),
{
    assert(inline_at(s, k) is None);
}

/// A line whose inline nodes are exactly the one node from `0` to `e`, then a
/// newline at `e`, is a paragraph when nothing else can start at `0`.
proof fn lemma_single_node_paragraph(s: Seq<char>, n: InlineView, e: int)
    requires
        0 < e < s.len(),
        s[e] == '\n',
        s.len() == e + 1,
        inline_at(s, 0) == Some((n, e)),
        s[0] != '#' && s[0] != '-' && s[0] != '`' && !('0' <= s[0] <= '9'),
    ensures
        parse_spec(s) == Ok::<Seq<BlockView>, (crate::model::FailureKind, int)>(
            seq![BlockView::Paragraph { content: seq![n] }],
        ),
{
    lemma_line_ends_at_newline(s, e);
    assert(inlines(s, 0) == (seq![n] + Seq::<InlineView>::empty(), e));
    assert(seq![n] + Seq::<InlineView>::empty() =~= seq![n]);
    assert(run_end(s, 0, '#') == 0);
    assert(heading_at(s, 0) is None);
    assert(item_prefix_end(s, 0, false) is None);
    assert(list_items(s, 0, false).0.len() == 0);
    assert(list_at(s, 0, false) is None);
    assert(digits_end(s, 0) == 0);
    assert(item_prefix_end(s, 0, true) is None);
    assert(list_items(s, 0, true).0.len() == 0);
    assert(list_at(s, 0, true) is None);
    assert(codeblock_at(s, 0) is None);
    assert(block_at(s, 0) == Some((BlockView::Paragraph { content: seq![n] }, e + 1)));
    assert(blocks_from(s, e + 1) == Ok::<Seq<BlockView>, int>(seq![]));
    assert(seq![BlockView::Paragraph { content: seq![n] }] + Seq::<BlockView>::empty()
        =~= seq![BlockView::Paragraph { content: seq![n] }]);
}

/// A bold span on a line of its own: for every non-empty `x` without `*` or a
/// newline, `**x**` followed by a newline parses to one paragraph whose line is
/// exactly `Bold(x)`.
pub proof fn law_bold_line(x: Seq<char>)
    requires
        x.len() > 0,
        forall|k: int| 0 <= k < x.len() ==> x[k] != '*' && x[k] != '\n',
    ensures
        parse_spec(seq!['*', '*'] + x + seq!['*', '*', '\n']) == Ok::<
            Seq<BlockView>,
            (crate::model::FailureKind, int),
        >(seq![BlockView::Paragraph { content: seq![InlineView::Bold { text: x }] }]),
{
    let s = seq!['*', '*'] + x + seq!['*', '*', '\n'];
    let j = x.len() as int + 2;
    assert(forall|k: int| 2 <= k < j ==> s[k] == x[k - 2]);
    assert(s[j] == '*' && s[j + 1] == '*' && s[j + 2] == '\n');
    lemma_scan_to_at(s, 2, j, '*');
    lemma_scan_to_at(s, 1, 1, '*');
    assert(delimited(s, 0, '*') is None);
    assert(s.subrange(2, j) =~= x);
    assert(bold_at(s, 0) == Some((x, j + 2)));
    lemma_single_node_paragraph(s, InlineView::Bold { text: x }, j + 2);
}

/// An italic span on a line of its own: for every non-empty `x` without `*` or
/// a newline, `*x*` followed by a newline parses to one paragraph whose line is
/// exactly `Italic(x)`.
pub proof fn law_italic_line(x: Seq<char>)
    requires
        x.len() > 0,
        forall|k: int| 0 <= k < x.len() ==> x[k] != '*' && x[k] != '\n',
    ensures
        parse_spec(seq!['*'] + x + seq!['*', '\n']) == Ok::<
            Seq<BlockView>,
            (crate::model::FailureKind, int),
        >(seq![BlockView::Paragraph { content: seq![InlineView::Italic { text: x }] }]),
{
    let s = seq!['*'] + x + seq!['*', '\n'];
    let j = x.len() as int + 1;
    assert(forall|k: int| 1 <= k < j ==> s[k] == x[k - 1]);
    assert(s[j] == '*' && s[j + 1] == '\n');
    lemma_scan_to_at(s, 1, j, '*');
    assert(s.subrange(1, j) =~= x);
    assert(delimited(s, 0, '*') == Some((x, j + 1)));
    lemma_single_node_paragraph(s, InlineView::Italic { text: x }, j + 1);
}

/// A line without reserved characters: for every non-empty `l` without `*`,
/// a backtick, `[` or a newline, `l` followed by a newline is a line made of
/// one plain node whose text is `l`.
pub proof fn law_plain_line(l: Seq<char>)
    requires
        l.len() > 0,
        forall|k: int|
            0 <= k < l.len() ==> l[k] != '*' && l[k] != '`' && l[k] != '[' && l[k] != '\n',
    ensures
        line_at(l + seq!['\n'], 0) == Some(
            (seq![InlineView::Plaintext { text: l }], l.len() as int + 1),
        ),
{
    let s = l + seq!['\n'];
    let n = l.len() as int;
    assert(forall|k: int| 0 <= k < n ==> s[k] == l[k]);
    assert(s[n] == '\n');
    assert forall|k: int| 0 <= k < n implies !is_reserved(s, k) by {
        if k + 1 < n {
            assert(s[k + 1] == l[k + 1]);
        }
    }
    lemma_plain_end_at(s, 0, n);
    assert(s.subrange(0, n) =~= l);
    assert(inline_at(s, 0) == Some((InlineView::Plaintext { text: l }, n)));
    lemma_line_ends_at_newline(s, n);
    assert(seq![InlineView::Plaintext { text: l }] + Seq::<InlineView>::empty() =~= seq![
        InlineView::Plaintext { text: l },
    ]);
}

proof fn lemma_run_end_at(s: Seq<char>, a: int, b: int, c: char)
    requires
        0 <= a <= b < s.len(),
        forall|k: int| a <= k < b ==> s[k] == c,
        s[b] != c,
    ensures
        run_end(s, a, c) == b,
    decreases b - a,
{
    if a < b {
        lemma_run_end_at(s, a + 1, b, c);
    }
}

/// The level of a heading is the number of `#` that open it: where `n` of them
/// stand at `i`, then a space, then a line, the block at `i` is a heading of
/// level `n` with that line.
pub proof fn law_heading_level(s: Seq<char>, i: int, n: int)
    requires
        0 <= i,
        n >= 1,
        i + n < s.len(),
        forall|k: int| i <= k < i + n ==> s[k] == '#',
        s[i + n] == ' ',
        line_at(s, i + n + 1) is Some,
    ensures
        block_at(s, i) == Some(
            (
                BlockView::Heading {
                    level: n as nat,
                    content: line_at(s, i + n + 1).unwrap().0,
                },
                line_at(s, i + n + 1).unwrap().1,
            ),
        ),
{
    lemma_run_end_at(s, i, i + n, '#');
}

/// Where the blocks from `i` reach the end of a non-empty input, its last
/// character is a newline.
proof fn lemma_blocks_end_in_newline(s: Seq<char>, i: int)
    requires
        0 <= i < s.len(),
        blocks_from(s, i) is Ok,
    ensures
        s[s.len() - 1] == '\n',
    decreases s.len() - i,
{
    lemma_block_advances(s, i);
    let j = block_at(s, i).unwrap().1;
    if j < s.len() {
        lemma_blocks_end_in_newline(s, j);
    }
}

/// Every line must end with a newline: a non-empty input whose last character
/// is not a newline fails to parse.
pub proof fn law_missing_final_newline(s: Seq<char>)
    requires
        s.len() > 0,
        s[s.len() - 1] != '\n',
    ensures
        parse_spec(s) is Err,
{
    if blocks_from(s, 0) is Ok {
        lemma_blocks_end_in_newline(s, 0);
    }
}

/// An image is never read as `!` and a link: for every non-empty `a` without
/// `]` or a newline and every non-empty `u` without `)` or a newline,
/// `![a](u)` followed by a newline parses to one paragraph whose line is
/// exactly `Image(a, u)`.
pub proof fn law_image_line(a: Seq<char>, u: Seq<char>)
    requires
        a.len() > 0,
        u.len() > 0,
        forall|k: int| 0 <= k < a.len() ==> a[k] != ']' && a[k] != '\n',
        forall|k: int| 0 <= k < u.len() ==> u[k] != ')' && u[k] != '\n',
    ensures
        parse_spec(seq!['!', '['] + a + seq![']', '('] + u + seq![')', '\n']) == Ok::<
            Seq<BlockView>,
            (crate::model::FailureKind, int),
        >(seq![BlockView::Paragraph { content: seq![InlineView::Image { alt: a, url: u }] }]),
{
    let s = seq!['!', '['] + a + seq![']', '('] + u + seq![')', '\n'];
    let j = a.len() as int + 2;
    let m = j + 2 + u.len() as int;
    assert(forall|k: int| 2 <= k < j ==> s[k] == a[k - 2]);
    assert(s[j] == ']' && s[j + 1] == '(');
    assert(forall|k: int| j + 2 <= k < m ==> s[k] == u[k - j - 2]);
    assert(s[m] == ')' && s[m + 1] == '\n');
    lemma_scan_to_at(s, 2, j, ']');
    lemma_scan_to_at(s, j + 2, m, ')');
    assert(s.subrange(2, j) =~= a);
    assert(s.subrange(j + 2, m) =~= u);
    lemma_single_node_paragraph(s, InlineView::Image { alt: a, url: u }, m + 1);
}

/// The characters of `s` from `a` to `b` form a well-formed span text for `c`.
proof fn lemma_span_text(s: Seq<char>, a: int, b: int, c: char)
    requires
        0 <= a < b <= s.len(),
        forall|k: int| a <= k < b ==> s[k] != c && s[k] != '\n',
    ensures
        span_text_wf(s.subrange(a, b), c),
{
    assert forall|k: int| 0 <= k < b - a implies s.subrange(a, b)[k] != c && s.subrange(a, b)[k]
        != '\n' by {
        assert(s.subrange(a, b)[k] == s[a + k]);
    }
}

/// The text and target that follow a `[` at `k - 1` are well formed.
proof fn lemma_bracketed_wf(s: Seq<char>, k: int)
    requires
        0 <= k <= s.len(),
        bracketed(s, k) is Some,
    ensures
        span_text_wf(bracketed(s, k).unwrap().0, ']'),
        span_text_wf(bracketed(s, k).unwrap().1, ')'),
{
    lemma_scan_to_bounds(s, k, ']');
    let j = scan_to(s, k, ']');
    lemma_scan_to_bounds(s, j + 2, ')');
    let m = scan_to(s, j + 2, ')');
    lemma_span_text(s, k, j, ']');
    lemma_span_text(s, j + 2, m, ')');
}

proof fn lemma_inline_wf(s: Seq<char>, i: int)
    ensures
        inline_at(s, i) is Some ==> inline_wf(inline_at(s, i).unwrap().0),
{
    if inline_at(s, i) is Some {
        if delimited(s, i, '*') is Some {
            lemma_scan_to_bounds(s, i + 1, '*');
            lemma_span_text(s, i + 1, scan_to(s, i + 1, '*'), '*');
        } else if delimited(s, i, '`') is Some {
            lemma_scan_to_bounds(s, i + 1, '`');
            lemma_span_text(s, i + 1, scan_to(s, i + 1, '`'), '`');
        } else if bold_at(s, i) is Some {
            lemma_scan_to_bounds(s, i + 2, '*');
            lemma_span_text(s, i + 2, scan_to(s, i + 2, '*'), '*');
        } else if image_at(s, i) is Some {
            lemma_bracketed_wf(s, i + 2);
        } else if link_at(s, i) is Some {
            lemma_bracketed_wf(s, i + 1);
        } else {
            lemma_plain_end_bounds(s, i);
            assert forall|k: int| i <= k < plain_end(s, i) implies s[k] != '\n' by {
                assert(!is_reserved(s, k));
            }
            lemma_span_text(s, i, plain_end(s, i), '\n');
        }
    }
}

proof fn lemma_inlines_wf(s: Seq<char>, i: int)
    ensures
        line_wf(inlines(s, i).0),
    decreases s.len() - i,
{
    lemma_inline_advances(s, i);
    lemma_inline_wf(s, i);
    if inline_at(s, i) is Some {
        let (n, j) = inline_at(s, i).unwrap();
        lemma_inlines_wf(s, j);
        let l = seq![n] + inlines(s, j).0;
        assert forall|k: int| 0 <= k < l.len() implies #[trigger] inline_wf(l[k]) by {
            if k > 0 {
                assert(l[k] == inlines(s, j).0[k - 1]);
            }
        }
    }
}

proof fn lemma_list_items_wf(s: Seq<char>, i: int, ordered: bool)
    ensures
        forall|k: int|
            0 <= k < list_items(s, i, ordered).0.len() ==> #[trigger] line_wf(
                list_items(s, i, ordered).0[k],
            ),
    decreases s.len() - i,
{
    lemma_item_advances(s, i, ordered);
    if item_at(s, i, ordered) is Some {
        let (l, j) = item_at(s, i, ordered).unwrap();
        lemma_inlines_wf(s, item_prefix_end(s, i, ordered).unwrap());
        lemma_list_items_wf(s, j, ordered);
        let items = seq![l] + list_items(s, j, ordered).0;
        assert forall|k: int| 0 <= k < items.len() implies #[trigger] line_wf(items[k]) by {
            if k > 0 {
                assert(items[k] == list_items(s, j, ordered).0[k - 1]);
            }
        }
    }
}

proof fn lemma_block_wf(s: Seq<char>, i: int)
    ensures
        block_at(s, i) is Some ==> block_wf(block_at(s, i).unwrap().0),
{
    lemma_inlines_wf(s, i);
    lemma_inlines_wf(s, run_end(s, i, '#') + 1);
    lemma_list_items_wf(s, i, false);
    lemma_list_items_wf(s, i, true);
}

proof fn lemma_blocks_wf(s: Seq<char>, i: int)
    ensures
        blocks_from(s, i) is Ok ==> forall|k: int|
            0 <= k < blocks_from(s, i)->Ok_0.len() ==> #[trigger] block_wf(
                blocks_from(s, i)->Ok_0[k],
            ),
    decreases s.len() - i,
{
    if 0 <= i < s.len() {
        lemma_block_advances(s, i);
        lemma_block_wf(s, i);
        if block_at(s, i) is Some {
            let (b, j) = block_at(s, i).unwrap();
            lemma_blocks_wf(s, j);
            if blocks_from(s, j) is Ok {
                let bs = seq![b] + blocks_from(s, j)->Ok_0;
                assert forall|k: int| 0 <= k < bs.len() implies #[trigger] block_wf(bs[k]) by {
                    if k > 0 {
                        assert(bs[k] == blocks_from(s, j)->Ok_0[k - 1]);
                    }
                }
            }
        }
    }
}

/// Every block of a parsed document keeps the invariants of the data model:
/// bold and italic text hold no `*`, inline code no backtick, no inline field
/// a newline; a heading's level is one or more, a list has one item or more.
pub proof fn law_parsed_document_wf(s: Seq<char>)
    ensures
        parse_spec(s) is Ok ==> forall|k: int|
            0 <= k < parse_spec(s)->Ok_0.len() ==> #[trigger] block_wf(
                parse_spec(s)->Ok_0[k],
            ),
{
    lemma_blocks_wf(s, 0);
}

} // verus!
