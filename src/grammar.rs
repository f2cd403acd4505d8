//! The grammar, stated over the input's characters. Every rule takes the
//! input `s` and a start position `i`, and either fails (`None`) or gives the
//! value it recognised together with the position just after it.
use vstd::prelude::*;
use crate::model::{BlockView, FailureKind, InlineView};

verus! {

/// The character at `i` begins one of the reserved prefixes `*`, `` ` ``,
/// `[`, `![` or a newline, at which a plain run must stop.
pub open spec fn is_reserved(s: Seq<char>, i: int) -> bool {
    0 <= i < s.len() && (s[i] == '*' || s[i] == '`' || s[i] == '[' || s[i] == '\n' || (s[i]
        == '!' && i + 1 < s.len() && s[i + 1] == '['))
}

/// The first position at or after `i` that is the end of the input, a newline
/// or the character `stop`.
pub open spec fn scan_to(s: Seq<char>, i: int, stop: char) -> int
    decreases s.len() - i,
{
    if i < 0 || i >= s.len() || s[i] == stop || s[i] == '\n' {
        i
    } else {
        scan_to(s, i + 1, stop)
    }
}

/// The first position at or after `i` that is the end of the input or reserved.
pub open spec fn plain_end(s: Seq<char>, i: int) -> int
    decreases s.len() - i,
{
    if i < 0 || i >= s.len() || is_reserved(s, i) {
        i
    } else {
        plain_end(s, i + 1)
    }
}

/// `c` at `i`, one or more characters other than `c` and newline, then `c`:
/// the content and the position after the closing `c`.
pub open spec fn delimited(s: Seq<char>, i: int, c: char) -> Option<(Seq<char>, int)> {
    if 0 <= i < s.len() && s[i] == c {
        let j = scan_to(s, i + 1, c);
        if j > i + 1 && j < s.len() && s[j] == c {
            Some((s.subrange(i + 1, j), j + 1))
        } else {
            None
        }
    } else {
        None
    }
}

/// `**`, one or more characters other than `*` and newline, then `**`.
pub open spec fn bold_at(s: Seq<char>, i: int) -> Option<(Seq<char>, int)> {
    if 0 <= i && i + 1 < s.len() && s[i] == '*' && s[i + 1] == '*' {
        let j = scan_to(s, i + 2, '*');
        if j > i + 2 && j + 1 < s.len() && s[j] == '*' && s[j + 1] == '*' {
            Some((s.subrange(i + 2, j), j + 2))
        } else {
            None
        }
    } else {
        None
    }
}

/// Starting just after a `[`: a text up to `]`, then `(`, a target up to `)`,
/// then `)`. Both parts are non-empty and hold no newline.
pub open spec fn bracketed(s: Seq<char>, k: int) -> Option<(Seq<char>, Seq<char>, int)> {
    if 0 <= k {
        let j = scan_to(s, k, ']');
        if j > k && j + 1 < s.len() && s[j] == ']' && s[j + 1] == '(' {
            let m = scan_to(s, j + 2, ')');
            if m > j + 2 && m < s.len() && s[m] == ')' {
                Some((s.subrange(k, j), s.subrange(j + 2, m), m + 1))
            } else {
                None
            }
        } else {
            None
        }
    } else {
        None
    }
}

pub open spec fn image_at(s: Seq<char>, i: int) -> Option<(Seq<char>, Seq<char>, int)> {
    if 0 <= i && i + 1 < s.len() && s[i] == '!' && s[i + 1] == '[' {
        bracketed(s, i + 2)
    } else {
        None
    }
}

pub open spec fn link_at(s: Seq<char>, i: int) -> Option<(Seq<char>, Seq<char>, int)> {
    if 0 <= i < s.len() && s[i] == '[' {
        bracketed(s, i + 1)
    } else {
        None
    }
}

/// A maximal run of one or more characters, none of them reserved.
pub open spec fn plain_at(s: Seq<char>, i: int) -> Option<(Seq<char>, int)> {
    if 0 <= i < s.len() && !is_reserved(s, i) {
        Some((s.subrange(i, plain_end(s, i)), plain_end(s, i)))
    } else {
        None
    }
}

/// One inline node at `i`: the alternatives italic, inline code, bold, image,
/// link and plain text, in that order; the first that matches is taken.
pub open spec fn inline_at(s: Seq<char>, i: int) -> Option<(InlineView, int)> {
    if delimited(s, i, '*') is Some {
        let (t, e) = delimited(s, i, '*').unwrap();
        Some((InlineView::Italic { text: t }, e))
    } else if delimited(s, i, '`') is Some {
        let (t, e) = delimited(s, i, '`').unwrap();
        Some((InlineView::InlineCode { text: t }, e))
    } else if bold_at(s, i) is Some {
        let (t, e) = bold_at(s, i).unwrap();
        Some((InlineView::Bold { text: t }, e))
    } else if image_at(s, i) is Some {
        let (a, u, e) = image_at(s, i).unwrap();
        Some((InlineView::Image { alt: a, url: u }, e))
    } else if link_at(s, i) is Some {
        let (t, u, e) = link_at(s, i).unwrap();
        Some((InlineView::Link { text: t, url: u }, e))
    } else if plain_at(s, i) is Some {
        let (t, e) = plain_at(s, i).unwrap();
        Some((InlineView::Plaintext { text: t }, e))
    } else {
        None
    }
}

pub proof fn lemma_scan_to_bounds(s: Seq<char>, i: int, stop: char)
    requires
        0 <= i <= s.len(),
    ensures
        i <= scan_to(s, i, stop) <= s.len(),
        forall|k: int| i <= k < scan_to(s, i, stop) ==> s[k] != stop && s[k] != '\n',
        scan_to(s, i, stop) < s.len() ==> (s[scan_to(s, i, stop)] == stop || s[scan_to(
            s,
            i,
            stop,
        )] == '\n'),
    decreases s.len() - i,
{
    if i < s.len() && s[i] != stop && s[i] != '\n' {
        lemma_scan_to_bounds(s, i + 1, stop);
    }
}

pub proof fn lemma_plain_end_bounds(s: Seq<char>, i: int)
    requires
        0 <= i <= s.len(),
    ensures
        i <= plain_end(s, i) <= s.len(),
        forall|k: int| i <= k < plain_end(s, i) ==> !is_reserved(s, k),
        plain_end(s, i) < s.len() ==> is_reserved(s, plain_end(s, i)),
    decreases s.len() - i,
{
    if i < s.len() && !is_reserved(s, i) {
        lemma_plain_end_bounds(s, i + 1);
    }
}

/// A matched inline node is never empty and never runs past the input.
pub proof fn lemma_inline_advances(s: Seq<char>, i: int)
    ensures
        inline_at(s, i) is Some ==> 0 <= i < inline_at(s, i).unwrap().1 <= s.len(),
{
    if 0 <= i < s.len() {
        lemma_scan_to_bounds(s, i + 1, '*');
        lemma_scan_to_bounds(s, i + 1, '`');
        lemma_plain_end_bounds(s, i);
        if i + 2 <= s.len() {
            lemma_scan_to_bounds(s, i + 2, '*');
        }
        if i + 1 <= s.len() {
            lemma_scan_to_bounds(s, i + 1, ']');
            let j = scan_to(s, i + 1, ']');
            if j + 2 <= s.len() {
                lemma_scan_to_bounds(s, j + 2, ')');
            }
        }
        if i + 2 <= s.len() {
            lemma_scan_to_bounds(s, i + 2, ']');
            let j = scan_to(s, i + 2, ']');
            if j + 2 <= s.len() {
                lemma_scan_to_bounds(s, j + 2, ')');
            }
        }
    }
}

#[via_fn]
proof fn inlines_decreases(s: Seq<char>, i: int) {
    lemma_inline_advances(s, i);
}

/// The inline nodes matched one after another from `i`, as many as match, and
/// the position where matching stopped.
pub open spec fn inlines(s: Seq<char>, i: int) -> (Seq<InlineView>, int)
    decreases s.len() - i,
    via inlines_decreases
{
    match inline_at(s, i) {
        Some((n, j)) => {
            let (rest, k) = inlines(s, j);
            (seq![n] + rest, k)
        },
        None => (seq![], i),
    }
}

/// A line: inline nodes, then a mandatory newline.
pub open spec fn line_at(s: Seq<char>, i: int) -> Option<(Seq<InlineView>, int)> {
    let (ns, k) = inlines(s, i);
    if 0 <= k < s.len() && s[k] == '\n' {
        Some((ns, k + 1))
    } else {
        None
    }
}

pub proof fn lemma_inlines_bounds(s: Seq<char>, i: int)
    requires
        0 <= i <= s.len(),
    ensures
        i <= inlines(s, i).1 <= s.len(),
        inline_at(s, inlines(s, i).1) is None,
    decreases s.len() - i,
{
    lemma_inline_advances(s, i);
    if inline_at(s, i) is Some {
        lemma_inlines_bounds(s, inline_at(s, i).unwrap().1);
    }
}

/// A matched line is never empty, ends in a newline and does not run past the input.
pub proof fn lemma_line_advances(s: Seq<char>, i: int)
    ensures
        line_at(s, i) is Some ==> 0 <= i < line_at(s, i).unwrap().1 <= s.len() && s[line_at(
            s,
            i,
        ).unwrap().1 - 1] == '\n',
{
    if 0 <= i <= s.len() {
        lemma_inlines_bounds(s, i);
    } else {
        lemma_inline_advances(s, i);
    }
}

/// The first position at or after `i` that does not hold `c`.
pub open spec fn run_end(s: Seq<char>, i: int, c: char) -> int
    decreases s.len() - i,
{
    if 0 <= i < s.len() && s[i] == c {
        run_end(s, i + 1, c)
    } else {
        i
    }
}

pub open spec fn is_digit(c: char) -> bool {
    '0' <= c <= '9'
}

/// The first position at or after `i` that does not hold an ASCII digit.
pub open spec fn digits_end(s: Seq<char>, i: int) -> int
    decreases s.len() - i,
{
    if 0 <= i < s.len() && is_digit(s[i]) {
        digits_end(s, i + 1)
    } else {
        i
    }
}

pub proof fn lemma_run_end_bounds(s: Seq<char>, i: int, c: char)
    requires
        0 <= i <= s.len(),
    ensures
        i <= run_end(s, i, c) <= s.len(),
        forall|k: int| i <= k < run_end(s, i, c) ==> s[k] == c,
        run_end(s, i, c) < s.len() ==> s[run_end(s, i, c)] != c,
    decreases s.len() - i,
{
    if i < s.len() && s[i] == c {
        lemma_run_end_bounds(s, i + 1, c);
    }
}

pub proof fn lemma_digits_end_bounds(s: Seq<char>, i: int)
    requires
        0 <= i <= s.len(),
    ensures
        i <= digits_end(s, i) <= s.len(),
        forall|k: int| i <= k < digits_end(s, i) ==> is_digit(s[k]),
        digits_end(s, i) < s.len() ==> !is_digit(s[digits_end(s, i)]),
    decreases s.len() - i,
{
    if i < s.len() && is_digit(s[i]) {
        lemma_digits_end_bounds(s, i + 1);
    }
}

/// One or more `#`, a space, then a line; the level is the number of `#`.
pub open spec fn heading_at(s: Seq<char>, i: int) -> Option<(BlockView, int)> {
    let h = run_end(s, i, '#');
    if 0 <= i && h > i && h < s.len() && s[h] == ' ' && line_at(s, h + 1) is Some {
        let (l, k) = line_at(s, h + 1).unwrap();
        Some((BlockView::Heading { level: (h - i) as nat, content: l }, k))
    } else {
        None
    }
}

/// Where the content of a list item starts: after `- ` for an unordered list,
/// after one or more digits, `.` and a space for an ordered one.
pub open spec fn item_prefix_end(s: Seq<char>, i: int, ordered: bool) -> Option<int> {
    if ordered {
        let d = digits_end(s, i);
        if 0 <= i && d > i && d + 1 < s.len() && s[d] == '.' && s[d + 1] == ' ' {
            Some(d + 2)
        } else {
            None
        }
    } else {
        if 0 <= i && i + 1 < s.len() && s[i] == '-' && s[i + 1] == ' ' {
            Some(i + 2)
        } else {
            None
        }
    }
}

/// One list item: its prefix, then a line.
pub open spec fn item_at(s: Seq<char>, i: int, ordered: bool) -> Option<(Seq<InlineView>, int)> {
    match item_prefix_end(s, i, ordered) {
        Some(p) => line_at(s, p),
        None => None,
    }
}

pub proof fn lemma_item_advances(s: Seq<char>, i: int, ordered: bool)
    ensures
        item_at(s, i, ordered) is Some ==> 0 <= i < item_at(s, i, ordered).unwrap().1 <= s.len(),
{
    if 0 <= i <= s.len() {
        lemma_digits_end_bounds(s, i);
    }
    if item_prefix_end(s, i, ordered) is Some {
        lemma_line_advances(s, item_prefix_end(s, i, ordered).unwrap());
    }
}

#[via_fn]
proof fn list_items_decreases(s: Seq<char>, i: int, ordered: bool) {
    lemma_item_advances(s, i, ordered);
}

/// The items matched one after another from `i`, as many as match, and the
/// position after the last of them.
pub open spec fn list_items(s: Seq<char>, i: int, ordered: bool) -> (Seq<Seq<InlineView>>, int)
    decreases s.len() - i,
    via list_items_decreases
{
    match item_at(s, i, ordered) {
        Some((l, j)) => {
            let (rest, k) = list_items(s, j, ordered);
            (seq![l] + rest, k)
        },
        None => (seq![], i),
    }
}

/// A list of one or more items.
pub open spec fn list_at(s: Seq<char>, i: int, ordered: bool) -> Option<(BlockView, int)> {
    let (items, k) = list_items(s, i, ordered);
    if items.len() == 0 {
        None
    } else if ordered {
        Some((BlockView::OrderedList { items }, k))
    } else {
        Some((BlockView::UnorderedList { items }, k))
    }
}

/// Three backticks at `i`.
pub open spec fn fence_at(s: Seq<char>, i: int) -> bool {
    0 <= i && i + 2 < s.len() && s[i] == '`' && s[i + 1] == '`' && s[i + 2] == '`'
}

/// A line that is exactly three backticks, starting at `i`.
pub open spec fn closing_fence_at(s: Seq<char>, i: int) -> bool {
    fence_at(s, i) && i + 3 < s.len() && s[i + 3] == '\n'
}

#[via_fn]
proof fn find_close_decreases(s: Seq<char>, i: int) {
    if 0 <= i < s.len() {
        lemma_scan_to_bounds(s, i, '\n');
    }
}

/// The start of the first closing fence line among the lines from `i` on.
pub open spec fn find_close(s: Seq<char>, i: int) -> Option<int>
    decreases s.len() - i,
    via find_close_decreases
{
    if i < 0 || i >= s.len() {
        None
    } else if closing_fence_at(s, i) {
        Some(i)
    } else {
        let n = scan_to(s, i, '\n');
        if n < s.len() {
            find_close(s, n + 1)
        } else {
            None
        }
    }
}

/// A fenced code block: a line that starts with three backticks (the rest of
/// that line, a language tag, is not kept), the raw lines, and a line that is
/// exactly three backticks. The raw text keeps the newlines of its lines.
pub open spec fn codeblock_at(s: Seq<char>, i: int) -> Option<(BlockView, int)> {
    if fence_at(s, i) {
        let e = scan_to(s, i + 3, '\n');
        if e < s.len() && find_close(s, e + 1) is Some {
            let c = find_close(s, e + 1).unwrap();
            Some((BlockView::Codeblock { raw: s.subrange(e + 1, c) }, c + 4))
        } else {
            None
        }
    } else {
        None
    }
}

/// One block at `i`: heading, unordered list, ordered list, code block, and
/// last a paragraph made of any line; the first that matches is taken.
pub open spec fn block_at(s: Seq<char>, i: int) -> Option<(BlockView, int)> {
    if heading_at(s, i) is Some {
        heading_at(s, i)
    } else if list_at(s, i, false) is Some {
        list_at(s, i, false)
    } else if list_at(s, i, true) is Some {
        list_at(s, i, true)
    } else if codeblock_at(s, i) is Some {
        codeblock_at(s, i)
    } else if line_at(s, i) is Some {
        let (l, k) = line_at(s, i).unwrap();
        Some((BlockView::Paragraph { content: l }, k))
    } else {
        None
    }
}

pub proof fn lemma_list_items_bounds(s: Seq<char>, i: int, ordered: bool)
    requires
        0 <= i <= s.len(),
    ensures
        i <= list_items(s, i, ordered).1 <= s.len(),
        list_items(s, i, ordered).0.len() > 0 ==> i < list_items(s, i, ordered).1,
    decreases s.len() - i,
{
    lemma_item_advances(s, i, ordered);
    if item_at(s, i, ordered) is Some {
        lemma_list_items_bounds(s, item_at(s, i, ordered).unwrap().1, ordered);
    }
}

pub proof fn lemma_find_close_bounds(s: Seq<char>, i: int)
    ensures
        find_close(s, i) is Some ==> i <= find_close(s, i).unwrap() && closing_fence_at(
            s,
            find_close(s, i).unwrap(),
        ),
    decreases s.len() - i,
{
    if 0 <= i < s.len() && !closing_fence_at(s, i) {
        lemma_scan_to_bounds(s, i, '\n');
        let n = scan_to(s, i, '\n');
        if n < s.len() {
            lemma_find_close_bounds(s, n + 1);
        }
    }
}

/// A matched block is never empty, ends in a newline and does not run past the input.
pub proof fn lemma_block_advances(s: Seq<char>, i: int)
    ensures
        block_at(s, i) is Some ==> 0 <= i < block_at(s, i).unwrap().1 <= s.len() && s[block_at(
            s,
            i,
        ).unwrap().1 - 1] == '\n',
{
    if 0 <= i <= s.len() {
        lemma_run_end_bounds(s, i, '#');
        lemma_line_advances(s, run_end(s, i, '#') + 1);
        lemma_list_items_bounds(s, i, false);
        lemma_list_items_bounds(s, i, true);
        lemma_list_items_last(s, i, false);
        lemma_list_items_last(s, i, true);
        if fence_at(s, i) {
            lemma_scan_to_bounds(s, i + 3, '\n');
            lemma_find_close_bounds(s, scan_to(s, i + 3, '\n') + 1);
        }
        lemma_line_advances(s, i);
    }
}

/// After one or more items the list ends just after a newline.
pub proof fn lemma_list_items_last(s: Seq<char>, i: int, ordered: bool)
    requires
        0 <= i <= s.len(),
    ensures
        list_items(s, i, ordered).0.len() > 0 ==> s[list_items(s, i, ordered).1 - 1] == '\n',
    decreases s.len() - i,
{
    lemma_item_advances(s, i, ordered);
    if item_at(s, i, ordered) is Some {
        let j = item_at(s, i, ordered).unwrap().1;
        lemma_line_advances(s, item_prefix_end(s, i, ordered).unwrap());
        lemma_list_items_last(s, j, ordered);
    }
}

#[via_fn]
proof fn blocks_from_decreases(s: Seq<char>, i: int) {
    lemma_block_advances(s, i);
}

/// The blocks matched one after another from `i` to the end of the input, or
/// the start of the first block at which no alternative matched.
pub open spec fn blocks_from(s: Seq<char>, i: int) -> Result<Seq<BlockView>, int>
    decreases s.len() - i,
    via blocks_from_decreases
{
    if i < 0 || i >= s.len() {
        Ok(seq![])
    } else {
        match block_at(s, i) {
            Some((b, j)) => match blocks_from(s, j) {
                Ok(bs) => Ok(seq![b] + bs),
                Err(p) => Err(p),
            },
            None => Err(i),
        }
    }
}

/// The whole input as a document, or the failure: where no block matches, it
/// is the paragraph line's failure, at the position where its inline nodes
/// stopped; at the end of input a newline was missing, elsewhere a marker
/// stands unclosed.
pub open spec fn parse_spec(s: Seq<char>) -> Result<Seq<BlockView>, (FailureKind, int)> {
    match blocks_from(s, 0) {
        Ok(bs) => Ok(bs),
        Err(i) => {
            let k = inlines(s, i).1;
            if k >= s.len() {
                Err((FailureKind::MissingNewline, k))
            } else {
                Err((FailureKind::UnclosedMarker, k))
            }
        },
    }
}

} // verus!
