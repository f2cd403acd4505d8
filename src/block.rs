//! The block matcher.
use vstd::prelude::*;
use crate::grammar::{
    block_at, closing_fence_at, codeblock_at, digits_end, find_close, heading_at,
    item_at, item_prefix_end, lemma_digits_end_bounds, lemma_find_close_bounds,
    lemma_item_advances, lemma_line_advances, lemma_run_end_bounds, list_at, list_items,
    run_end,
};
use crate::inline::{char_is, line_view, match_line, scan};
use crate::model::{BlockNode, BlockView, InlineNode};
use crate::text::string_of;

verus! {

/// The abstract value of a matched block.
pub open spec fn block_view(r: Option<(BlockNode, usize)>) -> Option<(BlockView, int)> {
    match r {
        Some((b, e)) => Some((b.deep_view(), e as int)),
        None => None,
    }
}

/// The first position at or after `i` that does not hold `c`.
fn skip_run(s: &Vec<char>, i: usize, c: char) -> (r: usize)
    requires
        i <= s@.len(),
    ensures
        r == run_end(s@, i as int, c),
        i <= r <= s@.len(),
{
    proof {
        lemma_run_end_bounds(s@, i as int, c);
    }
    let mut j: usize = i;
    while j < s.len() && s[j] == c
        invariant
            i <= j <= s@.len(),
            run_end(s@, j as int, c) == run_end(s@, i as int, c),
        decreases s@.len() - j,
    {
        j += 1;
    }
    j
}

/// The first position at or after `i` that does not hold an ASCII digit.
fn skip_digits(s: &Vec<char>, i: usize) -> (r: usize)
    requires
        i <= s@.len(),
    ensures
        r == digits_end(s@, i as int),
        i <= r <= s@.len(),
{
    proof {
        lemma_digits_end_bounds(s@, i as int);
    }
    let mut j: usize = i;
    while j < s.len() && '0' <= s[j] && s[j] <= '9'
        invariant
            i <= j <= s@.len(),
            digits_end(s@, j as int) == digits_end(s@, i as int),
        decreases s@.len() - j,
    {
        j += 1;
    }
    j
}

/// A heading at `i`: `#` characters, a space, then a line.
pub fn match_heading(s: &Vec<char>, i: usize) -> (r: Option<(BlockNode, usize)>)
    requires
        i <= s@.len(),
    ensures
        block_view(r) == heading_at(s@, i as int),
{
    let h = skip_run(s, i, '#');
    if !(h > i && char_is(s, h, ' ')) {
        return None;
    }
    match match_line(s, h + 1) {
        Some((content, k)) => Some((BlockNode::Heading { level: h - i, content }, k)),
        None => None,
    }
}

/// Where the content of a list item at `i` starts, after its prefix.
fn match_item_prefix(s: &Vec<char>, i: usize, ordered: bool) -> (r: Option<usize>)
    requires
        i <= s@.len(),
    ensures
        match r {
            Some(p) => item_prefix_end(s@, i as int, ordered) == Some(p as int),
            None => item_prefix_end(s@, i as int, ordered) is None,
        },
{
    if ordered {
        let d = skip_digits(s, i);
        if d > i && char_is(s, d, '.') && char_is(s, d + 1, ' ') {
            Some(d + 2)
        } else {
            None
        }
    } else if char_is(s, i, '-') && char_is(s, i + 1, ' ') {
        Some(i + 2)
    } else {
        None
    }
}

/// One list item at `i`.
pub fn match_item(s: &Vec<char>, i: usize, ordered: bool) -> (r: Option<(Vec<InlineNode>, usize)>)
    requires
        i <= s@.len(),
    ensures
        line_view(r) == item_at(s@, i as int, ordered),
{
    match match_item_prefix(s, i, ordered) {
        Some(p) => {
            proof {
                lemma_item_advances(s@, i as int, ordered);
                lemma_line_advances(s@, p as int);
            }
            if p <= s.len() {
                match_line(s, p)
            } else {
                None
            }
        },
        None => None,
    }
}

/// A list at `i`: as many items as match, at least one.
pub fn match_list(s: &Vec<char>, i: usize, ordered: bool) -> (r: Option<(BlockNode, usize)>)
    requires
        i <= s@.len(),
    ensures
        block_view(r) == list_at(s@, i as int, ordered),
{
    let mut items: Vec<Vec<InlineNode>> = Vec::new();
    let mut j: usize = i;
    loop
        invariant
            i <= j <= s@.len(),
            list_items(s@, i as int, ordered) == (items.deep_view() + list_items(
                s@,
                j as int,
                ordered,
            ).0, list_items(s@, j as int, ordered).1),
        ensures
            i <= j <= s@.len(),
            list_items(s@, i as int, ordered) == (items.deep_view(), j as int),
        decreases s@.len() - j,
    {
        proof {
            lemma_item_advances(s@, j as int, ordered);
        }
        match match_item(s, j, ordered) {
            Some((line, e)) => {
                let ghost before = items.deep_view();
                let ghost rest = list_items(s@, e as int, ordered).0;
                items.push(line);
                assert(items.deep_view() =~= before.push(line.deep_view()));
                assert(before + (seq![line.deep_view()] + rest) =~= items.deep_view() + rest);
                j = e;
            },
            None => {
                assert(items.deep_view() + seq![] =~= items.deep_view());
                break;
            },
        }
    }
    if items.len() == 0 {
        None
    } else if ordered {
        Some((BlockNode::OrderedList { items }, j))
    } else {
        Some((BlockNode::UnorderedList { items }, j))
    }
}

/// Whether a line that is exactly three backticks starts at `j`.
fn closing_fence(s: &Vec<char>, j: usize) -> (r: bool)
    ensures
        r == closing_fence_at(s@, j as int),
{
    char_is(s, j, '`') && char_is(s, j + 1, '`') && char_is(s, j + 2, '`') && char_is(
        s,
        j + 3,
        '\n',
    )
}

/// The start of the first closing fence line among the lines from `i` on.
fn find_closing_fence(s: &Vec<char>, i: usize) -> (r: Option<usize>)
    requires
        i <= s@.len(),
    ensures
        match r {
            Some(c) => find_close(s@, i as int) == Some(c as int),
            None => find_close(s@, i as int) is None,
        },
{
    let mut j: usize = i;
    loop
        invariant
            i <= j <= s@.len(),
            find_close(s@, j as int) == find_close(s@, i as int),
        decreases s@.len() - j,
    {
        if j >= s.len() {
            return None;
        }
        if closing_fence(s, j) {
            return Some(j);
        }
        let n = scan(s, j, '\n');
        if n >= s.len() {
            return None;
        }
        j = n + 1;
    }
}

/// A fenced code block at `i`.
pub fn match_codeblock(s: &Vec<char>, i: usize) -> (r: Option<(BlockNode, usize)>)
    requires
        i <= s@.len(),
    ensures
        block_view(r) == codeblock_at(s@, i as int),
{
    if !(char_is(s, i, '`') && char_is(s, i + 1, '`') && char_is(s, i + 2, '`')) {
        return None;
    }
    let e = scan(s, i + 3, '\n');
    if e >= s.len() {
        return None;
    }
    proof {
        lemma_find_close_bounds(s@, e + 1);
    }
    match find_closing_fence(s, e + 1) {
        Some(c) => Some((BlockNode::Codeblock { raw: string_of(s, e + 1, c) }, c + 4)),
        None => None,
    }
}

/// The block at `i`: heading, unordered list, ordered list, code block, and
/// last a paragraph.
pub fn match_block(s: &Vec<char>, i: usize) -> (r: Option<(BlockNode, usize)>)
    requires
        i <= s@.len(),
    ensures
        block_view(r) == block_at(s@, i as int),
{
    if let Some(b) = match_heading(s, i) {
        return Some(b);
    }
    if let Some(b) = match_list(s, i, false) {
        return Some(b);
    }
    if let Some(b) = match_list(s, i, true) {
        return Some(b);
    }
    if let Some(b) = match_codeblock(s, i) {
        return Some(b);
    }
    match match_line(s, i) {
        Some((content, k)) => Some((BlockNode::Paragraph { content }, k)),
        None => None,
    }
}

} // verus!
