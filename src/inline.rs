//! The inline matcher and the line assembler.
use vstd::prelude::*;
use crate::grammar::{
    bold_at, bracketed, delimited, image_at, inline_at, is_reserved, lemma_plain_end_bounds,
    lemma_scan_to_bounds, link_at, inlines, line_at, lemma_inline_advances, plain_at, plain_end, scan_to,
};
use crate::model::{InlineNode, InlineView};
use crate::text::string_of;

verus! {

/// The abstract value of a matched span: its text and the position after it.
pub open spec fn span_view(r: Option<(String, usize)>) -> Option<(Seq<char>, int)> {
    match r {
        Some((t, e)) => Some((t@, e as int)),
        None => None,
    }
}

/// The abstract value of a matched text-and-target pair.
pub open spec fn pair_view(r: Option<(String, String, usize)>) -> Option<(Seq<char>, Seq<char>, int)> {
    match r {
        Some((t, u, e)) => Some((t@, u@, e as int)),
        None => None,
    }
}

/// The abstract value of a matched inline node.
pub open spec fn inline_view(r: Option<(InlineNode, usize)>) -> Option<(InlineView, int)> {
    match r {
        Some((n, e)) => Some((n.deep_view(), e as int)),
        None => None,
    }
}

/// The abstract value of a matched line.
pub open spec fn line_view(r: Option<(Vec<InlineNode>, usize)>) -> Option<(Seq<InlineView>, int)> {
    match r {
        Some((l, e)) => Some((l.deep_view(), e as int)),
        None => None,
    }
}

/// Whether position `k` holds the character `c`.
pub fn char_is(s: &Vec<char>, k: usize, c: char) -> (r: bool)
    ensures
        r == (k < s@.len() && s@[k as int] == c),
        s@.len() <= usize::MAX,
{
    k < s.len() && s[k] == c
}

/// Whether position `i` begins a reserved prefix.
pub fn reserved_at(s: &Vec<char>, i: usize) -> (r: bool)
    ensures
        r == is_reserved(s@, i as int),
{
    if i >= s.len() {
        return false;
    }
    let c = s[i];
    c == '*' || c == '`' || c == '[' || c == '\n' || (c == '!' && char_is(s, i + 1, '['))
}

/// The first position at or after `i` at the end, a newline or `stop`.
pub fn scan(s: &Vec<char>, i: usize, stop: char) -> (r: usize)
    requires
        i <= s@.len(),
    ensures
        r == scan_to(s@, i as int, stop),
        i <= r <= s@.len(),
{
    proof {
        lemma_scan_to_bounds(s@, i as int, stop);
    }
    let mut j: usize = i;
    while j < s.len() && s[j] != stop && s[j] != '\n'
        invariant
            i <= j <= s@.len(),
            scan_to(s@, j as int, stop) == scan_to(s@, i as int, stop),
        decreases s@.len() - j,
    {
        j += 1;
    }
    j
}

/// The end of the plain run that starts at `i`.
fn plain_run_end(s: &Vec<char>, i: usize) -> (r: usize)
    requires
        i <= s@.len(),
    ensures
        r == plain_end(s@, i as int),
        i <= r <= s@.len(),
{
    proof {
        lemma_plain_end_bounds(s@, i as int);
    }
    let mut j: usize = i;
    while j < s.len() && !reserved_at(s, j)
        invariant
            i <= j <= s@.len(),
            plain_end(s@, j as int) == plain_end(s@, i as int),
        decreases s@.len() - j,
    {
        j += 1;
    }
    j
}

/// A span `c` ... `c` at `i` (italic with `*`, inline code with a backtick).
pub fn match_delimited(s: &Vec<char>, i: usize, c: char) -> (r: Option<(String, usize)>)
    requires
        i <= s@.len(),
    ensures
        span_view(r) == delimited(s@, i as int, c),
{
    if !char_is(s, i, c) {
        return None;
    }
    let j = scan(s, i + 1, c);
    if j > i + 1 && char_is(s, j, c) {
        Some((string_of(s, i + 1, j), j + 1))
    } else {
        None
    }
}

/// A span `**` ... `**` at `i`.
pub fn match_bold(s: &Vec<char>, i: usize) -> (r: Option<(String, usize)>)
    requires
        i <= s@.len(),
    ensures
        span_view(r) == bold_at(s@, i as int),
{
    if !(char_is(s, i, '*') && char_is(s, i + 1, '*')) {
        return None;
    }
    let j = scan(s, i + 2, '*');
    if j > i + 2 && char_is(s, j, '*') && char_is(s, j + 1, '*') {
        Some((string_of(s, i + 2, j), j + 2))
    } else {
        None
    }
}

/// `text](target)` starting at `k`, just after an opening `[`.
fn match_bracketed(s: &Vec<char>, k: usize) -> (r: Option<(String, String, usize)>)
    requires
        k <= s@.len(),
    ensures
        pair_view(r) == bracketed(s@, k as int),
{
    let j = scan(s, k, ']');
    if !(j > k && char_is(s, j, ']') && char_is(s, j + 1, '(')) {
        return None;
    }
    let m = scan(s, j + 2, ')');
    if m > j + 2 && char_is(s, m, ')') {
        Some((string_of(s, k, j), string_of(s, j + 2, m), m + 1))
    } else {
        None
    }
}

/// An image `![alt](url)` at `i`.
pub fn match_image(s: &Vec<char>, i: usize) -> (r: Option<(String, String, usize)>)
    requires
        i <= s@.len(),
    ensures
        pair_view(r) == image_at(s@, i as int),
{
    if char_is(s, i, '!') && char_is(s, i + 1, '[') {
        match_bracketed(s, i + 2)
    } else {
        None
    }
}

/// A link `[text](url)` at `i`.
pub fn match_link(s: &Vec<char>, i: usize) -> (r: Option<(String, String, usize)>)
    requires
        i <= s@.len(),
    ensures
        pair_view(r) == link_at(s@, i as int),
{
    if char_is(s, i, '[') {
        match_bracketed(s, i + 1)
    } else {
        None
    }
}

/// A plain run at `i`.
pub fn match_plain(s: &Vec<char>, i: usize) -> (r: Option<(String, usize)>)
    requires
        i <= s@.len(),
    ensures
        span_view(r) == plain_at(s@, i as int),
{
    if i < s.len() && !reserved_at(s, i) {
        let e = plain_run_end(s, i);
        Some((string_of(s, i, e), e))
    } else {
        None
    }
}

/// The inline node at `i`, trying italic, inline code, bold, image, link and
/// plain text in that order.
pub fn match_inline(s: &Vec<char>, i: usize) -> (r: Option<(InlineNode, usize)>)
    requires
        i <= s@.len(),
    ensures
        inline_view(r) == inline_at(s@, i as int),
{
    if let Some((text, e)) = match_delimited(s, i, '*') {
        return Some((InlineNode::Italic { text }, e));
    }
    if let Some((text, e)) = match_delimited(s, i, '`') {
        return Some((InlineNode::InlineCode { text }, e));
    }
    if let Some((text, e)) = match_bold(s, i) {
        return Some((InlineNode::Bold { text }, e));
    }
    if let Some((alt, url, e)) = match_image(s, i) {
        return Some((InlineNode::Image { alt, url }, e));
    }
    if let Some((text, url, e)) = match_link(s, i) {
        return Some((InlineNode::Link { text, url }, e));
    }
    if let Some((text, e)) = match_plain(s, i) {
        return Some((InlineNode::Plaintext { text }, e));
    }
    None
}

/// As many inline nodes as match from `i` on, and the position where
/// matching stopped.
pub fn match_inlines(s: &Vec<char>, i: usize) -> (r: (Vec<InlineNode>, usize))
    requires
        i <= s@.len(),
    ensures
        (r.0.deep_view(), r.1 as int) == inlines(s@, i as int),
        i <= r.1 <= s@.len(),
{
    let mut nodes: Vec<InlineNode> = Vec::new();
    let mut j: usize = i;
    loop
        invariant
            i <= j <= s@.len(),
            inlines(s@, i as int) == (nodes.deep_view() + inlines(s@, j as int).0, inlines(
                s@,
                j as int,
            ).1),
        ensures
            i <= j <= s@.len(),
            inlines(s@, i as int) == (nodes.deep_view(), j as int),
        decreases s@.len() - j,
    {
        proof {
            lemma_inline_advances(s@, j as int);
        }
        match match_inline(s, j) {
            Some((node, e)) => {
                let ghost before = nodes.deep_view();
                let ghost rest = inlines(s@, e as int).0;
                nodes.push(node);
                assert(nodes.deep_view() =~= before.push(node.deep_view()));
                assert(before + (seq![node.deep_view()] + rest) =~= nodes.deep_view() + rest);
                j = e;
            },
            None => {
                assert(nodes.deep_view() + seq![] =~= nodes.deep_view());
                break;
            },
        }
    }
    (nodes, j)
}

/// A line at `i`: as many inline nodes as match, then a newline.
pub fn match_line(s: &Vec<char>, i: usize) -> (r: Option<(Vec<InlineNode>, usize)>)
    requires
        i <= s@.len(),
    ensures
        line_view(r) == line_at(s@, i as int),
{
    let (nodes, j) = match_inlines(s, i);
    if char_is(s, j, '\n') {
        Some((nodes, j + 1))
    } else {
        None
    }
}

} // verus!
