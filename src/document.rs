//! The document assembler: the parser's entry point.
use vstd::prelude::*;
use crate::block::match_block;
use crate::grammar::{blocks_from, lemma_block_advances, parse_spec};
use crate::inline::match_inlines;
use crate::model::{BlockNode, BlockView, Document, FailureKind, ParseFailure};
use crate::text::{chars_of, string_of};

verus! {

/// `pre` followed by the blocks of `r`, or the failure of `r`.
pub open spec fn prepend(pre: Seq<BlockView>, r: Result<Seq<BlockView>, int>) -> Result<
    Seq<BlockView>,
    int,
> {
    match r {
        Ok(bs) => Ok(pre + bs),
        Err(p) => Err(p),
    }
}

/// The blocks of `s` from the start to the end, or the start of the first
/// block at which no alternative matched.
pub fn parse_blocks(s: &Vec<char>) -> (r: Result<Vec<BlockNode>, usize>)
    ensures
        match r {
            Ok(bs) => blocks_from(s@, 0) == Ok::<Seq<BlockView>, int>(bs.deep_view()),
            Err(p) => blocks_from(s@, 0) == Err::<Seq<BlockView>, int>(p as int) && p < s@.len(),
        },
{
    let mut blocks: Vec<BlockNode> = Vec::new();
    let mut j: usize = 0;
    assert(blocks.deep_view() =~= seq![]);
    assert(prepend(seq![], blocks_from(s@, 0)) =~= blocks_from(s@, 0)) by {
        if let Ok(bs) = blocks_from(s@, 0) {
            assert(seq![] + bs =~= bs);
        }
    }
    loop
        invariant
            j <= s@.len(),
            blocks_from(s@, 0) == prepend(blocks.deep_view(), blocks_from(s@, j as int)),
        decreases s@.len() - j,
    {
        if j >= s.len() {
            assert(blocks.deep_view() + seq![] =~= blocks.deep_view());
            return Ok(blocks);
        }
        proof {
            lemma_block_advances(s@, j as int);
        }
        match match_block(s, j) {
            Some((b, e)) => {
                let ghost before = blocks.deep_view();
                blocks.push(b);
                assert(blocks.deep_view() =~= before.push(b.deep_view()));
                proof {
                    if let Ok(rest) = blocks_from(s@, e as int) {
                        assert(before + (seq![b.deep_view()] + rest) =~= blocks.deep_view()
                            + rest);
                    }
                }
                j = e;
            },
            None => {
                return Err(j);
            },
        }
    }
}

/// Parses `text` into a document, or reports where and why it failed.
///
/// Every line, the last one included, must end with a newline. An empty input
/// is an empty document. A failure anywhere fails the whole parse.
pub fn parse(text: &str) -> (r: Result<Document, ParseFailure>)
    ensures
        match parse_spec(text@) {
            Ok(bs) => r is Ok && r->Ok_0@ == bs,
            Err((kind, k)) => r is Err && r->Err_0.kind == kind && r->Err_0.offset == k
                && r->Err_0.rest@ == text@.subrange(k, text@.len() as int),
        },
{
    let s = chars_of(text);
    match parse_blocks(&s) {
        Ok(blocks) => Ok(Document { blocks }),
        Err(p) => {
            let (_, k) = match_inlines(&s, p);
            let kind = if k >= s.len() {
                FailureKind::MissingNewline
            } else {
                FailureKind::UnclosedMarker
            };
            let rest = string_of(&s, k, s.len());
            Err(ParseFailure { kind, offset: k, rest })
        },
    }
}

} // verus!
