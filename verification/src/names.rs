//! Node naming: the verbose `block[index]` scheme and the compact
//! single-letter scheme that flattens all blocks' statement counts in declared
//! program order. The compact scheme exists to match a hand-written fact
//! corpus and supports at most the letters `a` to `z`.

use vstd::prelude::*;
use crate::ast::{BasicBlock, Program};
use crate::text::{dec_seq, letter_seq};

verus! {

/// Which of the two node naming schemes the run uses.
#[derive(Clone, Copy)]
pub enum NamingScheme {
    Verbose,
    CompactLetters,
}

/// The number of statements in blocks before the first block named `block`
/// (all of them if no block has that name).
pub open spec fn stmts_before_from(blocks: Seq<BasicBlock>, i: int, block: Seq<char>) -> int
    decreases blocks.len() - i,
{
    if i < 0 || i >= blocks.len() {
        0
    } else if blocks[i].name@ == block {
        0
    } else {
        blocks[i].statements@.len() + stmts_before_from(blocks, i + 1, block)
    }
}

pub open spec fn stmts_before(pr: Program, block: Seq<char>) -> int {
    stmts_before_from(pr.basic_blocks@, 0, block)
}

pub proof fn lemma_stmts_before_nonneg(blocks: Seq<BasicBlock>, i: int, block: Seq<char>)
    ensures
        stmts_before_from(blocks, i, block) >= 0,
    decreases blocks.len() - i,
{
    if 0 <= i < blocks.len() && blocks[i].name@ != block {
        lemma_stmts_before_nonneg(blocks, i + 1, block);
    }
}

/// The rendered name of the node (block, idx).
pub open spec fn node_name(pr: Program, scheme: NamingScheme, block: Seq<char>, idx: int) -> Seq<
    char,
> {
    match scheme {
        NamingScheme::Verbose => block + "["@ + dec_seq(idx as nat) + "]"@,
        NamingScheme::CompactLetters => letter_seq(stmts_before(pr, block) + idx),
    }
}

/// Whether the node (block, idx) has a name under the scheme: the compact
/// scheme runs out after the letter `z`.
pub open spec fn node_fits(pr: Program, scheme: NamingScheme, block: Seq<char>, idx: int) -> bool {
    scheme is CompactLetters ==> stmts_before(pr, block) + idx < 26
}

/// Whether every node the block gives rise to (its statement nodes, its edge
/// source, and its successors' entry nodes) has a name under the scheme.
pub open spec fn block_nodes_fit(pr: Program, scheme: NamingScheme, bb: BasicBlock) -> bool {
    &&& node_fits(
        pr,
        scheme,
        bb.name@,
        if bb.statements@.len() == 0 {
            0
        } else {
            bb.statements@.len() - 1
        },
    )
    &&& forall|k: int|
        0 <= k < bb.successors@.len() ==> node_fits(pr, scheme, #[trigger] bb.successors@[k]@, 0)
}

/// Whether every node of the program has a name under the scheme.
pub open spec fn program_fits(pr: Program, scheme: NamingScheme) -> bool {
    forall|i: int|
        0 <= i < pr.basic_blocks@.len() ==> block_nodes_fit(
            pr,
            scheme,
            #[trigger] pr.basic_blocks@[i],
        )
}

/// The number of statements in blocks before the first block named `block`.
pub fn stmts_before_exec(blocks: &Vec<BasicBlock>, block: &String, i: usize) -> (r: usize)
    requires
        i <= blocks.len(),
        stmts_before_from(blocks@, i as int, block@) < 26,
    ensures
        r == stmts_before_from(blocks@, i as int, block@),
    decreases blocks.len() - i,
{
    if i == blocks.len() {
        0
    } else if blocks[i].name == *block {
        0
    } else {
        proof {
            lemma_stmts_before_nonneg(blocks@, i + 1, block@);
        }
        let rest = stmts_before_exec(blocks, block, i + 1);
        blocks[i].statements.len() + rest
    }
}

} // verus!
