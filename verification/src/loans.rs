//! The loan index at the spec level: every borrow of a place anywhere in the
//! program, in program order, with the location where it was taken. Only
//! complete-place borrows are indexed; borrows through a field chain are keyed
//! by the whole path as written.

use vstd::prelude::*;
use crate::ast::{BasicBlock, Expr, PlaceV, Program, Statement, StatementKind, AccessKind};

verus! {

/// The expression a statement evaluates.
pub open spec fn stmt_expr(st: Statement) -> Expr {
    match st.kind {
        StatementKind::Assign(_, e) => e,
        StatementKind::Expr(e) => e,
    }
}

/// The borrow an expression records in the loan index, if it is a borrow of a
/// place: the origin it introduces and the borrowed place.
pub open spec fn borrow_of(e: Expr) -> Option<(Seq<char>, PlaceV)> {
    match e {
        Expr::Access { kind: AccessKind::Borrow(o), place } => Some((o@, place@)),
        Expr::Access { kind: AccessKind::BorrowMut(o), place } => Some((o@, place@)),
        _ => None,
    }
}

/// The loans of place `p` taken in `stmts[j..]` of block `b`, in order.
pub open spec fn loans_in_stmts(stmts: Seq<Statement>, b: int, j: int, p: PlaceV) -> Seq<
    (Seq<char>, (int, int)),
>
    decreases stmts.len() - j,
{
    if j < 0 || j >= stmts.len() {
        Seq::empty()
    } else {
        (match borrow_of(stmt_expr(stmts[j])) {
            Some(bp) => if bp.1 == p {
                seq![(bp.0, (b, j))]
            } else {
                Seq::empty()
            },
            None => Seq::empty(),
        }) + loans_in_stmts(stmts, b, j + 1, p)
    }
}

/// The loans of place `p` taken in blocks `i..`, in program order.
pub open spec fn loans_in_blocks(blocks: Seq<BasicBlock>, i: int, p: PlaceV) -> Seq<
    (Seq<char>, (int, int)),
>
    decreases blocks.len() - i,
{
    if i < 0 || i >= blocks.len() {
        Seq::empty()
    } else {
        loans_in_stmts(blocks[i].statements@, i, 0, p) + loans_in_blocks(blocks, i + 1, p)
    }
}

/// Every loan of place `p` in the whole program, in program order.
pub open spec fn loans_of(pr: Program, p: PlaceV) -> Seq<(Seq<char>, (int, int))> {
    loans_in_blocks(pr.basic_blocks@, 0, p)
}

/// The origins of every loan of `p`, in program order.
pub open spec fn loan_origins(pr: Program, p: PlaceV) -> Seq<Seq<char>> {
    loans_of(pr, p).map_values(|l: (Seq<char>, (int, int))| l.0)
}

} // verus!
