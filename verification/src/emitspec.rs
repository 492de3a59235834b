//! The mathematical statement of fact emission: what the extraction emits for
//! every expression, statement, block and program, in emission order.

use vstd::prelude::*;
use crate::ast::{
    AccessKind, BasicBlock, Expr, Program, Span, Statement, StatementKind, Ty, is_ref_ty,
};
use crate::facts::FactsV;
use crate::loans::loan_origins;
use crate::names::{NamingScheme, node_name};
use crate::resolve::{place_origins, place_resolvable, resolved_ty_of};

verus! {

/// Pairs each origin with the node it is emitted at.
pub open spec fn pairs(os: Seq<Seq<char>>, node: Seq<char>) -> Seq<(Seq<char>, Seq<char>)> {
    os.map_values(|o: Seq<char>| (o, node))
}

/// Whether every place an expression accesses resolves.
pub open spec fn expr_wf(pr: Program, e: Expr) -> bool
    decreases e,
{
    match e {
        Expr::Access { place, .. } => place_resolvable(pr, place@),
        Expr::Call { arguments, .. } => args_wf(pr, arguments@),
        _ => true,
    }
}

pub open spec fn args_wf(pr: Program, args: Seq<Expr>) -> bool
    decreases args,
{
    args.len() == 0 || (expr_wf(pr, args[0]) && args_wf(pr, args.drop_first()))
}

/// Whether a span selects statement text inside the input: the range
/// `start .. end - 1` must lie within it.
pub open spec fn span_ok(sp: Span, len: nat) -> bool {
    &&& sp.end >= 1
    &&& sp.start <= sp.end - 1
    &&& sp.end - 1 <= len
}

/// Whether a statement can be emitted: its span selects text and every place
/// it touches resolves.
pub open spec fn stmt_wf(pr: Program, st: Statement, len: nat) -> bool {
    &&& span_ok(st.span, len)
    &&& match st.kind {
        StatementKind::Assign(place, e) => place_resolvable(pr, place@) && expr_wf(pr, e),
        StatementKind::Expr(e) => expr_wf(pr, e),
    }
}

pub open spec fn block_wf(pr: Program, bb: BasicBlock, len: nat) -> bool {
    forall|j: int|
        0 <= j < bb.statements@.len() ==> stmt_wf(pr, #[trigger] bb.statements@[j], len)
}

/// Whether the whole program can be emitted against the given input text.
pub open spec fn program_wf(pr: Program, len: nat) -> bool {
    forall|i: int|
        0 <= i < pr.basic_blocks@.len() ==> block_wf(pr, #[trigger] pr.basic_blocks@[i], len)
}

/// The origin an assignment target of reference type binds.
pub open spec fn ref_origin(t: Ty) -> Seq<char> {
    match t {
        Ty::Ref { origin, .. } => origin@,
        Ty::RefMut { origin, .. } => origin@,
        _ => Seq::empty(),
    }
}

/// The facts evaluating an expression at a node emits: a borrow clears its
/// origin; a mutable borrow besides accesses every origin of the borrowed
/// place and invalidates every recorded loan of it; a copy or move accesses
/// every origin of the place; a call evaluates its arguments left to right.
pub open spec fn expr_facts(pr: Program, node: Seq<char>, e: Expr) -> FactsV
    decreases e,
{
    match e {
        Expr::Access { kind, place } => match kind {
            AccessKind::Borrow(o) => FactsV::of_clears(seq![(o@, node)]),
            AccessKind::BorrowMut(o) => FactsV::of_clears(seq![(o@, node)]).add(
                FactsV::of_access(pairs(place_origins(pr, place@), node)),
            ).add(FactsV::of_invalidates(pairs(loan_origins(pr, place@), node))),
            AccessKind::Copied => FactsV::of_access(pairs(place_origins(pr, place@), node)),
            AccessKind::Moved => FactsV::of_access(pairs(place_origins(pr, place@), node)),
        },
        Expr::Call { arguments, .. } => args_facts(pr, node, arguments@),
        _ => FactsV::empty(),
    }
}

pub open spec fn args_facts(pr: Program, node: Seq<char>, args: Seq<Expr>) -> FactsV
    decreases args,
{
    if args.len() == 0 {
        FactsV::empty()
    } else {
        expr_facts(pr, node, args[0]).add(args_facts(pr, node, args.drop_first()))
    }
}

/// The subset obligations an assignment introduces: only a reference-typed
/// target has an origin to relate; a borrow on the right flows its origin into
/// the target's, and a copied or moved reference propagates its origin.
pub open spec fn subset_pairs(pr: Program, node: Seq<char>, lt: Ty, e: Expr) -> Seq<
    (Seq<char>, Seq<char>, Seq<char>),
> {
    if is_ref_ty(lt) {
        let to = ref_origin(lt);
        match e {
            Expr::Access { kind, place } => match kind {
                AccessKind::Borrow(o) => seq![(o@, to, node)],
                AccessKind::BorrowMut(o) => seq![(o@, to, node)],
                AccessKind::Copied | AccessKind::Moved => {
                    let rt = resolved_ty_of(pr, place@);
                    if is_ref_ty(rt) {
                        seq![(ref_origin(rt), to, node)]
                    } else {
                        Seq::empty()
                    }
                },
            },
            _ => Seq::empty(),
        }
    } else {
        Seq::empty()
    }
}

/// The text a statement's span selects from the input, without the trailing
/// terminator character.
pub open spec fn stmt_node_text(input: Seq<char>, sp: Span) -> Seq<char> {
    input.subrange(sp.start as int, sp.end - 1)
}

/// The facts one statement emits at its node: its source text; for an
/// assignment, a clear of every origin of the target, then — for a
/// non-reference target — an invalidation of every recorded loan of the
/// target place, then the right-hand expression's facts, then the subset
/// obligations; for a bare expression, the expression's facts alone.
pub open spec fn stmt_facts(pr: Program, input: Seq<char>, node: Seq<char>, st: Statement) -> FactsV {
    FactsV::of_text(seq![(stmt_node_text(input, st.span), node)]).add(
        match st.kind {
            StatementKind::Assign(place, e) => {
                let lt = resolved_ty_of(pr, place@);
                FactsV::of_clears(pairs(place_origins(pr, place@), node)).add(
                    if !is_ref_ty(lt) {
                        FactsV::of_invalidates(pairs(loan_origins(pr, place@), node))
                    } else {
                        FactsV::empty()
                    },
                ).add(expr_facts(pr, node, e)).add(
                    FactsV::of_subsets(subset_pairs(pr, node, lt, e)),
                )
            },
            StatementKind::Expr(e) => expr_facts(pr, node, e),
        },
    )
}

/// The sequential edges inside a block of `n` statements, from `i` on:
/// one from each statement's node to the next's.
pub open spec fn intra_edges(
    pr: Program,
    scheme: NamingScheme,
    name: Seq<char>,
    n: int,
    i: int,
) -> Seq<(Seq<char>, Seq<char>)>
    decreases n - i,
{
    if i < 1 || i >= n {
        Seq::empty()
    } else {
        seq![(node_name(pr, scheme, name, i - 1), node_name(pr, scheme, name, i))] + intra_edges(
            pr,
            scheme,
            name,
            n,
            i + 1,
        )
    }
}

/// One edge from the block's final node to each declared successor's entry
/// node, in declaration order.
pub open spec fn succ_edges(
    pr: Program,
    scheme: NamingScheme,
    from: Seq<char>,
    succs: Seq<String>,
    k: int,
) -> Seq<(Seq<char>, Seq<char>)>
    decreases succs.len() - k,
{
    if k < 0 || k >= succs.len() {
        Seq::empty()
    } else {
        seq![(from, node_name(pr, scheme, succs[k]@, 0))] + succ_edges(
            pr,
            scheme,
            from,
            succs,
            k + 1,
        )
    }
}

/// The node every outgoing edge of the block leaves from: its last statement's
/// node, or its node 0 when it has no statements.
pub open spec fn block_exit_node(pr: Program, scheme: NamingScheme, bb: BasicBlock) -> Seq<char> {
    node_name(
        pr,
        scheme,
        bb.name@,
        if bb.statements@.len() == 0 {
            0
        } else {
            bb.statements@.len() - 1
        },
    )
}

/// All CFG edges a block contributes: its sequential edges, then one edge per
/// declared successor.
pub open spec fn block_cfg(pr: Program, scheme: NamingScheme, bb: BasicBlock) -> Seq<
    (Seq<char>, Seq<char>),
> {
    intra_edges(pr, scheme, bb.name@, bb.statements@.len() as int, 1) + succ_edges(
        pr,
        scheme,
        block_exit_node(pr, scheme, bb),
        bb.successors@,
        0,
    )
}

/// The facts of the block's statements from index `j` on, in node order.
pub open spec fn block_stmts_facts(
    pr: Program,
    input: Seq<char>,
    scheme: NamingScheme,
    bb: BasicBlock,
    j: int,
) -> FactsV
    decreases bb.statements@.len() - j,
{
    if j < 0 || j >= bb.statements@.len() {
        FactsV::empty()
    } else {
        stmt_facts(pr, input, node_name(pr, scheme, bb.name@, j), bb.statements@[j]).add(
            block_stmts_facts(pr, input, scheme, bb, j + 1),
        )
    }
}

/// All facts one block emits: its CFG edges, then its statements' facts.
pub open spec fn block_facts(
    pr: Program,
    input: Seq<char>,
    scheme: NamingScheme,
    bb: BasicBlock,
) -> FactsV {
    FactsV::of_cfg(block_cfg(pr, scheme, bb)).add(block_stmts_facts(pr, input, scheme, bb, 0))
}

pub open spec fn blocks_facts(pr: Program, input: Seq<char>, scheme: NamingScheme, i: int) -> FactsV
    decreases pr.basic_blocks@.len() - i,
{
    if i < 0 || i >= pr.basic_blocks@.len() {
        FactsV::empty()
    } else {
        block_facts(pr, input, scheme, pr.basic_blocks@[i]).add(
            blocks_facts(pr, input, scheme, i + 1),
        )
    }
}

/// Everything the extraction emits for the program, block by block in
/// declaration order.
pub open spec fn program_facts(pr: Program, input: Seq<char>, scheme: NamingScheme) -> FactsV {
    blocks_facts(pr, input, scheme, 0)
}

} // verus!
