//! The library's stated laws, proved against the emission and rendering
//! specs: CFG completeness, the fact mix of an assignment taking a mutable
//! borrow, read propagation, unconditional loan invalidation on reassignment,
//! registration of every CFG node in the rendering, and the strict ordering
//! of the rendered nodes.

use vstd::prelude::*;
use crate::ast::{
    AccessKind, BasicBlock, Expr, Origin, Place, Program, Statement, StatementKind, is_ref_ty,
};
use crate::emitspec::{
    block_cfg, block_exit_node, expr_facts, intra_edges, pairs, ref_origin, stmt_facts,
    stmt_node_text, succ_edges,
};
use crate::loans::{loan_origins, loans_of};
use crate::names::{NamingScheme, node_name};
use crate::facts::FactsV;
use crate::render::{
    insert_edge_nodes, insert_rel2_nodes, insert_rel3_nodes, insert_sorted, node_order,
    strictly_sorted,
};
use crate::resolve::{place_origins, place_resolvable, resolved_ty_of};
use crate::text::{lex_lt, lemma_lex_lt_connected, lemma_lex_lt_irrefl, lemma_lex_lt_trans};

verus! {

proof fn lemma_contains_cons<A>(s: Seq<A>, y: A)
    requires
        s.len() > 0,
    ensures
        s.contains(y) <==> (s[0] == y || s.drop_first().contains(y)),
{
    if s.contains(y) {
        let i = choose|i: int| 0 <= i < s.len() && s[i] == y;
        if i > 0 {
            assert(s.drop_first()[i - 1] == y);
        }
    }
    if s.drop_first().contains(y) {
        let i = choose|i: int| 0 <= i < s.drop_first().len() && s.drop_first()[i] == y;
        assert(s[i + 1] == y);
    }
    if s[0] == y {
        assert(s.contains(y));
    }
}

proof fn lemma_insert_sorted_contains(x: Seq<char>, s: Seq<Seq<char>>, y: Seq<char>)
    ensures
        insert_sorted(x, s).contains(y) <==> (y == x || s.contains(y)),
    decreases s.len(),
{
    let r = insert_sorted(x, s);
    if s.len() == 0 {
        lemma_contains_cons(r, y);
        assert(r.drop_first() =~= Seq::<Seq<char>>::empty());
        assert(!Seq::<Seq<char>>::empty().contains(y));
        assert(!s.contains(y));
    } else if lex_lt(x, s[0]) {
        assert(r == seq![x] + s);
        lemma_contains_cons(r, y);
        assert(r[0] == x);
        assert(r.drop_first() =~= s);
    } else if x == s[0] {
        assert(r == s);
        lemma_contains_cons(s, y);
    } else {
        assert(r == seq![s[0]] + insert_sorted(x, s.drop_first()));
        lemma_insert_sorted_contains(x, s.drop_first(), y);
        lemma_contains_cons(r, y);
        assert(r[0] == s[0]);
        assert(r.drop_first() =~= insert_sorted(x, s.drop_first()));
        lemma_contains_cons(s, y);
    }
}

proof fn lemma_edge_nodes_contains(acc: Seq<Seq<char>>, cfg: Seq<(Seq<char>, Seq<char>)>, i: int)
    requires
        0 <= i,
    ensures
        forall|y: Seq<char>|
            acc.contains(y) ==> #[trigger] insert_edge_nodes(acc, cfg, i).contains(y),
        forall|j: int|
            i <= j < cfg.len() && 0 <= j ==> insert_edge_nodes(acc, cfg, i).contains(
                (#[trigger] cfg[j]).0,
            ) && insert_edge_nodes(acc, cfg, i).contains(cfg[j].1),
    decreases cfg.len() - i,
{
    if i < cfg.len() {
        let acc2 = insert_sorted(cfg[i].1, insert_sorted(cfg[i].0, acc));
        lemma_edge_nodes_contains(acc2, cfg, i + 1);
        assert(insert_edge_nodes(acc, cfg, i) == insert_edge_nodes(acc2, cfg, i + 1));
        assert forall|y: Seq<char>| acc.contains(y) || y == cfg[i].0 || y
            == cfg[i].1 implies insert_edge_nodes(acc, cfg, i).contains(y) by {
            lemma_insert_sorted_contains(cfg[i].0, acc, y);
            lemma_insert_sorted_contains(cfg[i].1, insert_sorted(cfg[i].0, acc), y);
            assert(acc2.contains(y));
            assert(insert_edge_nodes(acc2, cfg, i + 1).contains(y));
        }
        assert forall|j: int| i <= j < cfg.len() && 0 <= j implies insert_edge_nodes(
            acc,
            cfg,
            i,
        ).contains((#[trigger] cfg[j]).0) && insert_edge_nodes(acc, cfg, i).contains(
            cfg[j].1,
        ) by {
            if j > i {
                assert(insert_edge_nodes(acc2, cfg, i + 1).contains(cfg[j].0));
                assert(insert_edge_nodes(acc2, cfg, i + 1).contains(cfg[j].1));
            } else {
                lemma_insert_sorted_contains(cfg[i].0, acc, cfg[i].0);
                lemma_insert_sorted_contains(cfg[i].1, insert_sorted(cfg[i].0, acc), cfg[i].0);
                lemma_insert_sorted_contains(cfg[i].1, insert_sorted(cfg[i].0, acc), cfg[i].1);
                assert(acc2.contains(cfg[i].0));
                assert(acc2.contains(cfg[i].1));
                assert(insert_edge_nodes(acc2, cfg, i + 1).contains(cfg[i].0));
                assert(insert_edge_nodes(acc2, cfg, i + 1).contains(cfg[i].1));
            }
        }
    }
}

proof fn lemma_rel2_nodes_contains(acc: Seq<Seq<char>>, rel: Seq<(Seq<char>, Seq<char>)>, i: int)
    requires
        0 <= i,
    ensures
        forall|y: Seq<char>|
            acc.contains(y) ==> #[trigger] insert_rel2_nodes(acc, rel, i).contains(y),
    decreases rel.len() - i,
{
    if 0 <= i < rel.len() {
        let acc2 = insert_sorted(rel[i].1, acc);
        lemma_rel2_nodes_contains(acc2, rel, i + 1);
        assert(insert_rel2_nodes(acc, rel, i) == insert_rel2_nodes(acc2, rel, i + 1));
        assert forall|y: Seq<char>| acc.contains(y) implies #[trigger] insert_rel2_nodes(
            acc,
            rel,
            i,
        ).contains(y) by {
            lemma_insert_sorted_contains(rel[i].1, acc, y);
            assert(acc2.contains(y));
            assert(insert_rel2_nodes(acc2, rel, i + 1).contains(y));
        }
    }
}

proof fn lemma_rel3_nodes_contains(
    acc: Seq<Seq<char>>,
    rel: Seq<(Seq<char>, Seq<char>, Seq<char>)>,
    i: int,
)
    requires
        0 <= i,
    ensures
        forall|y: Seq<char>|
            acc.contains(y) ==> #[trigger] insert_rel3_nodes(acc, rel, i).contains(y),
    decreases rel.len() - i,
{
    if 0 <= i < rel.len() {
        let acc2 = insert_sorted(rel[i].2, acc);
        lemma_rel3_nodes_contains(acc2, rel, i + 1);
        assert(insert_rel3_nodes(acc, rel, i) == insert_rel3_nodes(acc2, rel, i + 1));
        assert forall|y: Seq<char>| acc.contains(y) implies #[trigger] insert_rel3_nodes(
            acc,
            rel,
            i,
        ).contains(y) by {
            lemma_insert_sorted_contains(rel[i].2, acc, y);
            assert(acc2.contains(y));
            assert(insert_rel3_nodes(acc2, rel, i + 1).contains(y));
        }
    }
}

proof fn lemma_insert_sorted_preserves(x: Seq<char>, s: Seq<Seq<char>>)
    requires
        strictly_sorted(s),
    ensures
        strictly_sorted(insert_sorted(x, s)),
    decreases s.len(),
{
    let r = insert_sorted(x, s);
    if s.len() == 0 {
    } else if lex_lt(x, s[0]) {
        assert forall|i: int, j: int| 0 <= i < j < r.len() implies lex_lt(
            #[trigger] r[i],
            #[trigger] r[j],
        ) by {
            if i == 0 {
                if j > 1 {
                    lemma_lex_lt_trans(x, s[0], s[j - 1]);
                }
            }
        }
    } else if x == s[0] {
    } else {
        let tail = s.drop_first();
        assert(strictly_sorted(tail));
        lemma_insert_sorted_preserves(x, tail);
        let t = insert_sorted(x, tail);
        lemma_lex_lt_connected(x, s[0]);
        assert(lex_lt(s[0], x));
        assert forall|i: int, j: int| 0 <= i < j < r.len() implies lex_lt(
            #[trigger] r[i],
            #[trigger] r[j],
        ) by {
            if i == 0 {
                let y = t[j - 1];
                assert(t.contains(y));
                lemma_insert_sorted_contains(x, tail, y);
                if y == x {
                } else {
                    let k = choose|k: int| 0 <= k < tail.len() && tail[k] == y;
                    assert(s[k + 1] == y);
                    assert(lex_lt(s[0], s[k + 1]));
                }
            }
        }
    }
}

proof fn lemma_edge_nodes_sorted(acc: Seq<Seq<char>>, cfg: Seq<(Seq<char>, Seq<char>)>, i: int)
    requires
        strictly_sorted(acc),
    ensures
        strictly_sorted(insert_edge_nodes(acc, cfg, i)),
    decreases cfg.len() - i,
{
    if 0 <= i < cfg.len() {
        lemma_insert_sorted_preserves(cfg[i].0, acc);
        lemma_insert_sorted_preserves(cfg[i].1, insert_sorted(cfg[i].0, acc));
        lemma_edge_nodes_sorted(insert_sorted(cfg[i].1, insert_sorted(cfg[i].0, acc)), cfg, i + 1);
    }
}

proof fn lemma_rel2_nodes_sorted(acc: Seq<Seq<char>>, rel: Seq<(Seq<char>, Seq<char>)>, i: int)
    requires
        strictly_sorted(acc),
    ensures
        strictly_sorted(insert_rel2_nodes(acc, rel, i)),
    decreases rel.len() - i,
{
    if 0 <= i < rel.len() {
        lemma_insert_sorted_preserves(rel[i].1, acc);
        lemma_rel2_nodes_sorted(insert_sorted(rel[i].1, acc), rel, i + 1);
    }
}

proof fn lemma_rel3_nodes_sorted(
    acc: Seq<Seq<char>>,
    rel: Seq<(Seq<char>, Seq<char>, Seq<char>)>,
    i: int,
)
    requires
        strictly_sorted(acc),
    ensures
        strictly_sorted(insert_rel3_nodes(acc, rel, i)),
    decreases rel.len() - i,
{
    if 0 <= i < rel.len() {
        lemma_insert_sorted_preserves(rel[i].2, acc);
        lemma_rel3_nodes_sorted(insert_sorted(rel[i].2, acc), rel, i + 1);
    }
}

/// The rendered node order is strictly ascending in lexicographic order:
/// every registered node appears exactly once, and the grouping is total.
pub proof fn lemma_node_order_sorted(f: FactsV)
    ensures
        strictly_sorted(node_order(f)),
        forall|i: int, j: int|
            0 <= i < j < node_order(f).len() ==> #[trigger] node_order(f)[i]
                != #[trigger] node_order(f)[j],
{
    assert forall|i: int, j: int| 0 <= i < j < node_order(f).len() implies #[trigger] node_order(
        f,
    )[i] != #[trigger] node_order(f)[j] by {
        lemma_node_order_sorted_helper(f);
        if node_order(f)[i] == node_order(f)[j] {
            lemma_lex_lt_irrefl(node_order(f)[i]);
        }
    }
    lemma_node_order_sorted_helper(f);
}

proof fn lemma_node_order_sorted_helper(f: FactsV)
    ensures
        strictly_sorted(node_order(f)),
{
    let a0 = insert_edge_nodes(Seq::empty(), f.cfg_edge, 0);
    let a1 = insert_rel2_nodes(a0, f.access_origin, 0);
    let a2 = insert_rel2_nodes(a1, f.invalidate_origin, 0);
    let a3 = insert_rel2_nodes(a2, f.clear_origin, 0);
    lemma_edge_nodes_sorted(Seq::empty(), f.cfg_edge, 0);
    lemma_rel2_nodes_sorted(a0, f.access_origin, 0);
    lemma_rel2_nodes_sorted(a1, f.invalidate_origin, 0);
    lemma_rel2_nodes_sorted(a2, f.clear_origin, 0);
    lemma_rel3_nodes_sorted(a3, f.introduce_subset, 0);
}

/// Node registration: both endpoints of every CFG edge appear among the
/// rendered nodes, so a block consisting solely of an unconditional jump —
/// zero statements, one successor — still yields its node even though no
/// fact mentions it.
pub proof fn lemma_cfg_nodes_registered(f: FactsV)
    ensures
        forall|j: int|
            0 <= j < f.cfg_edge.len() ==> node_order(f).contains((#[trigger] f.cfg_edge[j]).0)
                && node_order(f).contains(f.cfg_edge[j].1),
{
    let a0 = insert_edge_nodes(Seq::empty(), f.cfg_edge, 0);
    let a1 = insert_rel2_nodes(a0, f.access_origin, 0);
    let a2 = insert_rel2_nodes(a1, f.invalidate_origin, 0);
    let a3 = insert_rel2_nodes(a2, f.clear_origin, 0);
    lemma_edge_nodes_contains(Seq::empty(), f.cfg_edge, 0);
    lemma_rel2_nodes_contains(a0, f.access_origin, 0);
    lemma_rel2_nodes_contains(a1, f.invalidate_origin, 0);
    lemma_rel2_nodes_contains(a2, f.clear_origin, 0);
    lemma_rel3_nodes_contains(a3, f.introduce_subset, 0);
}

proof fn lemma_intra_edges_shape(
    pr: Program,
    scheme: NamingScheme,
    name: Seq<char>,
    n: int,
    i: int,
)
    requires
        1 <= i,
    ensures
        intra_edges(pr, scheme, name, n, i).len() == if i >= n {
            0int
        } else {
            n - i
        },
        forall|j: int|
            0 <= j < intra_edges(pr, scheme, name, n, i).len() ==> #[trigger] intra_edges(
                pr,
                scheme,
                name,
                n,
                i,
            )[j] == (node_name(pr, scheme, name, i + j - 1), node_name(pr, scheme, name, i + j)),
    decreases n - i,
{
    if i < n {
        lemma_intra_edges_shape(pr, scheme, name, n, i + 1);
    }
}

proof fn lemma_succ_edges_shape(
    pr: Program,
    scheme: NamingScheme,
    from: Seq<char>,
    succs: Seq<String>,
    k: int,
)
    requires
        0 <= k,
    ensures
        succ_edges(pr, scheme, from, succs, k).len() == if k >= succs.len() {
            0int
        } else {
            succs.len() - k
        },
        forall|j: int|
            0 <= j < succ_edges(pr, scheme, from, succs, k).len() ==> #[trigger] succ_edges(
                pr,
                scheme,
                from,
                succs,
                k,
            )[j] == (from, node_name(pr, scheme, succs[k + j]@, 0)),
    decreases succs.len() - k,
{
    if k < succs.len() {
        lemma_succ_edges_shape(pr, scheme, from, succs, k + 1);
    }
}

/// CFG completeness: a block of `n` statements contributes exactly
/// `max(n - 1, 0)` sequential edges, one between each pair of consecutive
/// statement nodes, and exactly one edge per declared successor, each leaving
/// the block's final node (its node 0 when it is empty) for the successor's
/// entry node.
pub proof fn lemma_cfg_completeness(pr: Program, scheme: NamingScheme, bb: BasicBlock)
    ensures
        block_cfg(pr, scheme, bb).len() == (if bb.statements@.len() == 0 {
            0int
        } else {
            bb.statements@.len() - 1
        }) + bb.successors@.len(),
        forall|j: int|
            0 <= j < bb.statements@.len() - 1 ==> #[trigger] block_cfg(pr, scheme, bb)[j] == (
                node_name(pr, scheme, bb.name@, j),
                node_name(pr, scheme, bb.name@, j + 1),
            ),
        forall|k: int|
            0 <= k < bb.successors@.len() ==> block_cfg(pr, scheme, bb)[(
                if bb.statements@.len() == 0 {
                    0int
                } else {
                    bb.statements@.len() - 1
                }
            ) + k] == (
                block_exit_node(pr, scheme, bb),
                node_name(pr, scheme, (#[trigger] bb.successors@[k])@, 0),
            ),
{
    let n = bb.statements@.len() as int;
    let ia = intra_edges(pr, scheme, bb.name@, n, 1);
    let sa = succ_edges(pr, scheme, block_exit_node(pr, scheme, bb), bb.successors@, 0);
    lemma_intra_edges_shape(pr, scheme, bb.name@, n, 1);
    lemma_succ_edges_shape(pr, scheme, block_exit_node(pr, scheme, bb), bb.successors@, 0);
    assert(block_cfg(pr, scheme, bb) == ia + sa);
    assert forall|j: int| 0 <= j < n - 1 implies #[trigger] block_cfg(pr, scheme, bb)[j] == (
        node_name(pr, scheme, bb.name@, j),
        node_name(pr, scheme, bb.name@, j + 1),
    ) by {
        assert((ia + sa)[j] == ia[j]);
        assert(ia[j] == (node_name(pr, scheme, bb.name@, 1 + j - 1), node_name(pr, scheme, bb.name@, 1 + j)));
    }
    assert forall|k: int| 0 <= k < bb.successors@.len() implies block_cfg(pr, scheme, bb)[(
        if bb.statements@.len() == 0 {
            0int
        } else {
            bb.statements@.len() - 1
        }
    ) + k] == (
        block_exit_node(pr, scheme, bb),
        node_name(pr, scheme, (#[trigger] bb.successors@[k])@, 0),
    ) by {
        assert((ia + sa)[ia.len() + k] == sa[k]);
    }
}

/// For an assignment `x = &mut y` whose target resolves to a reference type:
/// the node's clear facts are the target's origins followed by the borrow's
/// fresh origin, its access facts are the borrowed place's origins, its
/// invalidate facts are exactly the recorded loans of the borrowed place, and
/// one subset obligation flows the borrow's origin into the target's.
pub proof fn lemma_assign_mut_borrow(
    pr: Program,
    input: Seq<char>,
    node: Seq<char>,
    st: Statement,
    place: Place,
    o: Origin,
    q: Place,
)
    requires
        st.kind == StatementKind::Assign(
            place,
            Expr::Access { kind: AccessKind::BorrowMut(o), place: q },
        ),
        place_resolvable(pr, place@),
        place_resolvable(pr, q@),
        is_ref_ty(resolved_ty_of(pr, place@)),
    ensures
        stmt_facts(pr, input, node, st).clear_origin == pairs(
            place_origins(pr, place@),
            node,
        ).push((o@, node)),
        stmt_facts(pr, input, node, st).access_origin == pairs(place_origins(pr, q@), node),
        stmt_facts(pr, input, node, st).invalidate_origin == pairs(loan_origins(pr, q@), node),
        stmt_facts(pr, input, node, st).introduce_subset == seq![
            (o@, ref_origin(resolved_ty_of(pr, place@)), node),
        ],
        stmt_facts(pr, input, node, st).node_text == seq![(stmt_node_text(input, st.span), node)],
{
    let d = stmt_facts(pr, input, node, st);
    assert(d.clear_origin =~= pairs(place_origins(pr, place@), node).push((o@, node)));
    assert(d.access_origin =~= pairs(place_origins(pr, q@), node));
    assert(d.invalidate_origin =~= pairs(loan_origins(pr, q@), node));
    assert(d.introduce_subset =~= seq![(o@, ref_origin(resolved_ty_of(pr, place@)), node)]);
    assert(d.node_text =~= seq![(stmt_node_text(input, st.span), node)]);
}

/// Read propagation: a bare read `let _ = x;` of a place emits one
/// `access_origin` fact per origin of the place's type and nothing else.
pub proof fn lemma_read_propagation(
    pr: Program,
    input: Seq<char>,
    node: Seq<char>,
    st: Statement,
    x: Place,
)
    requires
        st.kind == StatementKind::Expr(Expr::Access { kind: AccessKind::Copied, place: x }),
        place_resolvable(pr, x@),
    ensures
        stmt_facts(pr, input, node, st).access_origin == pairs(place_origins(pr, x@), node),
        stmt_facts(pr, input, node, st).clear_origin == Seq::<(Seq<char>, Seq<char>)>::empty(),
        stmt_facts(pr, input, node, st).invalidate_origin == Seq::<
            (Seq<char>, Seq<char>),
        >::empty(),
        stmt_facts(pr, input, node, st).introduce_subset == Seq::<
            (Seq<char>, Seq<char>, Seq<char>),
        >::empty(),
{
    let d = stmt_facts(pr, input, node, st);
    assert(d.access_origin =~= pairs(place_origins(pr, x@), node));
    assert(d.clear_origin =~= Seq::<(Seq<char>, Seq<char>)>::empty());
    assert(d.invalidate_origin =~= Seq::<(Seq<char>, Seq<char>)>::empty());
    assert(d.introduce_subset =~= Seq::<(Seq<char>, Seq<char>, Seq<char>)>::empty());
}

/// Loan invalidation on reassignment: assigning to a place of non-reference
/// type emits one `invalidate_origin` fact for every loan ever recorded for
/// that place, in program order, unconditionally — whether or not the borrow
/// site can reach the assignment.
pub proof fn lemma_assign_invalidates_loans(
    pr: Program,
    input: Seq<char>,
    node: Seq<char>,
    st: Statement,
    p: Place,
    e: Expr,
)
    requires
        st.kind == StatementKind::Assign(p, e),
        place_resolvable(pr, p@),
        !is_ref_ty(resolved_ty_of(pr, p@)),
    ensures
        forall|j: int|
            0 <= j < loans_of(pr, p@).len() ==> #[trigger] stmt_facts(
                pr,
                input,
                node,
                st,
            ).invalidate_origin[j] == (loans_of(pr, p@)[j].0, node),
        stmt_facts(pr, input, node, st).invalidate_origin.len() >= loans_of(pr, p@).len(),
{
    let d = stmt_facts(pr, input, node, st);
    let lo = pairs(loan_origins(pr, p@), node);
    assert(d.invalidate_origin =~= lo + expr_facts(pr, node, e).invalidate_origin);
    assert forall|j: int| 0 <= j < loans_of(pr, p@).len() implies #[trigger] d.invalidate_origin[j]
        == (loans_of(pr, p@)[j].0, node) by {
        assert(lo[j] == (loan_origins(pr, p@)[j], node));
        assert((lo + expr_facts(pr, node, e).invalidate_origin)[j] == lo[j]);
    }
}

} // verus!
