//! The fact emitter: builds the loan index once from the whole program, then
//! visits every block and statement in order, emitting CFG edges, origin
//! accesses, clears, invalidations, subset obligations and statement text.

use vstd::prelude::*;
use vstd::string::*;
use crate::ast::{
    AccessKind, BasicBlock, Expr, Location, Node, Origin, Parameter, Place, PlaceV, Program,
    StatementKind, Ty, is_ref_ty, ov, ty_origins,
};
use crate::emitspec::{
    args_facts, args_wf, block_cfg, block_exit_node, block_facts, block_stmts_facts, block_wf,
    blocks_facts,
    expr_facts, expr_wf, intra_edges, pairs, program_facts, program_wf, stmt_facts, stmt_wf,
    subset_pairs, succ_edges,
};
use crate::facts::{
    Facts, FactsV, lemma_facts_add_assoc, lemma_facts_add_empty, lemma_of_access_add,
    lemma_of_cfg_add, lemma_of_clears_add, lemma_of_invalidates_add,
};
use crate::loans::{borrow_of, loan_origins, loans_in_blocks, loans_in_stmts, loans_of, stmt_expr};
use crate::names::{
    NamingScheme, block_nodes_fit, lemma_stmts_before_nonneg, node_fits, node_name, program_fits,
    stmts_before_exec,
};
use crate::resolve::{
    find_field_exec, find_struct_exec, find_variable_exec, generic_pos_exec, place_origins,
    place_resolvable, resolve_place, resolve_rec, resolved_ty_of, subst_field_ty,
};
use crate::seqs::{lemma_add_assoc, lemma_skip_step};
use crate::text::{letter_str, usize_str};
use vstd::pervasive::unreached;

verus! {

/// The view of one place's recorded loans.
pub open spec fn loan_view(s: Seq<(Origin, Location)>) -> Seq<(Seq<char>, (int, int))> {
    s.map_values(
        |l: (Origin, Location)| (l.0@, (l.1.block_idx as int, l.1.statement_idx as int)),
    )
}

/// The loans the index associates with place `p`: those of its first entry
/// with that key.
pub open spec fn assoc_loans(ls: Seq<(Place, Vec<(Origin, Location)>)>, p: PlaceV) -> Seq<
    (Seq<char>, (int, int)),
>
    decreases ls.len(),
{
    if ls.len() == 0 {
        Seq::empty()
    } else if ls[0].0@ == p {
        loan_view(ls[0].1@)
    } else {
        assoc_loans(ls.drop_first(), p)
    }
}

proof fn lemma_assoc_push(ls: Seq<(Place, Vec<(Origin, Location)>)>, entry: (Place, Vec<(Origin, Location)>), p: PlaceV)
    requires
        forall|i: int| 0 <= i < ls.len() ==> (#[trigger] ls[i]).0@ != entry.0@,
    ensures
        p == entry.0@ ==> assoc_loans(ls.push(entry), p) == loan_view(entry.1@) && assoc_loans(
            ls,
            p,
        ) == Seq::<(Seq<char>, (int, int))>::empty(),
        p != entry.0@ ==> assoc_loans(ls.push(entry), p) == assoc_loans(ls, p),
    decreases ls.len(),
{
    if ls.len() == 0 {
        assert(ls.push(entry)[0] == entry);
        assert(ls.push(entry).drop_first() =~= Seq::<(Place, Vec<(Origin, Location)>)>::empty());
        assert(assoc_loans(Seq::<(Place, Vec<(Origin, Location)>)>::empty(), p) == Seq::<
            (Seq<char>, (int, int)),
        >::empty());
    } else {
        assert(ls.push(entry)[0] == ls[0]);
        assert(ls.push(entry).drop_first() =~= ls.drop_first().push(entry));
        assert(forall|i: int|
            0 <= i < ls.drop_first().len() ==> (#[trigger] ls.drop_first()[i]).0@ != entry.0@);
        lemma_assoc_push(ls.drop_first(), entry, p);
    }
}

proof fn lemma_assoc_update(
    ls: Seq<(Place, Vec<(Origin, Location)>)>,
    e: int,
    entry: (Place, Vec<(Origin, Location)>),
    p: PlaceV,
)
    requires
        0 <= e < ls.len(),
        entry.0@ == ls[e].0@,
        forall|i: int| 0 <= i < e ==> (#[trigger] ls[i]).0@ != ls[e].0@,
    ensures
        p == ls[e].0@ ==> assoc_loans(ls.update(e, entry), p) == loan_view(entry.1@)
            && assoc_loans(ls, p) == loan_view(ls[e].1@),
        p != ls[e].0@ ==> assoc_loans(ls.update(e, entry), p) == assoc_loans(ls, p),
    decreases e,
{
    let ls2 = ls.update(e, entry);
    if e == 0 {
        assert(ls2[0] == entry);
        assert(ls2.drop_first() =~= ls.drop_first());
    } else {
        assert(ls2[0] == ls[0]);
        assert(ls[0].0@ != ls[e].0@);
        assert(ls2.drop_first() =~= ls.drop_first().update(e - 1, entry));
        assert(ls.drop_first()[e - 1] == ls[e]);
        assert(forall|i: int|
            0 <= i < e - 1 ==> (#[trigger] ls.drop_first()[i]).0@ != ls.drop_first()[e - 1].0@);
        lemma_assoc_update(ls.drop_first(), e - 1, entry, p);
    }
}

/// The fact-extraction engine: the program, the source text its spans index,
/// the chosen node naming scheme, and the loan index built once up front.
pub struct FactEmitter {
    pub input: String,
    pub program: Program,
    pub scheme: NamingScheme,
    pub loans: Vec<(Place, Vec<(Origin, Location)>)>,
}

impl FactEmitter {
    /// The loan index associates with every place exactly the loans the
    /// program takes of it, in program order.
    pub closed spec fn wf(self) -> bool {
        forall|p: PlaceV| #[trigger] assoc_loans(self.loans@, p) == loans_of(self.program, p)
    }

    /// Builds the emitter, collecting the loans from every borrow expression
    /// in the program.
    pub fn new(program: Program, input: &str, scheme: NamingScheme) -> (r: FactEmitter)
        ensures
            r.wf(),
            r.program == program,
            r.input@ == input@,
            r.scheme == scheme,
    {
        let mut loans: Vec<(Place, Vec<(Origin, Location)>)> = Vec::new();
        let nb = program.basic_blocks.len();
        let mut b: usize = 0;
        while b < nb
            invariant
                nb == program.basic_blocks.len(),
                b <= nb,
                forall|p: PlaceV| #[trigger] assoc_loans(loans@, p) + loans_in_blocks(
                    program.basic_blocks@,
                    b as int,
                    p,
                ) == loans_of(program, p),
            decreases nb - b,
        {
            let ns = program.basic_blocks[b].statements.len();
            let mut j: usize = 0;
            while j < ns
                invariant
                    nb == program.basic_blocks.len(),
                    b < nb,
                    ns == program.basic_blocks[b as int].statements.len(),
                    j <= ns,
                    forall|p: PlaceV| #[trigger] assoc_loans(loans@, p) + loans_in_stmts(
                        program.basic_blocks[b as int].statements@,
                        b as int,
                        j as int,
                        p,
                    ) + loans_in_blocks(program.basic_blocks@, b + 1, p) == loans_of(program, p),
                decreases ns - j,
            {
                let ghost stmts = program.basic_blocks[b as int].statements@;
                let stmt = &program.basic_blocks[b].statements[j];
                let mut recorded = false;
                match &stmt.kind {
                    StatementKind::Assign(_, e) | StatementKind::Expr(e) => match e {
                        Expr::Access { kind, place } => {
                            let origin = match kind {
                                AccessKind::Borrow(o) => Some(o),
                                AccessKind::BorrowMut(o) => Some(o),
                                _ => None,
                            };
                            if let Some(o) = origin {
                                proof {
                                    assert(borrow_of(stmt_expr(stmts[j as int])) == Some(
                                        (o@, place@),
                                    ));
                                }
                                let ghost pre_loans = loans@;
                                let loc = Location { block_idx: b, statement_idx: j };
                                record_loan(&mut loans, place, o, loc);
                                recorded = true;
                                proof {
                                    let ghost q = place@;
                                    assert forall|p: PlaceV| #[trigger] assoc_loans(loans@, p)
                                        + loans_in_stmts(stmts, b as int, j + 1, p)
                                        + loans_in_blocks(program.basic_blocks@, b + 1, p)
                                        == loans_of(program, p) by {
                                        broadcast use lemma_add_assoc;

                                        if p == q {
                                            assert(loans_in_stmts(stmts, b as int, j as int, p)
                                                == seq![(o@, (b as int, j as int))]
                                                + loans_in_stmts(stmts, b as int, j + 1, p));
                                            assert(assoc_loans(loans@, p) == assoc_loans(
                                                pre_loans,
                                                p,
                                            ) + seq![(o@, (b as int, j as int))]);
                                        } else {
                                            assert(loans_in_stmts(stmts, b as int, j as int, p)
                                                =~= loans_in_stmts(stmts, b as int, j + 1, p));
                                        }
                                    }
                                }
                            }
                        },
                        _ => {},
                    },
                }
                if !recorded {
                    proof {
                        assert forall|p: PlaceV| #[trigger] assoc_loans(loans@, p)
                            + loans_in_stmts(stmts, b as int, j + 1, p) + loans_in_blocks(
                            program.basic_blocks@,
                            b + 1,
                            p,
                        ) == loans_of(program, p) by {
                            assert(borrow_of(stmt_expr(stmts[j as int])) is None);
                            assert(loans_in_stmts(stmts, b as int, j as int, p)
                                =~= loans_in_stmts(stmts, b as int, j + 1, p));
                        }
                    }
                }
                j += 1;
            }
            proof {
                assert forall|p: PlaceV| #[trigger] assoc_loans(loans@, p) + loans_in_blocks(
                    program.basic_blocks@,
                    b + 1,
                    p,
                ) == loans_of(program, p) by {
                    assert(loans_in_stmts(
                        program.basic_blocks[b as int].statements@,
                        b as int,
                        ns as int,
                        p,
                    ) =~= Seq::<(Seq<char>, (int, int))>::empty());
                    assert(loans_in_blocks(program.basic_blocks@, b as int, p) == loans_in_stmts(
                        program.basic_blocks[b as int].statements@,
                        b as int,
                        0,
                        p,
                    ) + loans_in_blocks(program.basic_blocks@, b + 1, p));
                    broadcast use lemma_add_assoc;

                }
            }
            b += 1;
        }
        proof {
            assert forall|p: PlaceV| #[trigger] assoc_loans(loans@, p) == loans_of(program, p) by {
                assert(loans_in_blocks(program.basic_blocks@, nb as int, p) =~= Seq::<
                    (Seq<char>, (int, int)),
                >::empty());
                assert(assoc_loans(loans@, p) + Seq::<(Seq<char>, (int, int))>::empty()
                    =~= assoc_loans(loans@, p));
            }
        }
        FactEmitter { input: input.to_owned(), program, scheme, loans }
    }
}

fn assoc_find<'a>(
    ls: &'a Vec<(Place, Vec<(Origin, Location)>)>,
    place: &Place,
    i: usize,
) -> (r: Option<&'a Vec<(Origin, Location)>>)
    requires
        i <= ls.len(),
    ensures
        match r {
            Some(v) => assoc_loans(ls@.skip(i as int), place@) == loan_view(v@),
            None => assoc_loans(ls@.skip(i as int), place@) == Seq::<
                (Seq<char>, (int, int)),
            >::empty(),
        },
    decreases ls.len() - i,
{
    proof {
        assert(ls@.skip(i as int).len() == ls@.len() - i);
    }
    if i == ls.len() {
        None
    } else {
        proof {
            lemma_skip_step(ls@, i as int);
        }
        if ls[i].0.same_place(place) {
            Some(&ls[i].1)
        } else {
            assoc_find(ls, place, i + 1)
        }
    }
}

impl FactEmitter {
    /// The recorded loans of a place, if any were taken of it.
    pub fn find_loans(&self, place: &Place) -> (r: Option<&Vec<(Origin, Location)>>)
        requires
            self.wf(),
        ensures
            match r {
                Some(v) => loan_view(v@) == loans_of(self.program, place@),
                None => loans_of(self.program, place@) == Seq::<
                    (Seq<char>, (int, int)),
                >::empty(),
            },
    {
        let r = assoc_find(&self.loans, place, 0);
        proof {
            assert(self.loans@.skip(0) =~= self.loans@);
        }
        r
    }

    /// The rendered name of the node (block, statement index) under the
    /// emitter's naming scheme.
    pub fn node_at(&self, block: &String, statement_idx: usize) -> (n: Node)
        requires
            node_fits(self.program, self.scheme, block@, statement_idx as int),
        ensures
            n@ == node_name(self.program, self.scheme, block@, statement_idx as int),
    {
        match self.scheme {
            NamingScheme::Verbose => {
                let mut s = block.clone();
                s.append("[");
                let d = usize_str(statement_idx);
                s.append(d.as_str());
                s.append("]");
                Node(s)
            },
            NamingScheme::CompactLetters => {
                proof {
                    lemma_stmts_before_nonneg(self.program.basic_blocks@, 0, block@);
                }
                let start = stmts_before_exec(&self.program.basic_blocks, block, 0);
                Node(letter_str(start + statement_idx))
            },
        }
    }

    /// Resolves a place to its static type and the origins embedded along the
    /// field chain, root to leaf.
    pub fn ty_and_origins_of_place<'a>(&'a self, place: &Place) -> (r: (&'a Ty, Vec<Origin>))
        requires
            place_resolvable(self.program, place@),
        ensures
            *r.0 == resolved_ty_of(self.program, place@),
            ov(r.1@) == place_origins(self.program, place@),
    {
        broadcast use lemma_add_assoc;

        let base_ref: &String = match place.deref_base() {
            Some(name) => name,
            None => &place.base,
        };
        let v = match find_variable_exec(&self.program.variables, base_ref) {
            Some(v) => v,
            None => unreached(),
        };
        let ghost target = resolve_place(self.program, place@)->Some_0;
        let ghost flds = place@.fields;
        let mut origins: Vec<Origin> = Vec::new();
        let mut cur: &Ty = &v.ty;
        let nf = place.fields.len();
        let mut i: usize = 0;
        proof {
            assert(flds.skip(0) =~= flds);
            assert(flds.len() == nf);
            assert(ov(origins@) + target.1 =~= target.1);
        }
        while i < nf
            invariant
                nf == place.fields.len(),
                i <= nf,
                flds == place@.fields,
                flds.len() == nf,
                target == resolve_place(self.program, place@)->Some_0,
                place_resolvable(self.program, place@),
                resolve_rec(self.program, *cur, flds.skip(i as int)) is Some,
                resolve_rec(self.program, *cur, flds.skip(i as int))->Some_0.0 == target.0,
                ov(origins@) + resolve_rec(self.program, *cur, flds.skip(i as int))->Some_0.1
                    == target.1,
            decreases nf - i,
        {
            proof {
                lemma_skip_step(flds, i as int);
            }
            let ghost rest = resolve_rec(self.program, *cur, flds.skip(i as int))->Some_0.1;
            let ghost pre = origins@;
            cur.collect_origins_into(&mut origins);
            match cur {
                Ty::Struct { name, parameters } => {
                    let decl = match find_struct_exec(&self.program.struct_decls, name) {
                        Some(d) => d,
                        None => unreached(),
                    };
                    let fd = match find_field_exec(&decl.field_decls, &place.fields[i]) {
                        Some(f) => f,
                        None => unreached(),
                    };
                    let next: &Ty = match &fd.ty {
                        Ty::Struct { name: fname, .. } => match generic_pos_exec(
                            &decl.generic_decls,
                            fname,
                        ) {
                            Some(idx) => {
                                proof {
                                    assert(subst_field_ty(
                                        decl.generic_decls@,
                                        parameters@,
                                        fd.ty,
                                    ) is Some);
                                    assert(idx < parameters@.len());
                                }
                                match &parameters[idx] {
                                    Parameter::Ty(t) => t,
                                    _ => unreached(),
                                }
                            },
                            None => &fd.ty,
                        },
                        _ => &fd.ty,
                    };
                    proof {
                        assert(subst_field_ty(decl.generic_decls@, parameters@, fd.ty) == Some(
                            *next,
                        ));
                        assert(resolve_rec(self.program, *cur, flds.skip(i as int)) matches Some(
                            res,
                        ) && res.1 == ty_origins(*cur) + resolve_rec(
                            self.program,
                            *next,
                            flds.skip(i + 1),
                        )->Some_0.1);
                        assert(ov(origins@) == ov(pre) + ty_origins(*cur));
                        assert(ov(origins@) + resolve_rec(
                            self.program,
                            *next,
                            flds.skip(i + 1),
                        )->Some_0.1 == target.1);
                    }
                    cur = next;
                },
                _ => {
                    proof {
                        assert(false);
                    }
                },
            }
            i += 1;
        }
        proof {
            assert(flds.skip(nf as int) =~= Seq::<Seq<char>>::empty());
        }
        let ghost rest = resolve_rec(self.program, *cur, flds.skip(nf as int))->Some_0.1;
        cur.collect_origins_into(&mut origins);
        proof {
            assert(rest == ty_origins(*cur));
            assert(ov(origins@) == place_origins(self.program, place@));
        }
        (cur, origins)
    }
}

proof fn lemma_args_wf_index(pr: Program, args: Seq<Expr>, i: int)
    requires
        args_wf(pr, args),
        0 <= i < args.len(),
    ensures
        expr_wf(pr, args[i]),
    decreases i,
{
    if i > 0 {
        lemma_args_wf_index(pr, args.drop_first(), i - 1);
        assert(args.drop_first()[i - 1] == args[i]);
    }
}

impl FactEmitter {
    /// Emits the block's CFG edges: one sequential edge between consecutive
    /// statement nodes, then one edge from the block's final node to each
    /// declared successor's entry node.
    pub fn emit_cfg_edges(&self, bb: &BasicBlock, facts: &mut Facts)
        requires
            block_nodes_fit(self.program, self.scheme, *bb),
        ensures
            final(facts)@ == old(facts)@.add(
                FactsV::of_cfg(block_cfg(self.program, self.scheme, *bb)),
            ),
    {
        broadcast use lemma_facts_add_assoc, lemma_facts_add_empty, lemma_of_cfg_add;

        let ghost name = bb.name@;
        let n = bb.statements.len();
        let mut idx: usize = 1;
        let ghost g0 = facts@;
        while idx < n
            invariant
                n == bb.statements.len(),
                1 <= idx,
                n > 0 ==> idx <= n,
                name == bb.name@,
                block_nodes_fit(self.program, self.scheme, *bb),
                g0.add(FactsV::of_cfg(intra_edges(self.program, self.scheme, name, n as int, 1)))
                    == facts@.add(
                    FactsV::of_cfg(intra_edges(self.program, self.scheme, name, n as int, idx as int)),
                ),
            decreases n - idx,
        {
            proof {
                assert(intra_edges(self.program, self.scheme, name, n as int, idx as int) == seq![
                    (
                        node_name(self.program, self.scheme, name, idx - 1),
                        node_name(self.program, self.scheme, name, idx as int),
                    ),
                ] + intra_edges(self.program, self.scheme, name, n as int, idx + 1));
            }
            let a = self.node_at(&bb.name, idx - 1);
            let c = self.node_at(&bb.name, idx);
            facts.push_cfg(a, c);
            idx += 1;
        }
        proof {
            assert(intra_edges(self.program, self.scheme, name, n as int, if n == 0 {
                1int
            } else {
                n as int
            }) =~= Seq::<(Seq<char>, Seq<char>)>::empty());
            assert(facts@ == g0.add(
                FactsV::of_cfg(intra_edges(self.program, self.scheme, name, n as int, 1)),
            ));
        }
        let last: usize = if n == 0 {
            0
        } else {
            n - 1
        };
        let ghost from = block_exit_node(self.program, self.scheme, *bb);
        let ghost g1 = facts@;
        let ns = bb.successors.len();
        let mut k: usize = 0;
        while k < ns
            invariant
                ns == bb.successors.len(),
                k <= ns,
                n == bb.statements.len(),
                last == if n == 0 { 0int } else { n - 1 },
                from == block_exit_node(self.program, self.scheme, *bb),
                name == bb.name@,
                block_nodes_fit(self.program, self.scheme, *bb),
                g1.add(FactsV::of_cfg(succ_edges(self.program, self.scheme, from, bb.successors@, 0)))
                    == facts@.add(
                    FactsV::of_cfg(
                        succ_edges(self.program, self.scheme, from, bb.successors@, k as int),
                    ),
                ),
            decreases ns - k,
        {
            proof {
                assert(succ_edges(self.program, self.scheme, from, bb.successors@, k as int)
                    == seq![
                    (from, node_name(self.program, self.scheme, bb.successors@[k as int]@, 0)),
                ] + succ_edges(self.program, self.scheme, from, bb.successors@, k + 1));
            }
            let f = self.node_at(&bb.name, last);
            let t = self.node_at(&bb.successors[k], 0);
            facts.push_cfg(f, t);
            k += 1;
        }
        proof {
            assert(succ_edges(self.program, self.scheme, from, bb.successors@, ns as int) =~= Seq::<
                (Seq<char>, Seq<char>),
            >::empty());
            assert(facts@ == g1.add(
                FactsV::of_cfg(succ_edges(self.program, self.scheme, from, bb.successors@, 0)),
            ));
            assert(final(facts)@ == old(facts)@.add(
                FactsV::of_cfg(block_cfg(self.program, self.scheme, *bb)),
            ));
        }
    }

    /// Pushes one `access_origin` fact per origin of the list, in order.
    fn push_accesses(&self, os: &Vec<Origin>, node: &Node, facts: &mut Facts)
        ensures
            final(facts)@ == old(facts)@.add(FactsV::of_access(pairs(ov(os@), node@))),
    {
        broadcast use lemma_facts_add_assoc, lemma_facts_add_empty, lemma_of_access_add;

        let m = os.len();
        let mut x: usize = 0;
        proof {
            assert(pairs(ov(os@).take(0), node@) =~= Seq::<(Seq<char>, Seq<char>)>::empty());
            assert(FactsV::of_access(Seq::empty()) =~= FactsV::empty());
        }
        while x < m
            invariant
                m == os.len(),
                x <= m,
                facts@ == old(facts)@.add(FactsV::of_access(pairs(ov(os@).take(x as int), node@))),
            decreases m - x,
        {
            proof {
                assert(pairs(ov(os@).take(x + 1), node@) =~= pairs(ov(os@).take(x as int), node@)
                    + seq![(os@[x as int]@, node@)]);
            }
            facts.push_access(os[x].clone(), node.clone());
            x += 1;
        }
        proof {
            assert(ov(os@).take(m as int) =~= ov(os@));
        }
    }

    /// Pushes one `invalidate_origin` fact per recorded loan, in order.
    fn push_loan_invalidations(&self, lv: &Vec<(Origin, Location)>, node: &Node, facts: &mut Facts)
        ensures
            final(facts)@ == old(facts)@.add(
                FactsV::of_invalidates(
                    pairs(loan_view(lv@).map_values(|l: (Seq<char>, (int, int))| l.0), node@),
                ),
            ),
    {
        broadcast use lemma_facts_add_assoc, lemma_facts_add_empty, lemma_of_invalidates_add;

        let ghost osv = loan_view(lv@).map_values(|l: (Seq<char>, (int, int))| l.0);
        let m = lv.len();
        let mut y: usize = 0;
        proof {
            assert(pairs(osv.take(0), node@) =~= Seq::<(Seq<char>, Seq<char>)>::empty());
            assert(FactsV::of_invalidates(Seq::empty()) =~= FactsV::empty());
        }
        while y < m
            invariant
                m == lv.len(),
                y <= m,
                osv == loan_view(lv@).map_values(|l: (Seq<char>, (int, int))| l.0),
                facts@ == old(facts)@.add(FactsV::of_invalidates(pairs(osv.take(y as int), node@))),
            decreases m - y,
        {
            proof {
                assert(osv[y as int] == lv@[y as int].0@);
                assert(pairs(osv.take(y + 1), node@) =~= pairs(osv.take(y as int), node@) + seq![
                    (lv@[y as int].0@, node@),
                ]);
            }
            facts.push_invalidate(lv[y].0.clone(), node.clone());
            y += 1;
        }
        proof {
            assert(osv.take(m as int) =~= osv);
        }
    }

    /// Emits the facts of evaluating one expression at a node: borrows clear
    /// their origin, mutable borrows besides access the borrowed place's
    /// origins and invalidate its recorded loans, reads access the place's
    /// origins, and calls evaluate their arguments left to right.
    pub fn emit_expr_facts(&self, node: &Node, expr: &Expr, facts: &mut Facts)
        requires
            self.wf(),
            expr_wf(self.program, *expr),
        ensures
            final(facts)@ == old(facts)@.add(expr_facts(self.program, node@, *expr)),
        decreases *expr,
    {
        broadcast use lemma_facts_add_assoc, lemma_facts_add_empty;

        match expr {
            Expr::Access { kind, place } => match kind {
                AccessKind::Borrow(o) => {
                    facts.push_clear(o.clone(), node.clone());
                },
                AccessKind::BorrowMut(o) => {
                    facts.push_clear(o.clone(), node.clone());
                    let r = self.ty_and_origins_of_place(place);
                    self.push_accesses(&r.1, node, facts);
                    match self.find_loans(place) {
                        Some(lv) => {
                            proof {
                                assert(loan_view(lv@).map_values(
                                    |l: (Seq<char>, (int, int))| l.0,
                                ) =~= loan_origins(self.program, place@));
                            }
                            self.push_loan_invalidations(lv, node, facts);
                        },
                        None => {
                            proof {
                                assert(pairs(loan_origins(self.program, place@), node@) =~= Seq::<
                                    (Seq<char>, Seq<char>),
                                >::empty());
                                assert(FactsV::of_invalidates(
                                    pairs(loan_origins(self.program, place@), node@),
                                ) =~= FactsV::empty());
                            }
                        },
                    }
                },
                AccessKind::Copied | AccessKind::Moved => {
                    let r = self.ty_and_origins_of_place(place);
                    self.push_accesses(&r.1, node, facts);
                },
            },
            Expr::Call { arguments, .. } => {
                let m = arguments.len();
                let mut x: usize = 0;
                proof {
                    assert(arguments@.skip(0) =~= arguments@);
                }
                while x < m
                    invariant
                        self.wf(),
                        *expr is Call,
                        *arguments == expr->Call_arguments,
                        expr_wf(self.program, *expr),
                        m == arguments.len(),
                        x <= m,
                        old(facts)@.add(args_facts(self.program, node@, arguments@)) == facts@.add(
                            args_facts(self.program, node@, arguments@.skip(x as int)),
                        ),
                    decreases m - x,
                {
                    proof {
                        lemma_skip_step(arguments@, x as int);
                        lemma_args_wf_index(self.program, arguments@, x as int);
                        assert(args_facts(self.program, node@, arguments@.skip(x as int))
                            == expr_facts(self.program, node@, arguments@[x as int]).add(
                            args_facts(self.program, node@, arguments@.skip(x + 1)),
                        ));
                        assert(decreases_to!(*expr => expr->Call_arguments));
                        assert(decreases_to!(expr->Call_arguments => expr->Call_arguments@));
                        assert(decreases_to!(arguments@ => arguments@[x as int]));
                    }
                    self.emit_expr_facts(node, &arguments[x], facts);
                    x += 1;
                }
                proof {
                    assert(args_facts(self.program, node@, arguments@.skip(m as int))
                        =~= FactsV::empty());
                }
            },
            Expr::Number(_) => {
                proof {
                    assert(expr_facts(self.program, node@, *expr) =~= FactsV::empty());
                }
            },
        }
    }

    /// Emits the subset obligation an assignment introduces, if its
    /// reference-typed target receives a borrow or a copied or moved
    /// reference.
    pub fn emit_subset_facts(&self, node: &Node, lhs_ty: &Ty, rhs_expr: &Expr, facts: &mut Facts)
        requires
            self.wf(),
            expr_wf(self.program, *rhs_expr),
        ensures
            final(facts)@ == old(facts)@.add(
                FactsV::of_subsets(subset_pairs(self.program, node@, *lhs_ty, *rhs_expr)),
            ),
    {
        broadcast use lemma_facts_add_empty;

        let to: &Origin = match lhs_ty {
            Ty::Ref { origin, .. } => origin,
            Ty::RefMut { origin, .. } => origin,
            _ => {
                proof {
                    assert(FactsV::of_subsets(
                        subset_pairs(self.program, node@, *lhs_ty, *rhs_expr),
                    ) =~= FactsV::empty());
                }
                return ;
            },
        };
        match rhs_expr {
            Expr::Access { kind, place } => match kind {
                AccessKind::Borrow(o) => {
                    facts.push_subset(o.clone(), to.clone(), node.clone());
                },
                AccessKind::BorrowMut(o) => {
                    facts.push_subset(o.clone(), to.clone(), node.clone());
                },
                AccessKind::Copied | AccessKind::Moved => {
                    let r = self.ty_and_origins_of_place(place);
                    match r.0 {
                        Ty::Ref { origin, .. } => {
                            facts.push_subset(origin.clone(), to.clone(), node.clone());
                        },
                        Ty::RefMut { origin, .. } => {
                            facts.push_subset(origin.clone(), to.clone(), node.clone());
                        },
                        _ => {
                            proof {
                                assert(FactsV::of_subsets(
                                    subset_pairs(self.program, node@, *lhs_ty, *rhs_expr),
                                ) =~= FactsV::empty());
                            }
                        },
                    }
                },
            },
            _ => {
                proof {
                    assert(FactsV::of_subsets(
                        subset_pairs(self.program, node@, *lhs_ty, *rhs_expr),
                    ) =~= FactsV::empty());
                }
            },
        }
    }

    /// Pushes one `clear_origin` fact per origin of the list, in order.
    fn push_clears(&self, os: &Vec<Origin>, node: &Node, facts: &mut Facts)
        ensures
            final(facts)@ == old(facts)@.add(FactsV::of_clears(pairs(ov(os@), node@))),
    {
        broadcast use lemma_facts_add_assoc, lemma_facts_add_empty, lemma_of_clears_add;

        let m = os.len();
        let mut x: usize = 0;
        proof {
            assert(pairs(ov(os@).take(0), node@) =~= Seq::<(Seq<char>, Seq<char>)>::empty());
            assert(FactsV::of_clears(Seq::empty()) =~= FactsV::empty());
        }
        while x < m
            invariant
                m == os.len(),
                x <= m,
                facts@ == old(facts)@.add(FactsV::of_clears(pairs(ov(os@).take(x as int), node@))),
            decreases m - x,
        {
            proof {
                assert(pairs(ov(os@).take(x + 1), node@) =~= pairs(ov(os@).take(x as int), node@)
                    + seq![(os@[x as int]@, node@)]);
            }
            facts.push_clear(os[x].clone(), node.clone());
            x += 1;
        }
        proof {
            assert(ov(os@).take(m as int) =~= ov(os@));
        }
    }

    /// Emits the facts of every statement of the block, in node order: the
    /// statement's source text, the assignment target's clears and — for a
    /// non-reference target — the invalidation of its recorded loans, the
    /// right-hand expression's facts, and the subset obligations; a bare
    /// expression contributes its expression facts alone. The block's CFG
    /// edges come first.
    pub fn emit_block_facts(&self, bb: &BasicBlock, facts: &mut Facts)
        requires
            self.wf(),
            block_wf(self.program, *bb, self.input@.len()),
            block_nodes_fit(self.program, self.scheme, *bb),
        ensures
            final(facts)@ == old(facts)@.add(
                block_facts(self.program, self.input@, self.scheme, *bb),
            ),
    {
        broadcast use lemma_facts_add_assoc, lemma_facts_add_empty;

        self.emit_cfg_edges(bb, facts);
        let ghost g0 = facts@;
        let n = bb.statements.len();
        let mut idx: usize = 0;
        while idx < n
            invariant
                self.wf(),
                block_wf(self.program, *bb, self.input@.len()),
                block_nodes_fit(self.program, self.scheme, *bb),
                n == bb.statements.len(),
                idx <= n,
                g0.add(block_stmts_facts(self.program, self.input@, self.scheme, *bb, 0))
                    == facts@.add(
                    block_stmts_facts(self.program, self.input@, self.scheme, *bb, idx as int),
                ),
            decreases n - idx,
        {
            let ghost nodev = node_name(self.program, self.scheme, bb.name@, idx as int);
            let ghost st_g = bb.statements@[idx as int];
            proof {
                assert(stmt_wf(self.program, st_g, self.input@.len()));
                assert(block_stmts_facts(self.program, self.input@, self.scheme, *bb, idx as int)
                    == stmt_facts(self.program, self.input@, nodev, st_g).add(
                    block_stmts_facts(self.program, self.input@, self.scheme, *bb, idx + 1),
                ));
            }
            let node = self.node_at(&bb.name, idx);
            let st = &bb.statements[idx];
            let ghost g1 = facts@;
            let text = self.input.as_str().substring_char(st.span.start, st.span.end - 1)
                .to_owned();
            facts.push_text(text, node.clone());
            match &st.kind {
                StatementKind::Assign(place, e) => {
                    let r = self.ty_and_origins_of_place(place);
                    let lhs_ty = r.0;
                    self.push_clears(&r.1, &node, facts);
                    let ghost g2 = facts@;
                    if !lhs_ty.is_ref() {
                        match self.find_loans(place) {
                            Some(lv) => {
                                proof {
                                    assert(loan_view(lv@).map_values(
                                        |l: (Seq<char>, (int, int))| l.0,
                                    ) =~= loan_origins(self.program, place@));
                                }
                                self.push_loan_invalidations(lv, &node, facts);
                            },
                            None => {
                                proof {
                                    assert(pairs(loan_origins(self.program, place@), node@)
                                        =~= Seq::<(Seq<char>, Seq<char>)>::empty());
                                    assert(FactsV::of_invalidates(
                                        pairs(loan_origins(self.program, place@), node@),
                                    ) =~= FactsV::empty());
                                }
                            },
                        }
                    }
                    proof {
                        let lt = resolved_ty_of(self.program, place@);
                        assert(facts@ == g2.add(
                            if !is_ref_ty(lt) {
                                FactsV::of_invalidates(
                                    pairs(loan_origins(self.program, place@), node@),
                                )
                            } else {
                                FactsV::empty()
                            },
                        ));
                    }
                    self.emit_expr_facts(&node, e, facts);
                    self.emit_subset_facts(&node, lhs_ty, e, facts);
                    proof {
                        assert(facts@ == g1.add(stmt_facts(self.program, self.input@, nodev, st_g)));
                    }
                },
                StatementKind::Expr(e) => {
                    self.emit_expr_facts(&node, e, facts);
                    proof {
                        assert(facts@ == g1.add(stmt_facts(self.program, self.input@, nodev, st_g)));
                    }
                },
            }
            idx += 1;
        }
        proof {
            assert(block_stmts_facts(self.program, self.input@, self.scheme, *bb, n as int)
                =~= FactsV::empty());
        }
    }

    /// Emits every block's facts, in declaration order.
    pub fn emit_facts(&self, facts: &mut Facts)
        requires
            self.wf(),
            program_wf(self.program, self.input@.len()),
            program_fits(self.program, self.scheme),
        ensures
            final(facts)@ == old(facts)@.add(
                program_facts(self.program, self.input@, self.scheme),
            ),
    {
        broadcast use lemma_facts_add_assoc, lemma_facts_add_empty;

        let nb = self.program.basic_blocks.len();
        let mut b: usize = 0;
        while b < nb
            invariant
                self.wf(),
                program_wf(self.program, self.input@.len()),
                program_fits(self.program, self.scheme),
                nb == self.program.basic_blocks.len(),
                b <= nb,
                old(facts)@.add(blocks_facts(self.program, self.input@, self.scheme, 0))
                    == facts@.add(blocks_facts(self.program, self.input@, self.scheme, b as int)),
            decreases nb - b,
        {
            proof {
                assert(blocks_facts(self.program, self.input@, self.scheme, b as int)
                    == block_facts(
                    self.program,
                    self.input@,
                    self.scheme,
                    self.program.basic_blocks@[b as int],
                ).add(blocks_facts(self.program, self.input@, self.scheme, b + 1)));
            }
            let bb = &self.program.basic_blocks[b];
            self.emit_block_facts(bb, facts);
            b += 1;
        }
        proof {
            assert(blocks_facts(self.program, self.input@, self.scheme, nb as int)
                =~= FactsV::empty());
        }
    }
}

/// Runs the whole extraction: builds the emitter over the program and source
/// text and returns every fact it emits.
pub fn emit_facts(program: Program, input: &str, scheme: NamingScheme) -> (r: Facts)
    requires
        program_wf(program, input@.len()),
        program_fits(program, scheme),
    ensures
        r@ == program_facts(program, input@, scheme),
{
    broadcast use lemma_facts_add_empty;

    let emitter = FactEmitter::new(program, input, scheme);
    let mut facts = Facts::default();
    emitter.emit_facts(&mut facts);
    facts
}

/// Records one loan under its place, appending to the place's entry or
/// starting a new one.
fn record_loan(
    loans: &mut Vec<(Place, Vec<(Origin, Location)>)>,
    place: &Place,
    o: &Origin,
    loc: Location,
)
    ensures
        forall|p: PlaceV|
            p == place@ ==> #[trigger] assoc_loans(final(loans)@, p) == assoc_loans(
                old(loans)@,
                p,
            ) + seq![(o@, (loc.block_idx as int, loc.statement_idx as int))],
        forall|p: PlaceV|
            p != place@ ==> #[trigger] assoc_loans(final(loans)@, p) == assoc_loans(
                old(loans)@,
                p,
            ),
{
    let n = loans.len();
    let mut i: usize = 0;
    while i < n
        invariant
            n == loans.len(),
            i <= n,
            loans@ == old(loans)@,
            forall|k: int| 0 <= k < i ==> (#[trigger] loans@[k]).0@ != place@,
        decreases n - i,
    {
        if loans[i].0.same_place(place) {
            let mut entry = loans.remove(i);
            entry.1.push((o.clone(), loc));
            let ghost pushed = entry.1@;
            loans.insert(i, entry);
            proof {
                assert(loans@ =~= old(loans)@.update(i as int, loans@[i as int]));
                assert(loan_view(pushed) =~= loan_view(old(loans)@[i as int].1@) + seq![
                    (o@, (loc.block_idx as int, loc.statement_idx as int)),
                ]);
                assert forall|p: PlaceV| true implies {
                    &&& p == place@ ==> #[trigger] assoc_loans(loans@, p) == assoc_loans(
                        old(loans)@,
                        p,
                    ) + seq![(o@, (loc.block_idx as int, loc.statement_idx as int))]
                    &&& p != place@ ==> assoc_loans(loans@, p) == assoc_loans(old(loans)@, p)
                } by {
                    lemma_assoc_update(old(loans)@, i as int, loans@[i as int], p);
                }
            }
            return ;
        }
        i += 1;
    }
    let entry = (place.duplicate(), vec![(o.clone(), loc)]);
    let ghost entry_g = entry;
    loans.push(entry);
    proof {
        assert(loans@ =~= old(loans)@.push(entry_g));
        assert(loan_view(entry_g.1@) =~= Seq::<(Seq<char>, (int, int))>::empty() + seq![
            (o@, (loc.block_idx as int, loc.statement_idx as int)),
        ]);
        assert forall|p: PlaceV| true implies {
            &&& p == place@ ==> #[trigger] assoc_loans(loans@, p) == assoc_loans(old(loans)@, p)
                + seq![(o@, (loc.block_idx as int, loc.statement_idx as int))]
            &&& p != place@ ==> assoc_loans(loans@, p) == assoc_loans(old(loans)@, p)
        } by {
            lemma_assoc_push(old(loans)@, entry_g, p);
            if p == place@ {
                assert(assoc_loans(old(loans)@, p) =~= Seq::<(Seq<char>, (int, int))>::empty());
            }
        }
    }
}

} // verus!
