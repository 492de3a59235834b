//! Deterministic rendering of the fact base: facts grouped by node, nodes in
//! lexicographic order of their names, each node listing its access,
//! invalidate, clear and subset facts, its statement text, and a trailing
//! `goto` line with its successors.

use vstd::prelude::*;
use vstd::string::*;
use crate::ast::{Node, Origin};
use crate::facts::{Facts, FactsV};
use crate::seqs::{lemma_add_assoc, strv};
use crate::text::{append_quoted, lex_lt, quoted, str_lt};

verus! {

/// The statement text recorded for a node, or `(pass)` when none is, scanning
/// from entry `i` on.
pub open spec fn text_of(texts: Seq<(Seq<char>, Seq<char>)>, n: Seq<char>, i: int) -> Seq<char>
    decreases texts.len() - i,
{
    if i < 0 || i >= texts.len() {
        "(pass)"@
    } else if texts[i].1 == n {
        texts[i].0
    } else {
        text_of(texts, n, i + 1)
    }
}

/// The lines a binary origin relation contributes at node `n`, each origin in
/// emission order under the relation's prefix.
pub open spec fn lines2(
    rel: Seq<(Seq<char>, Seq<char>)>,
    n: Seq<char>,
    pre: Seq<char>,
    i: int,
) -> Seq<char>
    decreases rel.len() - i,
{
    if i < 0 || i >= rel.len() {
        Seq::empty()
    } else {
        (if rel[i].1 == n {
            "\t"@ + pre + rel[i].0 + ")\n"@
        } else {
            Seq::empty()
        }) + lines2(rel, n, pre, i + 1)
    }
}

/// The `introduce_subset` lines at node `n`, in emission order.
pub open spec fn lines3(rel: Seq<(Seq<char>, Seq<char>, Seq<char>)>, n: Seq<char>, i: int) -> Seq<
    char,
>
    decreases rel.len() - i,
{
    if i < 0 || i >= rel.len() {
        Seq::empty()
    } else {
        (if rel[i].2 == n {
            "\tintroduce_subset("@ + rel[i].0 + ", "@ + rel[i].1 + ")\n"@
        } else {
            Seq::empty()
        }) + lines3(rel, n, i + 1)
    }
}

/// The successors listed on node `n`'s `goto` line, in emission order.
pub open spec fn goto_succs(cfg: Seq<(Seq<char>, Seq<char>)>, n: Seq<char>, i: int) -> Seq<char>
    decreases cfg.len() - i,
{
    if i < 0 || i >= cfg.len() {
        Seq::empty()
    } else {
        (if cfg[i].0 == n {
            " "@ + cfg[i].1
        } else {
            Seq::empty()
        }) + goto_succs(cfg, n, i + 1)
    }
}

/// Everything printed for one node: header with its quoted statement text,
/// then its facts in the fixed relation order — access, invalidate, clear,
/// subset — then its `goto` line, always present.
pub open spec fn render_node(f: FactsV, n: Seq<char>) -> Seq<char> {
    n + ": "@ + quoted(text_of(f.node_text, n, 0)) + " {\n"@ + lines2(
        f.access_origin,
        n,
        "access_origin("@,
        0,
    ) + lines2(f.invalidate_origin, n, "invalidate_origin("@, 0) + lines2(
        f.clear_origin,
        n,
        "clear_origin("@,
        0,
    ) + lines3(f.introduce_subset, n, 0) + "\tgoto"@ + goto_succs(f.cfg_edge, n, 0) + "\n}\n"@
}

/// The node blocks from index `i` on, a blank line before every block but the
/// first.
pub open spec fn render_nodes(f: FactsV, ns: Seq<Seq<char>>, i: int) -> Seq<char>
    decreases ns.len() - i,
{
    if i < 0 || i >= ns.len() {
        Seq::empty()
    } else {
        (if i != 0 {
            "\n"@
        } else {
            Seq::empty()
        }) + render_node(f, ns[i]) + render_nodes(f, ns, i + 1)
    }
}

/// Inserts a name into a sorted list of distinct names, keeping it sorted and
/// dropping a duplicate.
pub open spec fn insert_sorted(x: Seq<char>, s: Seq<Seq<char>>) -> Seq<Seq<char>>
    decreases s.len(),
{
    if s.len() == 0 {
        seq![x]
    } else if lex_lt(x, s[0]) {
        seq![x] + s
    } else if x == s[0] {
        s
    } else {
        seq![s[0]] + insert_sorted(x, s.drop_first())
    }
}

/// Whether a list of names is strictly ascending in lexicographic order —
/// and so free of duplicates.
pub open spec fn strictly_sorted(s: Seq<Seq<char>>) -> bool {
    forall|i: int, j: int| 0 <= i < j < s.len() ==> lex_lt(#[trigger] s[i], #[trigger] s[j])
}

/// Registers both endpoints of every CFG edge from index `i` on.
pub open spec fn insert_edge_nodes(
    acc: Seq<Seq<char>>,
    cfg: Seq<(Seq<char>, Seq<char>)>,
    i: int,
) -> Seq<Seq<char>>
    decreases cfg.len() - i,
{
    if i < 0 || i >= cfg.len() {
        acc
    } else {
        insert_edge_nodes(insert_sorted(cfg[i].1, insert_sorted(cfg[i].0, acc)), cfg, i + 1)
    }
}

/// Registers the node of every entry of a binary relation from index `i` on.
pub open spec fn insert_rel2_nodes(
    acc: Seq<Seq<char>>,
    rel: Seq<(Seq<char>, Seq<char>)>,
    i: int,
) -> Seq<Seq<char>>
    decreases rel.len() - i,
{
    if i < 0 || i >= rel.len() {
        acc
    } else {
        insert_rel2_nodes(insert_sorted(rel[i].1, acc), rel, i + 1)
    }
}

/// Registers the node of every subset fact from index `i` on.
pub open spec fn insert_rel3_nodes(
    acc: Seq<Seq<char>>,
    rel: Seq<(Seq<char>, Seq<char>, Seq<char>)>,
    i: int,
) -> Seq<Seq<char>>
    decreases rel.len() - i,
{
    if i < 0 || i >= rel.len() {
        acc
    } else {
        insert_rel3_nodes(insert_sorted(rel[i].2, acc), rel, i + 1)
    }
}

/// The nodes the rendering lists, in lexicographic order without duplicates:
/// every endpoint of a CFG edge and every node carrying an access,
/// invalidate, clear or subset fact.
pub open spec fn node_order(f: FactsV) -> Seq<Seq<char>> {
    insert_rel3_nodes(
        insert_rel2_nodes(
            insert_rel2_nodes(
                insert_rel2_nodes(insert_edge_nodes(Seq::empty(), f.cfg_edge, 0), f.access_origin, 0),
                f.invalidate_origin,
                0,
            ),
            f.clear_origin,
            0,
        ),
        f.introduce_subset,
        0,
    )
}

/// The whole rendered fact dump.
pub open spec fn render_spec(f: FactsV) -> Seq<char> {
    render_nodes(f, node_order(f), 0)
}

fn insert_name(v: Vec<String>, x: String) -> (r: Vec<String>)
    ensures
        strv(r@) == insert_sorted(x@, strv(v@)),
    decreases v.len(),
{
    if v.len() == 0 {
        let mut v2 = v;
        v2.push(x);
        proof {
            assert(strv(v2@) =~= insert_sorted(x@, strv(v@)));
        }
        v2
    } else if str_lt(x.as_str(), v[0].as_str()) {
        let mut v2 = v;
        v2.insert(0, x);
        proof {
            assert(strv(v2@) =~= seq![v2@[0]@] + strv(v2@.drop_first()));
            assert(v2@.drop_first() =~= v@);
            assert(strv(v2@) =~= insert_sorted(x@, strv(v@)));
        }
        v2
    } else if x == v[0] {
        v
    } else {
        let mut v2 = v;
        let head = v2.remove(0);
        let ghost tail = v2@;
        let mut r = insert_name(v2, x);
        r.insert(0, head);
        proof {
            assert(tail =~= v@.drop_first());
            assert(strv(tail) =~= strv(v@).drop_first());
            assert(strv(r@) =~= seq![head@] + insert_sorted(x@, strv(v@).drop_first()));
            assert(strv(r@) =~= insert_sorted(x@, strv(v@)));
        }
        r
    }
}

impl Facts {
    /// The sorted, duplicate-free list of node names the rendering covers.
    pub fn sorted_nodes(&self) -> (r: Vec<String>)
        ensures
            strv(r@) == node_order(self@),
    {
        let mut names: Vec<String> = Vec::new();
        proof {
            assert(strv(names@) =~= Seq::<Seq<char>>::empty());
        }
        let nc = self.cfg_edge.len();
        let mut i: usize = 0;
        while i < nc
            invariant
                nc == self.cfg_edge.len(),
                i <= nc,
                insert_edge_nodes(strv(names@), self@.cfg_edge, i as int) == insert_edge_nodes(
                    Seq::empty(),
                    self@.cfg_edge,
                    0,
                ),
            decreases nc - i,
        {
            let a = self.cfg_edge[i].0 .0.clone();
            names = insert_name(names, a);
            let b = self.cfg_edge[i].1 .0.clone();
            names = insert_name(names, b);
            i += 1;
        }
        let ghost acc1 = insert_edge_nodes(Seq::empty(), self@.cfg_edge, 0);
        let na = self.access_origin.len();
        let mut i: usize = 0;
        while i < na
            invariant
                na == self.access_origin.len(),
                i <= na,
                insert_rel2_nodes(strv(names@), self@.access_origin, i as int) == insert_rel2_nodes(
                    acc1,
                    self@.access_origin,
                    0,
                ),
            decreases na - i,
        {
            let b = self.access_origin[i].1 .0.clone();
            names = insert_name(names, b);
            i += 1;
        }
        let ghost acc2 = insert_rel2_nodes(acc1, self@.access_origin, 0);
        let ni = self.invalidate_origin.len();
        let mut i: usize = 0;
        while i < ni
            invariant
                ni == self.invalidate_origin.len(),
                i <= ni,
                insert_rel2_nodes(strv(names@), self@.invalidate_origin, i as int)
                    == insert_rel2_nodes(acc2, self@.invalidate_origin, 0),
            decreases ni - i,
        {
            let b = self.invalidate_origin[i].1 .0.clone();
            names = insert_name(names, b);
            i += 1;
        }
        let ghost acc3 = insert_rel2_nodes(acc2, self@.invalidate_origin, 0);
        let ncl = self.clear_origin.len();
        let mut i: usize = 0;
        while i < ncl
            invariant
                ncl == self.clear_origin.len(),
                i <= ncl,
                insert_rel2_nodes(strv(names@), self@.clear_origin, i as int) == insert_rel2_nodes(
                    acc3,
                    self@.clear_origin,
                    0,
                ),
            decreases ncl - i,
        {
            let b = self.clear_origin[i].1 .0.clone();
            names = insert_name(names, b);
            i += 1;
        }
        let ghost acc4 = insert_rel2_nodes(acc3, self@.clear_origin, 0);
        let nsb = self.introduce_subset.len();
        let mut i: usize = 0;
        while i < nsb
            invariant
                nsb == self.introduce_subset.len(),
                i <= nsb,
                insert_rel3_nodes(strv(names@), self@.introduce_subset, i as int)
                    == insert_rel3_nodes(acc4, self@.introduce_subset, 0),
            decreases nsb - i,
        {
            let b = self.introduce_subset[i].2 .0.clone();
            names = insert_name(names, b);
            i += 1;
        }
        names
    }

    fn append_text(&self, n: &String, out: &mut String)
        ensures
            final(out)@ == old(out)@ + quoted(text_of(self@.node_text, n@, 0)),
    {
        let m = self.node_text.len();
        let mut i: usize = 0;
        while i < m
            invariant
                m == self.node_text.len(),
                i <= m,
                out@ == old(out)@,
                text_of(self@.node_text, n@, i as int) == text_of(self@.node_text, n@, 0),
            decreases m - i,
        {
            if self.node_text[i].1 .0 == *n {
                append_quoted(out, self.node_text[i].0.as_str());
                return ;
            }
            i += 1;
        }
        append_quoted(out, "(pass)");
    }

    fn append_lines2_rel(rel: &Vec<(Origin, Node)>, n: &String, pre: &str, out: &mut String)
        ensures
            final(out)@ == old(out)@ + lines2(crate::facts::onv(rel@), n@, pre@, 0),
    {
        broadcast use lemma_add_assoc;

        let ghost relv = crate::facts::onv(rel@);
        let m = rel.len();
        let mut i: usize = 0;
        while i < m
            invariant
                m == rel.len(),
                relv == crate::facts::onv(rel@),
                i <= m,
                old(out)@ + lines2(relv, n@, pre@, 0) == out@ + lines2(relv, n@, pre@, i as int),
            decreases m - i,
        {
            if rel[i].1 .0 == *n {
                out.append("\t");
                out.append(pre);
                out.append(rel[i].0 .0.as_str());
                out.append(")\n");
            }
            i += 1;
        }
        proof {
            assert(lines2(relv, n@, pre@, m as int) =~= Seq::<char>::empty());
            assert(out@ + Seq::<char>::empty() =~= out@);
            assert(old(out)@ + lines2(relv, n@, pre@, 0) + Seq::<char>::empty() =~= old(out)@
                + lines2(relv, n@, pre@, 0));
        }
    }

    fn append_lines3(&self, n: &String, out: &mut String)
        ensures
            final(out)@ == old(out)@ + lines3(self@.introduce_subset, n@, 0),
    {
        broadcast use lemma_add_assoc;

        let ghost relv = self@.introduce_subset;
        let m = self.introduce_subset.len();
        let mut i: usize = 0;
        while i < m
            invariant
                m == self.introduce_subset.len(),
                relv == self@.introduce_subset,
                i <= m,
                old(out)@ + lines3(relv, n@, 0) == out@ + lines3(relv, n@, i as int),
            decreases m - i,
        {
            if self.introduce_subset[i].2 .0 == *n {
                out.append("\tintroduce_subset(");
                out.append(self.introduce_subset[i].0 .0.as_str());
                out.append(", ");
                out.append(self.introduce_subset[i].1 .0.as_str());
                out.append(")\n");
            }
            i += 1;
        }
        proof {
            assert(lines3(relv, n@, m as int) =~= Seq::<char>::empty());
            assert(out@ + Seq::<char>::empty() =~= out@);
            assert(old(out)@ + lines3(relv, n@, 0) + Seq::<char>::empty() =~= old(out)@ + lines3(
                relv,
                n@,
                0,
            ));
        }
    }

    fn append_goto(&self, n: &String, out: &mut String)
        ensures
            final(out)@ == old(out)@ + goto_succs(self@.cfg_edge, n@, 0),
    {
        broadcast use lemma_add_assoc;

        let ghost relv = self@.cfg_edge;
        let m = self.cfg_edge.len();
        let mut i: usize = 0;
        while i < m
            invariant
                m == self.cfg_edge.len(),
                relv == self@.cfg_edge,
                i <= m,
                old(out)@ + goto_succs(relv, n@, 0) == out@ + goto_succs(relv, n@, i as int),
            decreases m - i,
        {
            if self.cfg_edge[i].0 .0 == *n {
                out.append(" ");
                out.append(self.cfg_edge[i].1 .0.as_str());
            }
            i += 1;
        }
        proof {
            assert(goto_succs(relv, n@, m as int) =~= Seq::<char>::empty());
            assert(out@ + Seq::<char>::empty() =~= out@);
            assert(old(out)@ + goto_succs(relv, n@, 0) + Seq::<char>::empty() =~= old(out)@
                + goto_succs(relv, n@, 0));
        }
    }

    fn append_node(&self, n: &String, out: &mut String)
        ensures
            final(out)@ == old(out)@ + render_node(self@, n@),
    {
        out.append(n.as_str());
        out.append(": ");
        self.append_text(n, out);
        out.append(" {\n");
        Facts::append_lines2_rel(&self.access_origin, n, "access_origin(", out);
        Facts::append_lines2_rel(&self.invalidate_origin, n, "invalidate_origin(", out);
        Facts::append_lines2_rel(&self.clear_origin, n, "clear_origin(", out);
        self.append_lines3(n, out);
        out.append("\tgoto");
        self.append_goto(n, out);
        out.append("\n}\n");
        proof {
            assert(out@ =~= old(out)@ + render_node(self@, n@));
        }
    }

    /// Renders the whole fact base deterministically: a block per node, in
    /// lexicographic node order, separated by blank lines.
    pub fn render(&self) -> (r: String)
        ensures
            r@ == render_spec(self@),
    {
        broadcast use lemma_add_assoc;

        let names = self.sorted_nodes();
        let ghost nsv = node_order(self@);
        let mut out = String::new();
        let m = names.len();
        let mut i: usize = 0;
        proof {
            assert(strv(names@).len() == names@.len());
            assert(Seq::<char>::empty() + render_nodes(self@, nsv, 0) =~= render_nodes(
                self@,
                nsv,
                0,
            ));
        }
        while i < m
            invariant
                m == names.len(),
                i <= m,
                nsv == node_order(self@),
                strv(names@) == nsv,
                Seq::<char>::empty() + render_nodes(self@, nsv, 0) == out@ + render_nodes(
                    self@,
                    nsv,
                    i as int,
                ),
            decreases m - i,
        {
            proof {
                assert(nsv[i as int] == names@[i as int]@);
            }
            if i != 0 {
                out.append("\n");
            }
            self.append_node(&names[i], &mut out);
            i += 1;
        }
        proof {
            assert(render_nodes(self@, nsv, m as int) =~= Seq::<char>::empty());
            assert(out@ + Seq::<char>::empty() =~= out@);
            assert(Seq::<char>::empty() + render_nodes(self@, nsv, 0) =~= render_nodes(
                self@,
                nsv,
                0,
            ));
        }
        out
    }
}

} // verus!
