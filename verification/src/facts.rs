//! The output fact base: six ordered fact relations, their mathematical view,
//! and the push operations emission uses. Order within each relation is
//! emission order and duplicates are kept: multiplicity is meaningful.

use vstd::prelude::*;
use crate::ast::{Node, Origin};

verus! {

/// The aggregate output of the extraction.
pub struct Facts {
    pub access_origin: Vec<(Origin, Node)>,
    pub cfg_edge: Vec<(Node, Node)>,
    pub clear_origin: Vec<(Origin, Node)>,
    pub introduce_subset: Vec<(Origin, Origin, Node)>,
    pub invalidate_origin: Vec<(Origin, Node)>,
    pub node_text: Vec<(String, Node)>,
}

pub open spec fn onv(s: Seq<(Origin, Node)>) -> Seq<(Seq<char>, Seq<char>)> {
    s.map_values(|p: (Origin, Node)| (p.0@, p.1@))
}

pub open spec fn nnv(s: Seq<(Node, Node)>) -> Seq<(Seq<char>, Seq<char>)> {
    s.map_values(|p: (Node, Node)| (p.0@, p.1@))
}

pub open spec fn oonv(s: Seq<(Origin, Origin, Node)>) -> Seq<(Seq<char>, Seq<char>, Seq<char>)> {
    s.map_values(|p: (Origin, Origin, Node)| (p.0@, p.1@, p.2@))
}

pub open spec fn snv(s: Seq<(String, Node)>) -> Seq<(Seq<char>, Seq<char>)> {
    s.map_values(|p: (String, Node)| (p.0@, p.1@))
}

/// The mathematical value of [`Facts`]: each relation as a sequence of tuples
/// of character sequences.
#[verifier::ext_equal]
pub struct FactsV {
    pub access_origin: Seq<(Seq<char>, Seq<char>)>,
    pub cfg_edge: Seq<(Seq<char>, Seq<char>)>,
    pub clear_origin: Seq<(Seq<char>, Seq<char>)>,
    pub introduce_subset: Seq<(Seq<char>, Seq<char>, Seq<char>)>,
    pub invalidate_origin: Seq<(Seq<char>, Seq<char>)>,
    pub node_text: Seq<(Seq<char>, Seq<char>)>,
}

impl View for Facts {
    type V = FactsV;

    open spec fn view(&self) -> FactsV {
        FactsV {
            access_origin: onv(self.access_origin@),
            cfg_edge: nnv(self.cfg_edge@),
            clear_origin: onv(self.clear_origin@),
            introduce_subset: oonv(self.introduce_subset@),
            invalidate_origin: onv(self.invalidate_origin@),
            node_text: snv(self.node_text@),
        }
    }
}

impl FactsV {
    /// No facts at all.
    pub open spec fn empty() -> FactsV {
        FactsV {
            access_origin: Seq::empty(),
            cfg_edge: Seq::empty(),
            clear_origin: Seq::empty(),
            introduce_subset: Seq::empty(),
            invalidate_origin: Seq::empty(),
            node_text: Seq::empty(),
        }
    }

    /// Concatenation, relation by relation, keeping emission order.
    pub open spec fn add(self, o: FactsV) -> FactsV {
        FactsV {
            access_origin: self.access_origin + o.access_origin,
            cfg_edge: self.cfg_edge + o.cfg_edge,
            clear_origin: self.clear_origin + o.clear_origin,
            introduce_subset: self.introduce_subset + o.introduce_subset,
            invalidate_origin: self.invalidate_origin + o.invalidate_origin,
            node_text: self.node_text + o.node_text,
        }
    }

    pub open spec fn of_access(s: Seq<(Seq<char>, Seq<char>)>) -> FactsV {
        FactsV { access_origin: s, ..FactsV::empty() }
    }

    pub open spec fn of_cfg(s: Seq<(Seq<char>, Seq<char>)>) -> FactsV {
        FactsV { cfg_edge: s, ..FactsV::empty() }
    }

    pub open spec fn of_clears(s: Seq<(Seq<char>, Seq<char>)>) -> FactsV {
        FactsV { clear_origin: s, ..FactsV::empty() }
    }

    pub open spec fn of_subsets(s: Seq<(Seq<char>, Seq<char>, Seq<char>)>) -> FactsV {
        FactsV { introduce_subset: s, ..FactsV::empty() }
    }

    pub open spec fn of_invalidates(s: Seq<(Seq<char>, Seq<char>)>) -> FactsV {
        FactsV { invalidate_origin: s, ..FactsV::empty() }
    }

    pub open spec fn of_text(s: Seq<(Seq<char>, Seq<char>)>) -> FactsV {
        FactsV { node_text: s, ..FactsV::empty() }
    }
}

pub broadcast proof fn lemma_of_access_add(a: Seq<(Seq<char>, Seq<char>)>, b: Seq<(Seq<char>, Seq<char>)>)
    ensures
        #[trigger] FactsV::of_access(a + b) == FactsV::of_access(a).add(FactsV::of_access(b)),
{
    assert(FactsV::of_access(a + b) =~= FactsV::of_access(a).add(FactsV::of_access(b)));
}

pub broadcast proof fn lemma_of_cfg_add(a: Seq<(Seq<char>, Seq<char>)>, b: Seq<(Seq<char>, Seq<char>)>)
    ensures
        #[trigger] FactsV::of_cfg(a + b) == FactsV::of_cfg(a).add(FactsV::of_cfg(b)),
{
    assert(FactsV::of_cfg(a + b) =~= FactsV::of_cfg(a).add(FactsV::of_cfg(b)));
}

pub broadcast proof fn lemma_of_clears_add(a: Seq<(Seq<char>, Seq<char>)>, b: Seq<(Seq<char>, Seq<char>)>)
    ensures
        #[trigger] FactsV::of_clears(a + b) == FactsV::of_clears(a).add(FactsV::of_clears(b)),
{
    assert(FactsV::of_clears(a + b) =~= FactsV::of_clears(a).add(FactsV::of_clears(b)));
}

pub broadcast proof fn lemma_of_invalidates_add(
    a: Seq<(Seq<char>, Seq<char>)>,
    b: Seq<(Seq<char>, Seq<char>)>,
)
    ensures
        #[trigger] FactsV::of_invalidates(a + b) == FactsV::of_invalidates(a).add(
            FactsV::of_invalidates(b),
        ),
{
    assert(FactsV::of_invalidates(a + b) =~= FactsV::of_invalidates(a).add(
        FactsV::of_invalidates(b),
    ));
}

pub broadcast proof fn lemma_facts_add_assoc(a: FactsV, b: FactsV, c: FactsV)
    ensures
        #[trigger] a.add(b).add(c) == a.add(b.add(c)),
{
    assert(a.add(b).add(c) =~= a.add(b.add(c)));
}

pub broadcast proof fn lemma_facts_add_empty(a: FactsV)
    ensures
        #[trigger] a.add(FactsV::empty()) == a,
        #[trigger] FactsV::empty().add(a) == a,
{
    assert(a.add(FactsV::empty()) =~= a);
    assert(FactsV::empty().add(a) =~= a);
}

impl Facts {
    /// An empty fact base.
    pub fn new() -> (r: Facts)
        ensures
            r@ == FactsV::empty(),
    {
        let r = Facts {
            access_origin: Vec::new(),
            cfg_edge: Vec::new(),
            clear_origin: Vec::new(),
            introduce_subset: Vec::new(),
            invalidate_origin: Vec::new(),
            node_text: Vec::new(),
        };
        proof {
            assert(r@ =~= FactsV::empty());
        }
        r
    }

    pub fn push_access(&mut self, o: Origin, n: Node)
        ensures
            final(self)@ == old(self)@.add(FactsV::of_access(seq![(o@, n@)])),
    {
        let ghost g = (o@, n@);
        self.access_origin.push((o, n));
        proof {
            assert(onv(self.access_origin@) =~= onv(old(self).access_origin@) + seq![g]);
            assert(self@ =~= old(self)@.add(FactsV::of_access(seq![g])));
        }
    }

    pub fn push_cfg(&mut self, a: Node, b: Node)
        ensures
            final(self)@ == old(self)@.add(FactsV::of_cfg(seq![(a@, b@)])),
    {
        let ghost g = (a@, b@);
        self.cfg_edge.push((a, b));
        proof {
            assert(nnv(self.cfg_edge@) =~= nnv(old(self).cfg_edge@) + seq![g]);
            assert(self@ =~= old(self)@.add(FactsV::of_cfg(seq![g])));
        }
    }

    pub fn push_clear(&mut self, o: Origin, n: Node)
        ensures
            final(self)@ == old(self)@.add(FactsV::of_clears(seq![(o@, n@)])),
    {
        let ghost g = (o@, n@);
        self.clear_origin.push((o, n));
        proof {
            assert(onv(self.clear_origin@) =~= onv(old(self).clear_origin@) + seq![g]);
            assert(self@ =~= old(self)@.add(FactsV::of_clears(seq![g])));
        }
    }

    pub fn push_subset(&mut self, a: Origin, b: Origin, n: Node)
        ensures
            final(self)@ == old(self)@.add(FactsV::of_subsets(seq![(a@, b@, n@)])),
    {
        let ghost g = (a@, b@, n@);
        self.introduce_subset.push((a, b, n));
        proof {
            assert(oonv(self.introduce_subset@) =~= oonv(old(self).introduce_subset@) + seq![g]);
            assert(self@ =~= old(self)@.add(FactsV::of_subsets(seq![g])));
        }
    }

    pub fn push_invalidate(&mut self, o: Origin, n: Node)
        ensures
            final(self)@ == old(self)@.add(FactsV::of_invalidates(seq![(o@, n@)])),
    {
        let ghost g = (o@, n@);
        self.invalidate_origin.push((o, n));
        proof {
            assert(onv(self.invalidate_origin@) =~= onv(old(self).invalidate_origin@) + seq![g]);
            assert(self@ =~= old(self)@.add(FactsV::of_invalidates(seq![g])));
        }
    }

    pub fn push_text(&mut self, t: String, n: Node)
        ensures
            final(self)@ == old(self)@.add(FactsV::of_text(seq![(t@, n@)])),
    {
        let ghost g = (t@, n@);
        self.node_text.push((t, n));
        proof {
            assert(snv(self.node_text@) =~= snv(old(self).node_text@) + seq![g]);
            assert(self@ =~= old(self)@.add(FactsV::of_text(seq![g])));
        }
    }
}

impl Default for Facts {
    /// An empty fact base.
    fn default() -> (r: Facts)
        ensures
            r@ == FactsV::empty(),
    {
        Facts::new()
    }
}

} // verus!
