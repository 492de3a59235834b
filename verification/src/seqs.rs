//! Small sequence helpers shared by the specs: views of string sequences and
//! concatenation lemmas.

use vstd::prelude::*;

verus! {

/// The views of a sequence of strings.
pub open spec fn strv(s: Seq<String>) -> Seq<Seq<char>> {
    s.map_values(|x: String| x@)
}

pub broadcast proof fn lemma_strv_push(s: Seq<String>, x: String)
    ensures
        #[trigger] strv(s.push(x)) == strv(s) + seq![x@],
{
    assert(strv(s.push(x)) =~= strv(s) + seq![x@]);
}

pub broadcast proof fn lemma_add_assoc<A>(a: Seq<A>, b: Seq<A>, c: Seq<A>)
    ensures
        #[trigger] ((a + b) + c) == a + (b + c),
{
    assert((a + b) + c =~= a + (b + c));
}

pub broadcast proof fn lemma_add_empty<A>(a: Seq<A>)
    ensures
        #[trigger] (a + Seq::<A>::empty()) == a,
        #[trigger] (Seq::<A>::empty() + a) == a,
{
    assert(a + Seq::<A>::empty() =~= a);
    assert(Seq::<A>::empty() + a =~= a);
}

pub broadcast proof fn lemma_skip_step<A>(s: Seq<A>, i: int)
    requires
        0 <= i < s.len(),
    ensures
        #[trigger] s.skip(i).drop_first() == s.skip(i + 1),
        s.skip(i).len() == s.len() - i,
        s.skip(i)[0] == s[i],
{
    assert(s.skip(i).drop_first() =~= s.skip(i + 1));
}

} // verus!
