use vstd::prelude::*;

verus! {

/// The capability interface shared by the disjoint-set variants.
///
/// A structure partitions the fixed universe `0..count()` into disjoint
/// sets. Each element `x` has a representative `rep(x)`; two elements
/// belong to the same set exactly when their representatives are equal.
pub trait UF: Sized {
    /// Well-formedness of the structure's internal state.
    spec fn wf(&self) -> bool;

    /// The number of elements in the universe.
    spec fn count(&self) -> nat;

    /// The representative of the set that `x` belongs to.
    spec fn rep(&self, x: int) -> int;

    /// Builds a structure over `n` elements, each in a singleton set.
    fn new(n: usize) -> (r: Self)
        ensures
            r.wf(),
            r.count() == n,
            forall|x: int| 0 <= x < n ==> #[trigger] r.rep(x) == x,
    ;

    /// Merges the sets containing `p` and `q` into one; the merged set
    /// keeps `q`'s representative. No other set changes, so elements
    /// already in one set are never separated.
    fn union(&mut self, p: usize, q: usize)
        requires
            old(self).wf(),
            p < old(self).count(),
            q < old(self).count(),
        ensures
            final(self).wf(),
            final(self).count() == old(self).count(),
            forall|x: int|
                0 <= x < old(self).count() ==> #[trigger] final(self).rep(x) == (if old(self).rep(x)
                    == old(self).rep(p as int) {
                    old(self).rep(q as int)
                } else {
                    old(self).rep(x)
                }),
            final(self).rep(p as int) == final(self).rep(q as int),
            forall|a: int, b: int|
                #![trigger final(self).rep(a), final(self).rep(b)]
                0 <= a < old(self).count() && 0 <= b < old(self).count() ==> ((final(self).rep(a)
                    == final(self).rep(b)) <==> (old(self).rep(a) == old(
                    self,
                ).rep(b) || (old(self).rep(a) == old(self).rep(p as int) && old(self).rep(b) == old(
                    self,
                ).rep(q as int)) || (old(self).rep(a) == old(self).rep(q as int) && old(self).rep(b)
                    == old(self).rep(p as int)))),
    ;

    /// Reports whether `p` and `q` currently belong to the same set.
    fn connected(&self, p: usize, q: usize) -> (r: bool)
        requires
            self.wf(),
            p < self.count(),
            q < self.count(),
        ensures
            r == (self.rep(p as int) == self.rep(q as int)),
    ;
}

/// `p` and `q` belong to the same disjoint set of `uf`: `connected`
/// returns exactly this relation.
pub open spec fn same_set<T: UF>(uf: &T, p: int, q: int) -> bool {
    uf.rep(p) == uf.rep(q)
}

/// Reflexivity: every element is in the same set as itself, in every
/// state of the structure.
pub proof fn lemma_same_set_reflexive<T: UF>(uf: &T, i: int)
    ensures
        same_set(uf, i, i),
{
}

/// Symmetry: being in the same set does not depend on the order of the
/// two elements, in every state of the structure.
pub proof fn lemma_same_set_symmetric<T: UF>(uf: &T, p: int, q: int)
    ensures
        same_set(uf, p, q) == same_set(uf, q, p),
{
}

/// Transitivity: two elements each in the same set as a third are in the
/// same set as one another.
pub proof fn lemma_same_set_transitive<T: UF>(uf: &T, a: int, b: int, c: int)
    requires
        same_set(uf, a, b),
        same_set(uf, b, c),
    ensures
        same_set(uf, a, c),
{
}

/// In a freshly built structure, where every element is its own
/// representative, distinct elements are in distinct sets.
pub proof fn lemma_fresh_disconnected<T: UF>(uf: &T, i: int, j: int)
    requires
        forall|x: int| 0 <= x < uf.count() ==> #[trigger] uf.rep(x) == x,
        0 <= i < uf.count(),
        0 <= j < uf.count(),
        i != j,
    ensures
        !same_set(uf, i, j),
{
}

/// Union is monotone: a state `post` reached from `pre` by merging the
/// sets of `p` and `q` keeps every pair that was in one set together,
/// and puts `p` and `q` in one set. Unions never disconnect anything.
pub proof fn lemma_union_monotone<T: UF>(pre: &T, post: &T, p: int, q: int, a: int, b: int)
    requires
        0 <= p < pre.count(),
        0 <= q < pre.count(),
        0 <= a < pre.count(),
        0 <= b < pre.count(),
        forall|x: int|
            0 <= x < pre.count() ==> #[trigger] post.rep(x) == (if pre.rep(x) == pre.rep(p) {
                pre.rep(q)
            } else {
                pre.rep(x)
            }),
        same_set(pre, a, b),
    ensures
        same_set(post, a, b),
        same_set(post, p, q),
{
}

} // verus!
