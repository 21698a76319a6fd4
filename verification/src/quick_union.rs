use crate::decimal::{decimal_of, decimal_string};
use crate::union_find::UF;
use vstd::pervasive::VecAdditionalExecFns;
use vstd::prelude::*;
use vstd::string::StringExecFns;

verus! {

/// The error reported when an element id lies outside the universe.
#[derive(Clone, Copy, Debug, PartialEq, Eq, Structural)]
pub enum UfError {
    IndexOutOfBounds,
}

/// The diagnostic rendering of a parent array: the entries in index
/// order, each in decimal and followed by one space.
pub open spec fn render(s: Seq<usize>) -> Seq<char>
    decreases s.len(),
{
    if s.len() == 0 {
        Seq::<char>::empty()
    } else {
        render(s.drop_last()) + decimal_of(s.last() as nat) + seq![' ']
    }
}

/// Every stored parent index lies inside the array.
spec fn in_range(s: Seq<usize>) -> bool {
    forall|i: int| 0 <= i < s.len() ==> (#[trigger] s[i] as int) < s.len()
}

/// `h` certifies that parent walks terminate: every non-root points to a
/// node of strictly smaller height.
spec fn edges_ok(s: Seq<usize>, h: Seq<nat>) -> bool {
    &&& s.len() == h.len()
    &&& in_range(s)
    &&& forall|i: int| 0 <= i < s.len() && (#[trigger] s[i] as int) != i ==> h[s[i] as int] < h[i]
}

/// The root reached from `x` by following parent links in `s`; the walk
/// terminates because the heights in `h` strictly decrease along it.
spec fn root_in(s: Seq<usize>, h: Seq<nat>, x: int) -> int
    decreases h[x]
        when edges_ok(s, h) && 0 <= x < s.len()
{
    if s[x] as int == x {
        x
    } else {
        root_in(s, h, s[x] as int)
    }
}

/// The root reached from any in-range node is itself an in-range root.
proof fn lemma_root_in_bounds(s: Seq<usize>, h: Seq<nat>, x: int)
    requires
        edges_ok(s, h),
        0 <= x < s.len(),
    ensures
        0 <= root_in(s, h, x) < s.len(),
        s[root_in(s, h, x)] as int == root_in(s, h, x),
    decreases h[x],
{
    if s[x] as int != x {
        lemma_root_in_bounds(s, h, s[x] as int);
    }
}

/// The quick-union variant: `id[i]` is the parent of `i`, and a root is
/// its own parent. `union` re-links one root under the other; `connected`
/// walks both arguments to their roots and compares them.
pub struct UnionFind {
    id: Vec<usize>,
    hgt: Ghost<Seq<nat>>,
}

impl UnionFind {
    /// The parent array, in index order.
    pub closed spec fn parents(&self) -> Seq<usize> {
        self.id@
    }

    /// Walks from `p` to the root of its tree: repeatedly replaces the
    /// current index with its parent until reaching a fixed point.
    pub fn root_of(&self, p: usize) -> (r: usize)
        requires
            self.wf(),
            p < self.count(),
        ensures
            r == self.rep(p as int),
            r < self.count(),
            self.rep(r as int) == r,
            self.parents()[r as int] == r,
    {
        let ghost s = self.id@;
        let ghost h = self.hgt@;
        proof {
            lemma_root_in_bounds(s, h, p as int);
        }
        let mut rid = self.id[p];
        while rid != self.id[rid]
            invariant
                s == self.id@,
                h == self.hgt@,
                edges_ok(s, h),
                rid < s.len(),
                root_in(s, h, rid as int) == root_in(s, h, p as int),
            decreases h[rid as int],
        {
            rid = self.id[rid];
        }
        proof {
            lemma_root_in_bounds(s, h, root_in(s, h, p as int));
        }
        rid
    }

    /// Bounds-checked union: rejects an out-of-range id and leaves the
    /// structure untouched, instead of merging.
    pub fn try_union(&mut self, p: usize, q: usize) -> (r: Result<(), UfError>)
        requires
            old(self).wf(),
        ensures
            r is Ok <==> p < old(self).count() && q < old(self).count(),
            r is Err ==> r == Result::<(), UfError>::Err(UfError::IndexOutOfBounds) && *final(self)
                == *old(self),
            r is Ok ==> {
                &&& final(self).wf()
                &&& final(self).count() == old(self).count()
                &&& forall|x: int|
                    0 <= x < old(self).count() ==> #[trigger] final(self).rep(x) == (if old(
                        self,
                    ).rep(x) == old(self).rep(p as int) {
                        old(self).rep(q as int)
                    } else {
                        old(self).rep(x)
                    })
                &&& final(self).rep(p as int) == final(self).rep(q as int)
            },
    {
        if p >= self.id.len() || q >= self.id.len() {
            return Err(UfError::IndexOutOfBounds);
        }
        self.union(p, q);
        Ok(())
    }

    /// Bounds-checked connectivity query: rejects an out-of-range id
    /// instead of walking the trees.
    pub fn try_connected(&self, p: usize, q: usize) -> (r: Result<bool, UfError>)
        requires
            self.wf(),
        ensures
            r is Ok <==> p < self.count() && q < self.count(),
            r is Err ==> r == Result::<bool, UfError>::Err(UfError::IndexOutOfBounds),
            r matches Ok(b) ==> b == (self.rep(p as int) == self.rep(q as int)),
    {
        if p >= self.id.len() || q >= self.id.len() {
            return Err(UfError::IndexOutOfBounds);
        }
        Ok(self.connected(p, q))
    }

    /// Renders the parent array for diagnostics: each entry in index
    /// order, in decimal, followed by one space.
    pub fn to_text(&self) -> (r: String)
        ensures
            r@ == render(self.parents()),
    {
        let ghost s = self.id@;
        let mut r = String::new();
        let mut k: usize = 0;
        while k < self.id.len()
            invariant
                s == self.id@,
                k <= s.len(),
                r@ == render(s.take(k as int)),
            decreases s.len() - k,
        {
            let d = decimal_string(self.id[k]);
            r.append(d.as_str());
            r.append(" ");
            proof {
                reveal_strlit(" ");
                let t = s.take(k + 1);
                assert(t.drop_last() =~= s.take(k as int));
                assert(t.last() == s[k as int]);
                assert(r@ =~= render(s.take(k + 1)));
            }
            k = k + 1;
        }
        proof {
            assert(s.take(s.len() as int) =~= s);
        }
        r
    }
}

/// What the parent array shows of the partition: parents stay in range,
/// each entry is in the same set as its index, and the roots are exactly
/// the self-parented entries.
pub proof fn lemma_parents_wf(uf: &UnionFind)
    requires
        uf.wf(),
    ensures
        uf.parents().len() == uf.count(),
        forall|x: int| 0 <= x < uf.count() ==> (#[trigger] uf.parents()[x] as int) < uf.count(),
        forall|x: int|
            0 <= x < uf.count() ==> uf.rep(#[trigger] uf.parents()[x] as int) == uf.rep(x),
        forall|x: int|
            0 <= x < uf.count() ==> (((#[trigger] uf.parents()[x] as int) == x) <==> uf.rep(x)
                == x),
{
    let s = uf.parents();
    assert forall|x: int| 0 <= x < uf.count() implies uf.rep(#[trigger] s[x] as int) == uf.rep(
        x,
    ) by {
        if s[x] as int != x {
            lemma_root_in_step(uf.id@, uf.hgt@, x);
        }
    }
    assert forall|x: int| 0 <= x < uf.count() implies (((#[trigger] s[x] as int) == x) <==> uf.rep(
        x,
    ) == x) by {
        lemma_root_in_bounds(uf.id@, uf.hgt@, x);
    }
}

impl UF for UnionFind {
    closed spec fn wf(&self) -> bool {
        edges_ok(self.id@, self.hgt@)
    }

    closed spec fn count(&self) -> nat {
        self.id@.len()
    }

    closed spec fn rep(&self, x: int) -> int {
        root_in(self.id@, self.hgt@, x)
    }

    fn new(n: usize) -> (r: Self) {
        let mut id: Vec<usize> = Vec::new();
        let mut i: usize = 0;
        while i < n
            invariant
                i <= n,
                id@.len() == i,
                forall|k: int| 0 <= k < i ==> #[trigger] id@[k] == k as usize,
            decreases n - i,
        {
            id.push(i);
            i = i + 1;
        }
        let r = UnionFind { id, hgt: Ghost(Seq::new(n as nat, |x: int| 0nat)) };
        proof {
            assert forall|x: int| 0 <= x < n implies #[trigger] r.rep(x) == x by {
                assert(r.id@[x] as int == x);
            }
        }
        r
    }

    fn union(&mut self, p: usize, q: usize) {
        let i = self.root_of(p);
        let j = self.root_of(q);
        let ghost s0 = self.id@;
        let ghost h0 = self.hgt@;
        self.id.set(i, j);
        if i != j {
            self.hgt = Ghost(new_height(s0, h0, i as int, j as int));
        }
        proof {
            if i == j {
                assert(self.id@ =~= s0);
            } else {
                lemma_link_edges_ok(s0, h0, i as int, j as int);
                assert forall|x: int| 0 <= x < s0.len() implies #[trigger] root_in(
                    self.id@,
                    self.hgt@,
                    x,
                ) == (if root_in(s0, h0, x) == i { j as int } else { root_in(s0, h0, x) }) by {
                    lemma_link_root(s0, h0, i as int, j as int, x);
                }
            }
        }
    }

    fn connected(&self, p: usize, q: usize) -> (r: bool) {
        self.root_of(p) == self.root_of(q)
    }
}

/// After linking root `i` under root `j`, every node whose old root was
/// `i` gets a height high enough to point down to `j`'s tree.
spec fn new_height(s: Seq<usize>, h: Seq<nat>, i: int, j: int) -> Seq<nat> {
    Seq::new(h.len(), |x: int| if root_in(s, h, x) == i { (h[x] + h[j] + 1) as nat } else { h[x] })
}

/// Following one parent link keeps the root unchanged.
proof fn lemma_root_in_step(s: Seq<usize>, h: Seq<nat>, x: int)
    requires
        edges_ok(s, h),
        0 <= x < s.len(),
        s[x] as int != x,
    ensures
        root_in(s, h, s[x] as int) == root_in(s, h, x),
{
}

/// Linking root `i` under a distinct root `j` preserves well-formedness
/// with the adjusted heights.
proof fn lemma_link_edges_ok(s: Seq<usize>, h: Seq<nat>, i: int, j: int)
    requires
        edges_ok(s, h),
        0 <= i < s.len(),
        0 <= j < s.len(),
        s[i] as int == i,
        s[j] as int == j,
        i != j,
    ensures
        edges_ok(s.update(i, j as usize), new_height(s, h, i, j)),
{
    let s1 = s.update(i, j as usize);
    let h1 = new_height(s, h, i, j);
    assert forall|x: int| 0 <= x < s1.len() && (#[trigger] s1[x] as int) != x implies h1[s1[x] as int]
        < h1[x] by {
        if x == i {
            assert(root_in(s, h, j) == j);
            assert(root_in(s, h, i) == i);
            assert(h1[j] == h[j]);
            assert(h1[i] == h[i] + h[j] + 1);
        } else {
            lemma_root_in_step(s, h, x);
            assert(root_in(s, h, s[x] as int) == root_in(s, h, x));
        }
    }
}

/// After linking root `i` under a distinct root `j`, the root of every
/// node whose old root was `i` becomes `j`; every other root is kept.
proof fn lemma_link_root(s: Seq<usize>, h: Seq<nat>, i: int, j: int, x: int)
    requires
        edges_ok(s, h),
        0 <= i < s.len(),
        0 <= j < s.len(),
        s[i] as int == i,
        s[j] as int == j,
        i != j,
        0 <= x < s.len(),
    ensures
        root_in(s.update(i, j as usize), new_height(s, h, i, j), x) == (if root_in(s, h, x) == i {
            j
        } else {
            root_in(s, h, x)
        }),
    decreases h[x],
{
    lemma_link_edges_ok(s, h, i, j);
    let s1 = s.update(i, j as usize);
    let h1 = new_height(s, h, i, j);
    if s[x] as int == x {
        if x == i {
            assert(s1[i] as int == j);
            assert(s1[j] as int == j);
            assert(root_in(s1, h1, j) == j);
        } else {
            assert(s1[x] == s[x]);
            assert(root_in(s1, h1, x) == x);
        }
    } else {
        lemma_link_root(s, h, i, j, s[x] as int);
        assert(s1[x] == s[x]);
        lemma_root_in_step(s, h, x);
    }
}

} // verus!
