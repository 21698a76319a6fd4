use crate::union_find::UF;
use vstd::pervasive::VecAdditionalExecFns;
use vstd::prelude::*;

verus! {

/// The quick-find variant: `id[i]` is directly the id of the set that
/// `i` belongs to, so a connectivity query is a single comparison and a
/// union relabels every element of the absorbed set.
pub struct QuickFind {
    id: Vec<usize>,
}

impl UF for QuickFind {
    closed spec fn wf(&self) -> bool {
        true
    }

    closed spec fn count(&self) -> nat {
        self.id@.len()
    }

    closed spec fn rep(&self, x: int) -> int {
        self.id@[x] as int
    }

    fn new(n: usize) -> (r: Self) {
        let mut id: Vec<usize> = Vec::new();
        let mut i: usize = 0;
        while i < n
            invariant
                i <= n,
                id@.len() == i,
                forall|k: int| 0 <= k < i ==> #[trigger] id@[k] == k as usize,
            decreases n - i,
        {
            id.push(i);
            i = i + 1;
        }
        QuickFind { id }
    }

    fn union(&mut self, p: usize, q: usize) {
        let pid = self.id[p];
        let qid = self.id[q];
        let ghost s0 = self.id@;
        let mut k: usize = 0;
        while k < self.id.len()
            invariant
                self.id@.len() == s0.len(),
                k <= s0.len(),
                pid == s0[p as int],
                qid == s0[q as int],
                p < s0.len(),
                q < s0.len(),
                forall|x: int|
                    0 <= x < k ==> #[trigger] self.id@[x] == (if s0[x] == pid {
                        qid
                    } else {
                        s0[x]
                    }),
                forall|x: int| k <= x < s0.len() ==> #[trigger] self.id@[x] == s0[x],
            decreases s0.len() - k,
        {
            if self.id[k] == pid {
                self.id.set(k, qid);
            }
            k = k + 1;
        }
    }

    fn connected(&self, p: usize, q: usize) -> (r: bool) {
        self.id[p] == self.id[q]
    }
}

} // verus!
