use vstd::prelude::*;

verus! {

/// A doubly linked list stored as an arena: the nodes sit in one vector
/// and both links are indices into it, so the back-references need no
/// shared ownership and no interior mutability. Elements are prepended,
/// so the arena holds the list back to front and the head is the last
/// slot.
#[derive(Debug)]
pub struct DoubleLinkedList<T> {
    nodes: Vec<DNode<T>>,
}

#[derive(Debug)]
struct DNode<T> {
    next: Option<usize>,
    prev: Option<usize>,
    data: T,
}

impl<T> View for DoubleLinkedList<T> {
    type V = Seq<T>;

    closed spec fn view(&self) -> Seq<T> {
        Seq::new(self.nodes@.len(), |i: int| self.nodes@[self.nodes@.len() - 1 - i].data)
    }
}

impl<T> DoubleLinkedList<T> {
    /// The forward and backward links agree: each node's `next` is the
    /// node prepended just before it, its `prev` the node prepended just
    /// after it, and the head has no predecessor.
    pub closed spec fn wf(&self) -> bool {
        forall|k: int|
            0 <= k < self.nodes@.len() ==> {
                &&& (#[trigger] self.nodes@[k]).next == (if k == 0 {
                    Option::<usize>::None
                } else {
                    Option::Some((k - 1) as usize)
                })
                &&& self.nodes@[k].prev == (if k + 1 == self.nodes@.len() {
                    Option::<usize>::None
                } else {
                    Option::Some((k + 1) as usize)
                })
            }
    }

    /// The empty list.
    pub fn new() -> (r: Self)
        ensures
            r@ == Seq::<T>::empty(),
            r.wf(),
    {
        DoubleLinkedList { nodes: Vec::new() }
    }

    /// A new list with `data` in front of this list's elements. The
    /// nodes move into the result and the old head's back-reference is
    /// rewritten to the new node; this list is left empty.
    pub fn append(&mut self, data: T) -> (r: Self)
        requires
            old(self).wf(),
        ensures
            r.wf(),
            r@ == seq![data] + old(self)@,
            final(self).wf(),
            final(self)@ == Seq::<T>::empty(),
    {
        let mut nodes: Vec<DNode<T>> = Vec::new();
        core::mem::swap(&mut nodes, &mut self.nodes);
        let ghost s = nodes@;
        let n = nodes.len();
        if n > 0 {
            let old_head = match nodes.pop() {
                Some(h) => h,
                None => vstd::pervasive::unreached(),
            };
            let DNode { next, prev: _, data: d } = old_head;
            nodes.push(DNode { next, prev: Some(n), data: d });
            proof {
                assert(nodes@ =~= s.update(n - 1, nodes@[n - 1]));
            }
        }
        if n == 0 {
            nodes.push(DNode { next: None, prev: None, data });
        } else {
            nodes.push(DNode { next: Some(n - 1), prev: None, data });
        }
        let r = DoubleLinkedList { nodes };
        proof {
            assert(self@ =~= Seq::<T>::empty());
            assert forall|k: int| 0 <= k < r.nodes@.len() implies {
                &&& (#[trigger] r.nodes@[k]).next == (if k == 0 {
                    Option::<usize>::None
                } else {
                    Option::Some((k - 1) as usize)
                })
                &&& r.nodes@[k].prev == (if k + 1 == r.nodes@.len() {
                    Option::<usize>::None
                } else {
                    Option::Some((k + 1) as usize)
                })
            } by {
                if k < n {
                    assert(s[k] == old(self).nodes@[k]);
                }
            }
            assert(r@ =~= seq![data] + old(self)@);
        }
        r
    }

    /// The element `i` places from the front, or nothing past the end.
    pub fn get(&self, i: usize) -> (r: Option<&T>)
        ensures
            match r {
                Option::Some(t) => i < self@.len() && *t == self@[i as int],
                Option::None => i >= self@.len(),
            },
    {
        let n = self.nodes.len();
        if i < n {
            Some(&self.nodes[n - 1 - i].data)
        } else {
            None
        }
    }
}

} // verus!
