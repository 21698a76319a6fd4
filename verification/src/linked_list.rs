use std::rc::Rc;
use vstd::prelude::*;

verus! {

/// A persistent singly linked list: `append` builds a new head node and
/// shares every existing node with the old list.
#[derive(Debug)]
pub struct LinkedList<T> {
    head: Option<Rc<Node<T>>>,
}

#[derive(Debug)]
struct Node<T> {
    next: Option<Rc<Node<T>>>,
    data: T,
}

/// The elements reachable from a link, front to back.
spec fn seq_of<T>(o: Option<Rc<Node<T>>>) -> Seq<T>
    decreases o,
{
    match o {
        Option::None => Seq::<T>::empty(),
        Option::Some(node) => seq![node.data] + seq_of(node.next),
    }
}

impl<T> View for LinkedList<T> {
    type V = Seq<T>;

    closed spec fn view(&self) -> Seq<T> {
        seq_of(self.head)
    }
}

/// Relies on `Rc::clone`: the returned handle shares the allocation of
/// the argument, so as a value it equals the argument.
#[verifier::external_body]
fn clone_rc<T>(rc: &Rc<T>) -> (r: Rc<T>)
    ensures
        r == *rc,
{
    Rc::clone(rc)
}

impl<T> LinkedList<T> {
    /// The empty list.
    pub fn new() -> (r: Self)
        ensures
            r@ == Seq::<T>::empty(),
    {
        LinkedList { head: None }
    }

    /// A new list with `data` in front of this list's elements; the two
    /// lists share the existing nodes.
    pub fn append(&self, data: T) -> (r: Self)
        ensures
            r@ == seq![data] + self@,
    {
        let next = match &self.head {
            Some(rc) => Some(clone_rc(rc)),
            None => None,
        };
        LinkedList { head: Some(Rc::new(Node { next, data })) }
    }

    /// The element `i` places from the front, or nothing past the end.
    pub fn get(&self, i: usize) -> (r: Option<&T>)
        ensures
            match r {
                Option::Some(t) => i < self@.len() && *t == self@[i as int],
                Option::None => i >= self@.len(),
            },
    {
        get_link(&self.head, i)
    }
}

fn get_link<'a, T>(o: &'a Option<Rc<Node<T>>>, i: usize) -> (r: Option<&'a T>)
    ensures
        match r {
            Option::Some(t) => i < seq_of(*o).len() && *t == seq_of(*o)[i as int],
            Option::None => i >= seq_of(*o).len(),
        },
    decreases *o,
{
    match o {
        None => None,
        Some(node) => {
            if i == 0 {
                Some(&node.data)
            } else {
                get_link(&node.next, i - 1)
            }
        },
    }
}

} // verus!
