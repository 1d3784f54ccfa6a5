use vstd::prelude::*;

verus! {

/// A stack-borrowed list: each node owns its item and may point at the node
/// one call frame further out.
pub struct Node<'a, T> {
    item: T,
    outer: Option<&'a mut Node<'a, T>>,
}

impl<'a, T> Node<'a, T> {
    /// The item this node carries.
    pub closed spec fn head(&self) -> T {
        self.item
    }

    /// The item of the node this one links to, if it links to one.
    pub closed spec fn outer_head(&self) -> Option<T> {
        match self.outer {
            Some(o) => Some(o.head()),
            None => None,
        }
    }

    pub fn new(item: T) -> (n: Self)
        ensures
            n.head() == item,
    {
        Node { item, outer: None }
    }

    /// Chain one more node in front of this one for the duration of a call:
    /// the closure runs with the extended list — a node carrying exactly the
    /// pushed item and linking to this node — and its result is handed back.
    pub fn push<R, F: FnOnce(&Node<'a, T>) -> R>(&'a mut self, item: T, with_func: F) -> (r: R)
        requires
            forall|n: Node<'a, T>| #[trigger] call_requires(with_func, (&n,)),
        ensures
            exists|n: Node<'a, T>|
                n.head() == item && n.outer_head() == Some(old(self).head())
                    && #[trigger] call_ensures(with_func, (&n,), r),
    {
        let inner = Node { item, outer: Some(self) };
        let r = with_func(&inner);
        proof {
            assert(inner.head() == item);
            assert(inner.outer_head() == Some(old(self).head()));
            assert(call_ensures(with_func, (&inner,), r));
        }
        r
    }
}

} // verus!
