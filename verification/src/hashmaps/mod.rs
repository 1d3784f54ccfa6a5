use vstd::prelude::*;

use crate::hashmap::MapKey;

pub mod simple_open_addressing;

verus! {

/// The interface every map implementation of this crate offers: an abstract
/// model (a mathematical map over abstract key values), a well-formedness
/// predicate that constructors establish and every operation preserves, and
/// the usual operations with their contracts stated over the model.
pub trait HashMap<K: MapKey, Val, S>: Sized {
    spec fn wf(&self) -> bool;

    spec fn model(&self) -> Map<K::V, Val>;

    fn with_hasher(state: S) -> (m: Self)
        ensures
            m.wf(),
            m.model() == Map::<K::V, Val>::empty(),
    ;

    fn len(&self) -> (n: usize)
        requires
            self.wf(),
        ensures
            n == self.model().len(),
    ;

    fn is_empty(&self) -> (r: bool)
        requires
            self.wf(),
        ensures
            r <==> self.model().len() == 0,
    ;

    fn get(&self, key: &K) -> (r: Option<&Val>)
        requires
            self.wf(),
        ensures
            match r {
                Some(v) => self.model().contains_key(key@) && *v == self.model()[key@],
                None => !self.model().contains_key(key@),
            },
    ;

    fn insert(&mut self, key: K, value: Val) -> (prev: Option<Val>)
        requires
            old(self).wf(),
            old(self).model().len() < usize::MAX / 8,
        ensures
            final(self).wf(),
            final(self).model() == old(self).model().insert(key@, value),
            match prev {
                Some(p) => old(self).model().contains_key(key@) && p == old(self).model()[key@],
                None => !old(self).model().contains_key(key@),
            },
    ;
}

} // verus!
