use vstd::prelude::*;

use super::HashMap;
use crate::hashmap::MapKey;

pub use crate::hashmap::IntoIter;

verus! {

/// The crate's open-addressing map, presented through the [`HashMap`] trait.
pub struct SimpleOAHashMap<K, V, S = std::hash::RandomState> {
    inner: crate::hashmap::HashMap<K, V, S>,
}

impl<K: MapKey, V> SimpleOAHashMap<K, V, std::hash::RandomState> {
    pub fn new() -> (m: Self)
        ensures
            m.wf(),
            m.model() == Map::<K::V, V>::empty(),
    {
        SimpleOAHashMap { inner: crate::hashmap::HashMap::new() }
    }
}

impl<K: MapKey, V, S> HashMap<K, V, S> for SimpleOAHashMap<K, V, S> {
    closed spec fn wf(&self) -> bool {
        self.inner.wf()
    }

    closed spec fn model(&self) -> Map<K::V, V> {
        self.inner@
    }

    fn with_hasher(state: S) -> (m: Self) {
        SimpleOAHashMap { inner: crate::hashmap::HashMap::with_hasher(state) }
    }

    fn len(&self) -> (n: usize) {
        self.inner.len()
    }

    fn is_empty(&self) -> (r: bool) {
        self.inner.is_empty()
    }

    fn get(&self, key: &K) -> (r: Option<&V>) {
        self.inner.get(key)
    }

    fn insert(&mut self, key: K, value: V) -> (prev: Option<V>) {
        self.inner.insert_fetch(key, value)
    }
}

impl<K: MapKey, V, S> SimpleOAHashMap<K, V, S> {
    /// The model of a well-formed map is a finite map; see
    /// [`crate::hashmap::HashMap::lemma_model_finite`].
    pub proof fn lemma_model_finite(&self)
        requires
            self.wf(),
        ensures
            self.model().dom().finite(),
    {
        self.inner.lemma_model_finite();
    }

    /// Turn the map into an iterator over its entries; see
    /// [`crate::hashmap::HashMap::into_iter`].
    pub fn into_iter(self) -> (it: crate::hashmap::IntoIter<K, V>)
        requires
            self.wf(),
        ensures
            it@.len() == self.model().len(),
            forall|i: int|
                0 <= i < it@.len() ==> #[trigger] self.model().contains_key(it@[i].0@)
                    && self.model()[it@[i].0@] == it@[i].1,
            forall|i: int, j: int|
                0 <= i < j < it@.len() ==> (#[trigger] it@[i]).0@ != (#[trigger] it@[j]).0@,
    {
        self.inner.into_iter()
    }
}

} // verus!
