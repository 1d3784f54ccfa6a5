use std::hash::BuildHasher;
use std::hash::BuildHasherDefault;
use std::hash::Hasher;
use std::hash::RandomState;

use uwu::hashmaps::simple_open_addressing::SimpleOAHashMap;
use uwu::hashmaps::HashMap;

#[derive(Default)]
struct CollidingHasher;

impl Hasher for CollidingHasher {
    fn finish(&self) -> u64 {
        0
    }
    fn write(&mut self, _bytes: &[u8]) {}
}

fn trait_test_many<H: BuildHasher>(count: usize, h: H) {
    let mut m = SimpleOAHashMap::with_hasher(h);

    for i in 0..count {
        m.insert(i, i);
    }

    let mut found = vec![false; count];
    let mut it = m.into_iter();
    while let Some((k, v)) = it.next() {
        assert_eq!(k, v);
        assert!(!found[k], "duplicate element");
        found[k] = true;
    }
    for (i, found) in found.iter().enumerate() {
        assert!(found, "element {i} was lost");
    }
}

#[test]
fn do_tests() {
    let mk_str = || SimpleOAHashMap::<&str, &str, _>::with_hasher(RandomState::new());

    let m = mk_str();
    assert_eq!(m.get(&"uwu"), None);
    assert_eq!(m.get(&"uwu"), None);

    let mut m = mk_str();
    m.insert("hello", "world");
    assert_eq!(m.get(&"hello"), Some(&"world"));
    assert_eq!(m.len(), 1);
    m.insert("aaa", "yes");
    assert_eq!(m.get(&"hello"), Some(&"world"));
    assert_eq!(m.get(&"aaa"), Some(&"yes"));
    assert_eq!(m.len(), 2);

    let mut m = mk_str();
    m.insert("hello", "world");
    assert_eq!(m.get(&"hello"), Some(&"world"));
    assert_eq!(m.len(), 1);
    m.insert("hello", "no");
    assert_eq!(m.get(&"hello"), Some(&"no"));
    assert_eq!(m.len(), 1);

    for count in [1, 10, 100, 1000, 10_000, 100_000] {
        trait_test_many(count, RandomState::new());
    }
    trait_test_many(1000, BuildHasherDefault::<CollidingHasher>::default());
}
