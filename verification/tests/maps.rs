use std::hash::BuildHasher;
use std::hash::BuildHasherDefault;
use std::hash::Hasher;
use std::hash::RandomState;

use uwu::hashmap::HashMap;

#[test]
fn get_empty() {
    let m = HashMap::<&str, ()>::new();
    assert_eq!(m.get(&"uwu"), None);
    assert_eq!(m.get(&"uwu"), None);
}

#[test]
fn insert() {
    let mut m = HashMap::new();
    m.insert("hello", "world");
    assert_eq!(m.get(&"hello"), Some(&"world"));
    assert_eq!(m.len(), 1);
    m.insert("aaa", "yes");
    assert_eq!(m.get(&"hello"), Some(&"world"));
    assert_eq!(m.get(&"aaa"), Some(&"yes"));
    assert_eq!(m.len(), 2);
}

#[test]
fn overriding() {
    let mut m = HashMap::new();
    m.insert("hello", "world");
    assert_eq!(m.get(&"hello"), Some(&"world"));
    assert_eq!(m.len(), 1);
    m.insert("hello", "no");
    assert_eq!(m.get(&"hello"), Some(&"no"));
    assert_eq!(m.len(), 1);
}

#[derive(Default)]
struct CollidingHasher;

impl Hasher for CollidingHasher {
    fn finish(&self) -> u64 {
        0
    }
    fn write(&mut self, _bytes: &[u8]) {}
}

fn test_many<H: BuildHasher>(count: usize, h: H) {
    let mut m = HashMap::with_hasher(h);

    for i in 0..count {
        m.insert(i, i);
    }

    let mut found = vec![false; count];
    let mut it = m.into_iter();
    while let Some((k, v)) = it.next() {
        assert_eq!(k, v);
        assert!(!found[k], "duplicate element");
        found[k] = true;
    }
    for (i, found) in found.iter().enumerate() {
        assert!(found, "element {i} was lost");
    }
}

#[test]
fn many_elements() {
    for count in [1, 10, 100, 1000, 10_000, 100_000] {
        test_many(count, RandomState::new());
    }
}

#[test]
fn many_many_collisions() {
    test_many(5000, BuildHasherDefault::<CollidingHasher>::default());
}

#[test]
fn owned_string_keys() {
    let mut m = HashMap::new();
    m.insert(String::from("alpha"), 1u64);
    m.insert(String::from("beta"), 2u64);
    m.insert(String::from("alpha"), 3u64);
    assert_eq!(m.len(), 2);
    assert_eq!(m.get(&String::from("alpha")), Some(&3));
    assert_eq!(m.get(&String::from("beta")), Some(&2));
    assert_eq!(m.get(&String::from("gamma")), None);
}
