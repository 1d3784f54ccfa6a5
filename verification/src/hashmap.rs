use vstd::prelude::*;
use vstd::string::*;

verus! {

/// Seed and multiplier of the 64-bit FNV-1a hash.
pub const FNV_SEED: u64 = 0xcbf2_9ce4_8422_2325;

pub const FNV_PRIME: u64 = 0x0000_0100_0000_01b3;

/// One FNV-1a round: fold one character into the running hash.
pub open spec fn fnv_step(h: u64, c: char) -> u64 {
    (h ^ (c as u64)).wrapping_mul(FNV_PRIME)
}

/// The FNV-1a hash of a character sequence.
pub open spec fn str_hash(s: Seq<char>) -> u64
    decreases s.len(),
{
    if s.len() == 0 {
        FNV_SEED
    } else {
        fnv_step(str_hash(s.drop_last()), s.last())
    }
}

/// A key usable by the open-addressing maps of this crate: it can hash
/// itself (the hash is a function of the key's abstract value alone, so
/// equal keys always land on the same probe path) and decide equality of
/// abstract values.
pub trait MapKey: View + Sized {
    /// The key's hash, as a function of its abstract value.
    spec fn hash_spec(key: Self::V) -> u64;

    /// Compute the hash of this key.
    fn key_hash(&self) -> (h: u64)
        ensures
            h == Self::hash_spec(self@),
    ;

    /// Decide whether the two keys have the same abstract value.
    fn key_eq(&self, other: &Self) -> (r: bool)
        ensures
            r <==> self@ == other@,
    ;
}

impl MapKey for u64 {
    open spec fn hash_spec(key: u64) -> u64 {
        key
    }

    fn key_hash(&self) -> (h: u64) {
        *self
    }

    fn key_eq(&self, other: &Self) -> (r: bool) {
        *self == *other
    }
}

impl MapKey for usize {
    open spec fn hash_spec(key: usize) -> u64 {
        key as u64
    }

    fn key_hash(&self) -> (h: u64) {
        *self as u64
    }

    fn key_eq(&self, other: &Self) -> (r: bool) {
        *self == *other
    }
}

impl MapKey for u32 {
    open spec fn hash_spec(key: u32) -> u64 {
        key as u64
    }

    fn key_hash(&self) -> (h: u64) {
        *self as u64
    }

    fn key_eq(&self, other: &Self) -> (r: bool) {
        *self == *other
    }
}

/// Character-by-character string equality; used by the string key impls.
fn str_eq_chars(a: &str, b: &str) -> (r: bool)
    ensures
        r <==> a@ == b@,
{
    let n = a.unicode_len();
    if n != b.unicode_len() {
        return false;
    }
    let mut i: usize = 0;
    while i < n
        invariant
            n == a@.len(),
            n == b@.len(),
            i <= n,
            forall|j: int| 0 <= j < i ==> a@[j] == b@[j],
        decreases n - i,
    {
        if a.get_char(i) != b.get_char(i) {
            return false;
        }
        i = i + 1;
    }
    proof {
        assert(a@ =~= b@);
    }
    true
}

/// The FNV-1a hash of a string, character by character.
fn str_hash_exec(s: &str) -> (h: u64)
    ensures
        h == str_hash(s@),
{
    let n = s.unicode_len();
    let mut h: u64 = FNV_SEED;
    let mut i: usize = 0;
    while i < n
        invariant
            n == s@.len(),
            i <= n,
            h == str_hash(s@.subrange(0, i as int)),
        decreases n - i,
    {
        let c = s.get_char(i);
        proof {
            assert(s@.subrange(0, i + 1).drop_last() =~= s@.subrange(0, i as int));
            assert(s@.subrange(0, i + 1).last() == s@[i as int]);
        }
        h = (h ^ (c as u64)).wrapping_mul(FNV_PRIME);
        i = i + 1;
    }
    proof {
        assert(s@.subrange(0, n as int) =~= s@);
    }
    h
}

impl<'a> MapKey for &'a str {
    open spec fn hash_spec(key: Seq<char>) -> u64 {
        str_hash(key)
    }

    fn key_hash(&self) -> (h: u64) {
        str_hash_exec(self)
    }

    fn key_eq(&self, other: &Self) -> (r: bool) {
        str_eq_chars(self, other)
    }
}

impl MapKey for String {
    open spec fn hash_spec(key: Seq<char>) -> u64 {
        str_hash(key)
    }

    fn key_hash(&self) -> (h: u64) {
        str_hash_exec(self.as_str())
    }

    fn key_eq(&self, other: &Self) -> (r: bool) {
        str_eq_chars(self.as_str(), other.as_str())
    }
}

/// How many slots of the spine are occupied.
pub open spec fn count_filled<K, V>(s: Seq<Option<(K, V)>>) -> nat
    decreases s.len(),
{
    if s.len() == 0 {
        0
    } else {
        count_filled(s.drop_last()) + (if s.last() is Some {
            1nat
        } else {
            0nat
        })
    }
}

/// The abstract key of an occupied slot.
pub open spec fn slot_key<K: MapKey, V>(e: Option<(K, V)>) -> K::V {
    match e {
        Some(p) => p.0@,
        None => vstd::pervasive::arbitrary(),
    }
}

/// The value of an occupied slot.
pub open spec fn slot_val<K: MapKey, V>(e: Option<(K, V)>) -> V {
    match e {
        Some(p) => p.1,
        None => vstd::pervasive::arbitrary(),
    }
}

/// The map held by a spine: every occupied slot contributes its entry.
pub open spec fn as_map<K: MapKey, V>(s: Seq<Option<(K, V)>>) -> Map<K::V, V>
    decreases s.len(),
{
    if s.len() == 0 {
        Map::empty()
    } else {
        match s.last() {
            Some(p) => as_map(s.drop_last()).insert(p.0@, p.1),
            None => as_map(s.drop_last()),
        }
    }
}

/// No two occupied slots hold keys with the same abstract value.
pub open spec fn distinct_keys<K: MapKey, V>(s: Seq<Option<(K, V)>>) -> bool {
    forall|i: int, j: int|
        #![trigger s[i], s[j]]
        0 <= i < j < s.len() && s[i] is Some && s[j] is Some ==> slot_key(s[i]) != slot_key(s[j])
}

/// Some occupied slot holds the abstract key `kv`.
pub open spec fn has_key<K: MapKey, V>(s: Seq<Option<(K, V)>>, kv: K::V) -> bool {
    exists|i: int| 0 <= i < s.len() && #[trigger] s[i] is Some && slot_key(s[i]) == kv
}

/// With distinct keys, the spine's map has exactly one entry per occupied
/// slot: its domain is the occupied keys, its size is the occupied count,
/// and each occupied slot's key looks up that slot's value.
pub proof fn lemma_as_map_props<K: MapKey, V>(s: Seq<Option<(K, V)>>)
    requires
        distinct_keys(s),
    ensures
        as_map(s).dom().finite(),
        as_map(s).dom().len() == count_filled(s),
        forall|kv: K::V| #[trigger] as_map(s).contains_key(kv) <==> has_key(s, kv),
        forall|i: int|
            0 <= i < s.len() && #[trigger] s[i] is Some ==> as_map(s).contains_key(slot_key(s[i]))
                && as_map(s)[slot_key(s[i])] == slot_val(s[i]),
    decreases s.len(),
{
    if s.len() == 0 {
    } else {
        let prefix = s.drop_last();
        assert(distinct_keys(prefix)) by {
            assert(forall|i: int, j: int|
                #![trigger prefix[i], prefix[j]]
                0 <= i < j < prefix.len() && prefix[i] is Some && prefix[j] is Some ==> slot_key(
                    s[i],
                ) != slot_key(s[j]));
        }
        lemma_as_map_props(prefix);
        match s.last() {
            Some(p) => {
                assert(!has_key(prefix, p.0@)) by {
                    if has_key(prefix, p.0@) {
                        let i = choose|i: int|
                            0 <= i < prefix.len() && #[trigger] prefix[i] is Some && slot_key(
                                prefix[i],
                            ) == p.0@;
                        assert(s[i] is Some && slot_key(s[i]) == slot_key(s[s.len() - 1]));
                    }
                }
                assert forall|kv: K::V| #[trigger]
                    as_map(s).contains_key(kv) <==> has_key(s, kv) by {
                    if as_map(s).contains_key(kv) {
                        if kv == p.0@ {
                            assert(s[s.len() - 1] is Some && slot_key(s[s.len() - 1]) == kv);
                        } else {
                            let i = choose|i: int|
                                0 <= i < prefix.len() && #[trigger] prefix[i] is Some && slot_key(
                                    prefix[i],
                                ) == kv;
                            assert(s[i] is Some && slot_key(s[i]) == kv);
                        }
                    }
                    if has_key(s, kv) {
                        let i = choose|i: int|
                            0 <= i < s.len() && #[trigger] s[i] is Some && slot_key(s[i]) == kv;
                        if i < s.len() - 1 {
                            assert(prefix[i] is Some && slot_key(prefix[i]) == kv);
                        }
                    }
                }
            },
            None => {
                assert forall|kv: K::V| #[trigger]
                    as_map(s).contains_key(kv) <==> has_key(s, kv) by {
                    if has_key(s, kv) {
                        let i = choose|i: int|
                            0 <= i < s.len() && #[trigger] s[i] is Some && slot_key(s[i]) == kv;
                        assert(i < s.len() - 1);
                        assert(prefix[i] is Some && slot_key(prefix[i]) == kv);
                    }
                    if as_map(s).contains_key(kv) {
                        let i = choose|i: int|
                            0 <= i < prefix.len() && #[trigger] prefix[i] is Some && slot_key(
                                prefix[i],
                            ) == kv;
                        assert(s[i] is Some && slot_key(s[i]) == kv);
                    }
                }
            },
        }
        assert forall|i: int| 0 <= i < s.len() && #[trigger] s[i] is Some implies as_map(
            s,
        ).contains_key(slot_key(s[i])) && as_map(s)[slot_key(s[i])] == slot_val(s[i]) by {
            if i < s.len() - 1 {
                assert(prefix[i] is Some);
                assert(prefix[i] == s[i]);
                if s.last() is Some && slot_key(s[s.len() - 1]) == slot_key(s[i]) {
                    assert(false);
                }
            }
        }
    }
}

/// The slot where a key's probe sequence begins.
pub open spec fn start_of<K: MapKey>(kv: K::V, n: int) -> int {
    K::hash_spec(kv) as int % n
}

/// How many probe steps it takes to walk (cyclically) from slot `h` to
/// slot `i` in a spine of `n` slots.
pub open spec fn dist(h: int, i: int, n: int) -> int {
    if i >= h {
        i - h
    } else {
        i + n - h
    }
}

/// The slot reached from `h` after `d` probe steps (both below `n`): walk
/// forward, wrapping at the end of the spine.
pub open spec fn probe_at(h: int, d: int, n: int) -> int {
    if h + d < n {
        h + d
    } else {
        h + d - n
    }
}

/// Every slot on an occupied slot's probe path (from its key's start slot,
/// walking cyclically, up to but not including the slot itself) is occupied.
pub open spec fn probe_ok<K: MapKey, V>(s: Seq<Option<(K, V)>>, i: int) -> bool {
    let n = s.len() as int;
    let h = start_of::<K>(slot_key(s[i]), n);
    forall|d: int| 0 <= d < dist(h, i, n) ==> #[trigger] s[probe_at(h, d, n)] is Some
}

/// Updating one slot changes the occupied count in the evident way.
proof fn lemma_count_update<K, V>(s: Seq<Option<(K, V)>>, i: int, e: Option<(K, V)>)
    requires
        0 <= i < s.len(),
    ensures
        count_filled(s.update(i, e)) == count_filled(s) + (if e is Some {
            1int
        } else {
            0int
        }) - (if s[i] is Some {
            1int
        } else {
            0int
        }),
    decreases s.len(),
{
    let t = s.update(i, e);
    if i == s.len() - 1 {
        assert(t.drop_last() =~= s.drop_last());
    } else {
        assert(t.drop_last() =~= s.drop_last().update(i, e));
        lemma_count_update(s.drop_last(), i, e);
    }
}

/// A spine whose every slot is occupied has occupied count equal to its
/// length.
proof fn lemma_count_all_some<K, V>(s: Seq<Option<(K, V)>>)
    requires
        forall|i: int| 0 <= i < s.len() ==> (#[trigger] s[i]) is Some,
    ensures
        count_filled(s) == s.len(),
    decreases s.len(),
{
    if s.len() > 0 {
        lemma_count_all_some(s.drop_last());
    }
}

/// A spine of holes holds the empty map.
proof fn lemma_as_map_all_none<K: MapKey, V>(s: Seq<Option<(K, V)>>)
    requires
        forall|i: int| 0 <= i < s.len() ==> (#[trigger] s[i]) is None,
    ensures
        as_map(s) == Map::<K::V, V>::empty(),
    decreases s.len(),
{
    if s.len() > 0 {
        lemma_as_map_all_none(s.drop_last());
    }
}

/// A spine of holes has occupied count zero.
proof fn lemma_count_all_none<K, V>(s: Seq<Option<(K, V)>>)
    requires
        forall|i: int| 0 <= i < s.len() ==> (#[trigger] s[i]) is None,
    ensures
        count_filled(s) == 0,
    decreases s.len(),
{
    if s.len() > 0 {
        lemma_count_all_none(s.drop_last());
    }
}

/// The occupied count never exceeds the spine length.
proof fn lemma_count_bound<K, V>(s: Seq<Option<(K, V)>>)
    ensures
        count_filled(s) <= s.len(),
    decreases s.len(),
{
    if s.len() > 0 {
        lemma_count_bound(s.drop_last());
    }
}

/// A spine with an occupied slot has a positive occupied count.
proof fn lemma_count_pos<K, V>(s: Seq<Option<(K, V)>>, i: int)
    requires
        0 <= i < s.len(),
        s[i] is Some,
    ensures
        count_filled(s) >= 1,
    decreases s.len(),
{
    if i < s.len() - 1 {
        lemma_count_pos(s.drop_last(), i);
    }
}

/// Writing an entry over a hole (with its key nowhere else) or over an
/// entry with the same key turns the spine's map into the inserted map.
proof fn lemma_as_map_update<K: MapKey, V>(s: Seq<Option<(K, V)>>, i: int, k: K, v: V)
    requires
        0 <= i < s.len(),
        distinct_keys(s),
        s[i] is Some ==> slot_key(s[i]) == k@,
        s[i] is None ==> !has_key(s, k@),
    ensures
        as_map(s.update(i, Some((k, v)))) == as_map(s).insert(k@, v),
    decreases s.len(),
{
    let t = s.update(i, Some((k, v)));
    let prefix = s.drop_last();
    assert(distinct_keys(prefix));
    if i == s.len() - 1 {
        assert(t.drop_last() =~= prefix);
        match s.last() {
            Some(p) => {
                assert(as_map(t) == as_map(prefix).insert(k@, v));
                assert(as_map(s).insert(k@, v) == as_map(prefix).insert(p.0@, p.1).insert(k@, v));
                assert(as_map(prefix).insert(p.0@, p.1).insert(k@, v) =~= as_map(prefix).insert(
                    k@,
                    v,
                ));
            },
            None => {},
        }
    } else {
        assert(t.drop_last() =~= prefix.update(i, Some((k, v))));
        assert(prefix[i] == s[i]);
        if s[i] is None && has_key(prefix, k@) {
            let j = choose|j: int|
                0 <= j < prefix.len() && #[trigger] prefix[j] is Some && slot_key(prefix[j]) == k@;
            assert(s[j] is Some && slot_key(s[j]) == k@);
            assert(false);
        }
        lemma_as_map_update(prefix, i, k, v);
        match s.last() {
            Some(p) => {
                assert(t.last() == Some(p));
                assert(as_map(t) == as_map(prefix).insert(k@, v).insert(p.0@, p.1));
                if p.0@ == k@ {
                    if s[i] is Some {
                        assert(slot_key(s[i]) == slot_key(s[s.len() - 1]));
                        assert(false);
                    } else {
                        assert(s[s.len() - 1] is Some && slot_key(s[s.len() - 1]) == k@);
                        assert(has_key(s, k@));
                        assert(false);
                    }
                }
                assert(as_map(prefix).insert(k@, v).insert(p.0@, p.1) =~= as_map(prefix).insert(
                    p.0@,
                    p.1,
                ).insert(k@, v));
            },
            None => {
                assert(t.last() is None);
            },
        }
    }
}

/// The entries of a spine, in slot order.
pub open spec fn entries_of<K, V>(s: Seq<Option<(K, V)>>) -> Seq<(K, V)>
    decreases s.len(),
{
    if s.len() == 0 {
        Seq::empty()
    } else {
        match s.last() {
            Some(p) => entries_of(s.drop_last()).push(p),
            None => entries_of(s.drop_last()),
        }
    }
}

/// With distinct keys, a spine's entry sequence carries exactly its map:
/// one entry per occupied slot, no key twice.
pub proof fn lemma_entries_props<K: MapKey, V>(s: Seq<Option<(K, V)>>)
    requires
        distinct_keys(s),
    ensures
        entries_of(s).len() == count_filled(s),
        forall|i: int|
            0 <= i < entries_of(s).len() ==> #[trigger] as_map(s).contains_key(entries_of(s)[i].0@)
                && as_map(s)[entries_of(s)[i].0@] == entries_of(s)[i].1,
        forall|i: int, j: int|
            0 <= i < j < entries_of(s).len() ==> (#[trigger] entries_of(s)[i]).0@ != (
            #[trigger] entries_of(s)[j]).0@,
    decreases s.len(),
{
    if s.len() > 0 {
        let prefix = s.drop_last();
        assert(distinct_keys(prefix));
        lemma_entries_props(prefix);
        lemma_as_map_props(prefix);
        lemma_as_map_props(s);
        match s.last() {
            Some(p) => {
                assert(!has_key(prefix, p.0@)) by {
                    if has_key(prefix, p.0@) {
                        let i = choose|i: int|
                            0 <= i < prefix.len() && #[trigger] prefix[i] is Some && slot_key(
                                prefix[i],
                            ) == p.0@;
                        assert(s[i] is Some && slot_key(s[i]) == slot_key(s[s.len() - 1]));
                    }
                }
                assert forall|i: int| 0 <= i < entries_of(s).len() implies #[trigger] as_map(
                    s,
                ).contains_key(entries_of(s)[i].0@) && as_map(s)[entries_of(s)[i].0@] == entries_of(
                    s,
                )[i].1 by {
                    if i < entries_of(prefix).len() {
                        assert(entries_of(s)[i] == entries_of(prefix)[i]);
                        assert(as_map(prefix).contains_key(entries_of(prefix)[i].0@));
                        assert(has_key(prefix, entries_of(prefix)[i].0@));
                        assert(entries_of(prefix)[i].0@ != p.0@);
                    }
                }
                assert forall|i: int, j: int|
                    0 <= i < j < entries_of(s).len() implies (#[trigger] entries_of(s)[i]).0@ != (
                #[trigger] entries_of(s)[j]).0@ by {
                    if j < entries_of(prefix).len() {
                        assert(entries_of(s)[i] == entries_of(prefix)[i]);
                        assert(entries_of(s)[j] == entries_of(prefix)[j]);
                    } else {
                        assert(entries_of(s)[j] == p);
                        assert(entries_of(s)[i] == entries_of(prefix)[i]);
                        assert(as_map(prefix).contains_key(entries_of(prefix)[i].0@));
                        assert(has_key(prefix, entries_of(prefix)[i].0@));
                    }
                }
            },
            None => {},
        }
    }
}

/// A by-value iterator over a map's entries; see [`HashMap::into_iter`].
/// Entries come out from the back of the spine forward.
pub struct IntoIter<K, V> {
    buckets: Vec<Option<(K, V)>>,
}

impl<K, Val> View for IntoIter<K, Val> {
    type V = Seq<(K, Val)>;

    closed spec fn view(&self) -> Seq<(K, Val)> {
        entries_of(self.buckets@)
    }
}

impl<K, V> IntoIter<K, V> {
    fn new(buckets: Vec<Option<(K, V)>>) -> (it: Self)
        ensures
            it@ == entries_of(buckets@),
    {
        IntoIter { buckets }
    }

    /// The next remaining entry, if any; entries are handed out once each.
    pub fn next(&mut self) -> (r: Option<(K, V)>)
        ensures
            old(self)@.len() == 0 ==> r is None && final(self)@ == old(self)@,
            old(self)@.len() > 0 ==> r == Some(old(self)@.last()) && final(self)@ == old(
                self,
            )@.drop_last(),
    {
        loop
            invariant
                entries_of(self.buckets@) == old(self)@,
            decreases self.buckets@.len(),
        {
            let ghost pre = self.buckets@;
            match self.buckets.pop() {
                None => {
                    return None;
                },
                Some(slot) => {
                    proof {
                        assert(self.buckets@ =~= pre.drop_last());
                    }
                    match slot {
                        Some(p) => {
                            return Some(p);
                        },
                        None => {},
                    }
                },
            }
        }
    }
}

/// An open-addressing hash map with cyclic linear probing. Keys hash
/// themselves (see [`MapKey`]), so a key's probe path is a function of the
/// key alone and lookups can be reasoned about; the hasher state `S` is
/// stored on behalf of the caller but takes no part in bucket selection.
pub struct HashMap<K, V, S = std::hash::RandomState> {
    buckets: Vec<Option<(K, V)>>,
    filled: usize,
    s: S,
}

impl<K: MapKey, Val, S> View for HashMap<K, Val, S> {
    type V = Map<K::V, Val>;

    closed spec fn view(&self) -> Map<K::V, Val> {
        as_map(self.buckets@)
    }
}

/// Relies on std::hash::RandomState::new: a freshly seeded hasher state.
#[verifier::external_body]
fn fresh_random_state() -> std::hash::RandomState {
    std::hash::RandomState::new()
}

impl<K: MapKey, V> HashMap<K, V, std::hash::RandomState> {
    pub fn new() -> (m: Self)
        ensures
            m.wf(),
            m@ == Map::<K::V, V>::empty(),
    {
        Self::with_hasher(fresh_random_state())
    }
}

impl<K: MapKey, V, S> HashMap<K, V, S> {
    pub closed spec fn spine(&self) -> Seq<Option<(K, V)>> {
        self.buckets@
    }

    /// The structural spine invariant: the fill counter is the occupied-slot
    /// count, keys are distinct, every occupied slot sits on an unbroken
    /// probe path from its start slot, and the spine leaves room to double.
    pub closed spec fn wf_spine(&self) -> bool {
        &&& self.filled == count_filled(self.spine())
        &&& distinct_keys(self.spine())
        &&& forall|i: int|
            0 <= i < self.spine().len() && #[trigger] self.spine()[i] is Some ==> probe_ok(
                self.spine(),
                i,
            )
        &&& self.spine().len() <= usize::MAX / 4
    }

    /// The full invariant: the spine invariant, and a spine that was ever
    /// allocated holds at least one entry (nothing is ever removed).
    pub closed spec fn wf(&self) -> bool {
        &&& self.wf_spine()
        &&& (self.spine().len() > 0 ==> self.filled > 0)
    }

    pub fn with_hasher(state: S) -> (m: Self)
        ensures
            m.wf(),
            m@ == Map::<K::V, V>::empty(),
    {
        let m = HashMap { buckets: Vec::new(), filled: 0, s: state };
        proof {
            assert(m.spine().len() == 0);
            assert(count_filled(m.spine()) == 0);
            assert(as_map(m.spine()) =~= Map::<K::V, V>::empty());
        }
        m
    }

    pub fn len(&self) -> (n: usize)
        requires
            self.wf(),
        ensures
            n == self@.len(),
    {
        proof {
            lemma_as_map_props(self.spine());
        }
        self.filled
    }

    fn bucket_of_elem(&self, key: &K) -> (b: usize)
        requires
            self.spine().len() > 0,
        ensures
            b as int == start_of::<K>(key@, self.spine().len() as int),
            b < self.spine().len(),
    {
        let hash = key.key_hash();
        (hash % (self.buckets.len() as u64)) as usize
    }

    /// Look the key up: scan from its start slot until the key, a hole, or a
    /// full cycle. The result is `Some` exactly when the key is in the map,
    /// and then carries its value.
    pub fn get(&self, key: &K) -> (r: Option<&V>)
        requires
            self.wf(),
        ensures
            match r {
                Some(v) => self@.contains_key(key@) && *v == self@[key@],
                None => !self@.contains_key(key@),
            },
    {
        proof {
            lemma_as_map_props(self.spine());
        }
        if self.buckets.len() == 0 {
            return None;
        }
        let n = self.buckets.len();
        let start = self.bucket_of_elem(key);
        let mut d: usize = 0;
        loop
            invariant
                self.wf(),
                n == self.spine().len(),
                0 < n,
                start < n,
                start as int == start_of::<K>(key@, n as int),
                d <= n,
                forall|e: int|
                    0 <= e < d ==> (#[trigger] self.spine()[probe_at(start as int, e, n as int)])
                        is Some && slot_key(self.spine()[probe_at(start as int, e, n as int)])
                        != key@,
            decreases n - d,
        {
            proof {
                lemma_as_map_props(self.spine());
            }
            if d == n {
                proof {
                    if has_key(self.spine(), key@) {
                        let i = choose|i: int|
                            0 <= i < self.spine().len() && #[trigger] self.spine()[i] is Some
                                && slot_key(self.spine()[i]) == key@;
                        let di = dist(start as int, i, n as int);
                        assert(probe_at(start as int, di, n as int) == i);
                    }
                }
                return None;
            }
            let idx = if start + d < n {
                start + d
            } else {
                start + d - n
            };
            match &self.buckets[idx] {
                Some(p) => {
                    if p.0.key_eq(key) {
                        return Some(&p.1);
                    }
                },
                None => {
                    proof {
                        if has_key(self.spine(), key@) {
                            let i = choose|i: int|
                                0 <= i < self.spine().len() && #[trigger] self.spine()[i] is Some
                                    && slot_key(self.spine()[i]) == key@;
                            let di = dist(start as int, i, n as int);
                            assert(probe_at(start as int, di, n as int) == i);
                            assert(probe_ok(self.spine(), i));
                            if di > d {
                                assert(self.spine()[probe_at(start as int, d as int, n as int)]
                                    is Some);
                            }
                        }
                    }
                    return None;
                },
            }
            d = d + 1;
        }
    }

    /// Settle an entry whose key is nowhere in the spine into the first hole
    /// on its probe path.
    fn place(&mut self, k: K, v: V)
        requires
            old(self).wf_spine(),
            !has_key(old(self).spine(), k@),
            old(self).filled < old(self).spine().len(),
        ensures
            final(self).wf_spine(),
            final(self).spine().len() == old(self).spine().len(),
            final(self)@ == old(self)@.insert(k@, v),
            final(self).filled == old(self).filled + 1,
    {
        let n = self.buckets.len();
        let start = self.bucket_of_elem(&k);
        let mut d: usize = 0;
        loop
            invariant
                self.wf_spine(),
                *self == *old(self),
                !has_key(self.spine(), k@),
                self.filled < n,
                n == self.spine().len(),
                0 < n,
                start < n,
                start as int == start_of::<K>(k@, n as int),
                d <= n,
                forall|e: int|
                    0 <= e < d ==> (#[trigger] self.spine()[probe_at(start as int, e, n as int)])
                        is Some,
            decreases n - d,
        {
            if d == n {
                proof {
                    assert forall|i: int| 0 <= i < n implies (#[trigger] self.spine()[i])
                        is Some by {
                        let di = dist(start as int, i, n as int);
                        assert(probe_at(start as int, di, n as int) == i);
                    }
                    lemma_count_all_some(self.spine());
                }
                return unreached();
            }
            let idx = if start + d < n {
                start + d
            } else {
                start + d - n
            };
            if self.buckets[idx].is_none() {
                let ghost pre = self.spine();
                self.buckets.set(idx, Some((k, v)));
                self.filled = self.filled + 1;
                proof {
                    lemma_count_update(pre, idx as int, Some((k, v)));
                    lemma_as_map_update(pre, idx as int, k, v);
                    let post = self.spine();
                    assert(distinct_keys(post)) by {
                        assert forall|i: int, j: int|
                            #![trigger post[i], post[j]]
                            0 <= i < j < post.len() && post[i] is Some && post[j]
                                is Some implies slot_key(post[i]) != slot_key(post[j]) by {
                            if i != idx && j != idx {
                                assert(pre[i] == post[i] && pre[j] == post[j]);
                            } else {
                                let other = if i == idx {
                                    j
                                } else {
                                    i
                                };
                                if pre[other] is Some && slot_key(pre[other]) == k@ {
                                    assert(has_key(pre, k@));
                                }
                            }
                        }
                    }
                    assert forall|i: int|
                        0 <= i < post.len() && #[trigger] post[i] is Some implies probe_ok(
                        post,
                        i,
                    ) by {
                        if i == idx {
                            assert(dist(start as int, idx as int, n as int) == d);
                            assert forall|e: int| 0 <= e < d implies (#[trigger] post[probe_at(
                                start as int,
                                e,
                                n as int,
                            )]) is Some by {
                                if probe_at(start as int, e, n as int) != idx {
                                    assert(post[probe_at(start as int, e, n as int)] == pre[
                                        probe_at(start as int, e, n as int)]);
                                }
                            }
                        } else {
                            assert(probe_ok(pre, i));
                            assert(slot_key(post[i]) == slot_key(pre[i]));
                            let h = start_of::<K>(slot_key(pre[i]), n as int);
                            assert forall|e: int|
                                0 <= e < dist(h, i, n as int) implies (#[trigger] post[probe_at(
                                h,
                                e,
                                n as int,
                            )]) is Some by {
                                if probe_at(h, e, n as int) != idx {
                                    assert(post[probe_at(h, e, n as int)] == pre[probe_at(
                                        h,
                                        e,
                                        n as int,
                                    )]);
                                }
                            }
                        }
                    }
                }
                return ;
            }
            d = d + 1;
        }
    }

    /// Replace the spine by one at least twice as large (eight slots at the
    /// least) and re-settle every entry onto its new probe path.
    fn grow(&mut self)
        requires
            old(self).wf_spine(),
            old(self).filled == old(self).spine().len(),
            old(self).filled < usize::MAX / 8,
        ensures
            final(self).wf_spine(),
            final(self)@ == old(self)@,
            final(self).filled == old(self).filled,
            final(self).filled < final(self).spine().len(),
    {
        let n_old = self.buckets.len();
        let new_len = if n_old == 0 {
            8
        } else {
            n_old * 2
        };
        proof {
            assert(n_old < usize::MAX / 8);
            assert(new_len <= usize::MAX / 4);
        }
        let mut old_buckets: Vec<Option<(K, V)>> = Vec::new();
        core::mem::swap(&mut self.buckets, &mut old_buckets);
        self.filled = 0;
        let ghost target = as_map(old_buckets@);
        let ghost old_count = count_filled(old_buckets@);
        proof {
            lemma_as_map_props(old_buckets@);
        }
        while self.buckets.len() < new_len
            invariant
                self.filled == 0,
                self.buckets@.len() <= new_len,
                forall|i: int| 0 <= i < self.buckets@.len() ==> (#[trigger] self.buckets@[i]) is None,
            decreases new_len - self.buckets@.len(),
        {
            self.buckets.push(None);
        }
        proof {
            lemma_as_map_all_none(self.spine());
            lemma_count_all_none(self.spine());
            lemma_as_map_props(self.spine());
            assert(self.spine().len() == new_len);
            assert(new_len <= usize::MAX / 4);
            assert(self.wf_spine());
        }
        while old_buckets.len() > 0
            invariant
                self.wf_spine(),
                self.spine().len() == new_len,
                0 < new_len <= usize::MAX / 4,
                distinct_keys(old_buckets@),
                self.filled + count_filled(old_buckets@) == old_count,
                old_count < usize::MAX / 8,
                old_count < new_len,
                forall|kv: K::V| #[trigger]
                    target.contains_key(kv) <==> (as_map(old_buckets@).contains_key(kv) || as_map(
                        self.spine(),
                    ).contains_key(kv)),
                forall|kv: K::V| #[trigger]
                    as_map(old_buckets@).contains_key(kv) ==> target[kv] == as_map(old_buckets@)[kv],
                forall|kv: K::V| #[trigger]
                    as_map(self.spine()).contains_key(kv) ==> target[kv] == as_map(self.spine())[kv],
                forall|kv: K::V|
                    !(#[trigger] as_map(old_buckets@).contains_key(kv) && as_map(
                        self.spine(),
                    ).contains_key(kv)),
            decreases old_buckets.len(),
        {
            let ghost rem_pre = old_buckets@;
            proof {
                lemma_as_map_props(rem_pre);
                lemma_as_map_props(self.spine());
                assert(count_filled(rem_pre) <= old_count);
                assert(self.filled <= old_count);
                assert(old_count <= new_len);
            }
            let slot = old_buckets.pop().unwrap();
            proof {
                assert(old_buckets@ =~= rem_pre.drop_last());
                assert(distinct_keys(old_buckets@));
            }
            match slot {
                Some(pair) => {
                    let (k, v) = pair;
                    proof {
                        assert(rem_pre[rem_pre.len() - 1] is Some);
                        assert(slot_key(rem_pre[rem_pre.len() - 1]) == k@);
                        assert(has_key(rem_pre, k@));
                        assert(as_map(rem_pre).contains_key(k@));
                        if has_key(self.spine(), k@) {
                            lemma_as_map_props(self.spine());
                            assert(as_map(self.spine()).contains_key(k@));
                        }
                        if has_key(old_buckets@, k@) {
                            lemma_as_map_props(old_buckets@);
                            let j = choose|j: int|
                                0 <= j < old_buckets@.len() && #[trigger] old_buckets@[j] is Some
                                    && slot_key(old_buckets@[j]) == k@;
                            assert(rem_pre[j] is Some && slot_key(rem_pre[j]) == k@);
                            assert(false);
                        }
                        lemma_as_map_props(old_buckets@);
                    }
                    let ghost built_pre = as_map(self.spine());
                    self.place(k, v);
                    proof {
                        lemma_as_map_props(old_buckets@);
                        lemma_as_map_props(self.spine());
                        assert(as_map(rem_pre) == as_map(old_buckets@).insert(k@, v));
                    }
                },
                None => {
                    proof {
                        assert(as_map(rem_pre) == as_map(old_buckets@));
                        assert(count_filled(rem_pre) == count_filled(old_buckets@));
                    }
                },
            }
        }
        proof {
            lemma_as_map_props(old_buckets@);
            assert(old_buckets@.len() == 0);
            assert(forall|kv: K::V| !(#[trigger] as_map(old_buckets@).contains_key(kv)));
            assert(as_map(self.spine()) =~= target);
            lemma_as_map_props(self.spine());
        }
    }

    /// Insert the entry, replacing any entry the key already had: the map
    /// afterwards is the map before with this one binding added or updated.
    /// The map must not yet have grown past a quarter of the address space.
    pub fn insert(&mut self, key: K, value: V)
        requires
            old(self).wf(),
            old(self)@.len() < usize::MAX / 8,
        ensures
            final(self).wf(),
            final(self)@ == old(self)@.insert(key@, value),
    {
        let _ = self.insert_fetch(key, value);
    }

    /// Insert the entry and hand back the value the key was bound to before,
    /// if it was bound at all.
    pub(crate) fn insert_fetch(&mut self, key: K, value: V) -> (prev: Option<V>)
        requires
            old(self).wf(),
            old(self)@.len() < usize::MAX / 8,
        ensures
            final(self).wf(),
            final(self)@ == old(self)@.insert(key@, value),
            match prev {
                Some(p) => old(self)@.contains_key(key@) && p == old(self)@[key@],
                None => !old(self)@.contains_key(key@),
            },
    {
        proof {
            lemma_as_map_props(self.spine());
        }
        if self.filled >= self.buckets.len() {
            proof {
                lemma_count_bound(self.spine());
            }
            self.grow();
        }
        let n = self.buckets.len();
        let start = self.bucket_of_elem(&key);
        let mut d: usize = 0;
        loop
            invariant
                self.wf_spine(),
                self@ == old(self)@,
                self.filled < n,
                n == self.spine().len(),
                0 < n,
                start < n,
                start as int == start_of::<K>(key@, n as int),
                d <= n,
                forall|e: int|
                    0 <= e < d ==> (#[trigger] self.spine()[probe_at(start as int, e, n as int)])
                        is Some && slot_key(self.spine()[probe_at(start as int, e, n as int)])
                        != key@,
            decreases n - d,
        {
            if d == n {
                proof {
                    assert forall|i: int| 0 <= i < n implies (#[trigger] self.spine()[i])
                        is Some by {
                        let di = dist(start as int, i, n as int);
                        assert(probe_at(start as int, di, n as int) == i);
                    }
                    lemma_count_all_some(self.spine());
                }
                return unreached();
            }
            let idx = if start + d < n {
                start + d
            } else {
                start + d - n
            };
            let replaces = match &self.buckets[idx] {
                Some(p) => p.0.key_eq(&key),
                None => false,
            };
            let fills_hole = self.buckets[idx].is_none();
            if fills_hole || replaces {
                let ghost pre = self.spine();
                proof {
                    if pre[idx as int] is None && has_key(pre, key@) {
                        let i = choose|i: int|
                            0 <= i < pre.len() && #[trigger] pre[i] is Some && slot_key(pre[i])
                                == key@;
                        let di = dist(start as int, i, n as int);
                        assert(probe_at(start as int, di, n as int) == i);
                        assert(probe_ok(pre, i));
                        if di > d {
                            assert(pre[probe_at(start as int, d as int, n as int)] is Some);
                        }
                        assert(false);
                    }
                }
                if fills_hole {
                    self.filled = self.filled + 1;
                }
                let prev_slot = self.buckets.remove(idx);
                self.buckets.insert(idx, Some((key, value)));
                let prev = match prev_slot {
                    Some(p) => Some(p.1),
                    None => None,
                };
                proof {
                    assert(self.spine() =~= pre.update(idx as int, Some((key, value))));
                    lemma_as_map_props(pre);
                    lemma_count_update(pre, idx as int, Some((key, value)));
                    lemma_as_map_update(pre, idx as int, key, value);
                    let post = self.spine();
                    assert(distinct_keys(post)) by {
                        assert forall|i: int, j: int|
                            #![trigger post[i], post[j]]
                            0 <= i < j < post.len() && post[i] is Some && post[j]
                                is Some implies slot_key(post[i]) != slot_key(post[j]) by {
                            if i != idx && j != idx {
                                assert(pre[i] == post[i] && pre[j] == post[j]);
                            } else {
                                let other = if i == idx {
                                    j
                                } else {
                                    i
                                };
                                assert(post[other] == pre[other]);
                                if pre[other] is Some && slot_key(pre[other]) == key@ {
                                    if pre[idx as int] is Some {
                                        assert(slot_key(pre[idx as int]) == key@);
                                        assert(false);
                                    } else {
                                        assert(has_key(pre, key@));
                                        assert(false);
                                    }
                                }
                            }
                        }
                    }
                    assert forall|i: int|
                        0 <= i < post.len() && #[trigger] post[i] is Some implies probe_ok(
                        post,
                        i,
                    ) by {
                        if i == idx {
                            assert(dist(start as int, idx as int, n as int) == d);
                            assert forall|e: int| 0 <= e < d implies (#[trigger] post[probe_at(
                                start as int,
                                e,
                                n as int,
                            )]) is Some by {
                                if probe_at(start as int, e, n as int) != idx {
                                    assert(post[probe_at(start as int, e, n as int)] == pre[
                                        probe_at(start as int, e, n as int)]);
                                }
                            }
                        } else {
                            assert(probe_ok(pre, i));
                            assert(slot_key(post[i]) == slot_key(pre[i]));
                            let h = start_of::<K>(slot_key(pre[i]), n as int);
                            assert forall|e: int|
                                0 <= e < dist(h, i, n as int) implies (#[trigger] post[probe_at(
                                h,
                                e,
                                n as int,
                            )]) is Some by {
                                if probe_at(h, e, n as int) != idx {
                                    assert(post[probe_at(h, e, n as int)] == pre[probe_at(
                                        h,
                                        e,
                                        n as int,
                                    )]);
                                }
                            }
                        }
                    }
                    lemma_count_pos(post, idx as int);
                }
                return prev;
            }
            d = d + 1;
        }
    }

    /// Turn the map into an iterator over its entries: every entry comes out
    /// exactly once (no key twice), and there are as many entries as the map
    /// had.
    pub fn into_iter(self) -> (it: IntoIter<K, V>)
        requires
            self.wf(),
        ensures
            it@.len() == self@.len(),
            forall|i: int|
                0 <= i < it@.len() ==> #[trigger] self@.contains_key(it@[i].0@) && self@[it@[i].0@]
                    == it@[i].1,
            forall|i: int, j: int|
                0 <= i < j < it@.len() ==> (#[trigger] it@[i]).0@ != (#[trigger] it@[j]).0@,
    {
        proof {
            lemma_entries_props(self.spine());
            lemma_as_map_props(self.spine());
            assert(forall|i: int|
                0 <= i < entries_of(self.spine()).len() ==> #[trigger] self@.contains_key(
                    entries_of(self.spine())[i].0@,
                ) && self@[entries_of(self.spine())[i].0@] == entries_of(self.spine())[i].1);
        }
        IntoIter::new(self.buckets)
    }

    /// The model of a well-formed map is a finite map, so callers can do
    /// cardinality arithmetic on it — for instance, that inserting a key the
    /// map does not hold grows `len()` by exactly one.
    pub proof fn lemma_model_finite(&self)
        requires
            self.wf(),
        ensures
            self@.dom().finite(),
    {
        lemma_as_map_props(self.spine());
    }

    pub fn is_empty(&self) -> (r: bool)
        requires
            self.wf(),
        ensures
            r <==> self@.len() == 0,
    {
        proof {
            lemma_as_map_props(self.spine());
            if self.spine().len() == 0 {
                assert(self@.dom().len() == 0);
            } else {
                assert(self@.dom().len() > 0);
            }
        }
        self.buckets.len() == 0
    }
}

} // verus!
