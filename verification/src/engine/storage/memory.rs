//! In-memory storage.
//!
//! A test fixture and the reference for what every backend does. Entries are kept in the order of
//! their keys; every write takes a fresh version from one counter.

use vstd::prelude::*;
use vstd::slice::slice_to_vec;

use super::key::StorageKey;
use super::version::{Version, be_bytes, law_counter_tokens_are_distinct};
use crate::text::{
    has_prefix, lemma_text_less_irreflexive, lemma_text_less_total, lemma_text_less_transitive,
    same_text, starts_with, text_before, text_less,
};

verus! {

struct Entry {
    key: StorageKey,
    bytes: Vec<u8>,
    version: Version,
}

/// In-memory key/value storage, versioned for compare-and-set.
pub struct MemoryStorage {
    entries: Vec<Entry>,
    next_version: u64,
    wrapped: Ghost<bool>,
}

/// What a store holds under a key: the bytes and their version.
pub type Stored = (Seq<u8>, Seq<u8>);

/// The model of a store.
#[verifier::ext_equal]
pub struct StoreModel {
    pub entries: Map<Seq<char>, Stored>,
    pub counter: u64,
    /// Whether the counter has run through all its values.
    pub wrapped: bool,
}

/// The store after the counter gave out a version.
pub open spec fn minted(s: StoreModel) -> StoreModel {
    StoreModel {
        counter: if s.counter == u64::MAX {
            0
        } else {
            (s.counter + 1) as u64
        },
        wrapped: s.wrapped || s.counter == u64::MAX,
        ..s
    }
}

/// The store after a write.
pub open spec fn written(s: StoreModel, key: Seq<char>, bytes: Seq<u8>) -> StoreModel {
    StoreModel { entries: s.entries.insert(key, (bytes, be_bytes(s.counter))), ..minted(s) }
}

/// The store after a deletion.
pub open spec fn deleted(s: StoreModel, key: Seq<char>) -> StoreModel {
    StoreModel { entries: s.entries.remove(key), ..s }
}

/// Whether a compare-and-set write goes through: the key is absent where no version is expected,
/// or it has the expected one.
pub open spec fn admits(s: StoreModel, key: Seq<char>, expected: Option<Seq<u8>>) -> bool {
    match expected {
        None => !s.entries.dom().contains(key),
        Some(v) => s.entries.dom().contains(key) && s.entries[key].1 == v,
    }
}

/// The store after a compare-and-set attempt. A failed one uses up a version, too.
pub open spec fn attempted(
    s: StoreModel,
    key: Seq<char>,
    bytes: Seq<u8>,
    expected: Option<Seq<u8>>,
) -> StoreModel {
    if admits(s, key, expected) {
        written(s, key, bytes)
    } else {
        minted(s)
    }
}

/// Whether every version in the store was given out by the counter before.
pub open spec fn versions_issued(s: StoreModel) -> bool {
    forall|k: Seq<char>| #[trigger]
        s.entries.dom().contains(k) ==> exists|n: u64|
            n < s.counter && s.entries[k].1 == #[trigger] be_bytes(n)
}

/// What is known of the versions of every store; nothing any more once the counter has wrapped.
pub open spec fn is_valid(s: StoreModel) -> bool {
    !s.wrapped ==> versions_issued(s)
}

/// A version that the counter has not given out so far, and that no key has.
pub open spec fn is_fresh(s: StoreModel, version: Seq<u8>) -> bool {
    &&& forall|n: u64| n < s.counter ==> version != #[trigger] be_bytes(n)
    &&& forall|k: Seq<char>| #[trigger]
        s.entries.dom().contains(k) ==> s.entries[k].1 != version
}

/// Whether `keys` are exactly the keys of the store below `prefix`, in order.
pub open spec fn lists(s: StoreModel, prefix: Seq<char>, keys: Seq<Seq<char>>) -> bool {
    &&& forall|i: int, j: int|
        0 <= i < j < keys.len() ==> text_less(#[trigger] keys[i], #[trigger] keys[j])
    &&& forall|k: Seq<char>| #[trigger]
        keys.contains(k) <==> s.entries.dom().contains(k) && has_prefix(k, prefix)
}

/// The texts of a list of keys.
pub open spec fn key_texts(keys: Seq<StorageKey>) -> Seq<Seq<char>> {
    keys.map_values(|k: StorageKey| k@)
}

/// The entries as a map.
spec fn contents(entries: Seq<Entry>) -> Map<Seq<char>, Stored>
    decreases entries.len(),
{
    if entries.len() == 0 {
        Map::empty()
    } else {
        contents(entries.drop_last()).insert(
            entries.last().key@,
            (entries.last().bytes@, entries.last().version@),
        )
    }
}

spec fn sorted(entries: Seq<Entry>) -> bool {
    forall|i: int, j: int|
        0 <= i < j < entries.len() ==> text_less(
            (#[trigger] entries[i]).key@,
            (#[trigger] entries[j]).key@,
        )
}

proof fn lemma_sorted_keys_differ(entries: Seq<Entry>, i: int, j: int)
    requires
        sorted(entries),
        0 <= i < entries.len(),
        0 <= j < entries.len(),
        entries[i].key@ == entries[j].key@,
    ensures
        i == j,
{
    lemma_text_less_irreflexive(entries[i].key@);
    if i < j {
        assert(text_less(entries[i].key@, entries[j].key@));
    }
    if j < i {
        assert(text_less(entries[j].key@, entries[i].key@));
    }
}

/// What the map holds, entry by entry.
proof fn lemma_contents(entries: Seq<Entry>)
    requires
        sorted(entries),
    ensures
        forall|i: int|
            0 <= i < entries.len() ==> contents(entries).dom().contains(
                (#[trigger] entries[i]).key@,
            ) && contents(entries)[entries[i].key@] == (entries[i].bytes@, entries[i].version@),
        forall|k: Seq<char>| #[trigger]
            contents(entries).dom().contains(k) ==> exists|i: int|
                0 <= i < entries.len() && (#[trigger] entries[i]).key@ == k,
    decreases entries.len(),
{
    if entries.len() > 0 {
        let rest = entries.drop_last();
        let last = entries.last();
        assert(sorted(rest)) by {
            assert forall|i: int, j: int| 0 <= i < j < rest.len() implies text_less(
                (#[trigger] rest[i]).key@,
                (#[trigger] rest[j]).key@,
            ) by {
                assert(rest[i] == entries[i] && rest[j] == entries[j]);
            }
        }
        lemma_contents(rest);
        assert forall|i: int| 0 <= i < entries.len() implies contents(entries).dom().contains(
            (#[trigger] entries[i]).key@,
        ) && contents(entries)[entries[i].key@] == (entries[i].bytes@, entries[i].version@) by {
            if i < rest.len() {
                assert(rest[i] == entries[i]);
                if entries[i].key@ == last.key@ {
                    assert(last == entries[entries.len() - 1]);
                    lemma_sorted_keys_differ(entries, i, entries.len() - 1);
                }
            }
        }
        assert forall|k: Seq<char>| #[trigger]
            contents(entries).dom().contains(k) implies exists|i: int|
            0 <= i < entries.len() && (#[trigger] entries[i]).key@ == k by {
            if k == last.key@ {
                assert(entries[entries.len() - 1].key@ == k);
            } else {
                assert(contents(rest).dom().contains(k));
                let i = choose|i: int| 0 <= i < rest.len() && (#[trigger] rest[i]).key@ == k;
                assert(entries[i].key@ == k);
            }
        }
    }
}

proof fn lemma_minted(s: StoreModel)
    requires
        is_valid(s),
    ensures
        is_valid(minted(s)),
{
    if !minted(s).wrapped {
        assert forall|k: Seq<char>| #[trigger] s.entries.dom().contains(k) implies exists|n: u64|
            n < minted(s).counter && s.entries[k].1 == #[trigger] be_bytes(n) by {
            let n = choose|n: u64| n < s.counter && s.entries[k].1 == #[trigger] be_bytes(n);
            assert(n < minted(s).counter && s.entries[k].1 == be_bytes(n));
        }
    }
}

/// The next version of the counter is fresh.
proof fn lemma_fresh(s: StoreModel)
    requires
        is_valid(s),
        !s.wrapped,
    ensures
        is_fresh(s, be_bytes(s.counter)),
{
    assert forall|n: u64| n < s.counter implies be_bytes(s.counter) != #[trigger] be_bytes(n) by {
        if be_bytes(s.counter) == be_bytes(n) {
            law_counter_tokens_are_distinct(s.counter, n);
        }
    }
    assert forall|k: Seq<char>| #[trigger] s.entries.dom().contains(k) implies s.entries[k].1
        != be_bytes(s.counter) by {
        let n = choose|n: u64| n < s.counter && s.entries[k].1 == #[trigger] be_bytes(n);
        assert(be_bytes(s.counter) != be_bytes(n));
    }
}

impl View for MemoryStorage {
    type V = StoreModel;

    closed spec fn view(&self) -> StoreModel {
        StoreModel {
            entries: contents(self.entries@),
            counter: self.next_version,
            wrapped: self.wrapped@,
        }
    }
}

impl MemoryStorage {
    /// The entries stand in the order of their keys, each key once, and their versions came from the
    /// counter.
    #[verifier::type_invariant]
    spec fn inv(&self) -> bool {
        sorted(self.entries@) && is_valid(self@)
    }

    pub fn new() -> (s: MemoryStorage)
        ensures
            s@.entries == Map::<Seq<char>, Stored>::empty(),
            s@.counter == 0,
            !s@.wrapped,
    {
        MemoryStorage { entries: Vec::new(), next_version: 0, wrapped: Ghost(false) }
    }

    fn mint_version(&mut self) -> (v: Version)
        ensures
            v@ == be_bytes(old(self).next_version),
            final(self)@ == minted(old(self)@),
            final(self).entries == old(self).entries,
    {
        proof {
            use_type_invariant(&*self);
        }
        let n: u64 = self.next_version;
        let next: u64 = n.wrapping_add(1);
        let ghost before = self@;
        proof {
            lemma_minted(before);
        }
        if next == 0 {
            self.wrapped = Ghost(true);
        }
        self.next_version = next;
        Version::from_counter(n)
    }

    /// Where `key` stands or would stand.
    fn position(&self, key: &StorageKey) -> (r: (usize, bool))
        ensures
            r.0 <= self.entries.len(),
            forall|j: int| 0 <= j < r.0 ==> text_less((#[trigger] self.entries@[j]).key@, key@),
            r.1 ==> r.0 < self.entries.len() && self.entries@[r.0 as int].key@ == key@,
            !r.1 ==> forall|j: int|
                r.0 <= j < self.entries.len() ==> text_less(
                    key@,
                    (#[trigger] self.entries@[j]).key@,
                ),
            r.1 == self@.entries.dom().contains(key@),
    {
        proof {
            use_type_invariant(self);
        }
        let n: usize = self.entries.len();
        let mut i: usize = 0;
        while i < n && text_before(self.entries[i].key.as_str(), key.as_str())
            invariant
                n == self.entries.len(),
                i <= n,
                forall|j: int| 0 <= j < i ==> text_less((#[trigger] self.entries@[j]).key@, key@),
            decreases n - i,
        {
            i += 1;
        }
        proof {
            lemma_contents(self.entries@);
        }
        if i < n && same_text(self.entries[i].key.as_str(), key.as_str()) {
            return (i, true);
        }
        proof {
            let entries = self.entries@;
            assert forall|j: int| i <= j < n implies text_less(
                key@,
                (#[trigger] entries[j]).key@,
            ) by {
                lemma_text_less_total(entries[i as int].key@, key@);
                if j > i {
                    assert(text_less(entries[i as int].key@, entries[j].key@));
                    lemma_text_less_transitive(key@, entries[i as int].key@, entries[j].key@);
                }
            }
            if self@.entries.dom().contains(key@) {
                let k = choose|k: int| 0 <= k < n && (#[trigger] entries[k]).key@ == key@;
                lemma_text_less_irreflexive(key@);
                if k < i {
                    assert(text_less(entries[k].key@, key@));
                } else {
                    assert(text_less(key@, entries[k].key@));
                }
            }
        }
        (i, false)
    }

    /// The bytes under `key`. An absent key is no error.
    pub fn get(&self, key: &StorageKey) -> (r: Option<Vec<u8>>)
        ensures
            match r {
                Some(bytes) => self@.entries.dom().contains(key@) && self@.entries[key@].0
                    == bytes@,
                None => !self@.entries.dom().contains(key@),
            },
    {
        let (at, found) = self.position(key);
        if found {
            proof {
                use_type_invariant(self);
                lemma_contents(self.entries@);
            }
            Some(slice_to_vec(self.entries[at].bytes.as_slice()))
        } else {
            None
        }
    }

    /// The bytes under `key` and their version.
    pub fn get_with_version(&self, key: &StorageKey) -> (r: Option<(Vec<u8>, Version)>)
        ensures
            match r {
                Some((bytes, version)) => self@.entries.dom().contains(key@) && self@.entries[key@]
                    == (bytes@, version@),
                None => !self@.entries.dom().contains(key@),
            },
    {
        let (at, found) = self.position(key);
        if found {
            proof {
                use_type_invariant(self);
                lemma_contents(self.entries@);
            }
            Some(
                (
                    slice_to_vec(self.entries[at].bytes.as_slice()),
                    self.entries[at].version.duplicate(),
                ),
            )
        } else {
            None
        }
    }

    /// Puts the entry in its place.
    fn store(&mut self, key: &StorageKey, bytes: Vec<u8>, version: Version)
        requires
            !old(self)@.wrapped ==> exists|n: u64|
                n < old(self)@.counter && version@ == #[trigger] be_bytes(n),
        ensures
            final(self)@ == (StoreModel {
                entries: old(self)@.entries.insert(key@, (bytes@, version@)),
                ..old(self)@
            }),
    {
        proof {
            use_type_invariant(&*self);
        }
        let ghost whole = self@;
        let (at, found) = self.position(key);
        let entry = Entry { key: key.duplicate(), bytes, version };
        let ghost before = self.entries@;
        proof {
            lemma_contents(before);
        }
        let mut entries: Vec<Entry> = Vec::new();
        std::mem::swap(&mut entries, &mut self.entries);
        if found {
            entries.set(at, entry);
            proof {
                let after = entries@;
                assert(forall|j: int| 0 <= j < after.len() ==> after[j].key@ == before[j].key@);
                assert(sorted(after)) by {
                    assert forall|i: int, j: int| 0 <= i < j < after.len() implies text_less(
                        (#[trigger] after[i]).key@,
                        (#[trigger] after[j]).key@,
                    ) by {
                        assert(text_less(before[i].key@, before[j].key@));
                    }
                }
            }
        } else {
            entries.insert(at, entry);
            proof {
                let after = entries@;
                assert(sorted(after)) by {
                    assert forall|i: int, j: int| 0 <= i < j < after.len() implies text_less(
                        (#[trigger] after[i]).key@,
                        (#[trigger] after[j]).key@,
                    ) by {
                        if i < at && j < at {
                            assert(text_less(before[i].key@, before[j].key@));
                        } else if i > at {
                            assert(text_less(before[i - 1].key@, before[j - 1].key@));
                        } else if i < at && j > at {
                            assert(text_less(before[i].key@, before[j - 1].key@));
                        } else if i == at {
                            assert(text_less(key@, before[j - 1].key@));
                        } else {
                            assert(text_less(before[i].key@, key@));
                        }
                    }
                }
            }
        }
        proof {
            let after = entries@;
            lemma_contents(after);
            let a = contents(after);
            let b = contents(before).insert(key@, (bytes@, version@));
            assert(after[at as int].key@ == key@);
            assert forall|k: Seq<char>| #[trigger] a.dom().contains(k) == b.dom().contains(k) by {
                if a.dom().contains(k) {
                    let i = choose|i: int| 0 <= i < after.len() && (#[trigger] after[i]).key@ == k;
                    if i != at {
                        let h = if found || i < at {
                            i
                        } else {
                            i - 1
                        };
                        assert(before[h].key@ == k);
                    }
                }
                if b.dom().contains(k) && k != key@ {
                    let h = choose|h: int|
                        0 <= h < before.len() && (#[trigger] before[h]).key@ == k;
                    let i = if found || h < at {
                        h
                    } else {
                        h + 1
                    };
                    assert(after[i].key@ == k);
                }
            }
            assert forall|k: Seq<char>| #[trigger] a.dom().contains(k) implies a[k] == b[k] by {
                let i = choose|i: int| 0 <= i < after.len() && (#[trigger] after[i]).key@ == k;
                if i == at {
                    assert(k == key@);
                } else {
                    if k == key@ {
                        lemma_sorted_keys_differ(after, i, at as int);
                    }
                    let h = if found || i < at {
                        i
                    } else {
                        i - 1
                    };
                    assert(before[h] == after[i]);
                }
            }
            assert(a =~= b);
            let model = StoreModel { entries: a, ..whole };
            assert(is_valid(model)) by {
                if !whole.wrapped {
                    assert forall|k: Seq<char>| #[trigger] a.dom().contains(k) implies exists|n: u64|
                        n < whole.counter && a[k].1 == #[trigger] be_bytes(n) by {
                        if k != key@ {
                            assert(whole.entries.dom().contains(k));
                        }
                    }
                }
            }
        }
        self.entries = entries;
    }

    /// Writes a key, over what it held, under a version that no key had before.
    pub fn put(&mut self, key: &StorageKey, bytes: Vec<u8>)
        ensures
            final(self)@ == written(old(self)@, key@, bytes@),
            !old(self)@.wrapped ==> is_fresh(old(self)@, final(self)@.entries[key@].1),
            is_valid(final(self)@),
    {
        proof {
            use_type_invariant(&*self);
            if !self@.wrapped {
                lemma_fresh(self@);
            }
        }
        let version = self.mint_version();
        self.store(key, bytes, version);
        proof {
            use_type_invariant(&*self);
            assert(self@ =~= written(old(self)@, key@, bytes@));
        }
    }

    /// Deletes a key. An absent key is no error.
    pub fn delete(&mut self, key: &StorageKey)
        ensures
            final(self)@ == deleted(old(self)@, key@),
            is_valid(final(self)@),
    {
        proof {
            use_type_invariant(&*self);
        }
        let ghost whole = self@;
        let (at, found) = self.position(key);
        let ghost before = self.entries@;
        if found {
            let mut entries: Vec<Entry> = Vec::new();
            std::mem::swap(&mut entries, &mut self.entries);
            let _ = entries.remove(at);
            proof {
                let after = entries@;
                lemma_contents(before);
                assert(sorted(after)) by {
                    assert forall|i: int, j: int| 0 <= i < j < after.len() implies text_less(
                        (#[trigger] after[i]).key@,
                        (#[trigger] after[j]).key@,
                    ) by {
                        let h = if i < at {
                            i
                        } else {
                            i + 1
                        };
                        let k = if j < at {
                            j
                        } else {
                            j + 1
                        };
                        assert(text_less(before[h].key@, before[k].key@));
                    }
                }
                lemma_contents(after);
                let a = contents(after);
                let b = contents(before).remove(key@);
                assert forall|k: Seq<char>| #[trigger] a.dom().contains(k) == b.dom().contains(
                    k,
                ) by {
                    if a.dom().contains(k) {
                        let i = choose|i: int|
                            0 <= i < after.len() && (#[trigger] after[i]).key@ == k;
                        let h = if i < at {
                            i
                        } else {
                            i + 1
                        };
                        assert(before[h].key@ == k);
                        if k == key@ {
                            lemma_sorted_keys_differ(before, h, at as int);
                        }
                    }
                    if b.dom().contains(k) {
                        let h = choose|h: int|
                            0 <= h < before.len() && (#[trigger] before[h]).key@ == k;
                        let i = if h < at {
                            h
                        } else {
                            h - 1
                        };
                        assert(after[i].key@ == k);
                    }
                }
                assert forall|k: Seq<char>| #[trigger] a.dom().contains(k) implies a[k] == b[k] by {
                    let i = choose|i: int| 0 <= i < after.len() && (#[trigger] after[i]).key@ == k;
                    let h = if i < at {
                        i
                    } else {
                        i + 1
                    };
                    assert(before[h] == after[i]);
                }
                assert(a =~= b);
                let model = StoreModel { entries: a, ..whole };
                assert(is_valid(model)) by {
                    if !whole.wrapped {
                        assert forall|k: Seq<char>| #[trigger]
                            a.dom().contains(k) implies exists|n: u64|
                            n < whole.counter && a[k].1 == #[trigger] be_bytes(n) by {
                            assert(whole.entries.dom().contains(k));
                        }
                    }
                }
            }
            self.entries = entries;
        }
        proof {
            use_type_invariant(&*self);
            if !found {
                assert(contents(before).remove(key@) =~= contents(before));
            }
            assert(self@ =~= deleted(old(self)@, key@));
        }
    }

    /// All keys below `prefix`, in order.
    pub fn list(&self, prefix: &StorageKey) -> (out: Vec<StorageKey>)
        ensures
            lists(self@, prefix@, key_texts(out@)),
    {
        proof {
            use_type_invariant(self);
        }
        let ghost entries = self.entries@;
        let mut out: Vec<StorageKey> = Vec::new();
        let ghost mut from: Seq<int> = seq![];
        let mut i: usize = 0;
        while i < self.entries.len()
            invariant
                i <= self.entries.len(),
                entries == self.entries@,
                from.len() == out.len(),
                forall|j: int| 0 <= j < from.len() ==> 0 <= #[trigger] from[j] < i,
                forall|j: int, k: int|
                    0 <= j < k < from.len() ==> #[trigger] from[j] < #[trigger] from[k],
                forall|j: int|
                    0 <= j < out.len() ==> (#[trigger] out@[j])@ == entries[from[j]].key@
                        && has_prefix(out@[j]@, prefix@),
                forall|h: int|
                    0 <= h < i && has_prefix((#[trigger] entries[h]).key@, prefix@)
                        ==> from.contains(h),
            decreases self.entries.len() - i,
        {
            let ghost earlier = from;
            if starts_with(self.entries[i].key.as_str(), prefix.as_str()) {
                out.push(self.entries[i].key.duplicate());
                proof {
                    from = from.push(i as int);
                    assert forall|h: int|
                        0 <= h < i + 1 && has_prefix(
                            (#[trigger] entries[h]).key@,
                            prefix@,
                        ) implies from.contains(h) by {
                        if h < i {
                            let j = choose|j: int| 0 <= j < earlier.len() && earlier[j] == h;
                            assert(from[j] == h);
                        } else {
                            assert(from[earlier.len() as int] == h);
                        }
                    }
                }
            }
            i += 1;
        }
        proof {
            let keys = key_texts(out@);
            lemma_contents(entries);
            assert forall|a: int, b: int| 0 <= a < b < keys.len() implies text_less(
                #[trigger] keys[a],
                #[trigger] keys[b],
            ) by {
                assert(keys[a] == out@[a]@ && keys[b] == out@[b]@);
                assert(from[a] < from[b]);
                assert(text_less(entries[from[a]].key@, entries[from[b]].key@));
            }
            assert forall|k: Seq<char>| #[trigger]
                keys.contains(k) <==> self@.entries.dom().contains(k) && has_prefix(k, prefix@) by {
                if keys.contains(k) {
                    let a = choose|a: int| 0 <= a < keys.len() && keys[a] == k;
                    assert(out@[a]@ == k);
                    assert(entries[from[a]].key@ == k);
                }
                if self@.entries.dom().contains(k) && has_prefix(k, prefix@) {
                    let h = choose|h: int|
                        0 <= h < entries.len() && (#[trigger] entries[h]).key@ == k;
                    assert(from.contains(h));
                    let a = choose|a: int| 0 <= a < from.len() && from[a] == h;
                    assert(out@[a]@ == k);
                    assert(keys[a] == k);
                }
            }
        }
        out
    }

    /// Writes the key if it has the expected version, or, where none is expected, if it is
    /// absent. Says whether it did.
    pub fn put_if_version(
        &mut self,
        key: &StorageKey,
        bytes: Vec<u8>,
        expected_version: Option<&Version>,
    ) -> (ok: bool)
        ensures
            ({
                let expected = match expected_version {
                    Some(v) => Some(v@),
                    None => None,
                };
                &&& ok == admits(old(self)@, key@, expected)
                &&& final(self)@ == attempted(old(self)@, key@, bytes@, expected)
            }),
            ok && !old(self)@.wrapped ==> is_fresh(old(self)@, final(self)@.entries[key@].1),
            is_valid(final(self)@),
    {
        proof {
            use_type_invariant(&*self);
            if !self@.wrapped {
                lemma_fresh(self@);
            }
        }
        let version = self.mint_version();
        let (at, found) = self.position(key);
        proof {
            use_type_invariant(&*self);
            lemma_contents(self.entries@);
        }
        let ok = match expected_version {
            None => !found,
            Some(expected) => found && self.entries[at].version.same(expected),
        };
        if ok {
            self.store(key, bytes, version);
        }
        proof {
            let expected = match expected_version {
                Some(v) => Some(v@),
                None => None,
            };
            use_type_invariant(&*self);
            assert(self@ =~= attempted(old(self)@, key@, bytes@, expected));
        }
        ok
    }
}

impl Default for MemoryStorage {
    fn default() -> (s: MemoryStorage)
        ensures
            s@.entries == Map::<Seq<char>, Stored>::empty(),
            s@.counter == 0,
            !s@.wrapped,
    {
        MemoryStorage::new()
    }
}

// ---- Laws --------------------------------------------------------------------

/// A read gives back what was written last under its key, and a write leaves the other keys as
/// they were.
pub proof fn law_read_after_write(s: StoreModel, key: Seq<char>, bytes: Seq<u8>, other: Seq<char>)
    ensures
        written(s, key, bytes).entries.dom().contains(key),
        written(s, key, bytes).entries[key].0 == bytes,
        other != key ==> {
            &&& written(s, key, bytes).entries.dom().contains(other)
                == s.entries.dom().contains(other)
            &&& s.entries.dom().contains(other) ==> written(s, key, bytes).entries[other]
                == s.entries[other]
        },
{
}

/// A deleted key is gone, deleting it again changes nothing, and the other keys stay.
pub proof fn law_delete_is_idempotent(s: StoreModel, key: Seq<char>, other: Seq<char>)
    ensures
        !deleted(s, key).entries.dom().contains(key),
        deleted(deleted(s, key), key) == deleted(s, key),
        other != key && s.entries.dom().contains(other) ==> deleted(s, key).entries.dom().contains(
            other,
        ) && deleted(s, key).entries[other] == s.entries[other],
{
    assert(deleted(deleted(s, key), key) =~= deleted(s, key));
}

/// A create-only write goes through at most once, until the key is deleted.
pub proof fn law_create_only_succeeds_once(
    s: StoreModel,
    key: Seq<char>,
    first: Seq<u8>,
    second: Seq<u8>,
)
    requires
        admits(s, key, None),
    ensures
        !admits(attempted(s, key, first, None), key, None),
        attempted(attempted(s, key, first, None), key, second, None).entries[key].0 == first,
{
}

/// A version that was read before a write is stale after it: a compare-and-set with it is refused
/// and leaves the value alone. This holds until the counter wraps around.
pub proof fn law_stale_version_is_refused(
    s: StoreModel,
    key: Seq<char>,
    bytes: Seq<u8>,
    late: Seq<u8>,
)
    requires
        is_valid(s),
        !s.wrapped,
        s.entries.dom().contains(key),
    ensures
        ({
            let version = s.entries[key].1;
            let after = written(s, key, bytes);
            &&& admits(s, key, Some(version))
            &&& !admits(after, key, Some(version))
            &&& attempted(after, key, late, Some(version)).entries == after.entries
        }),
{
    lemma_fresh(s);
}

/// A version that was given out and that the key does not have.
pub open spec fn is_stale(s: StoreModel, key: Seq<char>, version: Seq<u8>) -> bool {
    &&& exists|n: u64| n < s.counter && version == #[trigger] be_bytes(n)
    &&& s.entries.dom().contains(key) ==> s.entries[key].1 != version
}

/// A stale version stays stale, whatever is written or deleted next, until the counter wraps around.
pub proof fn law_stale_versions_stay_stale(
    s: StoreModel,
    key: Seq<char>,
    version: Seq<u8>,
    other: Seq<char>,
    bytes: Seq<u8>,
    expected: Option<Seq<u8>>,
)
    requires
        is_stale(s, key, version),
        s.counter < u64::MAX,
    ensures
        !admits(s, key, Some(version)),
        is_stale(written(s, other, bytes), key, version),
        is_stale(attempted(s, other, bytes, expected), key, version),
        is_stale(deleted(s, other), key, version),
{
    let n = choose|n: u64| n < s.counter && version == #[trigger] be_bytes(n);
    assert(n < minted(s).counter && version == be_bytes(n));
    if be_bytes(s.counter) == version {
        law_counter_tokens_are_distinct(s.counter, n);
    }
}

/// A conditional write goes through exactly where its condition holds: nothing stored yet, or the
/// version that is stored. It then is like any other write, and otherwise changes no entry.
pub proof fn law_conditional_writes(
    s: StoreModel,
    key: Seq<char>,
    bytes: Seq<u8>,
    version: Seq<u8>,
)
    ensures
        ({
            let after = attempted(s, key, bytes, None);
            &&& !s.entries.dom().contains(key) ==> after.entries[key].0 == bytes
                && after.entries.dom() == s.entries.dom().insert(key)
            &&& s.entries.dom().contains(key) ==> after.entries == s.entries
        }),
        ({
            let after = attempted(s, key, bytes, Some(version));
            let holds = s.entries.dom().contains(key) && s.entries[key].1 == version;
            &&& holds ==> after.entries[key].0 == bytes && after.entries.dom() == s.entries.dom()
            &&& !holds ==> after.entries == s.entries
        }),
        forall|other: Seq<char>, expected: Option<Seq<u8>>|
            #![trigger attempted(s, key, bytes, expected).entries[other]]
            other != key && s.entries.dom().contains(other) ==> attempted(
                s,
                key,
                bytes,
                expected,
            ).entries[other] == s.entries[other],
{
    assert(written(s, key, bytes).entries.dom() =~= s.entries.dom().insert(key));
    if s.entries.dom().contains(key) {
        assert(s.entries.dom().insert(key) =~= s.entries.dom());
    }
}

/// A list holds every stored key that begins with the prefix, once each and in the order of their
/// texts, and no other key.
pub proof fn law_a_list_holds_what_is_stored(
    store: &MemoryStorage,
    prefix: &StorageKey,
    out: Vec<StorageKey>,
    rest: Seq<char>,
)
    requires
        call_ensures(MemoryStorage::list, (store, prefix), out),
    ensures
        store@.entries.dom().contains(prefix@ + rest) ==> exists|i: int|
            0 <= i < out@.len() && (#[trigger] out@[i])@ == prefix@ + rest,
        forall|i: int|
            0 <= i < out@.len() ==> {
                &&& store@.entries.dom().contains((#[trigger] out@[i])@)
                &&& prefix@.len() <= out@[i]@.len()
                &&& out@[i]@.take(prefix@.len() as int) == prefix@
            },
        forall|i: int, j: int|
            0 <= i < j < out@.len() ==> text_less((#[trigger] out@[i])@, (#[trigger] out@[j])@),
{
    let keys = key_texts(out@);
    let k = prefix@ + rest;
    assert forall|i: int| 0 <= i < out@.len() implies #[trigger] keys[i] == out@[i]@ by {}
    assert(k.subrange(0, prefix@.len() as int) =~= prefix@);
    if store@.entries.dom().contains(k) {
        assert(keys.contains(k));
        let i = choose|i: int| 0 <= i < keys.len() && keys[i] == k;
        assert(out@[i]@ == k);
    }
    assert forall|i: int| 0 <= i < out@.len() implies {
        &&& store@.entries.dom().contains((#[trigger] out@[i])@)
        &&& prefix@.len() <= out@[i]@.len()
        &&& out@[i]@.take(prefix@.len() as int) == prefix@
    } by {
        assert(keys[i] == out@[i]@);
        assert(keys.contains(keys[i]));
        assert(out@[i]@.take(prefix@.len() as int) =~= out@[i]@.subrange(0, prefix@.len() as int));
    }
    assert forall|i: int, j: int| 0 <= i < j < out@.len() implies text_less(
        (#[trigger] out@[i])@,
        (#[trigger] out@[j])@,
    ) by {
        assert(keys[i] == out@[i]@ && keys[j] == out@[j]@);
    }
}

} // verus!
