//! A model of the key-addressed object store the gateway talks to.
//!
//! A store is a sequence of entries, each a raw file name (the key) and the
//! stored bytes, with keys unique. Contracts are stated against `map_of`, the
//! map from keys to blobs that the sequence denotes, and against `put_entry`,
//! the effect of one write. `put` overwrites silently, `get` fails with a
//! storage error exactly when the key is absent: the semantics the gateway
//! inherits from the store it proxies.

use crate::error::FileError;
use vstd::pervasive::VecAdditionalExecFns;
use vstd::prelude::*;
use vstd::slice::slice_to_vec;
use vstd::string::StringExecFns;

verus! {

/// One stored blob: the raw client-supplied file name used as the key, and
/// the bytes written under it.
pub struct StoredObject {
    key: String,
    data: Vec<u8>,
}

impl View for StoredObject {
    type V = (Seq<char>, Seq<u8>);

    closed spec fn view(&self) -> (Seq<char>, Seq<u8>) {
        (self.key@, self.data@)
    }
}

/// The detail text of the storage error raised for an absent key.
pub open spec fn not_found_message() -> Seq<char> {
    "file not found"@
}

/// Whether some entry of `s` has key `k`.
pub open spec fn has_key(s: Seq<(Seq<char>, Seq<u8>)>, k: Seq<char>) -> bool {
    exists|i: int| 0 <= i < s.len() && (#[trigger] s[i]).0 == k
}

/// All keys of `s` are distinct.
pub open spec fn unique_keys(s: Seq<(Seq<char>, Seq<u8>)>) -> bool {
    forall|i: int, j: int|
        0 <= i < j < s.len() ==> (#[trigger] s[i]).0 != (#[trigger] s[j]).0
}

/// The map from keys to blobs that the entry sequence denotes; with duplicate
/// keys the earliest entry wins, and under `unique_keys` there are none.
pub open spec fn map_of(s: Seq<(Seq<char>, Seq<u8>)>) -> Map<Seq<char>, Seq<u8>>
    decreases s.len(),
{
    if s.len() == 0 {
        Map::empty()
    } else {
        map_of(s.drop_first()).insert(s[0].0, s[0].1)
    }
}

/// The entry sequence after writing `d` under `k`: the first entry keyed `k`
/// is replaced in place, or a new entry is appended when none exists.
pub open spec fn put_entry(
    s: Seq<(Seq<char>, Seq<u8>)>,
    k: Seq<char>,
    d: Seq<u8>,
) -> Seq<(Seq<char>, Seq<u8>)>
    decreases s.len(),
{
    if s.len() == 0 {
        seq![(k, d)]
    } else if s[0].0 == k {
        seq![(k, d)] + s.drop_first()
    } else {
        seq![s[0]] + put_entry(s.drop_first(), k, d)
    }
}

proof fn lemma_has_key_cons(e: (Seq<char>, Seq<u8>), t: Seq<(Seq<char>, Seq<u8>)>, x: Seq<char>)
    ensures
        has_key(seq![e] + t, x) <==> (e.0 == x || has_key(t, x)),
{
    let s = seq![e] + t;
    if has_key(s, x) {
        let i = choose|i: int| 0 <= i < s.len() && (#[trigger] s[i]).0 == x;
        if i > 0 {
            assert(t[i - 1].0 == x);
        }
    }
    if e.0 == x {
        assert(s[0].0 == x);
    }
    if has_key(t, x) {
        let i = choose|i: int| 0 <= i < t.len() && (#[trigger] t[i]).0 == x;
        assert(s[i + 1].0 == x);
    }
}

proof fn lemma_map_of_cons(e: (Seq<char>, Seq<u8>), t: Seq<(Seq<char>, Seq<u8>)>)
    ensures
        map_of(seq![e] + t) == map_of(t).insert(e.0, e.1),
{
    let s = seq![e] + t;
    assert(s.drop_first() =~= t);
}

/// After `put_entry`, exactly the old keys and `k` are present.
pub proof fn lemma_put_entry_has_key(
    s: Seq<(Seq<char>, Seq<u8>)>,
    k: Seq<char>,
    d: Seq<u8>,
    x: Seq<char>,
)
    ensures
        has_key(put_entry(s, k, d), x) <==> (has_key(s, x) || x == k),
    decreases s.len(),
{
    if s.len() == 0 {
        lemma_has_key_cons((k, d), Seq::empty(), x);
        assert(seq![(k, d)] + Seq::<(Seq<char>, Seq<u8>)>::empty() =~= put_entry(s, k, d));
        assert(!has_key(s, x));
    } else {
        let t = s.drop_first();
        assert(s =~= seq![s[0]] + t);
        lemma_has_key_cons(s[0], t, x);
        if s[0].0 == k {
            lemma_has_key_cons((k, d), t, x);
        } else {
            lemma_put_entry_has_key(t, k, d, x);
            lemma_has_key_cons(s[0], put_entry(t, k, d), x);
        }
    }
}

/// `put_entry` denotes insertion into the map the sequence stands for.
pub proof fn lemma_put_entry_map(s: Seq<(Seq<char>, Seq<u8>)>, k: Seq<char>, d: Seq<u8>)
    ensures
        map_of(put_entry(s, k, d)) == map_of(s).insert(k, d),
    decreases s.len(),
{
    if s.len() == 0 {
        lemma_map_of_cons((k, d), Seq::empty());
        assert(seq![(k, d)] + Seq::<(Seq<char>, Seq<u8>)>::empty() =~= put_entry(s, k, d));
        assert(map_of(s).insert(k, d) =~= Map::<Seq<char>, Seq<u8>>::empty().insert(k, d));
    } else {
        let t = s.drop_first();
        assert(s =~= seq![s[0]] + t);
        lemma_map_of_cons(s[0], t);
        if s[0].0 == k {
            lemma_map_of_cons((k, d), t);
            assert(map_of(t).insert(k, d) =~= map_of(t).insert(k, s[0].1).insert(k, d));
        } else {
            lemma_put_entry_map(t, k, d);
            lemma_map_of_cons(s[0], put_entry(t, k, d));
            assert(map_of(t).insert(k, d).insert(s[0].0, s[0].1) =~= map_of(t).insert(
                s[0].0,
                s[0].1,
            ).insert(k, d));
        }
    }
}

/// `put_entry` keeps the keys distinct.
pub proof fn lemma_put_entry_unique(s: Seq<(Seq<char>, Seq<u8>)>, k: Seq<char>, d: Seq<u8>)
    requires
        unique_keys(s),
    ensures
        unique_keys(put_entry(s, k, d)),
    decreases s.len(),
{
    if s.len() == 0 {
    } else {
        let t = s.drop_first();
        if s[0].0 == k {
            let r = seq![(k, d)] + t;
            assert forall|i: int, j: int| 0 <= i < j < r.len() implies (#[trigger] r[i]).0 != (
            #[trigger] r[j]).0 by {
                if i == 0 {
                    assert(s[j].0 != s[0].0);
                } else {
                    assert(s[i].0 != s[j].0);
                }
            }
        } else {
            lemma_put_entry_unique(t, k, d);
            let p = put_entry(t, k, d);
            let r = seq![s[0]] + p;
            assert forall|i: int, j: int| 0 <= i < j < r.len() implies (#[trigger] r[i]).0 != (
            #[trigger] r[j]).0 by {
                if i == 0 {
                    lemma_put_entry_has_key(t, k, d, p[j - 1].0);
                    if has_key(t, p[j - 1].0) {
                        let w = choose|w: int|
                            0 <= w < t.len() && (#[trigger] t[w]).0 == p[j - 1].0;
                        assert(s[w + 1].0 != s[0].0);
                    }
                } else {
                    assert(p[i - 1].0 != p[j - 1].0);
                }
            }
        }
    }
}

/// The entry whose key occurs first at index `i` is what the map holds at
/// that key.
pub proof fn lemma_map_of_first(s: Seq<(Seq<char>, Seq<u8>)>, i: int)
    requires
        0 <= i < s.len(),
        forall|j: int| 0 <= j < i ==> (#[trigger] s[j]).0 != s[i].0,
    ensures
        map_of(s).contains_key(s[i].0),
        map_of(s)[s[i].0] == s[i].1,
    decreases i,
{
    if i > 0 {
        let t = s.drop_first();
        assert forall|j: int| 0 <= j < i - 1 implies (#[trigger] t[j]).0 != t[i - 1].0 by {
            assert(s[j + 1].0 != s[i].0);
        }
        lemma_map_of_first(t, i - 1);
        assert(s[0].0 != s[i].0);
    }
}

/// A key that no entry carries is absent from the map.
pub proof fn lemma_map_of_absent(s: Seq<(Seq<char>, Seq<u8>)>, k: Seq<char>)
    requires
        !has_key(s, k),
    ensures
        !map_of(s).contains_key(k),
    decreases s.len(),
{
    if s.len() > 0 {
        let t = s.drop_first();
        assert(s[0].0 != k);
        assert(!has_key(t, k)) by {
            if has_key(t, k) {
                let w = choose|w: int| 0 <= w < t.len() && (#[trigger] t[w]).0 == k;
                assert(s[w + 1].0 == k);
            }
        }
        lemma_map_of_absent(t, k);
    }
}

proof fn lemma_put_entry_found(s: Seq<(Seq<char>, Seq<u8>)>, k: Seq<char>, d: Seq<u8>, i: int)
    requires
        0 <= i < s.len(),
        s[i].0 == k,
        forall|j: int| 0 <= j < i ==> (#[trigger] s[j]).0 != k,
    ensures
        put_entry(s, k, d) == s.update(i, (k, d)),
    decreases i,
{
    if i == 0 {
        assert(put_entry(s, k, d) =~= s.update(0, (k, d)));
    } else {
        let t = s.drop_first();
        assert forall|j: int| 0 <= j < i - 1 implies (#[trigger] t[j]).0 != k by {
            assert(s[j + 1].0 != k);
        }
        lemma_put_entry_found(t, k, d, i - 1);
        assert(s[0].0 != k);
        assert(seq![s[0]] + t.update(i - 1, (k, d)) =~= s.update(i, (k, d)));
    }
}

proof fn lemma_put_entry_all_absent(s: Seq<(Seq<char>, Seq<u8>)>, k: Seq<char>, d: Seq<u8>)
    requires
        forall|j: int| 0 <= j < s.len() ==> (#[trigger] s[j]).0 != k,
    ensures
        put_entry(s, k, d) == s.push((k, d)),
    decreases s.len(),
{
    if s.len() == 0 {
        assert(put_entry(s, k, d) =~= s.push((k, d)));
    } else {
        let t = s.drop_first();
        assert forall|j: int| 0 <= j < t.len() implies (#[trigger] t[j]).0 != k by {
            assert(s[j + 1].0 != k);
        }
        lemma_put_entry_all_absent(t, k, d);
        assert(seq![s[0]] + t.push((k, d)) =~= s.push((k, d)));
    }
}

/// Round trip: after writing `d` under `k`, the key is present and maps to
/// exactly the bytes written, so a download straight after an upload returns
/// what was uploaded.
pub proof fn lemma_put_then_get(s: Seq<(Seq<char>, Seq<u8>)>, k: Seq<char>, d: Seq<u8>)
    ensures
        map_of(put_entry(s, k, d)).contains_key(k),
        map_of(put_entry(s, k, d))[k] == d,
{
    lemma_put_entry_map(s, k, d);
}

/// Overwrite: writing twice under one key leaves the second blob and nothing
/// of the first; a later download returns the second content.
pub proof fn lemma_overwrite(
    s: Seq<(Seq<char>, Seq<u8>)>,
    k: Seq<char>,
    d1: Seq<u8>,
    d2: Seq<u8>,
)
    ensures
        map_of(put_entry(put_entry(s, k, d1), k, d2)) == map_of(s).insert(k, d2),
        map_of(put_entry(put_entry(s, k, d1), k, d2))[k] == d2,
{
    lemma_put_entry_map(s, k, d1);
    lemma_put_entry_map(put_entry(s, k, d1), k, d2);
    assert(map_of(s).insert(k, d1).insert(k, d2) =~= map_of(s).insert(k, d2));
}

/// The store model: entries with unique keys, one per stored object.
pub struct StoreModel {
    entries: Vec<StoredObject>,
}

impl View for StoreModel {
    type V = Seq<(Seq<char>, Seq<u8>)>;

    closed spec fn view(&self) -> Seq<(Seq<char>, Seq<u8>)> {
        self.entries@.map_values(|o: StoredObject| o@)
    }
}

impl StoreModel {
    /// Each file name keys at most one stored object.
    pub open spec fn wf(self) -> bool {
        unique_keys(self@)
    }

    /// An empty store: nothing is present under any key.
    pub fn new() -> (r: StoreModel)
        ensures
            r.wf(),
            r@ == Seq::<(Seq<char>, Seq<u8>)>::empty(),
            map_of(r@) == Map::<Seq<char>, Seq<u8>>::empty(),
    {
        let r = StoreModel { entries: Vec::new() };
        proof {
            assert(r@ =~= Seq::<(Seq<char>, Seq<u8>)>::empty());
        }
        r
    }

    /// Writes `data` under the key `key`, silently overwriting any object
    /// already stored under that name.
    pub fn put(&mut self, key: String, data: Vec<u8>)
        requires
            old(self).wf(),
        ensures
            final(self).wf(),
            final(self)@ == put_entry(old(self)@, key@, data@),
            map_of(final(self)@) == map_of(old(self)@).insert(key@, data@),
    {
        let ghost s0 = self@;
        let ghost kview = key@;
        let ghost dview = data@;
        proof {
            lemma_put_entry_unique(s0, kview, dview);
            lemma_put_entry_map(s0, kview, dview);
        }
        let mut i: usize = 0;
        while i < self.entries.len()
            invariant
                i <= self.entries@.len(),
                self@ == s0,
                old(self)@ == s0,
                unique_keys(s0),
                self.entries@.len() == s0.len(),
                key@ == kview,
                data@ == dview,
                forall|j: int| 0 <= j < i ==> (#[trigger] s0[j]).0 != kview,
            decreases self.entries@.len() - i,
        {
            if self.entries[i].key.eq(&key) {
                proof {
                    assert(s0[i as int].0 == kview);
                    lemma_put_entry_found(s0, kview, dview, i as int);
                    lemma_put_entry_unique(s0, kview, dview);
                    lemma_put_entry_map(s0, kview, dview);
                }
                self.entries.set(i, StoredObject { key, data });
                proof {
                    assert(self@ =~= s0.update(i as int, (kview, dview)));
                }
                return ;
            }
            proof {
                assert(s0[i as int].0 != kview);
            }
            i += 1;
        }
        proof {
            lemma_put_entry_all_absent(s0, kview, dview);
        }
        self.entries.push(StoredObject { key, data });
        proof {
            assert(self@ =~= s0.push((kview, dview)));
        }
    }

    /// Fetches the object stored under `key`: its bytes when the key is
    /// present, the not-found storage error when it is absent.
    pub fn get(&self, key: &String) -> (r: Result<Vec<u8>, FileError>)
        ensures
            map_of(self@).contains_key(key@) ==> (r matches Ok(d) && d@ == map_of(self@)[key@]),
            !map_of(self@).contains_key(key@) ==> (r matches Err(e) && e is Storage
                && e.message_view() == not_found_message()),
    {
        let mut i: usize = 0;
        while i < self.entries.len()
            invariant
                i <= self.entries@.len(),
                self.entries@.len() == self@.len(),
                forall|j: int| 0 <= j < i ==> (#[trigger] self@[j]).0 != key@,
            decreases self.entries@.len() - i,
        {
            if self.entries[i].key.eq(key) {
                proof {
                    assert(self@[i as int].0 == key@);
                    lemma_map_of_first(self@, i as int);
                }
                return Ok(slice_to_vec(self.entries[i].data.as_slice()));
            }
            proof {
                assert(self@[i as int].0 != key@);
            }
            i += 1;
        }
        proof {
            assert(!has_key(self@, key@));
            lemma_map_of_absent(self@, key@);
        }
        Err(FileError::Storage(String::from_str("file not found")))
    }

    /// Enumerates the whole store: one `(key, size)` pair per stored object,
    /// in storage order.
    pub fn list_entries(&self) -> (r: Vec<(String, usize)>)
        ensures
            r@.len() == self@.len(),
            forall|i: int|
                0 <= i < self@.len() ==> (#[trigger] r@[i]).0@ == self@[i].0 && r@[i].1
                    == self@[i].1.len(),
    {
        let mut r: Vec<(String, usize)> = Vec::new();
        let mut i: usize = 0;
        while i < self.entries.len()
            invariant
                i <= self.entries@.len(),
                self.entries@.len() == self@.len(),
                r@.len() == i,
                forall|j: int|
                    0 <= j < i ==> (#[trigger] r@[j]).0@ == self@[j].0 && r@[j].1
                        == self@[j].1.len(),
            decreases self.entries@.len() - i,
        {
            let name = self.entries[i].key.clone();
            let size = self.entries[i].data.len();
            r.push((name, size));
            i += 1;
        }
        r
    }
}

} // verus!
