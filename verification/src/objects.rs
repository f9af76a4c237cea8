use vstd::prelude::*;

use crate::error::CatalogError;

verus! {

/// One stored object: the clip payload under its storage key (the clip's
/// uuid).
struct StoredObject {
    key: String,
    data: Vec<u8>,
}

/// Some entry carries key `k`.
spec fn entries_have_key(es: Seq<StoredObject>, k: Seq<char>) -> bool {
    exists|i: int| 0 <= i < es.len() && es[i].key@ == k
}

/// The position of the entry carrying key `k`.
spec fn entry_index(es: Seq<StoredObject>, k: Seq<char>) -> int {
    choose|i: int| 0 <= i < es.len() && es[i].key@ == k
}

/// The bytes stored under key `k`.
spec fn entry_data(es: Seq<StoredObject>, k: Seq<char>) -> Seq<u8> {
    es[entry_index(es, k)].data@
}

/// No two entries share a key.
spec fn entries_unique(es: Seq<StoredObject>) -> bool {
    forall|i: int, j: int| 0 <= i < j < es.len() ==> es[i].key@ != es[j].key@
}

/// With unique keys, the entry at any position is exactly the one its key
/// looks up.
proof fn lemma_entry_at(es: Seq<StoredObject>, i: int)
    requires
        entries_unique(es),
        0 <= i < es.len(),
    ensures
        entries_have_key(es, es[i].key@),
        entry_index(es, es[i].key@) == i,
        entry_data(es, es[i].key@) == es[i].data@,
{
    assert(entries_have_key(es, es[i].key@));
    let j = entry_index(es, es[i].key@);
    assert(0 <= j < es.len() && es[j].key@ == es[i].key@);
    if i < j {
        assert(es[i].key@ != es[j].key@);
    } else if j < i {
        assert(es[j].key@ != es[i].key@);
    }
}

/// The object storage adapter: a flat namespace of binary payloads keyed by
/// the clip uuid.  `put` has overwrite semantics, so a retried ingest under
/// the same key is idempotent.  The `available` flag models backend
/// connectivity: while it is false every operation fails with
/// `StorageUnavailable` and changes nothing.
pub struct ObjectStore {
    entries: Vec<StoredObject>,
    available: bool,
}

impl View for ObjectStore {
    type V = Map<Seq<char>, Seq<u8>>;

    /// The namespace as a map from key to stored bytes.
    closed spec fn view(&self) -> Map<Seq<char>, Seq<u8>> {
        Map::new(
            |k: Seq<char>| entries_have_key(self.entries@, k),
            |k: Seq<char>| entry_data(self.entries@, k),
        )
    }
}

impl ObjectStore {
    /// Well-formedness: no key occurs twice.
    pub closed spec fn wf(&self) -> bool {
        entries_unique(self.entries@)
    }

    /// Whether the backend is reachable.
    pub closed spec fn is_available(&self) -> bool {
        self.available
    }

    /// An empty, reachable namespace.
    pub fn new() -> (s: Self)
        ensures
            s.wf(),
            s@ == Map::<Seq<char>, Seq<u8>>::empty(),
            s.is_available(),
    {
        let s = ObjectStore { entries: Vec::new(), available: true };
        proof {
            assert(s@ =~= Map::<Seq<char>, Seq<u8>>::empty());
        }
        s
    }

    /// Flip the modelled backend connectivity; the namespace is kept.
    pub fn set_available(&mut self, available: bool)
        ensures
            final(self)@ == old(self)@,
            old(self).wf() ==> final(self).wf(),
            final(self).is_available() == available,
    {
        self.available = available;
        proof {
            assert(self@ =~= old(self)@);
        }
    }

    /// The position of the entry with key `key`, if any.
    fn index_of_key(&self, key: &String) -> (r: Option<usize>)
        ensures
            match r {
                Some(i) => i < self.entries@.len() && self.entries@[i as int].key@ == key@,
                None => !entries_have_key(self.entries@, key@),
            },
    {
        let n = self.entries.len();
        let mut i: usize = 0;
        while i < n
            invariant
                n == self.entries.len(),
                i <= n,
                forall|j: int| 0 <= j < i ==> self.entries@[j].key@ != key@,
            decreases n - i,
        {
            if self.entries[i].key == *key {
                return Some(i);
            }
            i += 1;
        }
        None
    }

    /// Store `data` under `key`, overwriting whatever was there.
    pub fn put(&mut self, key: String, data: Vec<u8>) -> (r: Result<(), CatalogError>)
        requires
            old(self).wf(),
        ensures
            final(self).wf(),
            final(self).is_available() == old(self).is_available(),
            !old(self).is_available() ==> r == Err::<(), CatalogError>(
                CatalogError::StorageUnavailable,
            ) && *final(self) == *old(self),
            old(self).is_available() ==> r == Ok::<(), CatalogError>(()) && final(self)@ == old(
                self,
            )@.insert(key@, data@),
    {
        if !self.available {
            return Err(CatalogError::StorageUnavailable);
        }
        let ghost pre = self.entries@;
        match self.index_of_key(&key) {
            Some(i) => {
                self.entries[i].data = data;
                proof {
                    let es = self.entries@;
                    assert(es =~= pre.update(i as int, es[i as int]));
                    assert(es[i as int].key@ == key@);
                    assert(forall|j: int|
                        0 <= j < es.len() ==> #[trigger] es[j].key@ == pre[j].key@);
                    assert(entries_unique(es));
                    assert forall|k: Seq<char>| #[trigger]
                        self@.dom().contains(k) == old(self)@.insert(key@, data@).dom().contains(
                        k,
                    ) by {
                        assert(entries_have_key(es, k) == entries_have_key(pre, k)) by {
                            if entries_have_key(es, k) {
                                let w = entry_index(es, k);
                                assert(pre[w].key@ == k);
                            }
                            if entries_have_key(pre, k) {
                                let w = entry_index(pre, k);
                                assert(es[w].key@ == k);
                            }
                        }
                        if k == key@ {
                            lemma_entry_at(es, i as int);
                        }
                    }
                    assert forall|k: Seq<char>| self@.dom().contains(k) implies self@[k] == old(
                        self,
                    )@.insert(key@, data@)[k] by {
                        let w = entry_index(es, k);
                        assert(0 <= w < es.len() && es[w].key@ == k);
                        lemma_entry_at(es, w);
                        if k == key@ {
                            lemma_entry_at(es, i as int);
                            assert(w == i as int);
                        } else {
                            assert(w != i as int);
                            assert(es[w].data@ == pre[w].data@);
                            lemma_entry_at(pre, w);
                        }
                    }
                    assert(self@ =~= old(self)@.insert(key@, data@));
                }
                Ok(())
            },
            None => {
                self.entries.push(StoredObject { key: key, data: data });
                proof {
                    let es = self.entries@;
                    let n = pre.len();
                    assert(es =~= pre.push(es[n as int]));
                    assert(es[n as int].key@ == key@ && es[n as int].data@ == data@);
                    assert(entries_unique(es)) by {
                        assert(forall|j: int| 0 <= j < n ==> #[trigger] es[j].key@ != key@);
                    }
                    assert forall|k: Seq<char>| #[trigger]
                        self@.dom().contains(k) == old(self)@.insert(key@, data@).dom().contains(
                        k,
                    ) by {
                        if k == key@ {
                            lemma_entry_at(es, n as int);
                        } else {
                            if entries_have_key(es, k) {
                                let w = entry_index(es, k);
                                assert(0 <= w < n && pre[w].key@ == k);
                            }
                            if entries_have_key(pre, k) {
                                let w = entry_index(pre, k);
                                assert(es[w].key@ == k);
                            }
                        }
                    }
                    assert forall|k: Seq<char>| self@.dom().contains(k) implies self@[k] == old(
                        self,
                    )@.insert(key@, data@)[k] by {
                        let w = entry_index(es, k);
                        assert(0 <= w < es.len() && es[w].key@ == k);
                        lemma_entry_at(es, w);
                        if k == key@ {
                            lemma_entry_at(es, n as int);
                            assert(w == n as int);
                        } else {
                            assert(w != n as int);
                            assert(pre[w].key@ == k && pre[w].data@ == es[w].data@);
                            lemma_entry_at(pre, w);
                        }
                    }
                    assert(self@ =~= old(self)@.insert(key@, data@));
                }
                Ok(())
            },
        }
    }

    /// The bytes stored under `key`, or `NotFound`.
    pub fn get(&self, key: &String) -> (r: Result<Vec<u8>, CatalogError>)
        requires
            self.wf(),
        ensures
            !self.is_available() ==> r == Err::<Vec<u8>, CatalogError>(
                CatalogError::StorageUnavailable,
            ),
            self.is_available() && !self@.dom().contains(key@) ==> r == Err::<
                Vec<u8>,
                CatalogError,
            >(CatalogError::NotFound),
            self.is_available() && self@.dom().contains(key@) ==> r is Ok
                && r->Ok_0@ == self@[key@],
    {
        if !self.available {
            return Err(CatalogError::StorageUnavailable);
        }
        match self.index_of_key(key) {
            Some(i) => {
                let n = self.entries[i].data.len();
                let mut out: Vec<u8> = Vec::new();
                let mut j: usize = 0;
                while j < n
                    invariant
                        i < self.entries@.len(),
                        n == self.entries@[i as int].data@.len(),
                        j <= n,
                        out@ =~= self.entries@[i as int].data@.subrange(0, j as int),
                    decreases n - j,
                {
                    out.push(self.entries[i].data[j]);
                    j += 1;
                }
                proof {
                    lemma_entry_at(self.entries@, i as int);
                    assert(out@ =~= self.entries@[i as int].data@);
                }
                Ok(out)
            },
            None => Err(CatalogError::NotFound),
        }
    }

    /// Remove the object under `key`.
    pub fn delete(&mut self, key: &String) -> (r: Result<(), CatalogError>)
        requires
            old(self).wf(),
        ensures
            final(self).wf(),
            final(self).is_available() == old(self).is_available(),
            !old(self).is_available() ==> r == Err::<(), CatalogError>(
                CatalogError::StorageUnavailable,
            ) && *final(self) == *old(self),
            old(self).is_available() && !old(self)@.dom().contains(key@) ==> r == Err::<
                (),
                CatalogError,
            >(CatalogError::NotFound) && *final(self) == *old(self),
            old(self).is_available() && old(self)@.dom().contains(key@) ==> r == Ok::<
                (),
                CatalogError,
            >(()) && final(self)@ == old(self)@.remove(key@),
    {
        if !self.available {
            return Err(CatalogError::StorageUnavailable);
        }
        let ghost pre = self.entries@;
        match self.index_of_key(key) {
            Some(i) => {
                self.entries.remove(i);
                proof {
                    let es = self.entries@;
                    assert(es =~= pre.remove(i as int));
                    assert(entries_unique(es)) by {
                        assert(forall|a: int, b: int|
                            0 <= a < b < es.len() ==> {
                                let a0 = if a < i as int { a } else { a + 1 };
                                let b0 = if b < i as int { b } else { b + 1 };
                                #[trigger] es[a].key@ == pre[a0].key@ && #[trigger] es[b].key@
                                    == pre[b0].key@ && pre[a0].key@ != pre[b0].key@
                            });
                    }
                    assert forall|k: Seq<char>| #[trigger]
                        self@.dom().contains(k) == old(self)@.remove(key@).dom().contains(k) by {
                        if entries_have_key(es, k) {
                            let w = entry_index(es, k);
                            let w0 = if w < i as int { w } else { w + 1 };
                            assert(es[w] == pre[w0]);
                            assert(entries_have_key(pre, k));
                            lemma_entry_at(pre, w0);
                            if k == key@ {
                                lemma_entry_at(pre, i as int);
                            }
                        }
                        if entries_have_key(pre, k) && k != key@ {
                            let w = entry_index(pre, k);
                            lemma_entry_at(pre, w);
                            assert(w != i as int);
                            let w1 = if w < i as int { w } else { w - 1 };
                            assert(es[w1] == pre[w]);
                            assert(entries_have_key(es, k));
                        }
                    }
                    assert forall|k: Seq<char>| self@.dom().contains(k) implies self@[k] == old(
                        self,
                    )@.remove(key@)[k] by {
                        let w = entry_index(es, k);
                        assert(0 <= w < es.len() && es[w].key@ == k);
                        lemma_entry_at(es, w);
                        let w0 = if w < i as int { w } else { w + 1 };
                        assert(es[w] == pre[w0]);
                        lemma_entry_at(pre, w0);
                    }
                    assert(self@ =~= old(self)@.remove(key@));
                }
                Ok(())
            },
            None => {
                proof {
                    assert(!old(self)@.dom().contains(key@));
                }
                Err(CatalogError::NotFound)
            },
        }
    }
}

/// `m` after `n` repetitions of `put(key, data)` (each one an overwrite).
pub open spec fn repeat_put(
    m: Map<Seq<char>, Seq<u8>>,
    key: Seq<char>,
    data: Seq<u8>,
    n: nat,
) -> Map<Seq<char>, Seq<u8>>
    decreases n,
{
    if n == 0 {
        m
    } else {
        repeat_put(m, key, data, (n - 1) as nat).insert(key, data)
    }
}

/// Law: `put` is idempotent under retry.  Since a successful `put` takes
/// the namespace from `m` to `m.insert(key@, data@)`, storage state after
/// `n >= 1` repeated puts of the same key and bytes equals the state after
/// one.
pub proof fn lemma_put_idempotent(m: Map<Seq<char>, Seq<u8>>, key: Seq<char>, data: Seq<u8>, n: nat)
    requires
        n >= 1,
    ensures
        repeat_put(m, key, data, n) == m.insert(key, data),
    decreases n,
{
    if n == 1 {
        assert(repeat_put(m, key, data, 0) == m);
    } else {
        lemma_put_idempotent(m, key, data, (n - 1) as nat);
        assert(m.insert(key, data).insert(key, data) =~= m.insert(key, data));
    }
}

} // verus!
