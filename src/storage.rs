use vstd::prelude::*;

verus! {

/// A key-value store split into keyspaces.
///
/// Each call is atomic on its own; nothing makes a `get` followed by a `set`
/// atomic.
pub trait Storage {
    /// What a failed call of the store reports.
    type Error;

    /// What the store holds, by keyspace and key.
    spec fn contents(&self) -> Map<(Seq<char>, Seq<u8>), Seq<u8>>;

    /// The store's calls do not fail.
    spec fn reliable(&self) -> bool;

    /// The value under `key` in `keyspace`, or `None` where there is none.
    fn get(&self, keyspace: &str, key: &[u8]) -> (r: Result<Option<Vec<u8>>, Self::Error>)
        ensures
            self.reliable() ==> r is Ok,
            r matches Ok(found) ==> match found {
                Some(v) => self.contents().contains_key((keyspace@, key@))
                    && self.contents()[(keyspace@, key@)] == v@,
                None => !self.contents().contains_key((keyspace@, key@)),
            },
    ;

    /// Stores `value` under `key` in `keyspace`, replacing what was there.
    /// After a failure the value under that key may be anything; every other
    /// key keeps its value.
    fn set(&mut self, keyspace: &str, key: Vec<u8>, value: Vec<u8>) -> (r: Result<(), Self::Error>)
        ensures
            old(self).reliable() ==> r is Ok && final(self).reliable(),
            r is Ok ==> final(self).contents() == old(self).contents().insert((keyspace@, key@), value@),
            final(self).contents().remove((keyspace@, key@)) == old(self).contents().remove((keyspace@, key@)),
    ;
}

/// A store held in memory. Its calls never fail.
pub struct MemoryStorage {
    entries: Vec<(String, Vec<u8>, Vec<u8>)>,
}

fn same_bytes(a: &[u8], b: &[u8]) -> (r: bool)
    ensures
        r == (a@ == b@),
{
    if a.len() != b.len() {
        return false;
    }
    let mut i: usize = 0;
    while i < a.len()
        invariant
            0 <= i <= a@.len(),
            a@.len() == b@.len(),
            forall|j: int| 0 <= j < i ==> a@[j] == b@[j],
        decreases a@.len() - i,
    {
        if a[i] != b[i] {
            return false;
        }
        i = i + 1;
    }
    proof {
        assert(a@ =~= b@);
    }
    true
}

impl MemoryStorage {
    pub closed spec fn key_at(self, i: int) -> (Seq<char>, Seq<u8>) {
        (self.entries@[i].0@, self.entries@[i].1@)
    }

    pub closed spec fn holds_key(self, k: (Seq<char>, Seq<u8>)) -> bool {
        exists|i: int| 0 <= i < self.entries@.len() && #[trigger] self.key_at(i) == k
    }

    #[verifier::type_invariant]
    closed spec fn keys_unique(self) -> bool {
        forall|i: int, j: int|
            0 <= i < self.entries@.len() && 0 <= j < self.entries@.len() && i != j
                ==> #[trigger] self.key_at(i) != #[trigger] self.key_at(j)
    }

    /// An empty store.
    pub fn new() -> (r: MemoryStorage)
        ensures
            r.contents() == Map::<(Seq<char>, Seq<u8>), Seq<u8>>::empty(),
    {
        let r = MemoryStorage { entries: Vec::new() };
        assert(r.contents() =~= Map::<(Seq<char>, Seq<u8>), Seq<u8>>::empty());
        r
    }

    proof fn lemma_value_at(self, i: int)
        requires
            self.keys_unique(),
            0 <= i < self.entries@.len(),
        ensures
            self.contents().contains_key(self.key_at(i)),
            self.contents()[self.key_at(i)] == self.entries@[i].2@,
    {
        let k = self.key_at(i);
        assert(self.holds_key(k));
        let j = choose|j: int| 0 <= j < self.entries@.len() && #[trigger] self.key_at(j) == k;
        assert(j == i);
    }

    fn position(&self, keyspace: &String, key: &[u8]) -> (r: Option<usize>)
        ensures
            match r {
                Some(i) => i < self.entries@.len() && self.key_at(i as int) == (keyspace@, key@),
                None => forall|i: int| 0 <= i < self.entries@.len() ==> self.key_at(i) != (keyspace@, key@),
            },
    {
        let mut i: usize = 0;
        while i < self.entries.len()
            invariant
                0 <= i <= self.entries@.len(),
                forall|j: int| 0 <= j < i ==> self.key_at(j) != (keyspace@, key@),
            decreases self.entries@.len() - i,
        {
            if self.entries[i].0 == *keyspace && same_bytes(self.entries[i].1.as_slice(), key) {
                return Some(i);
            }
            i = i + 1;
        }
        None
    }
}

impl Default for MemoryStorage {
    fn default() -> (r: MemoryStorage)
        ensures
            r.contents() == Map::<(Seq<char>, Seq<u8>), Seq<u8>>::empty(),
    {
        MemoryStorage::new()
    }
}

impl Storage for MemoryStorage {
    type Error = ();

    open spec fn reliable(&self) -> bool {
        true
    }

    closed spec fn contents(&self) -> Map<(Seq<char>, Seq<u8>), Seq<u8>> {
        Map::new(
            |k: (Seq<char>, Seq<u8>)| self.holds_key(k),
            |k: (Seq<char>, Seq<u8>)|
                self.entries@[choose|i: int| 0 <= i < self.entries@.len() && #[trigger] self.key_at(i) == k].2@,
        )
    }

    fn get(&self, keyspace: &str, key: &[u8]) -> (r: Result<Option<Vec<u8>>, ()>)
        ensures
            r is Ok,
    {
        proof {
            use_type_invariant(self);
        }
        let ks = keyspace.to_owned();
        match self.position(&ks, key) {
            Some(i) => {
                proof {
                    self.lemma_value_at(i as int);
                }
                Ok(Some(self.entries[i].2.clone()))
            },
            None => Ok(None),
        }
    }

    fn set(&mut self, keyspace: &str, key: Vec<u8>, value: Vec<u8>) -> (r: Result<(), ()>)
        ensures
            r is Ok,
    {
        proof {
            use_type_invariant(&*self);
        }
        let ks = keyspace.to_owned();
        let k = Ghost((keyspace@, key@));
        let v = Ghost(value@);
        let pre = Ghost(*self);
        let found = self.position(&ks, key.as_slice());
        let mut entries: Vec<(String, Vec<u8>, Vec<u8>)> = Vec::new();
        std::mem::swap(&mut entries, &mut self.entries);
        let at = Ghost(match found {
            Some(i) => i as int,
            None => pre@.entries@.len() as int,
        });
        match found {
            Some(i) => {
                entries.set(i, (ks, key, value));
            },
            None => {
                entries.push((ks, key, value));
            },
        }
        let ghost post = MemoryStorage { entries };
        proof {
            assert(post.entries@.len() == pre@.entries@.len() || post.entries@.len() == pre@.entries@.len() + 1);
            assert(post.key_at(at@) == k@);
            assert forall|a: int| 0 <= a < post.entries@.len() && a != at@ implies #[trigger] post.key_at(a)
                == pre@.key_at(a) && post.entries@[a].2@ == pre@.entries@[a].2@ && a < pre@.entries@.len() by {}
            assert forall|a: int, b: int|
                0 <= a < post.entries@.len() && 0 <= b < post.entries@.len() && a != b
                    implies #[trigger] post.key_at(a) != #[trigger] post.key_at(b) by {
                if a != at@ && b != at@ {
                    assert(pre@.key_at(a) != pre@.key_at(b));
                }
            }
            assert(post.keys_unique());
            assert forall|kk| #[trigger] post.contents().contains_key(kk)
                <==> pre@.contents().insert(k@, v@).contains_key(kk) by {
                if pre@.holds_key(kk) {
                    let a = choose|a: int| 0 <= a < pre@.entries@.len() && #[trigger] pre@.key_at(a) == kk;
                    if a != at@ {
                        assert(post.key_at(a) == kk);
                    }
                }
                if post.holds_key(kk) {
                    let a = choose|a: int| 0 <= a < post.entries@.len() && #[trigger] post.key_at(a) == kk;
                    if a != at@ {
                        assert(pre@.key_at(a) == kk);
                    }
                }
            }
            assert forall|kk| #[trigger] post.contents().contains_key(kk)
                implies post.contents()[kk] == pre@.contents().insert(k@, v@)[kk] by {
                let a = choose|a: int| 0 <= a < post.entries@.len() && #[trigger] post.key_at(a) == kk;
                post.lemma_value_at(a);
                if a != at@ {
                    pre@.lemma_value_at(a);
                }
            }
            assert(post.contents() =~= pre@.contents().insert(k@, v@));
        }
        *self = MemoryStorage { entries };
        proof {
            assert(self.contents().remove(k@) =~= pre@.contents().remove(k@));
        }
        Ok(())
    }
}

} // verus!
