use vstd::prelude::*;
use crate::codec::{
    address_key, address_key_bytes, decodable, decode_entries, encode_entries, list_bytes, reads_as,
};
use crate::storage::Storage;
use crate::types::{Coin, Entry, ExtendedAddr, TxoPointer};

verus! {

/// The keyspace that the index owns in its store.
pub const KEYSPACE: &'static str = "index_unspent_transaction";

/// What can go wrong in a call of the index.
#[derive(Clone, Copy, Debug)]
pub enum Error<E> {
    /// A key or a list of entries could not be encoded. The encodings used
    /// here cannot fail, so the index's calls never return it.
    SerializationError,
    /// The bytes stored for an address do not hold a list of entries.
    DeserializationError,
    /// The store failed; its own error is passed on.
    StorageError(E),
}

/// Where the entries of `address` are stored.
pub open spec fn store_key(address: ExtendedAddr) -> (Seq<char>, Seq<u8>) {
    (KEYSPACE@, address_key(address))
}

/// In a store holding `contents`, the entries of `address` read as `s`:
/// nothing stored reads as no entries.
pub open spec fn holds(contents: Map<(Seq<char>, Seq<u8>), Seq<u8>>, address: ExtendedAddr, s: Seq<Entry>) -> bool {
    if contents.contains_key(store_key(address)) {
        reads_as(contents[store_key(address)], s)
    } else {
        s == Seq::<Entry>::empty()
    }
}

/// In a store holding `contents`, the entries of `address` can be read.
pub open spec fn readable(contents: Map<(Seq<char>, Seq<u8>), Seq<u8>>, address: ExtendedAddr) -> bool {
    contents.contains_key(store_key(address)) ==> decodable(contents[store_key(address)])
}

/// `contents` once the list `s` has been written for `address`.
pub open spec fn written(
    contents: Map<(Seq<char>, Seq<u8>), Seq<u8>>,
    address: ExtendedAddr,
    s: Seq<Entry>,
) -> Map<(Seq<char>, Seq<u8>), Seq<u8>> {
    contents.insert(store_key(address), list_bytes(s))
}

/// `i` is the first position of `s` whose pointer is `pointer`.
pub open spec fn is_first_match(s: Seq<Entry>, pointer: TxoPointer, i: int) -> bool {
    &&& 0 <= i < s.len()
    &&& s[i].0 == pointer
    &&& forall|j: int| 0 <= j < i ==> s[j].0 != pointer
}

/// `s` without its first entry whose pointer is `pointer`; `s` itself where
/// there is none.
pub open spec fn without_first(s: Seq<Entry>, pointer: TxoPointer) -> Seq<Entry> {
    if exists|i: int| is_first_match(s, pointer, i) {
        s.remove(choose|i: int| is_first_match(s, pointer, i))
    } else {
        s
    }
}

proof fn lemma_pointer_eq(a: TxoPointer, b: TxoPointer)
    ensures
        (a.id@ == b.id@ && a.index == b.index) == (a == b),
{
    broadcast use vstd::array::group_array_axioms;
    if a.id@ == b.id@ {
        assert forall|i: int| 0 <= i < 32 implies a.id[i] == b.id[i] by {
            assert(a.id@[i] == b.id@[i]);
        }
        assert(a.id =~= b.id);
    }
}

/// Turns what the store gave for an address into its entries: nothing
/// stored is no entries; bytes that do not hold a list are an error.
pub fn read_entries<E>(found: Option<Vec<u8>>) -> (r: Result<Vec<Entry>, Error<E>>)
    ensures
        match found {
            None => r matches Ok(v) && v@ == Seq::<Entry>::empty(),
            Some(b) => if decodable(b@) {
                r matches Ok(v) && reads_as(b@, v@)
            } else {
                r matches Err(Error::DeserializationError)
            },
        },
{
    match found {
        None => Ok(Vec::new()),
        Some(b) => match decode_entries(b.as_slice()) {
            Some(v) => Ok(v),
            None => Err(Error::DeserializationError),
        },
    }
}

/// Removes from `list` the first entry whose pointer is `pointer`, if any.
pub fn remove_first(list: &mut Vec<Entry>, pointer: &TxoPointer)
    ensures
        final(list)@ == without_first(old(list)@, *pointer),
{
    let mut i: usize = 0;
    while i < list.len()
        invariant
            0 <= i <= list@.len(),
            list@ == old(list)@,
            forall|j: int| 0 <= j < i ==> list@[j].0 != *pointer,
        decreases list@.len() - i,
    {
        let same = list[i].0 == *pointer;
        proof {
            lemma_pointer_eq(list@[i as int].0, *pointer);
        }
        if same {
            proof {
                assert(is_first_match(list@, *pointer, i as int));
                let k = choose|k: int| is_first_match(list@, *pointer, k);
                assert(k == i);
            }
            list.remove(i);
            return;
        }
        i = i + 1;
    }
}

/// Keeps, for each address, the list of its unspent outputs in a store:
/// `address -> [(TxoPointer, Coin)]`.
///
/// `add` and `remove` read the list and then write it back in two separate
/// calls of the store. Two callers that change the same address at once
/// through stores that share their data can lose one of the two changes;
/// callers that need more must serialise their calls themselves.
#[derive(Clone, Default)]
pub struct UnspentTransactionService<S: Storage> {
    storage: S,
}

impl<S: Storage> UnspentTransactionService<S> {
    /// What the underlying store holds.
    pub closed spec fn contents(&self) -> Map<(Seq<char>, Seq<u8>), Seq<u8>> {
        self.storage.contents()
    }

    /// The underlying store's calls do not fail.
    pub closed spec fn reliable(&self) -> bool {
        self.storage.reliable()
    }

    /// An index over `storage`.
    pub fn new(storage: S) -> (r: Self)
        ensures
            r.contents() == storage.contents(),
            r.reliable() == storage.reliable(),
    {
        UnspentTransactionService { storage }
    }

    /// The unspent outputs of `address`, in the order they were added.
    pub fn get(&self, address: &ExtendedAddr) -> (r: Result<Vec<Entry>, Error<S::Error>>)
        ensures
            r matches Ok(v) ==> holds(self.contents(), *address, v@),
            !readable(self.contents(), *address) ==> r is Err,
            readable(self.contents(), *address) && self.reliable() ==> r is Ok,
            r matches Err(e) ==> match e {
                Error::DeserializationError => !readable(self.contents(), *address),
                Error::SerializationError => false,
                Error::StorageError(_) => true,
            },
    {
        let key = address_key_bytes(address);
        match self.storage.get(KEYSPACE, key.as_slice()) {
            Ok(found) => read_entries(found),
            Err(e) => Err(Error::StorageError(e)),
        }
    }

    fn put(&mut self, address: &ExtendedAddr, list: &Vec<Entry>) -> (r: Result<(), Error<S::Error>>)
        ensures
            r is Ok ==> final(self).contents() == written(old(self).contents(), *address, list@),
            final(self).contents().remove(store_key(*address)) == old(self).contents().remove(store_key(*address)),
            old(self).reliable() ==> r is Ok && final(self).reliable(),
            r matches Err(e) ==> e is StorageError,
    {
        let key = address_key_bytes(address);
        match encode_entries(list) {
            Some(bytes) => match self.storage.set(KEYSPACE, key, bytes) {
                Ok(()) => Ok(()),
                Err(e) => Err(Error::StorageError(e)),
            },
            None => Err(Error::SerializationError),
        }
    }

    /// Appends `unspent_transaction` to the outputs of `address`. No check
    /// is made that its pointer is not there already.
    pub fn add(&mut self, address: &ExtendedAddr, unspent_transaction: (TxoPointer, Coin)) -> (r: Result<(), Error<S::Error>>)
        ensures
            r is Ok ==> readable(old(self).contents(), *address),
            r is Ok ==> exists|prev: Seq<Entry>| #[trigger] holds(old(self).contents(), *address, prev),
            r is Ok ==> forall|prev: Seq<Entry>| #[trigger] holds(old(self).contents(), *address, prev)
                ==> final(self).contents() == written(old(self).contents(), *address, prev.push(unspent_transaction)),
            !readable(old(self).contents(), *address) ==> r is Err,
            !readable(old(self).contents(), *address) ==> final(self).contents() == old(self).contents(),
            readable(old(self).contents(), *address) && old(self).reliable() ==> r is Ok,
            old(self).reliable() ==> final(self).reliable(),
            final(self).contents().remove(store_key(*address)) == old(self).contents().remove(store_key(*address)),
            r matches Err(e) ==> match e {
                Error::DeserializationError => !readable(old(self).contents(), *address)
                    && final(self).contents() == old(self).contents(),
                Error::SerializationError => false,
                Error::StorageError(_) => true,
            },
    {
        let mut list = self.get(address)?;
        let ghost prev = list@;
        list.push(unspent_transaction);
        let r = self.put(address, &list);
        proof {
            assert forall|other: Seq<Entry>| #[trigger] holds(old(self).contents(), *address, other) implies other == prev by {
                if old(self).contents().contains_key(store_key(*address)) {
                    crate::codec::lemma_reads_as_unique(old(self).contents()[store_key(*address)], other, prev);
                }
            }
            assert(holds(old(self).contents(), *address, prev));
        }
        r
    }

    /// Removes from the outputs of `address` the first one whose pointer is
    /// `pointer`, if there is one. The list is written back either way.
    pub fn remove(&mut self, address: &ExtendedAddr, pointer: &TxoPointer) -> (r: Result<(), Error<S::Error>>)
        ensures
            r is Ok ==> readable(old(self).contents(), *address),
            r is Ok ==> exists|prev: Seq<Entry>| #[trigger] holds(old(self).contents(), *address, prev),
            r is Ok ==> forall|prev: Seq<Entry>| #[trigger] holds(old(self).contents(), *address, prev)
                ==> final(self).contents() == written(old(self).contents(), *address, without_first(prev, *pointer)),
            !readable(old(self).contents(), *address) ==> r is Err,
            !readable(old(self).contents(), *address) ==> final(self).contents() == old(self).contents(),
            readable(old(self).contents(), *address) && old(self).reliable() ==> r is Ok,
            old(self).reliable() ==> final(self).reliable(),
            final(self).contents().remove(store_key(*address)) == old(self).contents().remove(store_key(*address)),
            r matches Err(e) ==> match e {
                Error::DeserializationError => !readable(old(self).contents(), *address)
                    && final(self).contents() == old(self).contents(),
                Error::SerializationError => false,
                Error::StorageError(_) => true,
            },
    {
        let mut list = self.get(address)?;
        let ghost prev = list@;
        remove_first(&mut list, pointer);
        let r = self.put(address, &list);
        proof {
            assert forall|other: Seq<Entry>| #[trigger] holds(old(self).contents(), *address, other) implies other == prev by {
                if old(self).contents().contains_key(store_key(*address)) {
                    crate::codec::lemma_reads_as_unique(old(self).contents()[store_key(*address)], other, prev);
                }
            }
            assert(holds(old(self).contents(), *address, prev));
        }
        r
    }
}

} // verus!
