use vstd::prelude::*;
use crate::codec::{address_key, lemma_list_bytes_reads_as, lemma_reads_as_unique};
use crate::service::{holds, is_first_match, readable, store_key, without_first, written};
use crate::types::{Entry, ExtendedAddr, TxoPointer};

verus! {

proof fn lemma_address_key_injective(a: ExtendedAddr, b: ExtendedAddr)
    requires
        address_key(a) == address_key(b),
    ensures
        a == b,
{
    broadcast use vstd::array::group_array_axioms;
    match (a, b) {
        (ExtendedAddr::BasicRedeem(x), ExtendedAddr::BasicRedeem(y)) => {
            assert(x@ =~= address_key(a).skip(4));
            assert(y@ =~= address_key(b).skip(4));
            assert forall|i: int| 0 <= i < 20 implies x[i] == y[i] by {
                assert(x@[i] == y@[i]);
            }
            assert(x =~= y);
        },
        (ExtendedAddr::OrTree(x), ExtendedAddr::OrTree(y)) => {
            assert(x@ =~= address_key(a).skip(4));
            assert(y@ =~= address_key(b).skip(4));
            assert forall|i: int| 0 <= i < 32 implies x[i] == y[i] by {
                assert(x@[i] == y@[i]);
            }
            assert(x =~= y);
        },
        (ExtendedAddr::BasicRedeem(_), ExtendedAddr::OrTree(_)) => {
            assert(address_key(a)[0] != address_key(b)[0]);
        },
        (ExtendedAddr::OrTree(_), ExtendedAddr::BasicRedeem(_)) => {
            assert(address_key(a)[0] != address_key(b)[0]);
        },
    }
}

/// An address under which nothing is stored reads as no entries, without
/// error.
pub proof fn lemma_absent_reads_empty(
    contents: Map<(Seq<char>, Seq<u8>), Seq<u8>>,
    address: ExtendedAddr,
    s: Seq<Entry>,
)
    requires
        !contents.contains_key(store_key(address)),
    ensures
        readable(contents, address),
        holds(contents, address, s) <==> s == Seq::<Entry>::empty(),
{
}

/// Writing the entries of one address leaves every other address as it
/// was.
pub proof fn lemma_other_address_untouched(
    contents: Map<(Seq<char>, Seq<u8>), Seq<u8>>,
    address: ExtendedAddr,
    other: ExtendedAddr,
    s: Seq<Entry>,
    t: Seq<Entry>,
)
    requires
        address != other,
    ensures
        readable(written(contents, address, s), other) == readable(contents, other),
        holds(written(contents, address, s), other, t) == holds(contents, other, t),
{
    if address_key(address) == address_key(other) {
        lemma_address_key_injective(address, other);
    }
    assert(store_key(address) != store_key(other));
}

/// A list written for an address reads back as exactly that list.
pub proof fn lemma_written_reads_back(
    contents: Map<(Seq<char>, Seq<u8>), Seq<u8>>,
    address: ExtendedAddr,
    s: Seq<Entry>,
    t: Seq<Entry>,
)
    requires
        s.len() <= u64::MAX,
    ensures
        readable(written(contents, address, s), address),
        holds(written(contents, address, s), address, t) <==> t == s,
{
    lemma_list_bytes_reads_as(s);
    if holds(written(contents, address, s), address, t) {
        lemma_reads_as_unique(crate::codec::list_bytes(s), s, t);
    }
}

/// After `add`, the entries read back are those before with the new pair
/// last: one more than before.
pub proof fn lemma_add_appends(
    before: Map<(Seq<char>, Seq<u8>), Seq<u8>>,
    address: ExtendedAddr,
    entry: Entry,
    prev: Seq<Entry>,
    now: Seq<Entry>,
)
    requires
        holds(before, address, prev),
        prev.len() < u64::MAX,
        holds(written(before, address, prev.push(entry)), address, now),
    ensures
        now.len() == prev.len() + 1,
        now.last() == entry,
        now.drop_last() == prev,
{
    lemma_written_reads_back(before, address, prev.push(entry), now);
    assert(now.drop_last() =~= prev);
}

/// Adding the same pair twice keeps both copies.
pub proof fn lemma_add_twice_keeps_both(
    before: Map<(Seq<char>, Seq<u8>), Seq<u8>>,
    address: ExtendedAddr,
    entry: Entry,
    prev: Seq<Entry>,
    mid: Seq<Entry>,
    now: Seq<Entry>,
)
    requires
        holds(before, address, prev),
        prev.len() + 2 <= u64::MAX,
        holds(written(before, address, prev.push(entry)), address, mid),
        holds(written(written(before, address, prev.push(entry)), address, mid.push(entry)), address, now),
    ensures
        now == prev.push(entry).push(entry),
        now.len() == prev.len() + 2,
{
    lemma_written_reads_back(before, address, prev.push(entry), mid);
    lemma_written_reads_back(written(before, address, prev.push(entry)), address, mid.push(entry), now);
}

proof fn lemma_first_match_exists(s: Seq<Entry>, pointer: TxoPointer, i: int)
    requires
        0 <= i < s.len(),
        s[i].0 == pointer,
    ensures
        exists|k: int| is_first_match(s, pointer, k),
    decreases i,
{
    if exists|j: int| 0 <= j < i && s[j].0 == pointer {
        let j = choose|j: int| 0 <= j < i && s[j].0 == pointer;
        lemma_first_match_exists(s, pointer, j);
    } else {
        assert(is_first_match(s, pointer, i));
    }
}

/// Removing a pointer that is there takes out its first entry and keeps
/// the others in their order: one fewer than before.
pub proof fn lemma_remove_present(
    before: Map<(Seq<char>, Seq<u8>), Seq<u8>>,
    address: ExtendedAddr,
    pointer: TxoPointer,
    prev: Seq<Entry>,
    i: int,
    now: Seq<Entry>,
)
    requires
        holds(before, address, prev),
        prev.len() <= u64::MAX,
        0 <= i < prev.len(),
        prev[i].0 == pointer,
        holds(written(before, address, without_first(prev, pointer)), address, now),
    ensures
        exists|k: int| is_first_match(prev, pointer, k) && now == prev.take(k) + prev.skip(k + 1),
        now.len() == prev.len() - 1,
{
    lemma_first_match_exists(prev, pointer, i);
    let k = choose|k: int| is_first_match(prev, pointer, k);
    lemma_written_reads_back(before, address, without_first(prev, pointer), now);
    assert(now =~= prev.take(k) + prev.skip(k + 1));
}

/// Removing a pointer that is not there leaves the entries as they were.
pub proof fn lemma_remove_absent(
    before: Map<(Seq<char>, Seq<u8>), Seq<u8>>,
    address: ExtendedAddr,
    pointer: TxoPointer,
    prev: Seq<Entry>,
    now: Seq<Entry>,
)
    requires
        holds(before, address, prev),
        prev.len() <= u64::MAX,
        forall|j: int| 0 <= j < prev.len() ==> prev[j].0 != pointer,
        holds(written(before, address, without_first(prev, pointer)), address, now),
    ensures
        now == prev,
{
    lemma_written_reads_back(before, address, without_first(prev, pointer), now);
}

/// Adding a pair whose pointer is not there yet, then removing that
/// pointer, gives back the entries from before.
pub proof fn lemma_add_then_remove(
    before: Map<(Seq<char>, Seq<u8>), Seq<u8>>,
    address: ExtendedAddr,
    entry: Entry,
    prev: Seq<Entry>,
    mid: Seq<Entry>,
    now: Seq<Entry>,
)
    requires
        holds(before, address, prev),
        prev.len() < u64::MAX,
        forall|j: int| 0 <= j < prev.len() ==> prev[j].0 != entry.0,
        holds(written(before, address, prev.push(entry)), address, mid),
        holds(written(written(before, address, prev.push(entry)), address, without_first(mid, entry.0)), address, now),
    ensures
        mid == prev.push(entry),
        now == prev,
{
    lemma_written_reads_back(before, address, prev.push(entry), mid);
    let n = prev.len() as int;
    assert(is_first_match(mid, entry.0, n));
    let k = choose|k: int| is_first_match(mid, entry.0, k);
    assert(k == n);
    assert(without_first(mid, entry.0) =~= prev);
    lemma_written_reads_back(written(before, address, prev.push(entry)), address, prev, now);
}

} // verus!
