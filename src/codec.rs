use vstd::prelude::*;
use vstd::bytes::{spec_u64_to_le_bytes, spec_u64_from_le_bytes, lemma_auto_spec_u64_to_from_le_bytes};
use crate::types::{Coin, Entry, ExtendedAddr, TxoPointer};

verus! {

/// The form in which an entry is handed to bincode: transaction id, output
/// index, amount.
pub type Row = ([u8; 32], u64, u64);

/// bincode's error, carried from its calls and never looked into.
#[verifier::external_type_specification]
#[verifier::external_body]
pub struct ExBincodeErrorKind(bincode::ErrorKind);

/// The store key of an address: the number of its kind (0 or 1) as four
/// little-endian bytes, then its bytes, as bincode lays out an enum.
pub open spec fn address_key(a: ExtendedAddr) -> Seq<u8> {
    match a {
        ExtendedAddr::BasicRedeem(b) => seq![0u8, 0u8, 0u8, 0u8] + b@,
        ExtendedAddr::OrTree(r) => seq![1u8, 0u8, 0u8, 0u8] + r@,
    }
}

/// The row that stands for an entry.
pub open spec fn row_of(e: Entry) -> Row {
    (e.0.id, e.0.index, e.1.0)
}

/// The entry that a row stands for.
pub open spec fn entry_of(r: Row) -> Entry {
    (TxoPointer { id: r.0, index: r.1 }, Coin(r.2))
}

pub open spec fn rows_of(s: Seq<Entry>) -> Seq<Row> {
    s.map_values(|e: Entry| row_of(e))
}

pub open spec fn entries_of(rs: Seq<Row>) -> Seq<Entry> {
    rs.map_values(|r: Row| entry_of(r))
}

/// A row as bincode writes it: the id's bytes, then the index and the
/// amount as eight little-endian bytes each.
pub open spec fn row_bytes(r: Row) -> Seq<u8> {
    r.0@ + spec_u64_to_le_bytes(r.1) + spec_u64_to_le_bytes(r.2)
}

pub open spec fn rows_bytes(rs: Seq<Row>) -> Seq<u8>
    decreases rs.len(),
{
    if rs.len() == 0 {
        Seq::empty()
    } else {
        rows_bytes(rs.drop_last()) + row_bytes(rs.last())
    }
}

/// A sequence of rows as bincode writes it: its length as eight
/// little-endian bytes, then the rows in order.
pub open spec fn encoded_rows(rs: Seq<Row>) -> Seq<u8> {
    spec_u64_to_le_bytes(rs.len() as u64) + rows_bytes(rs)
}

/// The number of rows that encoded bytes announce.
pub open spec fn row_count(b: Seq<u8>) -> int {
    spec_u64_from_le_bytes(b.take(8)) as int
}

/// The bytes of the row at position `i` of encoded bytes.
pub open spec fn row_at(b: Seq<u8>, i: int) -> Seq<u8> {
    b.subrange(8 + 48 * i, 8 + 48 * i + 48)
}

/// The bytes hold a length and at least that many rows.
pub open spec fn decodable(b: Seq<u8>) -> bool {
    b.len() >= 8 && b.len() - 8 >= 48 * row_count(b)
}

/// The bytes decode to exactly the rows `rs`.
pub open spec fn decodes_to(b: Seq<u8>, rs: Seq<Row>) -> bool {
    &&& decodable(b)
    &&& rs.len() == row_count(b)
    &&& forall|i: int| 0 <= i < rs.len() ==> #[trigger] row_bytes(rs[i]) == row_at(b, i)
}

/// The bytes under which a list of entries is stored.
pub open spec fn list_bytes(s: Seq<Entry>) -> Seq<u8> {
    encoded_rows(rows_of(s))
}

/// Stored bytes read back as the list of entries `s`.
pub open spec fn reads_as(b: Seq<u8>, s: Seq<Entry>) -> bool {
    decodes_to(b, rows_of(s))
}

/// Relies on bincode::serialize (bincode 1.3, fixed-width little-endian
/// integers): a `Vec` is written as its length in eight bytes, then its
/// items; an array as its bytes; a tuple as its fields in order. With no
/// size limit and a `Vec` to write into, it cannot fail on these rows.
#[verifier::external_body]
fn serialize_rows(rows: &Vec<Row>) -> (r: Result<Vec<u8>, Box<bincode::ErrorKind>>)
    ensures
        r is Ok,
        r matches Ok(b) ==> b@ == encoded_rows(rows@),
{
    bincode::serialize(rows)
}

/// Relies on bincode::deserialize (bincode 1.3): it reads a length, then
/// that many rows of 48 bytes each, fails when the bytes run out, and
/// ignores any bytes that follow.
#[verifier::external_body]
fn deserialize_rows(bytes: &[u8]) -> (r: Result<Vec<Row>, Box<bincode::ErrorKind>>)
    ensures
        r is Ok <==> decodable(bytes@),
        r matches Ok(rows) ==> decodes_to(bytes@, rows@),
{
    bincode::deserialize(bytes)
}

fn rows_from_entries(list: &Vec<Entry>) -> (r: Vec<Row>)
    ensures
        r@ == rows_of(list@),
{
    let mut out: Vec<Row> = Vec::new();
    let mut i: usize = 0;
    while i < list.len()
        invariant
            0 <= i <= list@.len(),
            out@ == rows_of(list@.take(i as int)),
        decreases list@.len() - i,
    {
        let e = list[i];
        out.push((e.0.id, e.0.index, e.1.0));
        proof {
            assert(list@.take(i as int + 1) =~= list@.take(i as int).push(list@[i as int]));
            assert(rows_of(list@.take(i as int + 1)) =~= rows_of(list@.take(i as int)).push(row_of(list@[i as int])));
        }
        i = i + 1;
    }
    proof {
        assert(list@.take(i as int) =~= list@);
    }
    out
}

fn entries_from_rows(rows: &Vec<Row>) -> (r: Vec<Entry>)
    ensures
        r@ == entries_of(rows@),
{
    let mut out: Vec<Entry> = Vec::new();
    let mut i: usize = 0;
    while i < rows.len()
        invariant
            0 <= i <= rows@.len(),
            out@ == entries_of(rows@.take(i as int)),
        decreases rows@.len() - i,
    {
        let r = rows[i];
        out.push((TxoPointer { id: r.0, index: r.1 }, Coin(r.2)));
        proof {
            assert(rows@.take(i as int + 1) =~= rows@.take(i as int).push(rows@[i as int]));
            assert(entries_of(rows@.take(i as int + 1)) =~= entries_of(rows@.take(i as int)).push(entry_of(rows@[i as int])));
        }
        i = i + 1;
    }
    proof {
        assert(rows@.take(i as int) =~= rows@);
    }
    out
}

/// Turning rows into entries and back gives the same rows.
pub proof fn lemma_rows_of_entries_of(rs: Seq<Row>)
    ensures
        rows_of(entries_of(rs)) == rs,
{
    assert(rows_of(entries_of(rs)) =~= rs);
}

/// Encodes a list of entries into the bytes stored for it.
pub fn encode_entries(list: &Vec<Entry>) -> (r: Option<Vec<u8>>)
    ensures
        r is Some,
        r matches Some(b) ==> b@ == list_bytes(list@),
{
    let rows = rows_from_entries(list);
    match serialize_rows(&rows) {
        Ok(b) => Some(b),
        Err(_) => None,
    }
}

/// Decodes stored bytes into a list of entries; `None` exactly when the
/// bytes do not hold a complete list.
pub fn decode_entries(bytes: &[u8]) -> (r: Option<Vec<Entry>>)
    ensures
        r is Some <==> decodable(bytes@),
        r matches Some(v) ==> reads_as(bytes@, v@),
{
    match deserialize_rows(bytes) {
        Ok(rows) => {
            let v = entries_from_rows(&rows);
            proof {
                lemma_rows_of_entries_of(rows@);
            }
            Some(v)
        },
        Err(_) => None,
    }
}

proof fn lemma_row_bytes_len(r: Row)
    ensures
        row_bytes(r).len() == 48,
{
    lemma_auto_spec_u64_to_from_le_bytes();
}

proof fn lemma_rows_bytes_layout(rs: Seq<Row>)
    ensures
        rows_bytes(rs).len() == 48 * rs.len(),
        forall|i: int|
            0 <= i < rs.len() ==> #[trigger] rows_bytes(rs).subrange(48 * i, 48 * i + 48) == row_bytes(rs[i]),
    decreases rs.len(),
{
    if rs.len() > 0 {
        let front = rs.drop_last();
        lemma_rows_bytes_layout(front);
        lemma_row_bytes_len(rs.last());
        let whole = rows_bytes(rs);
        assert(whole == rows_bytes(front) + row_bytes(rs.last()));
        assert forall|i: int| 0 <= i < rs.len() implies #[trigger] whole.subrange(48 * i, 48 * i + 48)
            == row_bytes(rs[i]) by {
            if i < rs.len() - 1 {
                assert(front[i] == rs[i]);
                assert(whole.subrange(48 * i, 48 * i + 48) =~= rows_bytes(front).subrange(48 * i, 48 * i + 48));
            } else {
                assert(whole.subrange(48 * i, 48 * i + 48) =~= row_bytes(rs.last()));
            }
        }
    }
}

proof fn lemma_row_bytes_injective(a: Row, b: Row)
    requires
        row_bytes(a) == row_bytes(b),
    ensures
        a == b,
{
    broadcast use vstd::array::group_array_axioms;
    lemma_auto_spec_u64_to_from_le_bytes();
    let x = row_bytes(a);
    let y = row_bytes(b);
    assert(a.0@ =~= x.subrange(0, 32));
    assert(b.0@ =~= y.subrange(0, 32));
    assert(spec_u64_to_le_bytes(a.1) =~= x.subrange(32, 40));
    assert(spec_u64_to_le_bytes(b.1) =~= y.subrange(32, 40));
    assert(spec_u64_to_le_bytes(a.2) =~= x.subrange(40, 48));
    assert(spec_u64_to_le_bytes(b.2) =~= y.subrange(40, 48));
    assert(a.1 == b.1);
    assert(a.2 == b.2);
    assert forall|i: int| 0 <= i < 32 implies a.0[i] == b.0[i] by {
        assert(a.0@[i] == b.0@[i]);
    }
    assert(a.0 =~= b.0);
}

/// Encoded rows decode to themselves.
pub proof fn lemma_encoded_rows_decode(rs: Seq<Row>)
    requires
        rs.len() <= u64::MAX,
    ensures
        decodes_to(encoded_rows(rs), rs),
{
    lemma_auto_spec_u64_to_from_le_bytes();
    lemma_rows_bytes_layout(rs);
    let b = encoded_rows(rs);
    let head = spec_u64_to_le_bytes(rs.len() as u64);
    assert(b.take(8) =~= head);
    assert(row_count(b) == rs.len());
    assert forall|i: int| 0 <= i < rs.len() implies #[trigger] row_bytes(rs[i]) == row_at(b, i) by {
        assert(row_at(b, i) =~= rows_bytes(rs).subrange(48 * i, 48 * i + 48));
    }
}

/// Bytes decode to at most one sequence of rows.
pub proof fn lemma_decodes_unique(b: Seq<u8>, r1: Seq<Row>, r2: Seq<Row>)
    requires
        decodes_to(b, r1),
        decodes_to(b, r2),
    ensures
        r1 == r2,
{
    assert forall|i: int| 0 <= i < r1.len() implies r1[i] == r2[i] by {
        assert(row_bytes(r1[i]) == row_at(b, i));
        assert(row_bytes(r2[i]) == row_at(b, i));
        lemma_row_bytes_injective(r1[i], r2[i]);
    }
    assert(r1 =~= r2);
}

/// The bytes stored for a list read back as that list.
pub proof fn lemma_list_bytes_reads_as(s: Seq<Entry>)
    requires
        s.len() <= u64::MAX,
    ensures
        decodable(list_bytes(s)),
        reads_as(list_bytes(s), s),
{
    lemma_encoded_rows_decode(rows_of(s));
}

/// Stored bytes read back as at most one list.
pub proof fn lemma_reads_as_unique(b: Seq<u8>, s: Seq<Entry>, t: Seq<Entry>)
    requires
        reads_as(b, s),
        reads_as(b, t),
    ensures
        s == t,
{
    lemma_decodes_unique(b, rows_of(s), rows_of(t));
    assert(s.len() == rows_of(s).len());
    assert forall|i: int| 0 <= i < s.len() implies s[i] == t[i] by {
        assert(rows_of(s)[i] == row_of(s[i]));
        assert(rows_of(t)[i] == row_of(t[i]));
    }
    assert(s =~= t);
}

fn push_bytes(out: &mut Vec<u8>, bytes: &[u8])
    ensures
        final(out)@ == old(out)@ + bytes@,
{
    let mut i: usize = 0;
    while i < bytes.len()
        invariant
            0 <= i <= bytes@.len(),
            out@ == old(out)@ + bytes@.take(i as int),
        decreases bytes@.len() - i,
    {
        out.push(bytes[i]);
        proof {
            assert(bytes@.take(i as int + 1) =~= bytes@.take(i as int).push(bytes@[i as int]));
        }
        i = i + 1;
    }
    proof {
        assert(bytes@.take(i as int) =~= bytes@);
    }
}

/// The store key of `address`.
pub fn address_key_bytes(address: &ExtendedAddr) -> (r: Vec<u8>)
    ensures
        r@ == address_key(*address),
{
    let mut out: Vec<u8> = Vec::new();
    match address {
        ExtendedAddr::BasicRedeem(b) => {
            push_bytes(&mut out, [0u8, 0u8, 0u8, 0u8].as_slice());
            push_bytes(&mut out, b.as_slice());
        },
        ExtendedAddr::OrTree(r) => {
            push_bytes(&mut out, [1u8, 0u8, 0u8, 0u8].as_slice());
            push_bytes(&mut out, r.as_slice());
        },
    }
    proof {
        assert(out@ =~= address_key(*address));
    }
    out
}

} // verus!
