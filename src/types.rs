use vstd::prelude::*;

verus! {

/// Identifier of a transaction.
pub type TxId = [u8; 32];

/// Points at one output of one transaction.
#[derive(Clone, Copy, Debug)]
pub struct TxoPointer {
    pub id: TxId,
    pub index: u64,
}

impl TxoPointer {
    pub fn new(id: TxId, index: u64) -> (r: TxoPointer)
        ensures
            r.id == id,
            r.index == index,
    {
        TxoPointer { id, index }
    }
}

impl PartialEq for TxoPointer {
    fn eq(&self, other: &TxoPointer) -> (r: bool) {
        if self.index != other.index {
            return false;
        }
        let mut i: usize = 0;
        while i < 32
            invariant
                0 <= i <= 32,
                forall|j: int| 0 <= j < i ==> self.id[j] == other.id[j],
            decreases 32 - i,
        {
            if self.id[i] != other.id[i] {
                return false;
            }
            i = i + 1;
        }
        proof {
            assert(self.id@ =~= other.id@);
        }
        true
    }
}

impl vstd::std_specs::cmp::PartialEqSpecImpl for TxoPointer {
    open spec fn obeys_eq_spec() -> bool {
        true
    }

    open spec fn eq_spec(&self, other: &TxoPointer) -> bool {
        self.id@ == other.id@ && self.index == other.index
    }
}

/// An amount of coins held by one output.
#[derive(Clone, Copy, Debug, PartialEq, Eq, Structural)]
pub struct Coin(pub u64);

/// A wallet address; the index uses it only as a key.
#[derive(Clone, Copy, Debug)]
pub enum ExtendedAddr {
    BasicRedeem([u8; 20]),
    OrTree([u8; 32]),
}

/// One unspent output held by an address.
pub type Entry = (TxoPointer, Coin);

} // verus!
