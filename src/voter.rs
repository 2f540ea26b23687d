use vstd::prelude::*;

use crate::address::{zero_address, Address};
use crate::codec::{fixed_record_in_slot, holds_record};
use crate::error::Error;
use vstd::slice::slice_to_vec;

verus! {

/// The receipt that one identity has voted in one poll. Its slot is derived
/// from the poll and the identity, so a second vote finds the first receipt.
#[derive(Clone, Copy, Debug)]
pub struct Voter {
    pub id: Address,
}

impl View for Voter {
    type V = Seq<u8>;

    open spec fn view(&self) -> Seq<u8> {
        self.id@
    }
}

/// A receipt that no vote has written yet.
pub open spec fn is_unset(id: Seq<u8>) -> bool {
    id == zero_address()
}

/// The size of a receipt's record.
pub const VOTER_SPACE: usize = 32;

/// A receipt as stored: the voter's identity.
pub open spec fn voter_bytes(id: Seq<u8>) -> Seq<u8> {
    id
}

/// Decoding inverts encoding: the only receipt whose bytes equal those of the
/// receipt of `id` is that receipt.
pub proof fn lemma_voter_round_trip(id: Seq<u8>, decoded: Seq<u8>)
    requires
        voter_bytes(decoded) == voter_bytes(id),
    ensures
        decoded == id,
{
}

impl Voter {
    pub fn encode(&self) -> (r: Vec<u8>)
        ensures
            r@ == voter_bytes(self@),
    {
        slice_to_vec(self.id.bytes.as_slice())
    }

    /// The receipt held by a record; `MalformedRecord` where the record is not
    /// exactly `VOTER_SPACE` bytes.
    pub fn decode(bytes: &[u8]) -> (r: Result<Voter, Error>)
        ensures
            match r {
                Ok(v) => voter_bytes(v@) == bytes@,
                Err(e) => e == Error::MalformedRecord && bytes@.len() != VOTER_SPACE,
            },
    {
        if bytes.len() != VOTER_SPACE {
            return Err(Error::MalformedRecord);
        }
        let mut id = [0u8; 32];
        let mut i: usize = 0;
        while i < 32
            invariant
                i <= 32,
                bytes@.len() == 32,
                forall|j: int| 0 <= j < i ==> id@[j] == bytes@[j],
            decreases 32 - i,
        {
            id[i] = bytes[i];
            i = i + 1;
        }
        assert(id@ =~= bytes@);
        Ok(Voter { id: Address::new(id) })
    }

    /// The receipt that a slot holds; `MalformedRecord` where the slot holds
    /// no receipt's record.
    pub fn decode_slot(slot: &[u8]) -> (r: Result<Voter, Error>)
        ensures
            match r {
                Ok(v) => holds_record(slot@, voter_bytes(v@)),
                Err(e) => e == Error::MalformedRecord && forall|id: Seq<u8>|
                    id.len() == VOTER_SPACE ==> !holds_record(slot@, voter_bytes(id)),
            },
    {
        match fixed_record_in_slot(slot, VOTER_SPACE) {
            Ok(record) => Self::decode(record.as_slice()),
            Err(e) => Err(e),
        }
    }

    /// The receipt held by a freshly allocated slot.
    pub fn unset() -> (r: Voter)
        ensures
            is_unset(r@),
    {
        Voter { id: Address::zero() }
    }

    pub fn has_voted(&self) -> (r: bool)
        ensures
            r == !is_unset(self@),
    {
        !self.id.equals(&Address::zero())
    }
}

} // verus!
