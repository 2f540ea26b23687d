use vstd::prelude::*;

use crate::address::Address;
use crate::codec::{
    lemma_u64_canonical, lemma_u64_round_trip, read_u64, rest_of, u64_bytes, u64_of, write_u64,
};

verus! {

/// A choice between the two options of a two-counter poll.
#[derive(Clone, Copy, Debug, PartialEq, Eq, Structural)]
pub enum VoteType {
    GM,
    GN,
}

/// A poll of two counters, one per option, with no receipts: every vote counts.
#[derive(Clone, Copy, Debug, PartialEq, Eq, Structural)]
pub struct Poll {
    pub gm: u64,
    pub gn: u64,
}

/// The counter that a vote of `vote` adds to.
pub open spec fn counter(p: Poll, vote: VoteType) -> u64 {
    match vote {
        VoteType::GM => p.gm,
        VoteType::GN => p.gn,
    }
}

/// The poll after one vote of `vote`.
pub open spec fn after_vote(p: Poll, vote: VoteType) -> Poll {
    match vote {
        VoteType::GM => Poll { gm: (p.gm + 1) as u64, gn: p.gn },
        VoteType::GN => Poll { gm: p.gm, gn: (p.gn + 1) as u64 },
    }
}

/// The poll that a record of `SIZE` bytes holds.
pub open spec fn stored_tally(b: Seq<u8>) -> Poll {
    Poll { gm: u64_of(b), gn: u64_of(b.skip(8)) }
}

/// The poll as stored: the two counters in order.
pub open spec fn tally_bytes(p: Poll) -> Seq<u8> {
    u64_bytes(p.gm) + u64_bytes(p.gn)
}

impl Poll {
    /// The size of a poll's record.
    pub const SIZE: usize = 16;

    /// Adds one to the chosen counter.
    pub fn vote(&mut self, vote: VoteType)
        requires
            counter(*old(self), vote) < u64::MAX,
        ensures
            *final(self) == after_vote(*old(self), vote),
    {
        match vote {
            VoteType::GM => self.gm = self.gm + 1,
            VoteType::GN => self.gn = self.gn + 1,
        }
    }

    pub fn is_full(&self, vote: VoteType) -> (r: bool)
        ensures
            r == (counter(*self, vote) == u64::MAX),
    {
        match vote {
            VoteType::GM => self.gm == u64::MAX,
            VoteType::GN => self.gn == u64::MAX,
        }
    }

    pub fn encode(&self) -> (r: Vec<u8>)
        ensures
            r@ == tally_bytes(*self),
    {
        let mut out: Vec<u8> = Vec::new();
        write_u64(&mut out, self.gm);
        write_u64(&mut out, self.gn);
        out
    }

    /// The poll held by a record; `None` where the record is not `SIZE` bytes.
    pub fn decode(bytes: &[u8]) -> (r: Option<Poll>)
        ensures
            match r {
                Some(p) => tally_bytes(p) == bytes@ && p == stored_tally(bytes@),
                None => bytes@.len() != Self::SIZE,
            },
    {
        if bytes.len() != Self::SIZE {
            return None;
        }
        assert(rest_of(bytes@, 0) =~= bytes@);
        let (gm, p) = match read_u64(bytes, 0) {
            Some(x) => x,
            None => return None,
        };
        let (gn, q) = match read_u64(bytes, p) {
            Some(x) => x,
            None => return None,
        };
        proof {
            lemma_u64_canonical(bytes@);
            lemma_u64_canonical(rest_of(bytes@, 8));
            assert(bytes@ =~= bytes@.take(8) + rest_of(bytes@, 8).take(8));
            assert(rest_of(bytes@, 8) =~= bytes@.skip(8));
        }
        Some(Poll { gm, gn })
    }
}

/// Decoding inverts encoding: the only two-counter poll whose bytes equal
/// those of `p` is `p` itself.
pub proof fn lemma_tally_round_trip(p: Poll, decoded: Poll)
    requires
        tally_bytes(decoded) == tally_bytes(p),
    ensures
        decoded == p,
{
    lemma_u64_round_trip(p.gm, u64_bytes(p.gn));
    lemma_u64_round_trip(decoded.gm, u64_bytes(decoded.gn));
    let b = tally_bytes(p);
    assert(b.skip(8) =~= u64_bytes(p.gn));
    assert(tally_bytes(decoded).skip(8) =~= u64_bytes(decoded.gn));
    lemma_u64_round_trip(p.gn, Seq::empty());
    lemma_u64_round_trip(decoded.gn, Seq::empty());
    assert(u64_bytes(p.gn) + Seq::<u8>::empty() =~= u64_bytes(p.gn));
    assert(u64_bytes(decoded.gn) + Seq::<u8>::empty() =~= u64_bytes(decoded.gn));
}

/// The instructions of a two-counter poll.
#[derive(Clone, Copy, Debug, PartialEq, Eq, Structural)]
#[non_exhaustive]
pub enum Instruction {
    Vote(VoteType),
}

impl Instruction {
    /// The instruction that `bytes` carry: tag 0, then the option (0 or 1).
    pub fn decode(bytes: &[u8]) -> (r: Option<Instruction>)
        ensures
            r == Self::decode_spec(bytes@),
    {
        if bytes.len() != 2 || bytes[0] != 0 || bytes[1] > 1 {
            return None;
        }
        let t = if bytes[1] == 0 {
            VoteType::GM
        } else {
            VoteType::GN
        };
        Some(Instruction::Vote(t))
    }
}

/// Why the ledger's account refuses a two-counter vote.
#[derive(Clone, Copy, Debug, PartialEq, Eq, Structural)]
pub enum ProgramError {
    InvalidInstructionData,
    NotEnoughAccountKeys,
    IncorrectProgramId,
    InvalidAccountData,
    /// The chosen counter is already at the largest count.
    ArithmeticOverflow,
}

/// A ledger account as the program sees it.
#[derive(Debug)]
pub struct Account {
    pub key: Address,
    pub owner: Address,
    pub data: Vec<u8>,
}

/// What applying `instruction` does to the accounts, and what it returns.
pub open spec fn processed(
    program_id: Address,
    before: Seq<Account>,
    after: Seq<Account>,
    instruction: Instruction,
    r: Result<(), ProgramError>,
) -> bool {
    &&& after.len() == before.len()
    &&& before.len() == 0 ==> r == Err::<(), ProgramError>(ProgramError::NotEnoughAccountKeys)
    &&& before.len() > 0 ==> ({
        let a = before[0];
        if a.owner@ != program_id@ {
            r == Err::<(), ProgramError>(ProgramError::IncorrectProgramId) && after == before
        } else if a.data@.len() != Poll::SIZE {
            r == Err::<(), ProgramError>(ProgramError::InvalidAccountData) && after == before
        } else {
            let p = stored_tally(a.data@);
            let t = match instruction {
                Instruction::Vote(t) => t,
            };
            if counter(p, t) == u64::MAX {
                r == Err::<(), ProgramError>(ProgramError::ArithmeticOverflow) && after == before
            } else {
                &&& r is Ok
                &&& forall|i: int| 1 <= i < before.len() ==> after[i] == before[i]
                &&& after[0].key == a.key
                &&& after[0].owner == a.owner
                &&& after[0].data@ == tally_bytes(after_vote(p, t))
            }
        }
    })
}

/// Applies `instruction` to the poll held by the first account: it must
/// belong to `program_id` and hold a poll's record.
pub fn process_instruction(
    program_id: &Address,
    accounts: &mut Vec<Account>,
    instruction: Instruction,
) -> (r: Result<(), ProgramError>)
    ensures
        processed(*program_id, old(accounts)@, final(accounts)@, instruction, r),
{
    if accounts.len() == 0 {
        return Err(ProgramError::NotEnoughAccountKeys);
    }
    if !accounts[0].owner.equals(program_id) {
        return Err(ProgramError::IncorrectProgramId);
    }
    let mut poll = match Poll::decode(accounts[0].data.as_slice()) {
        Some(p) => p,
        None => return Err(ProgramError::InvalidAccountData),
    };
    match instruction {
        Instruction::Vote(t) => {
            if poll.is_full(t) {
                return Err(ProgramError::ArithmeticOverflow);
            }
            poll.vote(t);
        },
    }
    let data = poll.encode();
    accounts[0].data = data;
    Ok(())
}

/// Decodes `instruction_data` and applies it; `InvalidInstructionData` where
/// the bytes carry no instruction, and nothing changes.
pub fn process(program_id: &Address, accounts: &mut Vec<Account>, instruction_data: &[u8]) -> (r:
    Result<(), ProgramError>)
    ensures
        match Instruction::decode_spec(instruction_data@) {
            None => r == Err::<(), ProgramError>(ProgramError::InvalidInstructionData)
                && final(accounts)@ == old(accounts)@,
            Some(ix) => processed(*program_id, old(accounts)@, final(accounts)@, ix, r),
        },
{
    match Instruction::decode(instruction_data) {
        Some(ix) => process_instruction(program_id, accounts, ix),
        None => Err(ProgramError::InvalidInstructionData),
    }
}

impl Instruction {
    /// The instruction that `b` carries.
    pub open spec fn decode_spec(b: Seq<u8>) -> Option<Instruction> {
        if b.len() == 2 && b[0] == 0 && b[1] == 0 {
            Some(Instruction::Vote(VoteType::GM))
        } else if b.len() == 2 && b[0] == 0 && b[1] == 1 {
            Some(Instruction::Vote(VoteType::GN))
        } else {
            None
        }
    }
}

impl VoteType {
    /// Reads a command-line choice: `gm` or `gn`.
    pub fn parse(arg: &str) -> (r: Option<VoteType>)
        ensures
            arg@ == seq!['g', 'm'] ==> r == Some(VoteType::GM),
            arg@ == seq!['g', 'n'] ==> r == Some(VoteType::GN),
            arg@ != seq!['g', 'm'] && arg@ != seq!['g', 'n'] ==> r is None,
    {
        if arg.unicode_len() != 2 {
            return None;
        }
        let first = arg.get_char(0);
        let second = arg.get_char(1);
        if first != 'g' {
            assert(arg@[0] != seq!['g', 'm'][0]);
            return None;
        }
        if second == 'm' {
            assert(arg@ =~= seq!['g', 'm']);
            Some(VoteType::GM)
        } else if second == 'n' {
            assert(arg@ =~= seq!['g', 'n']);
            Some(VoteType::GN)
        } else {
            assert(arg@[1] != seq!['g', 'm'][1]);
            assert(arg@[1] != seq!['g', 'n'][1]);
            None
        }
    }
}

} // verus!
