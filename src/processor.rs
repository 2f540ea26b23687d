use vstd::prelude::*;

use crate::address::{
    derived_address, poll_address, poll_key, voter_address, voter_key,
    zero_address, Address, EntityKind,
};
use vstd::utf8::encode_utf8;
use crate::error::Error;
use crate::instruction::{
    lemma_parse_instruction_canonical, lemma_parse_instruction_round_trip, parse_instruction,
    Instruction, InstructionView,
};
use crate::poll::{
    can_count_vote, create_outcome, first_index, first_match, has_candidate,
    lemma_first_match_unique, lemma_parse_poll_canonical, lemma_parse_poll_round_trip, parse_poll,
    poll_bytes, strings_view, Poll, PollView,
};
use crate::voter::{is_unset, voter_bytes, Voter, VOTER_SPACE};

verus! {

/// What creating a poll in a slot holding `old` yields: a slot that is not
/// empty refuses, else the poll's own rules decide.
pub open spec fn create_poll_outcome(
    old: PollView,
    name: Seq<char>,
    description: Seq<char>,
    closes_at: u64,
    candidates: Seq<Seq<char>>,
) -> Result<PollView, Error> {
    if !old.is_empty() {
        Err(Error::PollAlreadyExists)
    } else {
        create_outcome(name, description, closes_at, candidates)
    }
}

/// Which check refuses a vote by `signer`, in the order they are made;
/// `None` when the vote is counted. The receipt must be unset, the poll open
/// and the candidate present. Last, just before the receipt would be written,
/// the all-zero identity is refused as having voted: a receipt written with
/// it would still read as unset.
pub open spec fn vote_refusal(
    voter: Seq<u8>,
    signer: Seq<u8>,
    poll: PollView,
    candidate: Seq<char>,
    now: u64,
) -> Option<Error> {
    if !is_unset(voter) {
        Some(Error::AlreadyVoted)
    } else if !poll.is_open(now) {
        Some(Error::VotingEnded)
    } else if !has_candidate(poll.candidates, candidate) {
        Some(Error::CandidateNotFound)
    } else if signer == zero_address() {
        Some(Error::AlreadyVoted)
    } else {
        None
    }
}

/// What editing a poll in a slot holding `old` yields: an empty slot holds
/// no poll to edit; otherwise only the closing time changes.
pub open spec fn edit_poll_outcome(old: PollView, closes_at: u64) -> Result<PollView, Error> {
    if old.is_empty() {
        Err(Error::PollNotInitialized)
    } else {
        Ok(old.with_closes_at(closes_at))
    }
}

/// Creates the poll in its slot, which must be empty; on any refusal the
/// slot is left as it was.
pub fn handle_create_poll(
    poll: &mut Poll,
    name: String,
    description: String,
    closes_at: u64,
    candidates: Vec<String>,
) -> (r: Result<(), Error>)
    ensures
        match create_poll_outcome(
            old(poll)@,
            name@,
            description@,
            closes_at,
            strings_view(candidates@),
        ) {
            Ok(p) => r is Ok && final(poll)@ == p,
            Err(e) => r == Err::<(), Error>(e) && final(poll)@ == old(poll)@,
        },
{
    if !poll.is_empty() {
        return Err(Error::PollAlreadyExists);
    }
    poll.create(name, description, closes_at, candidates)
}

/// Moves the poll's closing time; `PollNotInitialized`, with the slot left
/// as it was, where the slot holds no poll yet.
pub fn handle_edit_poll(poll: &mut Poll, closes_at: u64) -> (r: Result<(), Error>)
    ensures
        match edit_poll_outcome(old(poll)@, closes_at) {
            Ok(p) => r is Ok && final(poll)@ == p,
            Err(e) => r == Err::<(), Error>(e) && final(poll)@ == old(poll)@,
        },
{
    if poll.is_empty() {
        return Err(Error::PollNotInitialized);
    }
    poll.edit(closes_at);
    Ok(())
}

/// Counts `signer`'s vote for `candidate` at time `now` and writes the
/// receipt; on any refusal neither the poll nor the receipt changes.
pub fn handle_vote(
    poll: &mut Poll,
    voter: &mut Voter,
    signer: &Address,
    candidate: String,
    now: u64,
) -> (r: Result<(), Error>)
    requires
        vote_refusal(old(voter)@, signer@, old(poll)@, candidate@, now) is None ==> can_count_vote(
            old(poll)@.candidates,
            candidate@,
        ),
    ensures
        match vote_refusal(old(voter)@, signer@, old(poll)@, candidate@, now) {
            Some(e) => r == Err::<(), Error>(e) && final(poll)@ == old(poll)@ && final(voter)@ == old(
                voter,
            )@,
            None => r is Ok && final(voter)@ == signer@ && exists|i: int|
                first_match(old(poll)@.candidates, candidate@, i) && final(poll)@ == old(
                    poll,
                )@.with_vote(i),
        },
{
    if voter.has_voted() {
        return Err(Error::AlreadyVoted);
    }
    if !poll.is_open(now) {
        return Err(Error::VotingEnded);
    }
    if !poll.has_candidate(&candidate) {
        return Err(Error::CandidateNotFound);
    }
    if signer.equals(&Address::zero()) {
        return Err(Error::AlreadyVoted);
    }
    match poll.vote(candidate) {
        Ok(()) => {
            voter.id = *signer;
            Ok(())
        },
        Err(e) => Err(e),
    }
}

/// `addr` is the address derived for an entity of `kind` with `key`.
pub open spec fn at_derived(addr: Seq<u8>, kind: EntityKind, key: Seq<Seq<u8>>, program_id: Seq<u8>) -> bool {
    derived_address(kind, key, program_id) == Some(addr)
}

fn is_poll_slot(addr: &Address, name: &String, program_id: &Address) -> (r: bool)
    ensures
        r == at_derived(addr@, EntityKind::Poll, poll_key(encode_utf8(name@)), program_id@),
{
    match poll_address(name.as_str(), program_id) {
        Some(a) => a.equals(addr),
        None => false,
    }
}

/// The slots an instruction to create a poll names.
pub struct CreatePoll {
    pub signer: Address,
    pub poll_address: Address,
    pub poll: Poll,
}

/// The slots an instruction to edit a poll names.
pub struct EditPoll {
    pub signer: Address,
    pub poll_address: Address,
    pub poll: Poll,
}

/// The slots an instruction to vote names.
pub struct Vote {
    pub signer: Address,
    pub poll_address: Address,
    pub poll: Poll,
    pub voter_address: Address,
    pub voter: Voter,
}

/// Creates the poll named `name` in the slot derived from that name under
/// `program_id`; `AddressMismatch` where the slot handed in is another.
pub fn create_poll(
    program_id: &Address,
    accounts: &mut CreatePoll,
    name: String,
    description: String,
    closes_at: u64,
    candidates: Vec<String>,
) -> (r: Result<(), Error>)
    ensures
        final(accounts).signer == old(accounts).signer,
        final(accounts).poll_address == old(accounts).poll_address,
        !at_derived(
            old(accounts).poll_address@,
            EntityKind::Poll,
            poll_key(encode_utf8(name@)),
            program_id@,
        ) ==> r == Err::<(), Error>(Error::AddressMismatch) && final(accounts).poll@ == old(
            accounts,
        ).poll@,
        at_derived(
            old(accounts).poll_address@,
            EntityKind::Poll,
            poll_key(encode_utf8(name@)),
            program_id@,
        ) ==> match create_poll_outcome(
            old(accounts).poll@,
            name@,
            description@,
            closes_at,
            strings_view(candidates@),
        ) {
            Ok(p) => r is Ok && final(accounts).poll@ == p,
            Err(e) => r == Err::<(), Error>(e) && final(accounts).poll@ == old(accounts).poll@,
        },
{
    if !is_poll_slot(&accounts.poll_address, &name, program_id) {
        return Err(Error::AddressMismatch);
    }
    handle_create_poll(&mut accounts.poll, name, description, closes_at, candidates)
}

/// Moves the closing time of the poll named `name`; `AddressMismatch` where
/// the slot handed in is not that poll's, `PollNotInitialized` where that
/// slot holds no poll yet.
pub fn edit_poll(program_id: &Address, accounts: &mut EditPoll, name: String, closes_at: u64) -> (r:
    Result<(), Error>)
    ensures
        final(accounts).signer == old(accounts).signer,
        final(accounts).poll_address == old(accounts).poll_address,
        !at_derived(
            old(accounts).poll_address@,
            EntityKind::Poll,
            poll_key(encode_utf8(name@)),
            program_id@,
        ) ==> r == Err::<(), Error>(Error::AddressMismatch) && final(accounts).poll@ == old(
            accounts,
        ).poll@,
        at_derived(
            old(accounts).poll_address@,
            EntityKind::Poll,
            poll_key(encode_utf8(name@)),
            program_id@,
        ) ==> match edit_poll_outcome(old(accounts).poll@, closes_at) {
            Ok(p) => r is Ok && final(accounts).poll@ == p,
            Err(e) => r == Err::<(), Error>(e) && final(accounts).poll@ == old(accounts).poll@,
        },
{
    if !is_poll_slot(&accounts.poll_address, &name, program_id) {
        return Err(Error::AddressMismatch);
    }
    handle_edit_poll(&mut accounts.poll, closes_at)
}

/// Both slots of a vote are where the instruction says: the poll's derived
/// from its name, the receipt's from the poll's address and the signer.
pub open spec fn vote_slots_match(accounts: Vote, name: Seq<char>, program_id: Seq<u8>) -> bool {
    &&& at_derived(accounts.poll_address@, EntityKind::Poll, poll_key(encode_utf8(name)), program_id)
    &&& at_derived(
        accounts.voter_address@,
        EntityKind::Voter,
        voter_key(accounts.poll_address@, accounts.signer@),
        program_id,
    )
}

/// Counts the signer's vote at time `now` for `candidate` in the poll named
/// `name`; `AddressMismatch` where a slot handed in is not the derived one.
pub fn vote(program_id: &Address, accounts: &mut Vote, name: String, candidate: String, now: u64) -> (r:
    Result<(), Error>)
    requires
        vote_slots_match(*old(accounts), name@, program_id@) && vote_refusal(
            old(accounts).voter@,
            old(accounts).signer@,
            old(accounts).poll@,
            candidate@,
            now,
        ) is None ==> can_count_vote(old(accounts).poll@.candidates, candidate@),
    ensures
        final(accounts).signer == old(accounts).signer,
        final(accounts).poll_address == old(accounts).poll_address,
        final(accounts).voter_address == old(accounts).voter_address,
        !vote_slots_match(*old(accounts), name@, program_id@) ==> r == Err::<(), Error>(
            Error::AddressMismatch,
        ) && final(accounts).poll@ == old(accounts).poll@ && final(accounts).voter@ == old(
            accounts,
        ).voter@,
        vote_slots_match(*old(accounts), name@, program_id@) ==> match vote_refusal(
            old(accounts).voter@,
            old(accounts).signer@,
            old(accounts).poll@,
            candidate@,
            now,
        ) {
            Some(e) => r == Err::<(), Error>(e) && final(accounts).poll@ == old(accounts).poll@
                && final(accounts).voter@ == old(accounts).voter@,
            None => r is Ok && final(accounts).voter@ == old(accounts).signer@ && exists|i: int|
                first_match(old(accounts).poll@.candidates, candidate@, i) && final(accounts).poll@
                    == old(accounts).poll@.with_vote(i),
        },
{
    if !is_poll_slot(&accounts.poll_address, &name, program_id) {
        return Err(Error::AddressMismatch);
    }
    let expected = voter_address(&accounts.poll_address, &accounts.signer, program_id);
    let matches = match expected {
        Some(a) => a.equals(&accounts.voter_address),
        None => false,
    };
    if !matches {
        return Err(Error::AddressMismatch);
    }
    let signer = accounts.signer;
    handle_vote(&mut accounts.poll, &mut accounts.voter, &signer, candidate, now)
}

/// What an instruction does to the poll and receipt it names, given the
/// slots handed in: the new poll and receipt, or the refusal.
pub open spec fn instruction_outcome(
    program_id: Seq<u8>,
    now: u64,
    signer: Seq<u8>,
    poll_address: Seq<u8>,
    voter_address: Seq<u8>,
    ix: InstructionView,
    poll: PollView,
    voter: Seq<u8>,
) -> Result<(PollView, Seq<u8>), Error> {
    match ix {
        InstructionView::CreatePoll { name, description, closes_at, candidates } => {
            if !at_derived(poll_address, EntityKind::Poll, poll_key(encode_utf8(name)), program_id) {
                Err(Error::AddressMismatch)
            } else {
                match create_poll_outcome(poll, name, description, closes_at, candidates) {
                    Ok(p) => Ok((p, voter)),
                    Err(e) => Err(e),
                }
            }
        },
        InstructionView::EditPoll { name, closes_at } => {
            if !at_derived(poll_address, EntityKind::Poll, poll_key(encode_utf8(name)), program_id) {
                Err(Error::AddressMismatch)
            } else {
                match edit_poll_outcome(poll, closes_at) {
                    Ok(p) => Ok((p, voter)),
                    Err(e) => Err(e),
                }
            }
        },
        InstructionView::Vote { name, candidate } => {
            if !at_derived(poll_address, EntityKind::Poll, poll_key(encode_utf8(name)), program_id)
                || !at_derived(
                voter_address,
                EntityKind::Voter,
                voter_key(poll_address, signer),
                program_id,
            ) {
                Err(Error::AddressMismatch)
            } else {
                match vote_refusal(voter, signer, poll, candidate, now) {
                    Some(e) => Err(e),
                    None => Ok((poll.with_vote(first_index(poll.candidates, candidate)), signer)),
                }
            }
        },
    }
}

/// The records that one instruction reads and writes, as the ledger holds them.
pub struct Records {
    pub signer: Address,
    pub poll_address: Address,
    pub poll: Vec<u8>,
    pub voter_address: Address,
    pub voter: Vec<u8>,
}

/// What processing `data` does to the stored records: their new bytes, or
/// the refusal. Bytes that carry no instruction, a poll record that is no
/// poll's, or (for a vote) a receipt record of the wrong size are
/// `MalformedRecord`.
pub open spec fn processed_records(
    program_id: Seq<u8>,
    now: u64,
    records: Records,
    data: Seq<u8>,
) -> Result<(Seq<u8>, Seq<u8>), Error> {
    match parse_instruction(data) {
        None => Err(Error::MalformedRecord),
        Some(ix) => match parse_poll(records.poll@) {
            None => Err(Error::MalformedRecord),
            Some(p) => if ix is Vote && records.voter@.len() != VOTER_SPACE {
                Err(Error::MalformedRecord)
            } else {
                match instruction_outcome(
                    program_id,
                    now,
                    records.signer@,
                    records.poll_address@,
                    records.voter_address@,
                    ix,
                    p,
                    records.voter@,
                ) {
                    Ok((p2, v2)) => Ok((poll_bytes(p2), voter_bytes(v2))),
                    Err(e) => Err(e),
                }
            },
        },
    }
}

/// A vote that `data` carries, if it would be counted, does not push the
/// stored tally past the largest count.
pub open spec fn tally_has_room(program_id: Seq<u8>, now: u64, records: Records, data: Seq<u8>) -> bool {
    match (parse_instruction(data), parse_poll(records.poll@)) {
        (Some(InstructionView::Vote { name, candidate }), Some(p)) => {
            (records.voter@.len() == VOTER_SPACE && at_derived(
                records.poll_address@,
                EntityKind::Poll,
                poll_key(encode_utf8(name)),
                program_id,
            ) && at_derived(
                records.voter_address@,
                EntityKind::Voter,
                voter_key(records.poll_address@, records.signer@),
                program_id,
            ) && vote_refusal(records.voter@, records.signer@, p, candidate, now) is None)
                ==> can_count_vote(p.candidates, candidate)
        },
        _ => true,
    }
}

/// Runs one instruction against the stored records at time `now`: decodes
/// it and the records, applies it, and writes back the new records; on any
/// refusal the records stay as they were.
pub fn process_instruction(program_id: &Address, now: u64, records: &mut Records, data: &[u8]) -> (r:
    Result<(), Error>)
    requires
        tally_has_room(program_id@, now, *old(records), data@),
    ensures
        final(records).signer == old(records).signer,
        final(records).poll_address == old(records).poll_address,
        final(records).voter_address == old(records).voter_address,
        match processed_records(program_id@, now, *old(records), data@) {
            Ok((poll, voter)) => r is Ok && final(records).poll@ == poll && final(records).voter@
                == voter,
            Err(e) => r == Err::<(), Error>(e) && final(records).poll@ == old(records).poll@
                && final(records).voter@ == old(records).voter@,
        },
{
    let ix = match Instruction::decode(data) {
        Ok(ix) => ix,
        Err(e) => {
            proof {
                if parse_instruction(data@) is Some {
                    lemma_parse_instruction_canonical(data@);
                }
            }
            return Err(e);
        },
    };
    proof {
        lemma_parse_instruction_round_trip(ix@);
    }
    let poll = match Poll::decode(records.poll.as_slice()) {
        Ok(p) => p,
        Err(e) => {
            proof {
                if parse_poll(records.poll@) is Some {
                    lemma_parse_poll_canonical(records.poll@);
                }
            }
            return Err(e);
        },
    };
    proof {
        lemma_parse_poll_round_trip(poll@);
    }
    let ghost stored = poll@;
    match ix {
        Instruction::CreatePoll { name, description, closes_at, candidates } => {
            let mut accounts = CreatePoll {
                signer: records.signer,
                poll_address: records.poll_address,
                poll,
            };
            match create_poll(program_id, &mut accounts, name, description, closes_at, candidates) {
                Ok(()) => {
                    assert(accounts.poll@.fits());
                    records.poll = accounts.poll.encode();
                    Ok(())
                },
                Err(e) => Err(e),
            }
        },
        Instruction::EditPoll { name, closes_at } => {
            let mut accounts = EditPoll {
                signer: records.signer,
                poll_address: records.poll_address,
                poll,
            };
            match edit_poll(program_id, &mut accounts, name, closes_at) {
                Ok(()) => {
                    assert(accounts.poll@.fits());
                    records.poll = accounts.poll.encode();
                    Ok(())
                },
                Err(e) => Err(e),
            }
        },
        Instruction::Vote { name, candidate } => {
            let voter = match Voter::decode(records.voter.as_slice()) {
                Ok(v) => v,
                Err(e) => return Err(e),
            };
            let ghost cand = candidate@;
            let mut accounts = Vote {
                signer: records.signer,
                poll_address: records.poll_address,
                poll,
                voter_address: records.voter_address,
                voter,
            };
            match vote(program_id, &mut accounts, name, candidate, now) {
                Ok(()) => {
                    proof {
                        let i = choose|i: int|
                            first_match(stored.candidates, cand, i) && accounts.poll@
                                == stored.with_vote(i);
                        lemma_first_match_unique(stored.candidates, cand, i);
                    }
                    assert(accounts.poll@.fits());
                    records.poll = accounts.poll.encode();
                    records.voter = accounts.voter.encode();
                    Ok(())
                },
                Err(e) => Err(e),
            }
        },
    }
}

/// A slot is created once: a create that succeeds leaves an initialized poll
/// whose candidates are the given names, in order, at zero votes; every create
/// after it in the same slot is refused with `PollAlreadyExists` (and so, by
/// `handle_create_poll`, changes nothing).
pub proof fn lemma_create_once(
    slot: PollView,
    name: Seq<char>,
    description: Seq<char>,
    closes_at: u64,
    candidates: Seq<Seq<char>>,
    name2: Seq<char>,
    description2: Seq<char>,
    closes_at2: u64,
    candidates2: Seq<Seq<char>>,
)
    requires
        create_poll_outcome(slot, name, description, closes_at, candidates) is Ok,
    ensures
        ({
            let created = create_poll_outcome(slot, name, description, closes_at, candidates)->Ok_0;
            &&& created.is_initialized()
            &&& created.candidates.len() == candidates.len()
            &&& forall|i: int|
                0 <= i < candidates.len() ==> #[trigger] created.candidates[i].name == candidates[i]
                    && created.candidates[i].votes_count == 0
            &&& create_poll_outcome(created, name2, description2, closes_at2, candidates2) == Err::<
                PollView,
                Error,
            >(Error::PollAlreadyExists)
        }),
{
    let created = create_poll_outcome(slot, name, description, closes_at, candidates)->Ok_0;
    assert(created.name.len() > 0);
}

/// One receipt, one vote: once a vote has been counted, the receipt holds the
/// signer's identity and every later vote by that signer through it is
/// refused with `AlreadyVoted` (and so, by `handle_vote`, leaves the tally as
/// it is).
pub proof fn lemma_vote_once(
    voter: Seq<u8>,
    poll: PollView,
    candidate: Seq<char>,
    now: u64,
    signer: Seq<u8>,
    later_poll: PollView,
    later_candidate: Seq<char>,
    later_now: u64,
)
    requires
        vote_refusal(voter, signer, poll, candidate, now) is None,
    ensures
        vote_refusal(signer, signer, later_poll, later_candidate, later_now) == Some(
            Error::AlreadyVoted,
        ),
{
}

} // verus!
