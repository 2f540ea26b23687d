use vstd::prelude::*;

use crate::address::{
    derive_address, derived_address, seeds_view, voter_key,
    Address, EntityKind,
};
use crate::codec::{
    byte_len, fixed_record_in_slot, holds_record, lemma_split, lemma_str_canonical,
    lemma_str_round_trip, lemma_take_prefix5, lemma_u64_canonical, lemma_u64_round_trip, parse_str,
    parse_u64, read_str, read_u64, rest_of, storable, str_bytes, string_byte_len, u64_bytes,
    write_bytes, write_str, write_u64, zero_from, RECORD_OFFSET,
};
use crate::error::Error;

verus! {

/// The longest question, in bytes.
pub const QUESTION_MAX_LEN: usize = 200;

/// Why a yes/no poll instruction is refused.
#[derive(Clone, Copy, Debug, PartialEq, Eq, Structural)]
pub enum ErrorCode {
    AlreadyVoted,
    QuestionTooLong,
    /// A slot handed in is not at the address derived for the instruction.
    AddressMismatch,
}

impl ErrorCode {
    pub fn message(&self) -> (r: &'static str)
        ensures
            r@ == match *self {
                ErrorCode::AlreadyVoted => "User already voted on this poll."@,
                ErrorCode::QuestionTooLong => "The question exceeds the maximum length of 200 characters."@,
                ErrorCode::AddressMismatch => "Account address mismatch."@,
            },
    {
        match self {
            ErrorCode::AlreadyVoted => "User already voted on this poll.",
            ErrorCode::QuestionTooLong => "The question exceeds the maximum length of 200 characters.",
            ErrorCode::AddressMismatch => "Account address mismatch.",
        }
    }
}

/// The one record that numbers the polls.
#[derive(Clone, Copy, Debug, PartialEq, Eq, Structural)]
pub struct GlobalAccount {
    pub polls_counter: u64,
}

/// A yes/no poll.
#[derive(Debug)]
pub struct PollAccount {
    pub number: u64,
    pub question: String,
    pub author: Address,
    pub yes: u64,
    pub no: u64,
}

/// The receipt of one voter's answer in one poll.
#[derive(Clone, Copy, Debug)]
pub struct VoterAccount {
    pub poll: Address,
    pub voter: Address,
    pub vote: bool,
    pub voted: bool,
}

/// Announces the address of a poll just created.
#[derive(Clone, Copy, Debug)]
pub struct PollCreated {
    pub poll_pda: Address,
}

/// The slots that initializing the counter names.
pub struct Initialize {
    pub global_account: GlobalAccount,
    pub user: Address,
}

/// The slots that creating a yes/no poll names.
pub struct CreatePoll {
    pub global_account: GlobalAccount,
    pub poll_address: Address,
    pub poll_account: PollAccount,
    pub user: Address,
}

/// The slots that answering a yes/no poll names.
pub struct Vote {
    pub poll_address: Address,
    pub poll_account: PollAccount,
    pub voter_address: Address,
    pub voter_account: VoterAccount,
    pub user: Address,
}

/// The key material of the poll numbered `number`: the number in eight
/// bytes, least significant first.
pub open spec fn numbered_poll_key(number: u64) -> Seq<Seq<u8>> {
    seq![u64_bytes(number)]
}

/// Starts numbering polls at one.
pub fn initialize(accounts: &mut Initialize)
    ensures
        final(accounts).global_account.polls_counter == 1,
        final(accounts).user == old(accounts).user,
{
    accounts.global_account.polls_counter = 1;
}

/// Creates the next-numbered poll with `question`, authored by the user, in
/// the slot derived from its number; the counter moves on by one.
pub fn create_poll(program_id: &Address, accounts: &mut CreatePoll, question: String) -> (r: Result<
    PollCreated,
    ErrorCode,
>)
    requires
        derived_address(
            EntityKind::Poll,
            numbered_poll_key(old(accounts).global_account.polls_counter),
            program_id@,
        ) == Some(old(accounts).poll_address@) && byte_len(question@) <= QUESTION_MAX_LEN
            ==> old(accounts).global_account.polls_counter < u64::MAX,
    ensures
        final(accounts).poll_address == old(accounts).poll_address,
        final(accounts).user == old(accounts).user,
        derived_address(
            EntityKind::Poll,
            numbered_poll_key(old(accounts).global_account.polls_counter),
            program_id@,
        ) != Some(old(accounts).poll_address@) ==> r == Err::<PollCreated, ErrorCode>(
            ErrorCode::AddressMismatch,
        ) && final(accounts).global_account == old(accounts).global_account,
        derived_address(
            EntityKind::Poll,
            numbered_poll_key(old(accounts).global_account.polls_counter),
            program_id@,
        ) == Some(old(accounts).poll_address@) ==> if byte_len(question@) > QUESTION_MAX_LEN {
            r == Err::<PollCreated, ErrorCode>(ErrorCode::QuestionTooLong)
                && final(accounts).global_account == old(accounts).global_account
        } else {
            &&& r matches Ok(e) && e.poll_pda == old(accounts).poll_address
            &&& final(accounts).global_account.polls_counter == old(
                accounts,
            ).global_account.polls_counter + 1
            &&& final(accounts).poll_account.number == old(accounts).global_account.polls_counter
            &&& final(accounts).poll_account.question@ == question@
            &&& final(accounts).poll_account.author == old(accounts).user
            &&& final(accounts).poll_account.yes == 0
            &&& final(accounts).poll_account.no == 0
        },
{
    let number = accounts.global_account.polls_counter;
    let mut seed: Vec<u8> = Vec::new();
    write_u64(&mut seed, number);
    let key: Vec<Vec<u8>> = vec![seed];
    assert(seeds_view(key@) =~= numbered_poll_key(number));
    let slot = derive_address(EntityKind::Poll, &key, program_id);
    let matches = match slot {
        Some(a) => a.equals(&accounts.poll_address),
        None => false,
    };
    if !matches {
        return Err(ErrorCode::AddressMismatch);
    }
    if string_byte_len(&question) > QUESTION_MAX_LEN {
        return Err(ErrorCode::QuestionTooLong);
    }
    accounts.poll_account.number = number;
    accounts.poll_account.question = question;
    accounts.poll_account.author = accounts.user;
    accounts.poll_account.yes = 0;
    accounts.poll_account.no = 0;
    accounts.global_account.polls_counter = number + 1;
    Ok(PollCreated { poll_pda: accounts.poll_address })
}

/// Records the user's answer: `choice` true counts a yes, `false` a no. The receipt
/// sits at the slot derived from the poll and the user, so a second answer
/// finds it already written.
pub fn vote(program_id: &Address, accounts: &mut Vote, choice: bool) -> (r: Result<(), ErrorCode>)
    requires
        derived_address(
            EntityKind::Voter,
            voter_key(old(accounts).poll_address@, old(accounts).user@),
            program_id@,
        ) == Some(old(accounts).voter_address@) && !old(accounts).voter_account.voted ==> (choice
            ==> old(accounts).poll_account.yes < u64::MAX) && (!choice ==> old(
            accounts,
        ).poll_account.no < u64::MAX),
    ensures
        final(accounts).poll_address == old(accounts).poll_address,
        final(accounts).voter_address == old(accounts).voter_address,
        final(accounts).user == old(accounts).user,
        final(accounts).poll_account.number == old(accounts).poll_account.number,
        final(accounts).poll_account.question == old(accounts).poll_account.question,
        final(accounts).poll_account.author == old(accounts).poll_account.author,
        derived_address(
            EntityKind::Voter,
            voter_key(old(accounts).poll_address@, old(accounts).user@),
            program_id@,
        ) != Some(old(accounts).voter_address@) ==> r == Err::<(), ErrorCode>(
            ErrorCode::AddressMismatch,
        ) && final(accounts).poll_account.yes == old(accounts).poll_account.yes
            && final(accounts).poll_account.no == old(accounts).poll_account.no
            && final(accounts).voter_account == old(accounts).voter_account,
        derived_address(
            EntityKind::Voter,
            voter_key(old(accounts).poll_address@, old(accounts).user@),
            program_id@,
        ) == Some(old(accounts).voter_address@) ==> if old(accounts).voter_account.voted {
            r == Err::<(), ErrorCode>(ErrorCode::AlreadyVoted) && final(accounts).poll_account.yes
                == old(accounts).poll_account.yes && final(accounts).poll_account.no == old(
                accounts,
            ).poll_account.no && final(accounts).voter_account == old(accounts).voter_account
        } else {
            &&& r is Ok
            &&& final(accounts).poll_account.yes == old(accounts).poll_account.yes + if choice {
                1int
            } else {
                0int
            }
            &&& final(accounts).poll_account.no == old(accounts).poll_account.no + if choice {
                0int
            } else {
                1int
            }
            &&& final(accounts).voter_account == (VoterAccount {
                poll: old(accounts).poll_address,
                voter: old(accounts).user,
                vote: choice,
                voted: true,
            })
        },
{
    let expected = crate::address::voter_address(&accounts.poll_address, &accounts.user, program_id);
    let matches = match expected {
        Some(a) => a.equals(&accounts.voter_address),
        None => false,
    };
    if !matches {
        return Err(ErrorCode::AddressMismatch);
    }
    if accounts.voter_account.voted {
        return Err(ErrorCode::AlreadyVoted);
    }
    if choice {
        accounts.poll_account.yes = accounts.poll_account.yes + 1;
    } else {
        accounts.poll_account.no = accounts.poll_account.no + 1;
    }
    accounts.voter_account = VoterAccount {
        poll: accounts.poll_address,
        voter: accounts.user,
        vote: choice,
        voted: true,
    };
    Ok(())
}

/// What a yes/no poll is.
pub struct PollAccountView {
    pub number: u64,
    pub question: Seq<char>,
    pub author: Seq<u8>,
    pub yes: u64,
    pub no: u64,
}

impl View for PollAccount {
    type V = PollAccountView;

    open spec fn view(&self) -> PollAccountView {
        PollAccountView {
            number: self.number,
            question: self.question@,
            author: self.author@,
            yes: self.yes,
            no: self.no,
        }
    }
}

/// A yes/no poll as stored: number, question, author, then the two counts.
pub open spec fn poll_account_bytes(p: PollAccountView) -> Seq<u8> {
    u64_bytes(p.number) + str_bytes(p.question) + p.author + u64_bytes(p.yes) + u64_bytes(p.no)
}

/// A yes/no poll that its record can hold.
pub open spec fn poll_account_storable(p: PollAccountView) -> bool {
    storable(p.question) && p.author.len() == 32
}

pub open spec fn parse_poll_account_prefix(b: Seq<u8>) -> Option<(PollAccountView, int)> {
    match parse_u64(b) {
        Some((number, n1)) => {
            let b2 = b.skip(n1);
            match parse_str(b2) {
                Some((question, n2)) => {
                    let b3 = b2.skip(n2);
                    if b3.len() < 32 {
                        None
                    } else {
                        let b4 = b3.skip(32);
                        match parse_u64(b4) {
                            Some((yes, n4)) => match parse_u64(b4.skip(n4)) {
                                Some((no, n5)) => Some(
                                    (
                                        PollAccountView {
                                            number,
                                            question,
                                            author: b3.take(32),
                                            yes,
                                            no,
                                        },
                                        n1 + n2 + 32 + n4 + n5,
                                    ),
                                ),
                                None => None,
                            },
                            None => None,
                        }
                    }
                },
                None => None,
            }
        },
        None => None,
    }
}

proof fn lemma_poll_account_round_trip(p: PollAccountView, rest: Seq<u8>)
    requires
        poll_account_storable(p),
    ensures
        parse_poll_account_prefix(poll_account_bytes(p) + rest) == Some(
            (p, poll_account_bytes(p).len() as int),
        ),
{
    let r5 = u64_bytes(p.no) + rest;
    let r4 = u64_bytes(p.yes) + r5;
    let r3 = p.author + r4;
    let r2 = str_bytes(p.question) + r3;
    let b = poll_account_bytes(p) + rest;
    assert(b =~= u64_bytes(p.number) + r2);
    lemma_u64_round_trip(p.number, r2);
    assert(b.skip(8) =~= r2);
    lemma_str_round_trip(p.question, r3);
    assert(r2.skip(4 + byte_len(p.question) as int) =~= r3);
    assert(r3.take(32) =~= p.author);
    assert(r3.skip(32) =~= r4);
    lemma_u64_round_trip(p.yes, r5);
    assert(r4.skip(8) =~= r5);
    lemma_u64_round_trip(p.no, rest);
}

proof fn lemma_poll_account_canonical(b: Seq<u8>)
    requires
        parse_poll_account_prefix(b) is Some,
    ensures
        ({
            let (p, n) = parse_poll_account_prefix(b)->Some_0;
            &&& poll_account_storable(p)
            &&& 0 <= n <= b.len()
            &&& b.take(n) == poll_account_bytes(p)
        }),
{
    let (p, n) = parse_poll_account_prefix(b)->Some_0;
    let b2 = b.skip(8);
    let (question, n2) = parse_str(b2)->Some_0;
    let b3 = b2.skip(n2);
    let b4 = b3.skip(32);
    let b5 = b4.skip(8);
    lemma_u64_canonical(b);
    lemma_split(b, 8);
    lemma_str_canonical(b2);
    lemma_split(b2, n2);
    lemma_split(b3, 32);
    lemma_u64_canonical(b4);
    lemma_split(b4, 8);
    lemma_u64_canonical(b5);
    lemma_take_prefix5(u64_bytes(p.number), str_bytes(question), b3.take(32), u64_bytes(p.yes), b5, 8);
}

fn address_at(b: &[u8], start: usize) -> (r: Address)
    requires
        start + 32 <= b@.len(),
    ensures
        r@ == b@.subrange(start as int, start + 32),
{
    let mut bytes = [0u8; 32];
    let mut i: usize = 0;
    let n = b.len();
    while i < 32
        invariant
            i <= 32,
            n == b@.len(),
            start + 32 <= b@.len(),
            forall|j: int| 0 <= j < i ==> bytes@[j] == b@[start + j],
        decreases 32 - i,
    {
        bytes[i] = b[start + i];
        i = i + 1;
    }
    let r = Address::new(bytes);
    assert(r@ =~= b@.subrange(start as int, start + 32));
    r
}

/// A flag as stored: one byte, 1 for true and 0 for false.
pub open spec fn flag_byte(f: bool) -> u8 {
    if f {
        1
    } else {
        0
    }
}

/// A receipt as stored: the poll, the voter, the answer, then whether it is written.
pub open spec fn voter_account_bytes(v: VoterAccount) -> Seq<u8> {
    v.poll@ + v.voter@ + seq![flag_byte(v.vote), flag_byte(v.voted)]
}

/// The size of a receipt's record.
pub const VOTER_ACCOUNT_SPACE: usize = 66;

/// The counter as stored.
pub open spec fn global_account_bytes(g: GlobalAccount) -> Seq<u8> {
    u64_bytes(g.polls_counter)
}

impl GlobalAccount {
    pub fn encode(&self) -> (r: Vec<u8>)
        ensures
            r@ == global_account_bytes(*self),
    {
        let mut out: Vec<u8> = Vec::new();
        write_u64(&mut out, self.polls_counter);
        assert(out@ =~= global_account_bytes(*self));
        out
    }

    /// The counter that a slot holds; `MalformedRecord` where it holds none.
    pub fn decode_slot(slot: &[u8]) -> (r: Result<GlobalAccount, Error>)
        ensures
            match r {
                Ok(g) => holds_record(slot@, global_account_bytes(g)),
                Err(e) => e == Error::MalformedRecord && forall|g: GlobalAccount|
                    !holds_record(slot@, #[trigger] global_account_bytes(g)),
            },
    {
        let record = match fixed_record_in_slot(slot, 8) {
            Ok(r) => r,
            Err(e) => return Err(e),
        };
        assert(rest_of(record@, 0) =~= record@);
        let (polls_counter, _) = match read_u64(record.as_slice(), 0) {
            Some(x) => x,
            None => return Err(Error::MalformedRecord),
        };
        proof {
            lemma_u64_canonical(record@);
            assert(record@.take(8) =~= record@);
        }
        Ok(GlobalAccount { polls_counter })
    }
}

impl VoterAccount {
    pub fn encode(&self) -> (r: Vec<u8>)
        ensures
            r@ == voter_account_bytes(*self),
    {
        let mut out: Vec<u8> = Vec::new();
        write_bytes(&mut out, self.poll.bytes.as_slice());
        write_bytes(&mut out, self.voter.bytes.as_slice());
        out.push(if self.vote { 1u8 } else { 0u8 });
        out.push(if self.voted { 1u8 } else { 0u8 });
        assert(out@ =~= voter_account_bytes(*self));
        out
    }

    /// The receipt that a slot holds; `MalformedRecord` where it holds none.
    pub fn decode_slot(slot: &[u8]) -> (r: Result<VoterAccount, Error>)
        ensures
            match r {
                Ok(v) => holds_record(slot@, voter_account_bytes(v)),
                Err(e) => e == Error::MalformedRecord && forall|v: VoterAccount|
                    !holds_record(slot@, #[trigger] voter_account_bytes(v)),
            },
    {
        let record = match fixed_record_in_slot(slot, VOTER_ACCOUNT_SPACE) {
            Ok(r) => r,
            Err(e) => return Err(e),
        };
        let vote = record[64];
        let voted = record[65];
        if vote > 1 || voted > 1 {
            assert forall|v: VoterAccount| !holds_record(slot@, #[trigger] voter_account_bytes(v)) by {
                if holds_record(slot@, voter_account_bytes(v)) {
                    assert(record@ =~= voter_account_bytes(v));
                }
            }
            return Err(Error::MalformedRecord);
        }
        let v = VoterAccount {
            poll: address_at(record.as_slice(), 0),
            voter: address_at(record.as_slice(), 32),
            vote: vote == 1,
            voted: voted == 1,
        };
        assert(record@ =~= voter_account_bytes(v));
        Ok(v)
    }
}

impl PollAccount {
    pub fn encode(&self) -> (r: Vec<u8>)
        requires
            poll_account_storable(self@),
        ensures
            r@ == poll_account_bytes(self@),
    {
        let mut out: Vec<u8> = Vec::new();
        write_u64(&mut out, self.number);
        write_str(&mut out, &self.question);
        write_bytes(&mut out, self.author.bytes.as_slice());
        write_u64(&mut out, self.yes);
        write_u64(&mut out, self.no);
        assert(out@ =~= poll_account_bytes(self@));
        out
    }

    /// The poll that a slot holds; `MalformedRecord` where it holds none.
    pub fn decode_slot(slot: &[u8]) -> (r: Result<PollAccount, Error>)
        ensures
            match r {
                Ok(p) => poll_account_storable(p@) && holds_record(slot@, poll_account_bytes(p@)),
                Err(e) => e == Error::MalformedRecord && forall|v: PollAccountView|
                    poll_account_storable(v) ==> !holds_record(slot@, poll_account_bytes(v)),
            },
    {
        if slot.len() < RECORD_OFFSET {
            return Err(Error::MalformedRecord);
        }
        let ghost rest = rest_of(slot@, RECORD_OFFSET as int);
        let parsed = Self::parse_prefix(slot, RECORD_OFFSET);
        match parsed {
            Some((p, end)) => {
                proof {
                    lemma_poll_account_canonical(rest);
                    assert(slot@.subrange(RECORD_OFFSET as int, end as int) =~= rest.take(
                        end - RECORD_OFFSET,
                    ));
                }
                if !zero_from(slot, end) {
                    assert forall|v: PollAccountView| poll_account_storable(v) implies !holds_record(
                        slot@,
                        poll_account_bytes(v),
                    ) by {
                        if holds_record(slot@, poll_account_bytes(v)) {
                            lemma_slot_holds_poll_account(slot@, v);
                            let i = choose|i: int| end <= i < slot@.len() && slot@[i] != 0;
                            assert(slot@[i] == 0);
                        }
                    }
                    return Err(Error::MalformedRecord);
                }
                Ok(p)
            },
            None => {
                assert forall|v: PollAccountView| poll_account_storable(v) implies !holds_record(
                    slot@,
                    poll_account_bytes(v),
                ) by {
                    if holds_record(slot@, poll_account_bytes(v)) {
                        lemma_slot_holds_poll_account(slot@, v);
                    }
                }
                Err(Error::MalformedRecord)
            },
        }
    }

    fn parse_prefix(b: &[u8], start: usize) -> (r: Option<(PollAccount, usize)>)
        requires
            start <= b@.len(),
        ensures
            match r {
                Some((p, end)) => start <= end <= b@.len() && parse_poll_account_prefix(
                    rest_of(b@, start as int),
                ) == Some((p@, end - start)),
                None => parse_poll_account_prefix(rest_of(b@, start as int)) is None,
            },
    {
        let ghost rest = rest_of(b@, start as int);
        let (number, p1) = match read_u64(b, start) {
            Some(x) => x,
            None => return None,
        };
        assert(rest.skip(p1 - start) =~= rest_of(b@, p1 as int));
        let (question, p2) = match read_str(b, p1) {
            Some(x) => x,
            None => return None,
        };
        assert(rest.skip(p1 - start).skip(p2 - p1) =~= rest_of(b@, p2 as int));
        if b.len() - p2 < 32 {
            return None;
        }
        let author = address_at(b, p2);
        let p3 = p2 + 32;
        assert(rest_of(b@, p2 as int).take(32) =~= author@);
        assert(rest_of(b@, p2 as int).skip(32) =~= rest_of(b@, p3 as int));
        let (yes, p4) = match read_u64(b, p3) {
            Some(x) => x,
            None => return None,
        };
        assert(rest_of(b@, p3 as int).skip(p4 - p3) =~= rest_of(b@, p4 as int));
        let (no, p5) = match read_u64(b, p4) {
            Some(x) => x,
            None => return None,
        };
        Some((PollAccount { number, question, author, yes, no }, p5))
    }
}

proof fn lemma_slot_holds_poll_account(slot: Seq<u8>, v: PollAccountView)
    requires
        poll_account_storable(v),
        holds_record(slot, poll_account_bytes(v)),
    ensures
        parse_poll_account_prefix(rest_of(slot, RECORD_OFFSET as int)) == Some(
            (v, poll_account_bytes(v).len() as int),
        ),
{
    let rest = rest_of(slot, RECORD_OFFSET as int);
    let n = poll_account_bytes(v).len() as int;
    assert(rest =~= poll_account_bytes(v) + rest.skip(n));
    lemma_poll_account_round_trip(v, rest.skip(n));
}

/// Decoding inverts encoding: the only yes/no poll whose record equals that
/// of `p` is `p` itself.
pub proof fn lemma_poll_account_record_round_trip(p: PollAccountView, decoded: PollAccountView)
    requires
        poll_account_storable(p),
        poll_account_storable(decoded),
        poll_account_bytes(decoded) == poll_account_bytes(p),
    ensures
        decoded == p,
{
    lemma_poll_account_round_trip(p, Seq::empty());
    lemma_poll_account_round_trip(decoded, Seq::empty());
}

} // verus!
