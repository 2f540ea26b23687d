use votingdapp::accounts::{create_poll_accounts, system_program_id, vote_accounts};
use votingdapp::address::{poll_address, voter_address, Address};
use votingdapp::ballot;
use votingdapp::error::Error;
use votingdapp::instruction::Instruction;
use votingdapp::poll::Poll;
use votingdapp::processor::{process_instruction, Records};
use votingdapp::tally::{self, Account, ProgramError, VoteType};
use votingdapp::voter::Voter;

fn program() -> Address {
    Address::new([21u8; 32])
}

fn records(signer: Address) -> Records {
    let poll_slot = poll_address("Lang", &program()).unwrap();
    Records {
        signer,
        poll_address: poll_slot,
        poll: Poll::empty().encode(),
        voter_address: voter_address(&poll_slot, &signer, &program()).unwrap(),
        voter: Voter::unset().encode(),
    }
}

#[test]
fn instruction_flow_over_records() {
    let signer = Address::new([2u8; 32]);
    let mut rec = records(signer);
    let create = Instruction::CreatePoll {
        name: "Lang".to_string(),
        description: "desc".to_string(),
        closes_at: 100,
        candidates: vec!["Rust".to_string(), "Go".to_string()],
    }
    .encode();
    assert_eq!(process_instruction(&program(), 0, &mut rec, &create), Ok(()));
    let poll = Poll::decode(&rec.poll).unwrap();
    assert_eq!(poll.name(), "Lang");
    assert_eq!(poll.candidates().len(), 2);

    let before = rec.poll.clone();
    assert_eq!(
        process_instruction(&program(), 0, &mut rec, &create),
        Err(Error::PollAlreadyExists)
    );
    assert_eq!(rec.poll, before);

    let ballot = Instruction::Vote { name: "Lang".to_string(), candidate: "Go".to_string() }.encode();
    assert_eq!(process_instruction(&program(), 100, &mut rec, &ballot), Ok(()));
    assert_eq!(rec.voter, signer.bytes.to_vec());
    let poll = Poll::decode(&rec.poll).unwrap();
    assert_eq!(poll.candidates()[1].votes_count(), 1);
    assert_eq!(
        process_instruction(&program(), 100, &mut rec, &ballot),
        Err(Error::AlreadyVoted)
    );

    let edit = Instruction::EditPoll { name: "Lang".to_string(), closes_at: 50 }.encode();
    assert_eq!(process_instruction(&program(), 0, &mut rec, &edit), Ok(()));
    assert_eq!(Poll::decode(&rec.poll).unwrap().closes_at(), 50);
    assert_eq!(Poll::decode(&rec.poll).unwrap().candidates()[1].votes_count(), 1);
}

#[test]
fn instruction_flow_refusals() {
    let signer = Address::new([3u8; 32]);
    let mut rec = records(signer);
    assert_eq!(process_instruction(&program(), 0, &mut rec, &[9, 9]), Err(Error::MalformedRecord));
    let create = Instruction::CreatePoll {
        name: "Other".to_string(),
        description: "".to_string(),
        closes_at: 1,
        candidates: vec![],
    }
    .encode();
    assert_eq!(
        process_instruction(&program(), 0, &mut rec, &create),
        Err(Error::AddressMismatch)
    );
    rec.poll = vec![1, 2, 3];
    let edit = Instruction::EditPoll { name: "Lang".to_string(), closes_at: 5 }.encode();
    assert_eq!(process_instruction(&program(), 0, &mut rec, &edit), Err(Error::MalformedRecord));
    assert_eq!(rec.poll, vec![1, 2, 3]);

    let mut rec = records(signer);
    let create = Instruction::CreatePoll {
        name: "Lang".to_string(),
        description: "".to_string(),
        closes_at: 10,
        candidates: vec!["A".to_string()],
    }
    .encode();
    assert_eq!(process_instruction(&program(), 0, &mut rec, &create), Ok(()));
    rec.voter = vec![0u8; 31];
    let ballot = Instruction::Vote { name: "Lang".to_string(), candidate: "A".to_string() }.encode();
    assert_eq!(process_instruction(&program(), 0, &mut rec, &ballot), Err(Error::MalformedRecord));
    rec.voter = vec![0u8; 32];
    assert_eq!(process_instruction(&program(), 11, &mut rec, &ballot), Err(Error::VotingEnded));
    let missing = Instruction::Vote { name: "Lang".to_string(), candidate: "B".to_string() }.encode();
    assert_eq!(
        process_instruction(&program(), 10, &mut rec, &missing),
        Err(Error::CandidateNotFound)
    );
    assert_eq!(rec.voter, vec![0u8; 32]);
}

#[test]
fn command_line_choices() {
    assert_eq!(VoteType::parse("gm"), Some(VoteType::GM));
    assert_eq!(VoteType::parse("gn"), Some(VoteType::GN));
    assert_eq!(VoteType::parse("gx"), None);
    assert_eq!(VoteType::parse("GM"), None);
    assert_eq!(VoteType::parse(""), None);
    assert_eq!(ballot::Vote::parse("1"), Some(ballot::Vote(1)));
    assert_eq!(ballot::Vote::parse("+7"), Some(ballot::Vote(7)));
    assert_eq!(ballot::Vote::parse("255"), Some(ballot::Vote(255)));
    assert_eq!(ballot::Vote::parse("0003"), Some(ballot::Vote(3)));
    assert_eq!(ballot::Vote::parse("256"), None);
    assert_eq!(ballot::Vote::parse("1000000000000"), None);
    assert_eq!(ballot::Vote::parse(""), None);
    assert_eq!(ballot::Vote::parse("+"), None);
    assert_eq!(ballot::Vote::parse("-1"), None);
    assert_eq!(ballot::Vote::parse("1a"), None);
    for s in ["0", "9", "+12", "255", "256", "", "+", "x", "007"] {
        assert_eq!(ballot::Vote::parse(s).map(|v| v.0), s.parse::<u8>().ok());
    }
}

#[test]
fn transaction_accounts() {
    let payer = Address::new([1u8; 32]);
    let poll = Address::new([2u8; 32]);
    let create = create_poll_accounts(&payer, &poll);
    assert_eq!(create.len(), 3);
    assert_eq!((create[0].pubkey, create[0].is_signer, create[0].is_writable), (payer, true, false));
    assert_eq!((create[1].pubkey, create[1].is_signer, create[1].is_writable), (poll, true, true));
    assert_eq!(create[2].pubkey, system_program_id());
    assert_eq!(system_program_id().bytes, [0u8; 32]);
    let vote = vote_accounts(&poll);
    assert_eq!(vote.len(), 1);
    assert_eq!((vote[0].pubkey, vote[0].is_signer, vote[0].is_writable), (poll, false, true));
}

#[test]
fn two_counter_entrypoint() {
    let program = Address::new([9u8; 32]);
    let mut accounts = vec![Account {
        key: Address::new([1u8; 32]),
        owner: program,
        data: tally::Poll { gm: 0, gn: 0 }.encode(),
    }];
    assert_eq!(tally::process(&program, &mut accounts, &[0, 0]), Ok(()));
    assert_eq!(tally::process(&program, &mut accounts, &[0, 5]), Err(ProgramError::InvalidInstructionData));
    assert_eq!(tally::Poll::decode(&accounts[0].data), Some(tally::Poll { gm: 1, gn: 0 }));
}

#[test]
fn edit_of_empty_slot_is_refused() {
    let signer = Address::new([4u8; 32]);
    let mut rec = records(signer);
    let before = rec.poll.clone();
    let edit = Instruction::EditPoll { name: "Lang".to_string(), closes_at: 5 }.encode();
    assert_eq!(process_instruction(&program(), 0, &mut rec, &edit), Err(Error::PollNotInitialized));
    assert_eq!(rec.poll, before);
}
