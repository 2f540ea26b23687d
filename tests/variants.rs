use votingdapp::codec::{store_record, RECORD_OFFSET};
use votingdapp::address::{derive_address, voter_address, Address, EntityKind};
use votingdapp::ballot;
use votingdapp::referendum::{
    create_poll, initialize, vote, CreatePoll, ErrorCode, GlobalAccount, Initialize, PollAccount,
    Vote, VoterAccount,
};

#[test]
fn titled_poll_builds_and_sizes() {
    let poll = ballot::Poll::new()
        .with_title("Hello".to_string())
        .with_options(vec!["Bob".to_string(), "Cat".to_string()]);
    // 4 + (4 + 3 + 8) * 2 + 4 + 5
    assert_eq!(poll.size(), 43);
    let bytes = poll.encode();
    assert_eq!(bytes.len() as u64, poll.size());
    let same = ("Hello".to_string(), vec![("Bob".to_string(), 0u64), ("Cat".to_string(), 0u64)]);
    assert_eq!(bytes, borsh::to_vec(&same).unwrap());
    assert_eq!(ballot::Poll::new().size(), 8);
}

#[test]
fn titled_poll_votes_by_position() {
    let mut poll = ballot::Poll::new()
        .with_title("Hello".to_string())
        .with_options(vec!["Bob".to_string(), "Cat".to_string()]);
    poll.vote(ballot::Vote::from(1u8));
    poll.vote(ballot::Vote::from(1u8));
    poll.vote(ballot::Vote::from(0u8));
    poll.vote(ballot::Vote::from(7u8));
    let same = ("Hello".to_string(), vec![("Bob".to_string(), 1u64), ("Cat".to_string(), 2u64)]);
    assert_eq!(poll.encode(), borsh::to_vec(&same).unwrap());
}

#[test]
fn titled_poll_round_trip() {
    let mut poll = ballot::Poll::new()
        .with_title("T".to_string())
        .with_options(vec!["a".to_string()]);
    poll.vote(ballot::Vote(0));
    let bytes = poll.encode();
    let back = ballot::Poll::decode(&bytes).unwrap();
    assert_eq!(back.encode(), bytes);
    assert!(ballot::Poll::decode(&bytes[..bytes.len() - 1]).is_none());
    let mut longer = bytes.clone();
    longer.push(0);
    assert!(ballot::Poll::decode(&longer).is_none());
}

#[test]
fn titled_poll_instructions() {
    let poll = ballot::Poll::new().with_title("Hi".to_string()).with_options(vec![]);
    let create = ballot::Instruction::CreatePoll { poll, rent: 5 };
    let same = (0u8, "Hi".to_string(), Vec::<(String, u64)>::new(), 5u64);
    assert_eq!(create.encode(), borsh::to_vec(&same).unwrap());
    assert_eq!(ballot::Instruction::Vote(ballot::Vote(3)).encode(), vec![1u8, 3]);
}

fn program() -> Address {
    Address::new([11u8; 32])
}

fn blank_poll() -> PollAccount {
    PollAccount { number: 0, question: String::new(), author: Address::new([0u8; 32]), yes: 0, no: 0 }
}

fn numbered_slot(n: u64) -> Address {
    derive_address(EntityKind::Poll, &vec![n.to_le_bytes().to_vec()], &program()).unwrap()
}

#[test]
fn yes_no_polls_are_numbered() {
    let user = Address::new([4u8; 32]);
    let mut init = Initialize { global_account: GlobalAccount { polls_counter: 0 }, user };
    initialize(&mut init);
    assert_eq!(init.global_account.polls_counter, 1);

    let mut accounts = CreatePoll {
        global_account: init.global_account,
        poll_address: numbered_slot(1),
        poll_account: blank_poll(),
        user,
    };
    let event = create_poll(&program(), &mut accounts, "Tea?".to_string()).unwrap();
    assert_eq!(event.poll_pda, numbered_slot(1));
    assert_eq!(accounts.global_account.polls_counter, 2);
    assert_eq!(accounts.poll_account.number, 1);
    assert_eq!(accounts.poll_account.question, "Tea?");
    assert_eq!(accounts.poll_account.author, user);

    let mut wrong = CreatePoll {
        global_account: accounts.global_account,
        poll_address: numbered_slot(1),
        poll_account: blank_poll(),
        user,
    };
    assert_eq!(
        create_poll(&program(), &mut wrong, "Again".to_string()).err(),
        Some(ErrorCode::AddressMismatch)
    );
    let mut long = CreatePoll {
        global_account: accounts.global_account,
        poll_address: numbered_slot(2),
        poll_account: blank_poll(),
        user,
    };
    assert_eq!(
        create_poll(&program(), &mut long, "q".repeat(201)).err(),
        Some(ErrorCode::QuestionTooLong)
    );
    assert_eq!(long.global_account.polls_counter, 2);
    assert!(create_poll(&program(), &mut long, "q".repeat(200)).is_ok());
}

#[test]
fn yes_no_votes_once() {
    let user = Address::new([6u8; 32]);
    let poll_address = numbered_slot(1);
    let receipt = voter_address(&poll_address, &user, &program()).unwrap();
    let unset = VoterAccount {
        poll: Address::new([0u8; 32]),
        voter: Address::new([0u8; 32]),
        vote: false,
        voted: false,
    };
    let mut accounts = Vote {
        poll_address,
        poll_account: blank_poll(),
        voter_address: receipt,
        voter_account: unset,
        user,
    };
    assert_eq!(vote(&program(), &mut accounts, true), Ok(()));
    assert_eq!((accounts.poll_account.yes, accounts.poll_account.no), (1, 0));
    assert!(accounts.voter_account.voted);
    assert!(accounts.voter_account.vote);
    assert_eq!(accounts.voter_account.voter, user);
    assert_eq!(accounts.voter_account.poll, poll_address);
    assert_eq!(vote(&program(), &mut accounts, false), Err(ErrorCode::AlreadyVoted));
    assert_eq!((accounts.poll_account.yes, accounts.poll_account.no), (1, 0));

    accounts.voter_address = poll_address;
    accounts.voter_account = unset;
    assert_eq!(vote(&program(), &mut accounts, false), Err(ErrorCode::AddressMismatch));
    accounts.voter_address = receipt;
    assert_eq!(vote(&program(), &mut accounts, false), Ok(()));
    assert_eq!((accounts.poll_account.yes, accounts.poll_account.no), (1, 1));
}

#[test]
fn yes_no_records_in_slots() {
    let poll = PollAccount {
        number: 3,
        question: "Tea?".to_string(),
        author: Address::new([5u8; 32]),
        yes: 2,
        no: 1,
    };
    let bytes = poll.encode();
    let same = (3u64, "Tea?".to_string(), [5u8; 32], 2u64, 1u64);
    assert_eq!(bytes, borsh::to_vec(&same).unwrap());
    let mut slot = vec![0u8; RECORD_OFFSET + 8 + 4 + 200 + 32 + 8 + 8];
    store_record(&mut slot, &bytes).unwrap();
    let back = PollAccount::decode_slot(&slot).unwrap();
    assert_eq!(back.encode(), bytes);
    assert_eq!(back.question, "Tea?");
    let empty = PollAccount::decode_slot(&vec![0u8; RECORD_OFFSET + 60]).unwrap();
    assert_eq!(empty.question, "");
    let last = slot.len() - 1;
    slot[last] = 9;
    assert!(PollAccount::decode_slot(&slot).is_err());

    let receipt = VoterAccount {
        poll: Address::new([1u8; 32]),
        voter: Address::new([2u8; 32]),
        vote: true,
        voted: true,
    };
    let rbytes = receipt.encode();
    assert_eq!(rbytes.len(), 66);
    assert_eq!(rbytes, borsh::to_vec(&([1u8; 32], [2u8; 32], true, true)).unwrap());
    let mut rslot = vec![0u8; RECORD_OFFSET + 66];
    store_record(&mut rslot, &rbytes).unwrap();
    let rback = VoterAccount::decode_slot(&rslot).unwrap();
    assert!(rback.vote && rback.voted);
    assert_eq!(rback.voter, Address::new([2u8; 32]));
    rslot[RECORD_OFFSET + 64] = 2;
    assert!(VoterAccount::decode_slot(&rslot).is_err());

    let g = GlobalAccount { polls_counter: 258 };
    let mut gslot = vec![0u8; RECORD_OFFSET + 8];
    store_record(&mut gslot, &g.encode()).unwrap();
    assert_eq!(GlobalAccount::decode_slot(&gslot), Ok(g));
    assert!(GlobalAccount::decode_slot(&[0u8; 10]).is_err());
}
