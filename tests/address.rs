use solana_program::pubkey::Pubkey;
use votingdapp::address::{derive_address, poll_address, voter_address, Address, EntityKind};
use votingdapp::error::Error;
use votingdapp::poll::Poll;
use votingdapp::processor::{create_poll, edit_poll, vote, CreatePoll, EditPoll, Vote};
use votingdapp::voter::Voter;

fn program() -> Address {
    Address::new([42u8; 32])
}

#[test]
fn derivation_is_deterministic_and_separates_names() {
    let a1 = poll_address("A", &program()).unwrap();
    let a2 = poll_address("A", &program()).unwrap();
    let b = poll_address("B", &program()).unwrap();
    assert_eq!(a1, a2);
    assert_ne!(a1, b);
    let other_program = poll_address("A", &Address::new([43u8; 32])).unwrap();
    assert_ne!(a1, other_program);
}

#[test]
fn derivation_matches_the_ledger() {
    let id = Pubkey::new_from_array([42u8; 32]);
    let (expected, _) = Pubkey::find_program_address(&[b"poll", b"Lang"], &id);
    assert_eq!(poll_address("Lang", &program()).unwrap().bytes, expected.to_bytes());

    let poll = poll_address("Lang", &program()).unwrap();
    let signer = Address::new([5u8; 32]);
    let (expected, _) = Pubkey::find_program_address(&[b"voter", &poll.bytes, &signer.bytes], &id);
    assert_eq!(voter_address(&poll, &signer, &program()).unwrap().bytes, expected.to_bytes());
    assert_ne!(voter_address(&poll, &signer, &program()).unwrap(), poll);
}

#[test]
fn kinds_are_separated() {
    let key = vec![b"Lang".to_vec()];
    let as_poll = derive_address(EntityKind::Poll, &key, &program()).unwrap();
    let as_voter = derive_address(EntityKind::Voter, &key, &program()).unwrap();
    assert_ne!(as_poll, as_voter);
    assert_eq!(as_poll, poll_address("Lang", &program()).unwrap());
}

#[test]
fn voter_addresses_differ_by_identity() {
    let poll = poll_address("Lang", &program()).unwrap();
    let v1 = voter_address(&poll, &Address::new([1u8; 32]), &program()).unwrap();
    let v1_again = voter_address(&poll, &Address::new([1u8; 32]), &program()).unwrap();
    let v2 = voter_address(&poll, &Address::new([2u8; 32]), &program()).unwrap();
    assert_eq!(v1, v1_again);
    assert_ne!(v1, v2);
}

#[test]
fn overlong_seed_has_no_address() {
    assert!(poll_address(&"x".repeat(33), &program()).is_none());
    assert!(poll_address(&"x".repeat(32), &program()).is_some());
    let too_many: Vec<Vec<u8>> = (0..15).map(|i| vec![i as u8]).collect();
    assert!(derive_address(EntityKind::Poll, &too_many, &program()).is_none());
}

#[test]
fn program_checks_slots() {
    let signer = Address::new([8u8; 32]);
    let slot = poll_address("Lang", &program()).unwrap();
    let mut wrong = CreatePoll { signer, poll_address: signer, poll: Poll::empty() };
    assert_eq!(
        create_poll(&program(), &mut wrong, "Lang".to_string(), "".to_string(), 9, vec![]),
        Err(Error::AddressMismatch)
    );
    assert!(wrong.poll.is_empty());

    let mut accounts = CreatePoll { signer, poll_address: slot, poll: Poll::empty() };
    assert_eq!(
        create_poll(
            &program(),
            &mut accounts,
            "Lang".to_string(),
            "desc".to_string(),
            100,
            vec!["Rust".to_string(), "Go".to_string()],
        ),
        Ok(())
    );

    let mut edit = EditPoll { signer, poll_address: slot, poll: accounts.poll };
    assert_eq!(edit_poll(&program(), &mut edit, "Other".to_string(), 5), Err(Error::AddressMismatch));
    assert_eq!(edit_poll(&program(), &mut edit, "Lang".to_string(), 200), Ok(()));
    assert_eq!(edit.poll.closes_at(), 200);

    let receipt = voter_address(&slot, &signer, &program()).unwrap();
    let mut ballot = Vote {
        signer,
        poll_address: slot,
        poll: edit.poll,
        voter_address: slot,
        voter: Voter::unset(),
    };
    assert_eq!(
        vote(&program(), &mut ballot, "Lang".to_string(), "Go".to_string(), 10),
        Err(Error::AddressMismatch)
    );
    ballot.voter_address = receipt;
    assert_eq!(vote(&program(), &mut ballot, "Lang".to_string(), "Go".to_string(), 10), Ok(()));
    assert_eq!(ballot.voter.id, signer);
    assert_eq!(ballot.poll.candidates()[1].votes_count(), 1);
    assert_eq!(
        vote(&program(), &mut ballot, "Lang".to_string(), "Go".to_string(), 10),
        Err(Error::AlreadyVoted)
    );
    assert_eq!(ballot.poll.candidates()[1].votes_count(), 1);
}
