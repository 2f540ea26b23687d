use votingdapp::ballot;
use votingdapp::codec::{fixed_record_in_slot, store_record, RECORD_OFFSET};
use votingdapp::error::Error;
use votingdapp::poll::{Poll, POLL_SPACE};
use votingdapp::voter::{Voter, VOTER_SPACE};

#[test]
fn poll_slot_round_trip() {
    let mut poll = Poll::empty();
    poll.create("Lang".to_string(), "d".to_string(), 9, vec!["A".to_string()]).unwrap();
    let mut slot = vec![7u8; RECORD_OFFSET + POLL_SPACE];
    assert_eq!(store_record(&mut slot, &poll.encode()), Ok(()));
    assert_eq!(&slot[..RECORD_OFFSET], &[7u8; 8]);
    let back = Poll::decode_slot(&slot).unwrap();
    assert_eq!(back.encode(), poll.encode());
    assert_eq!(slot.len(), RECORD_OFFSET + POLL_SPACE);
}

#[test]
fn zeroed_slot_is_an_empty_poll() {
    let slot = vec![0u8; RECORD_OFFSET + POLL_SPACE];
    assert!(Poll::decode_slot(&slot).unwrap().is_empty());
    let voter = Voter::decode_slot(&vec![0u8; RECORD_OFFSET + VOTER_SPACE]).unwrap();
    assert!(!voter.has_voted());
}

#[test]
fn slot_padding_must_be_zero() {
    let mut slot = vec![0u8; RECORD_OFFSET + POLL_SPACE];
    let last = slot.len() - 1;
    slot[last] = 1;
    assert_eq!(Poll::decode_slot(&slot).err(), Some(Error::MalformedRecord));
    assert_eq!(Poll::decode_slot(&[0u8; 4]).err(), Some(Error::MalformedRecord));
    let mut vslot = vec![0u8; RECORD_OFFSET + VOTER_SPACE + 4];
    vslot[RECORD_OFFSET + VOTER_SPACE + 2] = 5;
    assert_eq!(Voter::decode_slot(&vslot).err(), Some(Error::MalformedRecord));
    assert_eq!(Voter::decode_slot(&[0u8; 12]).err(), Some(Error::MalformedRecord));
}

#[test]
fn store_record_needs_room() {
    let mut slot = vec![1u8; 10];
    assert_eq!(store_record(&mut slot, &[5, 6, 7]), Err(Error::AccountTooSmall));
    assert_eq!(slot, vec![1u8; 10]);
    assert_eq!(store_record(&mut slot, &[5, 6]), Ok(()));
    assert_eq!(slot, vec![1, 1, 1, 1, 1, 1, 1, 1, 5, 6]);
    let mut wide = vec![9u8; 12];
    assert_eq!(store_record(&mut wide, &[3]), Ok(()));
    assert_eq!(wide, vec![9, 9, 9, 9, 9, 9, 9, 9, 3, 0, 0, 0]);
    assert_eq!(fixed_record_in_slot(&wide, 1), Ok(vec![3]));
    assert_eq!(fixed_record_in_slot(&wide, 5).err(), Some(Error::MalformedRecord));
}

#[test]
fn titled_poll_instruction_decodes() {
    let poll = ballot::Poll::new()
        .with_title("Hi".to_string())
        .with_options(vec!["a".to_string(), "b".to_string()]);
    let bytes = ballot::Instruction::CreatePoll { poll, rent: 77 }.encode();
    match ballot::Instruction::decode(&bytes).unwrap() {
        ballot::Instruction::CreatePoll { poll, rent } => {
            assert_eq!(rent, 77);
            assert_eq!(poll.size(), 4 + 2 * (4 + 1 + 8) + 4 + 2);
        }
        other => panic!("decoded {:?}", other),
    }
    match ballot::Instruction::decode(&[1, 4]).unwrap() {
        ballot::Instruction::Vote(v) => assert_eq!(v, ballot::Vote(4)),
        other => panic!("decoded {:?}", other),
    }
    assert!(ballot::Instruction::decode(&bytes[..bytes.len() - 1]).is_none());
    assert!(ballot::Instruction::decode(&[1]).is_none());
    assert!(ballot::Instruction::decode(&[2, 0]).is_none());
    assert!(ballot::Instruction::decode(&[]).is_none());
}
