use votingdapp::address::Address;
use votingdapp::tally::{process_instruction, Account, Instruction, Poll, ProgramError, VoteType};

fn account(owner: Address, data: Vec<u8>) -> Account {
    Account { key: Address::new([1u8; 32]), owner, data }
}

#[test]
fn two_counter_votes() {
    let mut poll = Poll { gm: 0, gn: 0 };
    poll.vote(VoteType::GM);
    poll.vote(VoteType::GM);
    poll.vote(VoteType::GN);
    assert_eq!(poll, Poll { gm: 2, gn: 1 });
    let full = Poll { gm: u64::MAX, gn: 3 };
    assert!(full.is_full(VoteType::GM));
    assert!(!full.is_full(VoteType::GN));
}

#[test]
fn two_counter_record() {
    let poll = Poll { gm: 1, gn: 258 };
    let bytes = poll.encode();
    assert_eq!(bytes, vec![1, 0, 0, 0, 0, 0, 0, 0, 2, 1, 0, 0, 0, 0, 0, 0]);
    assert_eq!(bytes, borsh::to_vec(&(1u64, 258u64)).unwrap());
    assert_eq!(Poll::decode(&bytes), Some(poll));
    assert_eq!(Poll::decode(&bytes[..15]), None);
    assert_eq!(Poll::SIZE, 16);
}

#[test]
fn two_counter_instruction() {
    assert_eq!(Instruction::decode(&[0, 0]), Some(Instruction::Vote(VoteType::GM)));
    assert_eq!(Instruction::decode(&[0, 1]), Some(Instruction::Vote(VoteType::GN)));
    assert_eq!(Instruction::decode(&[0, 2]), None);
    assert_eq!(Instruction::decode(&[1, 0]), None);
    assert_eq!(Instruction::decode(&[0]), None);
}

#[test]
fn two_counter_processing() {
    let program = Address::new([9u8; 32]);
    let stranger = Address::new([8u8; 32]);
    let mut none: Vec<Account> = vec![];
    assert_eq!(
        process_instruction(&program, &mut none, Instruction::Vote(VoteType::GM)),
        Err(ProgramError::NotEnoughAccountKeys)
    );
    let mut foreign = vec![account(stranger, vec![0u8; 16])];
    assert_eq!(
        process_instruction(&program, &mut foreign, Instruction::Vote(VoteType::GM)),
        Err(ProgramError::IncorrectProgramId)
    );
    let mut small = vec![account(program, vec![0u8; 15])];
    assert_eq!(
        process_instruction(&program, &mut small, Instruction::Vote(VoteType::GM)),
        Err(ProgramError::InvalidAccountData)
    );
    let mut full = vec![account(program, Poll { gm: u64::MAX, gn: 5 }.encode())];
    assert_eq!(
        process_instruction(&program, &mut full, Instruction::Vote(VoteType::GM)),
        Err(ProgramError::ArithmeticOverflow)
    );
    assert_eq!(Poll::decode(&full[0].data), Some(Poll { gm: u64::MAX, gn: 5 }));
    let mut ok = vec![account(program, Poll { gm: 4, gn: 5 }.encode())];
    assert_eq!(process_instruction(&program, &mut ok, Instruction::Vote(VoteType::GN)), Ok(()));
    assert_eq!(Poll::decode(&ok[0].data), Some(Poll { gm: 4, gn: 6 }));
}
