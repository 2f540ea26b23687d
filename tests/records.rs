use votingdapp::address::Address;
use votingdapp::error::Error;
use votingdapp::instruction::Instruction;
use votingdapp::poll::Poll;
use votingdapp::voter::Voter;

fn sample_poll() -> Poll {
    let mut poll = Poll::empty();
    poll.create(
        "Lang".to_string(),
        "desc".to_string(),
        0x0102_0304_0506_0708,
        vec!["Rust".to_string(), "Go".to_string()],
    )
    .unwrap();
    poll.vote("Go".to_string()).unwrap();
    poll
}

#[test]
fn poll_record_layout() {
    let bytes = sample_poll().encode();
    let mut expected: Vec<u8> = vec![4, 0, 0, 0];
    expected.extend_from_slice(b"Lang");
    expected.extend_from_slice(&[4, 0, 0, 0]);
    expected.extend_from_slice(b"desc");
    expected.extend_from_slice(&[8, 7, 6, 5, 4, 3, 2, 1]);
    expected.extend_from_slice(&[2, 0, 0, 0]);
    expected.extend_from_slice(&[4, 0, 0, 0]);
    expected.extend_from_slice(b"Rust");
    expected.extend_from_slice(&[0, 0, 0, 0, 0, 0, 0, 0]);
    expected.extend_from_slice(&[2, 0, 0, 0]);
    expected.extend_from_slice(b"Go");
    expected.extend_from_slice(&[1, 0, 0, 0, 0, 0, 0, 0]);
    assert_eq!(bytes, expected);
}

#[test]
fn poll_record_matches_borsh() {
    let bytes = sample_poll().encode();
    let same = (
        "Lang".to_string(),
        "desc".to_string(),
        0x0102_0304_0506_0708u64,
        vec![("Rust".to_string(), 0u64), ("Go".to_string(), 1u64)],
    );
    assert_eq!(bytes, borsh::to_vec(&same).unwrap());
}

#[test]
fn poll_round_trip() {
    let poll = sample_poll();
    let bytes = poll.encode();
    let back = Poll::decode(&bytes).unwrap();
    assert_eq!(back.encode(), bytes);
    assert_eq!(back.name(), "Lang");
    assert_eq!(back.description(), "desc");
    assert_eq!(back.closes_at(), 0x0102_0304_0506_0708);
    assert_eq!(back.candidates()[1].votes_count(), 1);

    let empty = Poll::empty().encode();
    assert_eq!(empty, vec![0u8; 20]);
    assert!(Poll::decode(&empty).unwrap().is_empty());
}

#[test]
fn poll_decode_rejects_malformed() {
    let bytes = sample_poll().encode();
    assert_eq!(Poll::decode(&bytes[..bytes.len() - 1]).err(), Some(Error::MalformedRecord));
    let mut longer = bytes.clone();
    longer.push(0);
    assert_eq!(Poll::decode(&longer).err(), Some(Error::MalformedRecord));
    assert_eq!(Poll::decode(&[]).err(), Some(Error::MalformedRecord));
    let mut bad_utf8 = bytes.clone();
    bad_utf8[4] = 0xff;
    assert_eq!(Poll::decode(&bad_utf8).err(), Some(Error::MalformedRecord));
    let mut long_name: Vec<u8> = vec![33, 0, 0, 0];
    long_name.extend_from_slice(&[b'a'; 33]);
    long_name.extend_from_slice(&[0u8; 16]);
    assert_eq!(Poll::decode(&long_name).err(), Some(Error::MalformedRecord));
    let mut nine: Vec<u8> = vec![0u8; 16];
    nine.extend_from_slice(&[9, 0, 0, 0]);
    for _ in 0..9 {
        nine.extend_from_slice(&[1, 0, 0, 0, b'x', 0, 0, 0, 0, 0, 0, 0, 0]);
    }
    assert_eq!(Poll::decode(&nine).err(), Some(Error::MalformedRecord));
}

#[test]
fn voter_record_round_trip() {
    let voter = Voter { id: Address::new([9u8; 32]) };
    let bytes = voter.encode();
    assert_eq!(bytes, vec![9u8; 32]);
    assert_eq!(Voter::decode(&bytes).unwrap().id, voter.id);
    assert_eq!(Voter::decode(&bytes[..31]).err(), Some(Error::MalformedRecord));
    assert!(!Voter::decode(&[0u8; 32]).unwrap().has_voted());
}

fn round_trip(ix: &Instruction) -> Vec<u8> {
    let bytes = ix.encode();
    let back = Instruction::decode(&bytes).unwrap();
    assert_eq!(back.encode(), bytes);
    bytes
}

#[test]
fn instruction_round_trip_and_layout() {
    let create = Instruction::CreatePoll {
        name: "Lang".to_string(),
        description: "desc".to_string(),
        closes_at: 100,
        candidates: vec!["Rust".to_string(), "Go".to_string()],
    };
    let bytes = round_trip(&create);
    let same = (
        0u8,
        "Lang".to_string(),
        "desc".to_string(),
        100u64,
        vec!["Rust".to_string(), "Go".to_string()],
    );
    assert_eq!(bytes, borsh::to_vec(&same).unwrap());

    let edit = Instruction::EditPoll { name: "Lang".to_string(), closes_at: 5 };
    let bytes = round_trip(&edit);
    assert_eq!(bytes, borsh::to_vec(&(1u8, "Lang".to_string(), 5u64)).unwrap());

    let vote = Instruction::Vote { name: "Lang".to_string(), candidate: "Go".to_string() };
    let bytes = round_trip(&vote);
    assert_eq!(bytes, borsh::to_vec(&(2u8, "Lang".to_string(), "Go".to_string())).unwrap());
    match Instruction::decode(&bytes).unwrap() {
        Instruction::Vote { name, candidate } => {
            assert_eq!(name, "Lang");
            assert_eq!(candidate, "Go");
        }
        other => panic!("decoded {:?}", other),
    }
}

#[test]
fn instruction_decode_rejects_malformed() {
    assert_eq!(Instruction::decode(&[]).err(), Some(Error::MalformedRecord));
    assert_eq!(Instruction::decode(&[3, 0, 0, 0, 0]).err(), Some(Error::MalformedRecord));
    let vote = Instruction::Vote { name: "A".to_string(), candidate: "B".to_string() }.encode();
    assert_eq!(Instruction::decode(&vote[..vote.len() - 1]).err(), Some(Error::MalformedRecord));
    let mut longer = vote.clone();
    longer.push(1);
    assert_eq!(Instruction::decode(&longer).err(), Some(Error::MalformedRecord));
}
