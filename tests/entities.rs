use votingdapp::address::Address;
use votingdapp::candidate::Candidate;
use votingdapp::error::Error;
use votingdapp::poll::Poll;
use votingdapp::processor::{handle_create_poll, handle_edit_poll, handle_vote};
use votingdapp::voter::Voter;

fn names(list: &[&str]) -> Vec<String> {
    list.iter().map(|s| s.to_string()).collect()
}

fn tallies(poll: &Poll) -> Vec<(String, u64)> {
    poll.candidates()
        .iter()
        .map(|c| (c.name().clone(), c.votes_count()))
        .collect()
}

fn created(closes_at: u64) -> Poll {
    let mut poll = Poll::empty();
    handle_create_poll(
        &mut poll,
        "Lang".to_string(),
        "desc".to_string(),
        closes_at,
        names(&["Rust", "Go"]),
    )
    .unwrap();
    poll
}

#[test]
fn create_once() {
    let mut poll = Poll::empty();
    assert!(poll.is_empty());
    let r = handle_create_poll(
        &mut poll,
        "Lang".to_string(),
        "desc".to_string(),
        500,
        names(&["Rust", "Go"]),
    );
    assert_eq!(r, Ok(()));
    assert!(!poll.is_empty());
    assert_eq!(poll.name(), "Lang");
    assert_eq!(poll.description(), "desc");
    assert_eq!(poll.closes_at(), 500);
    assert_eq!(tallies(&poll), vec![("Rust".to_string(), 0), ("Go".to_string(), 0)]);

    let before = poll.encode();
    let again = handle_create_poll(
        &mut poll,
        "Other".to_string(),
        "".to_string(),
        7,
        names(&["A"]),
    );
    assert_eq!(again, Err(Error::PollAlreadyExists));
    assert_eq!(poll.encode(), before);
}

#[test]
fn vote_counts_one_candidate() {
    let mut poll = created(500);
    assert_eq!(poll.vote("Go".to_string()), Ok(()));
    assert_eq!(tallies(&poll), vec![("Rust".to_string(), 0), ("Go".to_string(), 1)]);
    assert_eq!(poll.vote("Java".to_string()), Err(Error::CandidateNotFound));
    assert_eq!(tallies(&poll), vec![("Rust".to_string(), 0), ("Go".to_string(), 1)]);
}

#[test]
fn vote_first_match_wins() {
    let mut poll = Poll::empty();
    poll.create("Dup".to_string(), "".to_string(), 1, names(&["X", "X"]))
        .unwrap();
    poll.vote("X".to_string()).unwrap();
    assert_eq!(tallies(&poll), vec![("X".to_string(), 1), ("X".to_string(), 0)]);
}

#[test]
fn second_vote_from_same_identity_is_refused() {
    let mut poll = created(500);
    let mut voter = Voter::unset();
    assert!(!voter.has_voted());
    let signer = Address::new([7u8; 32]);
    assert_eq!(handle_vote(&mut poll, &mut voter, &signer, "Rust".to_string(), 10), Ok(()));
    assert!(voter.has_voted());
    assert_eq!(voter.id, signer);
    assert_eq!(
        handle_vote(&mut poll, &mut voter, &signer, "Rust".to_string(), 10),
        Err(Error::AlreadyVoted)
    );
    assert_eq!(tallies(&poll), vec![("Rust".to_string(), 1), ("Go".to_string(), 0)]);
}

#[test]
fn voting_window_is_inclusive() {
    let mut poll = created(100);
    assert!(poll.is_open(100));
    assert!(!poll.is_open(101));
    assert!(poll.is_open(0));
    let mut voter = Voter::unset();
    let signer = Address::new([1u8; 32]);
    assert_eq!(
        handle_vote(&mut poll, &mut voter, &signer, "Go".to_string(), 101),
        Err(Error::VotingEnded)
    );
    assert!(!voter.has_voted());
    assert_eq!(handle_vote(&mut poll, &mut voter, &signer, "Go".to_string(), 100), Ok(()));
    assert_eq!(tallies(&poll), vec![("Rust".to_string(), 0), ("Go".to_string(), 1)]);
}

#[test]
fn vote_checks_run_in_order() {
    let mut poll = created(100);
    let signer = Address::new([3u8; 32]);
    let mut voted = Voter { id: signer };
    assert_eq!(
        handle_vote(&mut poll, &mut voted, &signer, "Nobody".to_string(), 500),
        Err(Error::AlreadyVoted)
    );
    let mut fresh = Voter::unset();
    assert_eq!(
        handle_vote(&mut poll, &mut fresh, &signer, "Nobody".to_string(), 500),
        Err(Error::VotingEnded)
    );
    assert_eq!(
        handle_vote(&mut poll, &mut fresh, &signer, "Nobody".to_string(), 50),
        Err(Error::CandidateNotFound)
    );
    assert!(!fresh.has_voted());
}

#[test]
fn create_enforces_bounds() {
    let nine = names(&["a", "b", "c", "d", "e", "f", "g", "h", "i"]);
    let mut poll = Poll::empty();
    assert_eq!(
        poll.create("P".to_string(), "".to_string(), 1, nine),
        Err(Error::InvalidCandidatesCount)
    );
    assert_eq!(
        poll.create("x".repeat(33), "".to_string(), 1, names(&["a"])),
        Err(Error::InvalidPollName)
    );
    assert_eq!(
        poll.create("".to_string(), "".to_string(), 1, names(&["a"])),
        Err(Error::InvalidPollName)
    );
    assert_eq!(
        poll.create("P".to_string(), "d".repeat(65), 1, names(&["a"])),
        Err(Error::InvalidPollDescription)
    );
    assert_eq!(
        poll.create("P".to_string(), "".to_string(), 1, vec!["a".to_string(), "".to_string()]),
        Err(Error::InvalidCandidateName)
    );
    assert_eq!(
        poll.create("P".to_string(), "".to_string(), 1, vec!["c".repeat(33)]),
        Err(Error::InvalidCandidateName)
    );
    assert!(poll.is_empty());
}

#[test]
fn create_accepts_largest_sizes() {
    let eight: Vec<String> = (0..8).map(|i| format!("{}", i).repeat(32)).collect();
    let mut poll = Poll::empty();
    assert_eq!(
        poll.create("n".repeat(32), "d".repeat(64), u64::MAX, eight),
        Ok(())
    );
    assert_eq!(poll.candidates().len(), 8);
    assert_eq!(poll.encode().len(), votingdapp::poll::POLL_SPACE);
}

#[test]
fn bounds_count_bytes() {
    let mut poll = Poll::empty();
    // eleven three-byte characters: 33 bytes
    assert_eq!(
        poll.create("\u{20ac}".repeat(11), "".to_string(), 1, vec![]),
        Err(Error::InvalidPollName)
    );
    assert_eq!(
        poll.create("\u{20ac}".repeat(10), "".to_string(), 1, vec![]),
        Ok(())
    );
}

#[test]
fn candidate_new_and_vote() {
    assert_eq!(Candidate::new("".to_string()).err(), Some(Error::InvalidCandidateName));
    let mut c = Candidate::new("Rust".to_string()).unwrap();
    assert_eq!(c.votes_count(), 0);
    c.vote();
    c.vote();
    assert_eq!(c.votes_count(), 2);
    assert_eq!(c.name(), "Rust");
}

#[test]
fn edit_moves_only_closing_time() {
    let mut poll = created(100);
    poll.vote("Rust".to_string()).unwrap();
    assert_eq!(handle_edit_poll(&mut poll, 900), Ok(()));
    assert_eq!(poll.closes_at(), 900);
    assert_eq!(poll.name(), "Lang");
    assert_eq!(tallies(&poll), vec![("Rust".to_string(), 1), ("Go".to_string(), 0)]);
}

#[test]
fn error_messages() {
    assert_eq!(Error::PollAlreadyExists.message(), "Poll already exists");
    assert_eq!(Error::InvalidCandidatesCount.message(), "Invalid candidates count");
    assert_eq!(Error::MalformedRecord.message(), "Malformed record");
    assert_eq!(
        votingdapp::referendum::ErrorCode::QuestionTooLong.message(),
        "The question exceeds the maximum length of 200 characters."
    );
}

#[test]
fn zero_identity_cannot_vote() {
    let mut poll = created(500);
    let mut voter = Voter::unset();
    let zero = Address::new([0u8; 32]);
    for _ in 0..3 {
        assert_eq!(
            handle_vote(&mut poll, &mut voter, &zero, "Go".to_string(), 10),
            Err(Error::AlreadyVoted)
        );
    }
    assert_eq!(tallies(&poll), vec![("Rust".to_string(), 0), ("Go".to_string(), 0)]);
    assert!(!voter.has_voted());
    assert_eq!(
        handle_vote(&mut poll, &mut voter, &zero, "Go".to_string(), 501),
        Err(Error::VotingEnded)
    );
    assert_eq!(
        handle_vote(&mut poll, &mut voter, &zero, "Java".to_string(), 10),
        Err(Error::CandidateNotFound)
    );
}

#[test]
fn edit_needs_a_created_poll() {
    let mut poll = Poll::empty();
    assert_eq!(handle_edit_poll(&mut poll, 900), Err(Error::PollNotInitialized));
    assert!(poll.is_empty());
    assert_eq!(
        handle_create_poll(&mut poll, "Lang".to_string(), "".to_string(), 5, names(&["A"])),
        Ok(())
    );
}
