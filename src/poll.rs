use vstd::prelude::*;

use crate::candidate::{
    candidate_bytes, candidate_fits, lemma_candidate_canonical, lemma_candidate_round_trip,
    parse_candidate, valid_candidate_name, Candidate, CandidateView, CANDIDATE_NAME_MAX_LEN,
};
use crate::codec::{
    byte_len, holds_record, lemma_concat5, lemma_split, lemma_str_bytes_len, lemma_str_canonical,
    lemma_take_prefix5,
    lemma_str_round_trip, lemma_u32_canonical, lemma_u32_round_trip, lemma_u64_canonical,
    lemma_u64_round_trip, parse_str, parse_u32, parse_u64, read_str, read_u32, read_u64, rest_of,
    str_bytes, string_byte_len, u32_bytes, u64_bytes, write_str, write_u32, write_u64, zero_from,
    RECORD_OFFSET,
};
use crate::error::Error;

verus! {

pub const POLL_NAME_MAX_LEN: usize = 32;

pub const POLL_DESCRIPTION_MAX_LEN: usize = 64;

pub const POLL_CANDIDATES_MAX_LEN: usize = 8;

/// What a poll is: its name, description, closing time and candidates in order.
pub struct PollView {
    pub name: Seq<char>,
    pub description: Seq<char>,
    pub closes_at: u64,
    pub candidates: Seq<CandidateView>,
}

pub open spec fn valid_poll_name(name: Seq<char>) -> bool {
    name.len() > 0 && byte_len(name) <= POLL_NAME_MAX_LEN
}

pub open spec fn valid_poll_description(description: Seq<char>) -> bool {
    byte_len(description) <= POLL_DESCRIPTION_MAX_LEN
}

impl PollView {
    /// The state of a freshly allocated slot: every field at its default.
    pub open spec fn is_empty(self) -> bool {
        &&& self.name.len() == 0
        &&& self.description.len() == 0
        &&& self.closes_at == 0
        &&& self.candidates.len() == 0
    }

    /// The state that one successful `create` leaves.
    pub open spec fn is_initialized(self) -> bool {
        &&& valid_poll_name(self.name)
        &&& valid_poll_description(self.description)
        &&& self.candidates.len() <= POLL_CANDIDATES_MAX_LEN
        &&& forall|i: int|
            0 <= i < self.candidates.len() ==> valid_candidate_name(#[trigger] self.candidates[i].name)
    }

    pub open spec fn wf(self) -> bool {
        self.is_empty() || self.is_initialized()
    }

    pub open spec fn is_open(self, now: u64) -> bool {
        now <= self.closes_at
    }

    /// The poll with one more vote for the candidate at `i`.
    pub open spec fn with_vote(self, i: int) -> PollView {
        PollView {
            name: self.name,
            description: self.description,
            closes_at: self.closes_at,
            candidates: self.candidates.update(
                i,
                CandidateView {
                    name: self.candidates[i].name,
                    votes_count: (self.candidates[i].votes_count + 1) as u64,
                },
            ),
        }
    }

    pub open spec fn with_closes_at(self, closes_at: u64) -> PollView {
        PollView {
            name: self.name,
            description: self.description,
            closes_at,
            candidates: self.candidates,
        }
    }
}

/// `i` is the first position of a candidate named `name`.
pub open spec fn first_match(candidates: Seq<CandidateView>, name: Seq<char>, i: int) -> bool {
    &&& 0 <= i < candidates.len()
    &&& candidates[i].name == name
    &&& forall|j: int| 0 <= j < i ==> #[trigger] candidates[j].name != name
}

/// The position of the first candidate named `name`.
pub open spec fn first_index(candidates: Seq<CandidateView>, name: Seq<char>) -> int {
    choose|i: int| first_match(candidates, name, i)
}

pub proof fn lemma_first_match_unique(candidates: Seq<CandidateView>, name: Seq<char>, i: int)
    requires
        first_match(candidates, name, i),
    ensures
        first_index(candidates, name) == i,
{
    let j = first_index(candidates, name);
    assert(first_match(candidates, name, j));
    if j < i {
        assert(candidates[j].name != name);
    }
    if i < j {
        assert(candidates[i].name != name);
    }
}

pub open spec fn has_candidate(candidates: Seq<CandidateView>, name: Seq<char>) -> bool {
    exists|i: int| 0 <= i < candidates.len() && #[trigger] candidates[i].name == name
}

/// The first candidate named `name`, if any, has not reached the largest count.
pub open spec fn can_count_vote(candidates: Seq<CandidateView>, name: Seq<char>) -> bool {
    forall|i: int| #[trigger] first_match(candidates, name, i) ==> candidates[i].votes_count < u64::MAX
}

/// What `create` makes of its arguments: the first rule they break, or the
/// new poll with every candidate at zero votes.
pub open spec fn create_outcome(
    name: Seq<char>,
    description: Seq<char>,
    closes_at: u64,
    candidates: Seq<Seq<char>>,
) -> Result<PollView, Error> {
    if !valid_poll_name(name) {
        Err(Error::InvalidPollName)
    } else if !valid_poll_description(description) {
        Err(Error::InvalidPollDescription)
    } else if candidates.len() > POLL_CANDIDATES_MAX_LEN {
        Err(Error::InvalidCandidatesCount)
    } else if exists|i: int| 0 <= i < candidates.len() && !valid_candidate_name(#[trigger] candidates[i]) {
        Err(Error::InvalidCandidateName)
    } else {
        Ok(
            PollView {
                name,
                description,
                closes_at,
                candidates: candidates.map_values(|c: Seq<char>| CandidateView { name: c, votes_count: 0 }),
            },
        )
    }
}

pub open spec fn strings_view(v: Seq<String>) -> Seq<Seq<char>> {
    v.map_values(|s: String| s@)
}

impl PollView {
    /// A poll that its record's capacity can hold.
    pub open spec fn fits(self) -> bool {
        &&& byte_len(self.name) <= POLL_NAME_MAX_LEN
        &&& byte_len(self.description) <= POLL_DESCRIPTION_MAX_LEN
        &&& self.candidates.len() <= POLL_CANDIDATES_MAX_LEN
        &&& forall|i: int| 0 <= i < self.candidates.len() ==> candidate_fits(#[trigger] self.candidates[i])
    }
}

/// Candidates as stored one after another.
pub open spec fn candidates_bytes(cs: Seq<CandidateView>) -> Seq<u8>
    decreases cs.len(),
{
    if cs.len() == 0 {
        Seq::empty()
    } else {
        candidate_bytes(cs[0]) + candidates_bytes(cs.drop_first())
    }
}

/// A poll as stored: name, description, closing time, the number of
/// candidates in four bytes, then the candidates.
pub open spec fn poll_bytes(p: PollView) -> Seq<u8> {
    str_bytes(p.name) + str_bytes(p.description) + u64_bytes(p.closes_at) + u32_bytes(
        p.candidates.len() as u32,
    ) + candidates_bytes(p.candidates)
}

/// The size of the largest poll record, which a poll's slot is allocated with.
pub const POLL_SPACE: usize = 4 + POLL_NAME_MAX_LEN + 4 + POLL_DESCRIPTION_MAX_LEN + 8 + 4
    + POLL_CANDIDATES_MAX_LEN * (4 + CANDIDATE_NAME_MAX_LEN + 8);

/// Continues a partial parse: what was read so far, and the offset it ended at.
pub open spec fn candidates_after(
    read: Seq<CandidateView>,
    offset: int,
    rest: Option<(Seq<CandidateView>, int)>,
) -> Option<(Seq<CandidateView>, int)> {
    match rest {
        Some((cs, m)) => Some((read + cs, offset + m)),
        None => None,
    }
}

pub open spec fn parse_candidates(b: Seq<u8>, k: nat) -> Option<(Seq<CandidateView>, int)>
    decreases k,
{
    if k == 0 {
        Some((Seq::empty(), 0))
    } else {
        match parse_candidate(b) {
            Some((c, n)) => match parse_candidates(b.skip(n), (k - 1) as nat) {
                Some((cs, m)) => Some((seq![c] + cs, n + m)),
                None => None,
            },
            None => None,
        }
    }
}

/// Reads a poll from the front of `b`: the poll and the number of bytes it
/// took.
pub open spec fn parse_poll_prefix(b: Seq<u8>) -> Option<(PollView, int)> {
    match parse_str(b) {
        Some((name, n1)) => if byte_len(name) > POLL_NAME_MAX_LEN {
            None
        } else {
            let b2 = b.skip(n1);
            match parse_str(b2) {
                Some((description, n2)) => if byte_len(description) > POLL_DESCRIPTION_MAX_LEN {
                    None
                } else {
                    let b3 = b2.skip(n2);
                    match parse_u64(b3) {
                        Some((closes_at, n3)) => {
                            let b4 = b3.skip(n3);
                            match parse_u32(b4) {
                                Some((k, n4)) => if k > POLL_CANDIDATES_MAX_LEN {
                                    None
                                } else {
                                    let b5 = b4.skip(n4);
                                    match parse_candidates(b5, k as nat) {
                                        Some((candidates, n5)) => Some(
                                            (
                                                PollView { name, description, closes_at, candidates },
                                                n1 + n2 + n3 + n4 + n5,
                                            ),
                                        ),
                                        None => None,
                                    }
                                },
                                None => None,
                            }
                        },
                        None => None,
                    }
                },
                None => None,
            }
        },
        None => None,
    }
}

pub open spec fn parse_poll(b: Seq<u8>) -> Option<PollView> {
    match parse_poll_prefix(b) {
        Some((p, n)) => if n == b.len() {
            Some(p)
        } else {
            None
        },
        None => None,
    }
}

proof fn lemma_candidates_round_trip(cs: Seq<CandidateView>, rest: Seq<u8>)
    requires
        forall|i: int| 0 <= i < cs.len() ==> candidate_fits(#[trigger] cs[i]),
    ensures
        parse_candidates(candidates_bytes(cs) + rest, cs.len()) == Some(
            (cs, candidates_bytes(cs).len() as int),
        ),
    decreases cs.len(),
{
    if cs.len() > 0 {
        let tail = cs.drop_first();
        assert forall|i: int| 0 <= i < tail.len() implies candidate_fits(#[trigger] tail[i]) by {
            assert(tail[i] == cs[i + 1]);
        }
        lemma_candidates_round_trip(tail, rest);
        let b = candidates_bytes(cs) + rest;
        lemma_candidate_round_trip(cs[0], candidates_bytes(tail) + rest);
        assert(b =~= candidate_bytes(cs[0]) + (candidates_bytes(tail) + rest));
        assert(b.skip(candidate_bytes(cs[0]).len() as int) =~= candidates_bytes(tail) + rest);
        assert(seq![cs[0]] + tail =~= cs);
    } else {
        assert(cs =~= Seq::<CandidateView>::empty());
    }
}

proof fn lemma_candidates_canonical(b: Seq<u8>, k: nat)
    requires
        parse_candidates(b, k) is Some,
    ensures
        ({
            let (cs, n) = parse_candidates(b, k)->Some_0;
            &&& cs.len() == k
            &&& forall|i: int| 0 <= i < cs.len() ==> candidate_fits(#[trigger] cs[i])
            &&& n == candidates_bytes(cs).len()
            &&& n <= b.len()
            &&& b.take(n) == candidates_bytes(cs)
        }),
    decreases k,
{
    let (cs, n) = parse_candidates(b, k)->Some_0;
    if k == 0 {
        assert(b.take(0) =~= Seq::<u8>::empty());
    } else {
        let (c, n1) = parse_candidate(b)->Some_0;
        lemma_candidate_canonical(b);
        lemma_candidates_canonical(b.skip(n1), (k - 1) as nat);
        let (tail, n2) = parse_candidates(b.skip(n1), (k - 1) as nat)->Some_0;
        assert(cs.drop_first() =~= tail);
        assert(cs[0] == c);
        assert forall|i: int| 0 <= i < cs.len() implies candidate_fits(#[trigger] cs[i]) by {
            if i > 0 {
                assert(cs[i] == tail[i - 1]);
            }
        }
        assert(b.take(n) =~= b.take(n1) + b.skip(n1).take(n2));
    }
}

proof fn lemma_parse_poll_prefix_round_trip(p: PollView, rest: Seq<u8>)
    requires
        p.fits(),
    ensures
        parse_poll_prefix(poll_bytes(p) + rest) == Some((p, poll_bytes(p).len() as int)),
{
    let b = poll_bytes(p) + rest;
    let cb = candidates_bytes(p.candidates);
    let k = p.candidates.len() as u32;
    let r4 = u32_bytes(k) + (cb + rest);
    let r3 = u64_bytes(p.closes_at) + r4;
    let r2 = str_bytes(p.description) + r3;
    lemma_concat5(str_bytes(p.name), str_bytes(p.description), u64_bytes(p.closes_at), u32_bytes(k), cb);
    assert(b =~= str_bytes(p.name) + r2);
    lemma_str_round_trip(p.name, r2);
    let n1 = 4 + byte_len(p.name) as int;
    assert(b.skip(n1) =~= r2);
    lemma_str_round_trip(p.description, r3);
    let n2 = 4 + byte_len(p.description) as int;
    assert(r2.skip(n2) =~= r3);
    lemma_u64_round_trip(p.closes_at, r4);
    assert(r3.skip(8) =~= r4);
    lemma_u32_round_trip(k, cb + rest);
    assert(r4.skip(4) =~= cb + rest);
    lemma_candidates_round_trip(p.candidates, rest);
}

/// Decoding reads back what encoding wrote.
pub proof fn lemma_parse_poll_round_trip(p: PollView)
    requires
        p.fits(),
    ensures
        parse_poll(poll_bytes(p)) == Some(p),
{
    lemma_parse_poll_prefix_round_trip(p, Seq::empty());
    assert(poll_bytes(p) + Seq::<u8>::empty() =~= poll_bytes(p));
}

proof fn lemma_parse_poll_prefix_canonical(b: Seq<u8>)
    requires
        parse_poll_prefix(b) is Some,
    ensures
        ({
            let (p, n) = parse_poll_prefix(b)->Some_0;
            &&& p.fits()
            &&& 0 <= n <= b.len()
            &&& b.take(n) == poll_bytes(p)
        }),
{
    let (p, n) = parse_poll_prefix(b)->Some_0;
    let (name, n1) = parse_str(b)->Some_0;
    let b2 = b.skip(n1);
    let (description, n2) = parse_str(b2)->Some_0;
    let b3 = b2.skip(n2);
    let (closes_at, n3) = parse_u64(b3)->Some_0;
    let b4 = b3.skip(n3);
    let (k, n4) = parse_u32(b4)->Some_0;
    let b5 = b4.skip(n4);
    let (candidates, n5) = parse_candidates(b5, k as nat)->Some_0;
    assert(p == PollView { name, description, closes_at, candidates });
    lemma_str_canonical(b);
    lemma_split(b, n1);
    lemma_str_canonical(b2);
    lemma_split(b2, n2);
    lemma_u64_canonical(b3);
    lemma_split(b3, 8);
    lemma_u32_canonical(b4);
    lemma_split(b4, 4);
    lemma_candidates_canonical(b5, k as nat);
    lemma_take_prefix5(str_bytes(name), str_bytes(description), u64_bytes(closes_at), u32_bytes(k), b5, n5);
}

/// A slot that holds a poll's record reads back as that poll.
proof fn lemma_slot_parse(slot: Seq<u8>, v: PollView)
    requires
        v.fits(),
        holds_record(slot, poll_bytes(v)),
    ensures
        parse_poll_prefix(rest_of(slot, RECORD_OFFSET as int)) == Some((v, poll_bytes(v).len() as int)),
{
    let rest = rest_of(slot, RECORD_OFFSET as int);
    let n = poll_bytes(v).len() as int;
    assert(rest =~= poll_bytes(v) + rest.skip(n));
    lemma_parse_poll_prefix_round_trip(v, rest.skip(n));
}

/// What decodes is what some poll encodes to.
pub proof fn lemma_parse_poll_canonical(b: Seq<u8>)
    requires
        parse_poll(b) is Some,
    ensures
        parse_poll(b)->Some_0.fits(),
        poll_bytes(parse_poll(b)->Some_0) == b,
{
    lemma_parse_poll_prefix_canonical(b);
    assert(b.take(b.len() as int) =~= b);
}

proof fn lemma_candidates_bytes_len(cs: Seq<CandidateView>)
    requires
        forall|i: int| 0 <= i < cs.len() ==> candidate_fits(#[trigger] cs[i]),
    ensures
        candidates_bytes(cs).len() <= cs.len() * (4 + CANDIDATE_NAME_MAX_LEN + 8),
    decreases cs.len(),
{
    if cs.len() > 0 {
        let tail = cs.drop_first();
        assert forall|i: int| 0 <= i < tail.len() implies candidate_fits(#[trigger] tail[i]) by {
            assert(tail[i] == cs[i + 1]);
        }
        lemma_candidates_bytes_len(tail);
        assert(candidate_fits(cs[0]));
        lemma_str_bytes_len(cs[0].name);
    }
}

/// A poll that fits its record never outgrows the space its slot is
/// allocated with.
pub proof fn lemma_poll_record_within_space(p: PollView)
    requires
        p.fits(),
    ensures
        poll_bytes(p).len() <= POLL_SPACE,
{
    lemma_str_bytes_len(p.name);
    lemma_str_bytes_len(p.description);
    lemma_candidates_bytes_len(p.candidates);
    assert(p.candidates.len() * (4 + CANDIDATE_NAME_MAX_LEN + 8) <= POLL_CANDIDATES_MAX_LEN * (4
        + CANDIDATE_NAME_MAX_LEN + 8)) by (nonlinear_arith)
        requires
            p.candidates.len() <= POLL_CANDIDATES_MAX_LEN,
    ;
}

/// Decoding inverts encoding: the only poll whose bytes equal those of a poll
/// `p` that fits its record is `p` itself, so decoding `p`'s bytes gives `p`.
pub proof fn lemma_poll_round_trip(p: PollView, decoded: PollView)
    requires
        p.fits(),
        decoded.fits(),
        poll_bytes(decoded) == poll_bytes(p),
    ensures
        decoded == p,
{
    lemma_parse_poll_round_trip(p);
    lemma_parse_poll_round_trip(decoded);
}

/// One voting round.
#[derive(Debug)]
pub struct Poll {
    name: String,
    description: String,
    closes_at: u64,
    candidates: Vec<Candidate>,
}

impl View for Poll {
    type V = PollView;

    closed spec fn view(&self) -> PollView {
        PollView {
            name: self.name@,
            description: self.description@,
            closes_at: self.closes_at,
            candidates: self.candidates@.map_values(|c: Candidate| c@),
        }
    }
}

impl Poll {
    /// The poll held by a freshly allocated slot.
    pub fn empty() -> (r: Poll)
        ensures
            r@.is_empty(),
    {
        let r = Poll {
            name: String::new(),
            description: String::new(),
            closes_at: 0,
            candidates: Vec::new(),
        };
        assert(r@.candidates =~= Seq::<CandidateView>::empty());
        r
    }

    /// Sets every field from the arguments, or leaves the poll unchanged and
    /// names the first rule they break.
    pub fn create(
        &mut self,
        name: String,
        description: String,
        closes_at: u64,
        candidates: Vec<String>,
    ) -> (r: Result<(), Error>)
        ensures
            match create_outcome(name@, description@, closes_at, strings_view(candidates@)) {
                Ok(p) => r is Ok && final(self)@ == p,
                Err(e) => r == Err::<(), Error>(e) && final(self)@ == old(self)@,
            },
    {
        if string_byte_len(&name) > POLL_NAME_MAX_LEN || name.as_str().is_empty() {
            return Err(Error::InvalidPollName);
        }
        if string_byte_len(&description) > POLL_DESCRIPTION_MAX_LEN {
            return Err(Error::InvalidPollDescription);
        }
        if candidates.len() > POLL_CANDIDATES_MAX_LEN {
            return Err(Error::InvalidCandidatesCount);
        }
        let ghost names = strings_view(candidates@);
        let mut made: Vec<Candidate> = Vec::new();
        let mut i: usize = 0;
        while i < candidates.len()
            invariant
                i <= candidates.len(),
                names == strings_view(candidates@),
                names.len() == candidates@.len(),
                valid_poll_name(name@),
                valid_poll_description(description@),
                candidates.len() <= POLL_CANDIDATES_MAX_LEN,
                made@.len() == i,
                forall|j: int| 0 <= j < i ==> valid_candidate_name(#[trigger] names[j]),
                forall|j: int|
                    0 <= j < i ==> #[trigger] made@[j]@ == (CandidateView {
                        name: names[j],
                        votes_count: 0,
                    }),
            decreases candidates.len() - i,
        {
            match Candidate::new(candidates[i].clone()) {
                Ok(c) => {
                    made.push(c);
                },
                Err(e) => {
                    assert(!valid_candidate_name(names[i as int]));
                    assert(create_outcome(name@, description@, closes_at, names) == Err::<
                        PollView,
                        Error,
                    >(Error::InvalidCandidateName));
                    return Err(e);
                },
            }
            i = i + 1;
        }
        self.name = name;
        self.description = description;
        self.closes_at = closes_at;
        self.candidates = made;
        assert(self@.candidates =~= names.map_values(
            |c: Seq<char>| CandidateView { name: c, votes_count: 0 },
        ));
        Ok(())
    }

    pub fn has_candidate(&self, candidate: &String) -> (r: bool)
        ensures
            r == has_candidate(self@.candidates, candidate@),
    {
        let mut i: usize = 0;
        while i < self.candidates.len()
            invariant
                i <= self.candidates.len(),
                forall|j: int| 0 <= j < i ==> #[trigger] self@.candidates[j].name != candidate@,
            decreases self.candidates.len() - i,
        {
            assert(self@.candidates[i as int] == self.candidates@[i as int]@);
            if *self.candidates[i].name() == *candidate {
                assert(self@.candidates[i as int].name == candidate@);
                return true;
            }
            i = i + 1;
        }
        false
    }

    /// Counts one vote for the first candidate named `candidate`.
    pub fn vote(&mut self, candidate: String) -> (r: Result<(), Error>)
        requires
            can_count_vote(old(self)@.candidates, candidate@),
        ensures
            match r {
                Ok(_) => exists|i: int|
                    first_match(old(self)@.candidates, candidate@, i) && final(self)@ == old(
                        self,
                    )@.with_vote(i),
                Err(e) => e == Error::CandidateNotFound && !has_candidate(
                    old(self)@.candidates,
                    candidate@,
                ) && final(self)@ == old(self)@,
            },
    {
        let mut i: usize = 0;
        while i < self.candidates.len()
            invariant
                i <= self.candidates.len(),
                self@ == old(self)@,
                can_count_vote(self@.candidates, candidate@),
                forall|j: int| 0 <= j < i ==> #[trigger] self@.candidates[j].name != candidate@,
            decreases self.candidates.len() - i,
        {
            if *self.candidates[i].name() == candidate {
                let ghost before = self@;
                assert(before.candidates[i as int].name == candidate@);
                assert(first_match(before.candidates, candidate@, i as int));
                self.candidates[i].vote();
                assert(self@.candidates =~= before.with_vote(i as int).candidates);
                assert(first_match(before.candidates, candidate@, i as int));
                return Ok(());
            }
            i = i + 1;
        }
        Err(Error::CandidateNotFound)
    }

    /// The poll's record.
    pub fn encode(&self) -> (r: Vec<u8>)
        requires
            self@.fits(),
        ensures
            r@ == poll_bytes(self@),
    {
        let mut out: Vec<u8> = Vec::new();
        write_str(&mut out, &self.name);
        write_str(&mut out, &self.description);
        write_u64(&mut out, self.closes_at);
        write_u32(&mut out, self.candidates.len() as u32);
        let ghost head = out@;
        let ghost cs = self@.candidates;
        assert(cs.skip(0) =~= cs);
        let mut i: usize = 0;
        while i < self.candidates.len()
            invariant
                i <= self.candidates.len(),
                cs == self@.candidates,
                cs.len() == self.candidates.len(),
                self@.fits(),
                head + candidates_bytes(cs) == out@ + candidates_bytes(cs.skip(i as int)),
            decreases self.candidates.len() - i,
        {
            assert(cs[i as int] == self.candidates@[i as int]@);
            assert(candidate_fits(cs[i as int]));
            self.candidates[i].write_to(&mut out);
            assert(cs.skip(i as int).drop_first() =~= cs.skip(i + 1));
            i = i + 1;
        }
        assert(cs.skip(i as int) =~= Seq::<CandidateView>::empty());
        assert(out@ + Seq::<u8>::empty() =~= out@);
        assert(head =~= str_bytes(self@.name) + str_bytes(self@.description) + u64_bytes(
            self@.closes_at,
        ) + u32_bytes(cs.len() as u32));
        out
    }

    /// The poll held by a record; `MalformedRecord` where the bytes are no
    /// poll's record.
    pub fn decode(bytes: &[u8]) -> (r: Result<Poll, Error>)
        ensures
            match r {
                Ok(p) => p@.fits() && poll_bytes(p@) == bytes@,
                Err(e) => e == Error::MalformedRecord && forall|v: PollView|
                    v.fits() ==> poll_bytes(v) != bytes@,
            },
    {
        match Self::parse(bytes) {
            Some(p) => {
                proof {
                    lemma_parse_poll_canonical(bytes@);
                }
                Ok(p)
            },
            None => {
                assert forall|v: PollView| v.fits() implies poll_bytes(v) != bytes@ by {
                    lemma_parse_poll_round_trip(v);
                }
                Err(Error::MalformedRecord)
            },
        }
    }

    /// The poll that a slot holds; `MalformedRecord` where the slot holds no
    /// poll's record.
    pub fn decode_slot(slot: &[u8]) -> (r: Result<Poll, Error>)
        ensures
            match r {
                Ok(p) => p@.fits() && holds_record(slot@, poll_bytes(p@)),
                Err(e) => e == Error::MalformedRecord && forall|v: PollView|
                    v.fits() ==> !holds_record(slot@, poll_bytes(v)),
            },
    {
        if slot.len() < RECORD_OFFSET {
            return Err(Error::MalformedRecord);
        }
        let ghost rest = rest_of(slot@, RECORD_OFFSET as int);
        match Self::parse_prefix(slot, RECORD_OFFSET) {
            Some((p, end)) => {
                proof {
                    lemma_parse_poll_prefix_canonical(rest);
                    assert(slot@.subrange(RECORD_OFFSET as int, end as int) =~= rest.take(
                        end - RECORD_OFFSET,
                    ));
                }
                if !zero_from(slot, end) {
                    assert forall|v: PollView| v.fits() implies !holds_record(slot@, poll_bytes(v)) by {
                        if holds_record(slot@, poll_bytes(v)) {
                            lemma_slot_parse(slot@, v);
                            let i = choose|i: int| end <= i < slot@.len() && slot@[i] != 0;
                            assert(slot@[i] == 0);
                        }
                    }
                    return Err(Error::MalformedRecord);
                }
                Ok(p)
            },
            None => {
                assert forall|v: PollView| v.fits() implies !holds_record(slot@, poll_bytes(v)) by {
                    if holds_record(slot@, poll_bytes(v)) {
                        lemma_slot_parse(slot@, v);
                    }
                }
                Err(Error::MalformedRecord)
            },
        }
    }

    fn parse(b: &[u8]) -> (r: Option<Poll>)
        ensures
            match r {
                Some(p) => parse_poll(b@) == Some(p@),
                None => parse_poll(b@) is None,
            },
    {
        assert(rest_of(b@, 0) =~= b@);
        match Self::parse_prefix(b, 0) {
            Some((p, end)) => if end == b.len() {
                Some(p)
            } else {
                None
            },
            None => None,
        }
    }

    fn parse_prefix(b: &[u8], start: usize) -> (r: Option<(Poll, usize)>)
        requires
            start <= b@.len(),
        ensures
            match r {
                Some((p, end)) => start <= end <= b@.len() && parse_poll_prefix(
                    rest_of(b@, start as int),
                ) == Some((p@, end - start)),
                None => parse_poll_prefix(rest_of(b@, start as int)) is None,
            },
    {
        let (name, p1) = match read_str(b, start) {
            Some(x) => x,
            None => return None,
        };
        if string_byte_len(&name) > POLL_NAME_MAX_LEN {
            return None;
        }
        assert(rest_of(b@, start as int).skip(p1 - start) =~= rest_of(b@, p1 as int));
        let (description, p2) = match read_str(b, p1) {
            Some(x) => x,
            None => return None,
        };
        if string_byte_len(&description) > POLL_DESCRIPTION_MAX_LEN {
            return None;
        }
        assert(rest_of(b@, p1 as int).skip(p2 - p1) =~= rest_of(b@, p2 as int));
        let (closes_at, p3) = match read_u64(b, p2) {
            Some(x) => x,
            None => return None,
        };
        assert(rest_of(b@, p2 as int).skip(p3 - p2) =~= rest_of(b@, p3 as int));
        let (k, p4) = match read_u32(b, p3) {
            Some(x) => x,
            None => return None,
        };
        if k as usize > POLL_CANDIDATES_MAX_LEN {
            return None;
        }
        assert(rest_of(b@, p3 as int).skip(p4 - p3) =~= rest_of(b@, p4 as int));
        let ghost whole = parse_candidates(rest_of(b@, p4 as int), k as nat);
        let mut candidates: Vec<Candidate> = Vec::new();
        let mut pos = p4;
        let mut i: u32 = 0;
        assert(candidates@.map_values(|c: Candidate| c@) + Seq::<CandidateView>::empty()
            =~= candidates@.map_values(|c: Candidate| c@));
        while i < k
            invariant
                i <= k,
                p4 <= pos <= b@.len(),
                whole == parse_candidates(rest_of(b@, p4 as int), k as nat),
                whole is None ==> parse_poll_prefix(rest_of(b@, start as int)) is None,
                whole == candidates_after(
                    candidates@.map_values(|c: Candidate| c@),
                    pos - p4,
                    parse_candidates(rest_of(b@, pos as int), (k - i) as nat),
                ),
            decreases k - i,
        {
            let ghost got = candidates@.map_values(|c: Candidate| c@);
            let (c, q) = match Candidate::read_from(b, pos) {
                Some(x) => x,
                None => {
                    assert(parse_candidates(rest_of(b@, pos as int), (k - i) as nat) is None);
                    assert(whole is None);
                    return None;
                },
            };
            assert(rest_of(b@, pos as int).skip(q - pos) =~= rest_of(b@, q as int));
            candidates.push(c);
            assert(candidates@.map_values(|c: Candidate| c@) =~= got.push(c@));
            assert forall|cs: Seq<CandidateView>| got + (seq![c@] + cs) =~= got.push(c@) + cs by {}
            pos = q;
            i = i + 1;
        }
        assert(candidates@.map_values(|c: Candidate| c@) + Seq::<CandidateView>::empty()
            =~= candidates@.map_values(|c: Candidate| c@));
        let poll = Poll { name, description, closes_at, candidates };
        assert(poll@.candidates == candidates@.map_values(|c: Candidate| c@));
        Some((poll, pos))
    }

    /// Voting is permitted up to and including `closes_at`.
    pub fn is_open(&self, now: u64) -> (r: bool)
        ensures
            r == self@.is_open(now),
    {
        now <= self.closes_at
    }

    pub fn is_empty(&self) -> (r: bool)
        ensures
            r == self@.is_empty(),
    {
        self.name.as_str().is_empty() && self.description.as_str().is_empty() && self.closes_at == 0
            && self.candidates.len() == 0
    }

    pub fn name(&self) -> (r: &String)
        ensures
            r@ == self@.name,
    {
        &self.name
    }

    pub fn description(&self) -> (r: &String)
        ensures
            r@ == self@.description,
    {
        &self.description
    }

    pub fn closes_at(&self) -> (r: u64)
        ensures
            r == self@.closes_at,
    {
        self.closes_at
    }

    pub fn candidates(&self) -> (r: &Vec<Candidate>)
        ensures
            r@.map_values(|c: Candidate| c@) == self@.candidates,
    {
        &self.candidates
    }

    /// Replaces the closing time; nothing else changes.
    pub fn edit(&mut self, closes_at: u64)
        ensures
            final(self)@ == old(self)@.with_closes_at(closes_at),
    {
        self.closes_at = closes_at;
    }
}

} // verus!
