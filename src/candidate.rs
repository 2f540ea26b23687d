use vstd::prelude::*;

use crate::codec::{
    byte_len, lemma_str_canonical, lemma_str_round_trip, lemma_u64_canonical, lemma_u64_round_trip,
    parse_str, parse_u64, read_str, read_u64, rest_of, str_bytes, string_byte_len, u64_bytes,
    write_str, write_u64,
};
use crate::error::Error;

verus! {

pub const CANDIDATE_NAME_MAX_LEN: usize = 32;

/// What a candidate is: its name and its tally.
pub struct CandidateView {
    pub name: Seq<char>,
    pub votes_count: u64,
}

/// A name a candidate may carry: non-empty and at most
/// `CANDIDATE_NAME_MAX_LEN` bytes.
pub open spec fn valid_candidate_name(name: Seq<char>) -> bool {
    name.len() > 0 && byte_len(name) <= CANDIDATE_NAME_MAX_LEN
}

/// One selectable option within a poll.
#[derive(Debug)]
pub struct Candidate {
    pub name: String,
    votes_count: u64,
}

impl View for Candidate {
    type V = CandidateView;

    closed spec fn view(&self) -> CandidateView {
        CandidateView { name: self.name@, votes_count: self.votes_count }
    }
}

/// A candidate as stored: its name, then its tally.
pub open spec fn candidate_bytes(c: CandidateView) -> Seq<u8> {
    str_bytes(c.name) + u64_bytes(c.votes_count)
}

/// A candidate that its slot in a poll record can hold.
pub open spec fn candidate_fits(c: CandidateView) -> bool {
    byte_len(c.name) <= CANDIDATE_NAME_MAX_LEN
}

pub open spec fn parse_candidate(b: Seq<u8>) -> Option<(CandidateView, int)> {
    match parse_str(b) {
        Some((name, n)) => if byte_len(name) > CANDIDATE_NAME_MAX_LEN {
            None
        } else {
            match parse_u64(b.skip(n)) {
                Some((votes_count, m)) => Some((CandidateView { name, votes_count }, n + m)),
                None => None,
            }
        },
        None => None,
    }
}

pub proof fn lemma_candidate_round_trip(c: CandidateView, rest: Seq<u8>)
    requires
        candidate_fits(c),
    ensures
        parse_candidate(candidate_bytes(c) + rest) == Some((c, candidate_bytes(c).len() as int)),
{
    let b = candidate_bytes(c) + rest;
    lemma_str_round_trip(c.name, u64_bytes(c.votes_count) + rest);
    assert(b =~= str_bytes(c.name) + (u64_bytes(c.votes_count) + rest));
    let n = 4 + byte_len(c.name) as int;
    assert(b.skip(n) =~= u64_bytes(c.votes_count) + rest);
    lemma_u64_round_trip(c.votes_count, rest);
}

pub proof fn lemma_candidate_canonical(b: Seq<u8>)
    requires
        parse_candidate(b) is Some,
    ensures
        ({
            let (c, n) = parse_candidate(b)->Some_0;
            &&& candidate_fits(c)
            &&& n == candidate_bytes(c).len()
            &&& n <= b.len()
            &&& b.take(n) == candidate_bytes(c)
        }),
{
    let (c, n) = parse_candidate(b)->Some_0;
    lemma_str_canonical(b);
    let k = 4 + byte_len(c.name) as int;
    lemma_u64_canonical(b.skip(k));
    assert(b.take(n) =~= b.take(k) + b.skip(k).take(8));
}

impl Candidate {
    pub(crate) fn write_to(&self, out: &mut Vec<u8>)
        requires
            candidate_fits(self@),
        ensures
            final(out)@ == old(out)@ + candidate_bytes(self@),
    {
        write_str(out, &self.name);
        write_u64(out, self.votes_count);
        assert(out@ =~= old(out)@ + candidate_bytes(self@));
    }

    pub(crate) fn read_from(b: &[u8], pos: usize) -> (r: Option<(Candidate, usize)>)
        requires
            pos <= b@.len(),
        ensures
            match r {
                Some((c, p)) => pos <= p <= b@.len() && parse_candidate(rest_of(b@, pos as int))
                    == Some((c@, p - pos)),
                None => parse_candidate(rest_of(b@, pos as int)) is None,
            },
    {
        let ghost rest = rest_of(b@, pos as int);
        let (name, p) = match read_str(b, pos) {
            Some(x) => x,
            None => return None,
        };
        if string_byte_len(&name) > CANDIDATE_NAME_MAX_LEN {
            return None;
        }
        assert(rest.skip(p - pos) =~= rest_of(b@, p as int));
        let (votes_count, q) = match read_u64(b, p) {
            Some(x) => x,
            None => return None,
        };
        Some((Candidate { name, votes_count }, q))
    }


    /// A candidate with no votes yet; refuses an empty or over-long name.
    pub fn new(name: String) -> (r: Result<Candidate, Error>)
        ensures
            match r {
                Ok(c) => valid_candidate_name(name@) && c@ == (CandidateView {
                    name: name@,
                    votes_count: 0,
                }),
                Err(e) => !valid_candidate_name(name@) && e == Error::InvalidCandidateName,
            },
    {
        if string_byte_len(&name) > CANDIDATE_NAME_MAX_LEN || name.as_str().is_empty() {
            return Err(Error::InvalidCandidateName);
        }
        Ok(Candidate { name, votes_count: 0 })
    }

    /// Counts one more vote.
    pub fn vote(&mut self)
        requires
            old(self)@.votes_count < u64::MAX,
        ensures
            final(self)@ == (CandidateView {
                name: old(self)@.name,
                votes_count: (old(self)@.votes_count + 1) as u64,
            }),
    {
        self.votes_count = self.votes_count + 1;
    }

    pub fn votes_count(&self) -> (r: u64)
        ensures
            r == self@.votes_count,
    {
        self.votes_count
    }

    pub fn name(&self) -> (r: &String)
        ensures
            r@ == self@.name,
    {
        &self.name
    }
}

} // verus!
