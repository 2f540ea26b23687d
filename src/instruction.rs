use vstd::prelude::*;

use crate::codec::{
    lemma_concat5, lemma_split, lemma_take_concat, lemma_str_canonical, lemma_str_round_trip,
    lemma_u32_canonical, lemma_u32_round_trip, lemma_u64_canonical, lemma_u64_round_trip,
    parse_str, parse_u32, parse_u64, read_str, read_u32, read_u64, rest_of, storable, str_bytes,
    u32_bytes, u64_bytes, write_str, write_u32, write_u64,
};
use crate::error::Error;
use crate::poll::strings_view;

verus! {

/// A request for one state transition.
#[derive(Debug)]
pub enum Instruction {
    CreatePoll { name: String, description: String, closes_at: u64, candidates: Vec<String> },
    EditPoll { name: String, closes_at: u64 },
    Vote { name: String, candidate: String },
}

pub enum InstructionView {
    CreatePoll {
        name: Seq<char>,
        description: Seq<char>,
        closes_at: u64,
        candidates: Seq<Seq<char>>,
    },
    EditPoll { name: Seq<char>, closes_at: u64 },
    Vote { name: Seq<char>, candidate: Seq<char> },
}

impl View for Instruction {
    type V = InstructionView;

    open spec fn view(&self) -> InstructionView {
        match self {
            Instruction::CreatePoll { name, description, closes_at, candidates } => {
                InstructionView::CreatePoll {
                    name: name@,
                    description: description@,
                    closes_at: *closes_at,
                    candidates: strings_view(candidates@),
                }
            },
            Instruction::EditPoll { name, closes_at } => InstructionView::EditPoll {
                name: name@,
                closes_at: *closes_at,
            },
            Instruction::Vote { name, candidate } => InstructionView::Vote {
                name: name@,
                candidate: candidate@,
            },
        }
    }
}

pub open spec fn all_storable(ns: Seq<Seq<char>>) -> bool {
    forall|i: int| 0 <= i < ns.len() ==> storable(#[trigger] ns[i])
}

impl InstructionView {
    /// An instruction whose lengths the wire format can state.
    pub open spec fn storable(self) -> bool {
        match self {
            InstructionView::CreatePoll { name, description, closes_at, candidates } => {
                &&& storable(name)
                &&& storable(description)
                &&& candidates.len() <= u32::MAX
                &&& all_storable(candidates)
            },
            InstructionView::EditPoll { name, closes_at } => storable(name),
            InstructionView::Vote { name, candidate } => storable(name) && storable(candidate),
        }
    }
}

/// Strings stored one after another.
pub open spec fn names_bytes(ns: Seq<Seq<char>>) -> Seq<u8>
    decreases ns.len(),
{
    if ns.len() == 0 {
        Seq::empty()
    } else {
        str_bytes(ns[0]) + names_bytes(ns.drop_first())
    }
}

/// An instruction on the wire: a one-byte tag (0 create, 1 edit, 2 vote),
/// then the variant's fields in order; the candidate names follow their
/// count in four bytes.
pub open spec fn instruction_bytes(v: InstructionView) -> Seq<u8> {
    match v {
        InstructionView::CreatePoll { name, description, closes_at, candidates } => seq![0u8]
            + create_bytes(name, description, closes_at, candidates),
        InstructionView::EditPoll { name, closes_at } => seq![1u8] + (str_bytes(name) + u64_bytes(
            closes_at,
        )),
        InstructionView::Vote { name, candidate } => seq![2u8] + (str_bytes(name) + str_bytes(
            candidate,
        )),
    }
}

pub open spec fn create_bytes(
    name: Seq<char>,
    description: Seq<char>,
    closes_at: u64,
    candidates: Seq<Seq<char>>,
) -> Seq<u8> {
    str_bytes(name) + str_bytes(description) + u64_bytes(closes_at) + u32_bytes(
        candidates.len() as u32,
    ) + names_bytes(candidates)
}

pub open spec fn after_names(
    read: Seq<Seq<char>>,
    offset: int,
    rest: Option<(Seq<Seq<char>>, int)>,
) -> Option<(Seq<Seq<char>>, int)> {
    match rest {
        Some((ns, m)) => Some((read + ns, offset + m)),
        None => None,
    }
}

pub open spec fn parse_names(b: Seq<u8>, k: nat) -> Option<(Seq<Seq<char>>, int)>
    decreases k,
{
    if k == 0 {
        Some((Seq::empty(), 0))
    } else {
        match parse_str(b) {
            Some((s, n)) => match parse_names(b.skip(n), (k - 1) as nat) {
                Some((ns, m)) => Some((seq![s] + ns, n + m)),
                None => None,
            },
            None => None,
        }
    }
}

pub open spec fn parse_create(b: Seq<u8>) -> Option<InstructionView> {
    match parse_str(b) {
        Some((name, n1)) => {
            let b2 = b.skip(n1);
            match parse_str(b2) {
                Some((description, n2)) => {
                    let b3 = b2.skip(n2);
                    match parse_u64(b3) {
                        Some((closes_at, n3)) => {
                            let b4 = b3.skip(n3);
                            match parse_u32(b4) {
                                Some((k, n4)) => {
                                    let b5 = b4.skip(n4);
                                    match parse_names(b5, k as nat) {
                                        Some((candidates, n5)) => if n5 != b5.len() {
                                            None
                                        } else {
                                            Some(
                                                InstructionView::CreatePoll {
                                                    name,
                                                    description,
                                                    closes_at,
                                                    candidates,
                                                },
                                            )
                                        },
                                        None => None,
                                    }
                                },
                                None => None,
                            }
                        },
                        None => None,
                    }
                },
                None => None,
            }
        },
        None => None,
    }
}

pub open spec fn parse_edit(b: Seq<u8>) -> Option<InstructionView> {
    match parse_str(b) {
        Some((name, n1)) => {
            let b2 = b.skip(n1);
            match parse_u64(b2) {
                Some((closes_at, n2)) => if n2 != b2.len() {
                    None
                } else {
                    Some(InstructionView::EditPoll { name, closes_at })
                },
                None => None,
            }
        },
        None => None,
    }
}

pub open spec fn parse_vote(b: Seq<u8>) -> Option<InstructionView> {
    match parse_str(b) {
        Some((name, n1)) => {
            let b2 = b.skip(n1);
            match parse_str(b2) {
                Some((candidate, n2)) => if n2 != b2.len() {
                    None
                } else {
                    Some(InstructionView::Vote { name, candidate })
                },
                None => None,
            }
        },
        None => None,
    }
}

pub open spec fn parse_instruction(b: Seq<u8>) -> Option<InstructionView> {
    if b.len() == 0 {
        None
    } else if b[0] == 0 {
        parse_create(b.skip(1))
    } else if b[0] == 1 {
        parse_edit(b.skip(1))
    } else if b[0] == 2 {
        parse_vote(b.skip(1))
    } else {
        None
    }
}

proof fn lemma_names_round_trip(ns: Seq<Seq<char>>, rest: Seq<u8>)
    requires
        all_storable(ns),
    ensures
        parse_names(names_bytes(ns) + rest, ns.len()) == Some((ns, names_bytes(ns).len() as int)),
    decreases ns.len(),
{
    if ns.len() > 0 {
        let tail = ns.drop_first();
        assert forall|i: int| 0 <= i < tail.len() implies storable(#[trigger] tail[i]) by {
            assert(tail[i] == ns[i + 1]);
        }
        lemma_names_round_trip(tail, rest);
        let b = names_bytes(ns) + rest;
        lemma_str_round_trip(ns[0], names_bytes(tail) + rest);
        assert(b =~= str_bytes(ns[0]) + (names_bytes(tail) + rest));
        assert(b.skip(str_bytes(ns[0]).len() as int) =~= names_bytes(tail) + rest);
        assert(seq![ns[0]] + tail =~= ns);
    } else {
        assert(ns =~= Seq::<Seq<char>>::empty());
    }
}

proof fn lemma_names_canonical(b: Seq<u8>, k: nat)
    requires
        parse_names(b, k) is Some,
    ensures
        ({
            let (ns, n) = parse_names(b, k)->Some_0;
            &&& 0 <= n
            &&& ns.len() == k
            &&& all_storable(ns)
            &&& n <= b.len()
            &&& b.take(n) == names_bytes(ns)
        }),
    decreases k,
{
    let (ns, n) = parse_names(b, k)->Some_0;
    if k == 0 {
        assert(b.take(0) =~= Seq::<u8>::empty());
    } else {
        let (s, n1) = parse_str(b)->Some_0;
        lemma_str_canonical(b);
        lemma_names_canonical(b.skip(n1), (k - 1) as nat);
        let (tail, n2) = parse_names(b.skip(n1), (k - 1) as nat)->Some_0;
        assert(ns.drop_first() =~= tail);
        assert(ns[0] == s);
        assert forall|i: int| 0 <= i < ns.len() implies storable(#[trigger] ns[i]) by {
            if i > 0 {
                assert(ns[i] == tail[i - 1]);
            }
        }
        lemma_take_concat(b, n1, n2);
    }
}

proof fn lemma_parse_create_round_trip(
    name: Seq<char>,
    description: Seq<char>,
    closes_at: u64,
    candidates: Seq<Seq<char>>,
)
    requires
        (InstructionView::CreatePoll { name, description, closes_at, candidates }).storable(),
    ensures
        parse_create(create_bytes(name, description, closes_at, candidates)) == Some(
            InstructionView::CreatePoll { name, description, closes_at, candidates },
        ),
{
    let nb = names_bytes(candidates);
    let k = candidates.len() as u32;
    let r4 = u32_bytes(k) + nb;
    let r3 = u64_bytes(closes_at) + r4;
    let r2 = str_bytes(description) + r3;
    let r1 = str_bytes(name) + r2;
    lemma_concat5(str_bytes(name), str_bytes(description), u64_bytes(closes_at), u32_bytes(k), nb);
    assert(r1 == create_bytes(name, description, closes_at, candidates));
    lemma_str_round_trip(name, r2);
    assert(r1.skip(4 + crate::codec::byte_len(name) as int) =~= r2);
    lemma_str_round_trip(description, r3);
    assert(r2.skip(4 + crate::codec::byte_len(description) as int) =~= r3);
    lemma_u64_round_trip(closes_at, r4);
    assert(r3.skip(8) =~= r4);
    lemma_u32_round_trip(k, nb);
    assert(r4.skip(4) =~= nb);
    lemma_names_round_trip(candidates, Seq::empty());
    assert(nb + Seq::<u8>::empty() =~= nb);
}

pub proof fn lemma_parse_instruction_round_trip(v: InstructionView)
    requires
        v.storable(),
    ensures
        parse_instruction(instruction_bytes(v)) == Some(v),
{
    let b = instruction_bytes(v);
    match v {
        InstructionView::CreatePoll { name, description, closes_at, candidates } => {
            let r1 = create_bytes(name, description, closes_at, candidates);
            assert(b.skip(1) =~= r1);
            lemma_parse_create_round_trip(name, description, closes_at, candidates);
        },
        InstructionView::EditPoll { name, closes_at } => {
            let r2 = u64_bytes(closes_at);
            let r1 = str_bytes(name) + r2;
            assert(b.skip(1) =~= r1);
            lemma_str_round_trip(name, r2);
            assert(r1.skip(4 + crate::codec::byte_len(name) as int) =~= r2);
            lemma_u64_round_trip(closes_at, Seq::empty());
            assert(r2 + Seq::<u8>::empty() =~= r2);
        },
        InstructionView::Vote { name, candidate } => {
            let r2 = str_bytes(candidate);
            let r1 = str_bytes(name) + r2;
            assert(b.skip(1) =~= r1);
            lemma_str_round_trip(name, r2);
            assert(r1.skip(4 + crate::codec::byte_len(name) as int) =~= r2);
            lemma_str_round_trip(candidate, Seq::empty());
            assert(r2 + Seq::<u8>::empty() =~= r2);
        },
    }
}

proof fn lemma_parse_create_canonical(r1: Seq<u8>)
    requires
        parse_create(r1) is Some,
    ensures
        parse_create(r1)->Some_0.storable(),
        instruction_bytes(parse_create(r1)->Some_0) == seq![0u8] + r1,
{
    let v = parse_create(r1)->Some_0;
    let (name, n1) = parse_str(r1)->Some_0;
    let r2 = r1.skip(n1);
    let (description, n2) = parse_str(r2)->Some_0;
    let r3 = r2.skip(n2);
    let (closes_at, n3) = parse_u64(r3)->Some_0;
    let r4 = r3.skip(n3);
    let (k, n4) = parse_u32(r4)->Some_0;
    let r5 = r4.skip(n4);
    let (candidates, n5) = parse_names(r5, k as nat)->Some_0;
    assert(v == InstructionView::CreatePoll { name, description, closes_at, candidates });
    lemma_str_canonical(r1);
    lemma_split(r1, n1);
    lemma_str_canonical(r2);
    lemma_split(r2, n2);
    lemma_u64_canonical(r3);
    lemma_split(r3, 8);
    lemma_u32_canonical(r4);
    lemma_split(r4, 4);
    lemma_names_canonical(r5, k as nat);
    assert(r5.take(n5) =~= r5);
    let nb = names_bytes(candidates);
    lemma_concat5(str_bytes(name), str_bytes(description), u64_bytes(closes_at), u32_bytes(k), nb);
}

pub proof fn lemma_parse_instruction_canonical(b: Seq<u8>)
    requires
        parse_instruction(b) is Some,
    ensures
        parse_instruction(b)->Some_0.storable(),
        instruction_bytes(parse_instruction(b)->Some_0) == b,
{
    let v = parse_instruction(b)->Some_0;
    let r1 = b.skip(1);
    lemma_split(b, 1);
    assert(b.take(1) =~= seq![b[0]]);
    if b[0] == 0 {
        lemma_parse_create_canonical(r1);
    } else {
        let (name, n1) = parse_str(r1)->Some_0;
        lemma_str_canonical(r1);
        lemma_split(r1, n1);
        let r2 = r1.skip(n1);
        if b[0] == 1 {
            lemma_u64_canonical(r2);
            assert(r2.take(8) =~= r2);
        } else {
            let (candidate, n2) = parse_str(r2)->Some_0;
            lemma_str_canonical(r2);
            assert(r2.take(n2) =~= r2);
        }
    }
}

/// Decoding inverts encoding: the only instruction whose bytes equal those of
/// an instruction `v` is `v` itself, so decoding `v`'s bytes gives `v`.
pub proof fn lemma_instruction_round_trip(v: InstructionView, decoded: InstructionView)
    requires
        v.storable(),
        decoded.storable(),
        instruction_bytes(decoded) == instruction_bytes(v),
    ensures
        decoded == v,
{
    lemma_parse_instruction_round_trip(v);
    lemma_parse_instruction_round_trip(decoded);
}

fn write_names(out: &mut Vec<u8>, names: &Vec<String>)
    requires
        all_storable(strings_view(names@)),
    ensures
        final(out)@ == old(out)@ + names_bytes(strings_view(names@)),
{
    let ghost ns = strings_view(names@);
    let ghost head = old(out)@;
    assert(ns.skip(0) =~= ns);
    assert(head =~= out@);
    let mut i: usize = 0;
    while i < names.len()
        invariant
            i <= names.len(),
            ns == strings_view(names@),
            ns.len() == names.len(),
            all_storable(ns),
            head + names_bytes(ns) == out@ + names_bytes(ns.skip(i as int)),
        decreases names.len() - i,
    {
        assert(ns[i as int] == names@[i as int]@);
        assert(storable(ns[i as int]));
        let ghost before = out@;
        write_str(out, &names[i]);
        assert(ns.skip(i as int).drop_first() =~= ns.skip(i + 1));
        assert(before + names_bytes(ns.skip(i as int)) =~= before + str_bytes(ns[i as int])
            + names_bytes(ns.skip(i + 1)));
        i = i + 1;
    }
    assert(ns.skip(i as int) =~= Seq::<Seq<char>>::empty());
    assert(out@ + Seq::<u8>::empty() =~= out@);
}

fn read_names(b: &[u8], pos: usize, k: u32) -> (r: Option<(Vec<String>, usize)>)
    requires
        pos <= b@.len(),
    ensures
        match r {
            Some((ns, p)) => pos <= p <= b@.len() && parse_names(rest_of(b@, pos as int), k as nat)
                == Some((strings_view(ns@), p - pos)),
            None => parse_names(rest_of(b@, pos as int), k as nat) is None,
        },
{
    let ghost whole = parse_names(rest_of(b@, pos as int), k as nat);
    let mut names: Vec<String> = Vec::new();
    let mut at = pos;
    let mut i: u32 = 0;
    assert(strings_view(names@) + Seq::<Seq<char>>::empty() =~= strings_view(names@));
    while i < k
        invariant
            i <= k,
            pos <= at <= b@.len(),
            whole == parse_names(rest_of(b@, pos as int), k as nat),
            whole == after_names(
                strings_view(names@),
                at - pos,
                parse_names(rest_of(b@, at as int), (k - i) as nat),
            ),
        decreases k - i,
    {
        let ghost got = strings_view(names@);
        let (s, q) = match read_str(b, at) {
            Some(x) => x,
            None => {
                assert(parse_names(rest_of(b@, at as int), (k - i) as nat) is None);
                return None;
            },
        };
        assert(rest_of(b@, at as int).skip(q - at) =~= rest_of(b@, q as int));
        names.push(s);
        assert(strings_view(names@) =~= got.push(s@));
        assert forall|ns: Seq<Seq<char>>| got + (seq![s@] + ns) =~= got.push(s@) + ns by {}
        at = q;
        i = i + 1;
    }
    assert(strings_view(names@) + Seq::<Seq<char>>::empty() =~= strings_view(names@));
    Some((names, at))
}

impl Instruction {
    /// The instruction's bytes on the wire.
    pub fn encode(&self) -> (r: Vec<u8>)
        requires
            self@.storable(),
        ensures
            r@ == instruction_bytes(self@),
    {
        let mut out: Vec<u8> = Vec::new();
        match self {
            Instruction::CreatePoll { name, description, closes_at, candidates } => {
                out.push(0u8);
                write_str(&mut out, name);
                write_str(&mut out, description);
                write_u64(&mut out, *closes_at);
                write_u32(&mut out, candidates.len() as u32);
                write_names(&mut out, candidates);
                assert(out@ =~= seq![0u8] + create_bytes(
                    name@,
                    description@,
                    *closes_at,
                    strings_view(candidates@),
                ));
            },
            Instruction::EditPoll { name, closes_at } => {
                out.push(1u8);
                write_str(&mut out, name);
                write_u64(&mut out, *closes_at);
                assert(out@ =~= seq![1u8] + (str_bytes(name@) + u64_bytes(*closes_at)));
            },
            Instruction::Vote { name, candidate } => {
                out.push(2u8);
                write_str(&mut out, name);
                write_str(&mut out, candidate);
                assert(out@ =~= seq![2u8] + (str_bytes(name@) + str_bytes(candidate@)));
            },
        }
        out
    }

    /// The instruction that `bytes` carry; `MalformedRecord` where they carry
    /// none.
    pub fn decode(bytes: &[u8]) -> (r: Result<Instruction, Error>)
        ensures
            match r {
                Ok(v) => v@.storable() && instruction_bytes(v@) == bytes@,
                Err(e) => e == Error::MalformedRecord && forall|v: InstructionView|
                    v.storable() ==> instruction_bytes(v) != bytes@,
            },
    {
        match Self::parse(bytes) {
            Some(v) => {
                proof {
                    lemma_parse_instruction_canonical(bytes@);
                }
                Ok(v)
            },
            None => {
                assert forall|v: InstructionView| v.storable() implies instruction_bytes(v)
                    != bytes@ by {
                    lemma_parse_instruction_round_trip(v);
                }
                Err(Error::MalformedRecord)
            },
        }
    }

    fn parse(b: &[u8]) -> (r: Option<Instruction>)
        ensures
            match r {
                Some(v) => parse_instruction(b@) == Some(v@),
                None => parse_instruction(b@) is None,
            },
    {
        if b.len() == 0 {
            return None;
        }
        let tag = b[0];
        if tag > 2 {
            return None;
        }
        assert(rest_of(b@, 1) =~= b@.skip(1));
        let (name, p1) = match read_str(b, 1) {
            Some(x) => x,
            None => return None,
        };
        assert(rest_of(b@, 1).skip(p1 - 1) =~= rest_of(b@, p1 as int));
        if tag == 0 {
            let (description, p2) = match read_str(b, p1) {
                Some(x) => x,
                None => return None,
            };
            assert(rest_of(b@, p1 as int).skip(p2 - p1) =~= rest_of(b@, p2 as int));
            let (closes_at, p3) = match read_u64(b, p2) {
                Some(x) => x,
                None => return None,
            };
            assert(rest_of(b@, p2 as int).skip(p3 - p2) =~= rest_of(b@, p3 as int));
            let (k, p4) = match read_u32(b, p3) {
                Some(x) => x,
                None => return None,
            };
            assert(rest_of(b@, p3 as int).skip(p4 - p3) =~= rest_of(b@, p4 as int));
            let (candidates, p5) = match read_names(b, p4, k) {
                Some(x) => x,
                None => return None,
            };
            if p5 != b.len() {
                return None;
            }
            Some(Instruction::CreatePoll { name, description, closes_at, candidates })
        } else if tag == 1 {
            let (closes_at, p2) = match read_u64(b, p1) {
                Some(x) => x,
                None => return None,
            };
            if p2 != b.len() {
                return None;
            }
            Some(Instruction::EditPoll { name, closes_at })
        } else {
            let (candidate, p2) = match read_str(b, p1) {
                Some(x) => x,
                None => return None,
            };
            if p2 != b.len() {
                return None;
            }
            Some(Instruction::Vote { name, candidate })
        }
    }
}

} // verus!
