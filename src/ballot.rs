use vstd::prelude::*;

use crate::codec::{
    byte_len, lemma_concat3, lemma_split, lemma_str_bytes_len, lemma_str_canonical,
    lemma_str_round_trip, lemma_take_concat, lemma_u32_canonical, lemma_u32_round_trip,
    lemma_u64_canonical, lemma_u64_round_trip, parse_str, parse_u32, parse_u64, read_str,
    read_u32, read_u64, rest_of, storable, str_bytes, string_byte_len, u32_bytes, u64_bytes,
    write_str, write_u32, write_u64,
};
use crate::poll::strings_view;

verus! {

/// What an option is: its name and its tally.
pub struct OptionView {
    pub name: Seq<char>,
    pub vote_count: u64,
}

/// What a titled poll is: its title and its options in order.
pub struct BallotView {
    pub title: Seq<char>,
    pub options: Seq<OptionView>,
}

/// One option of a titled poll.
#[derive(Debug)]
struct PollOption {
    name: String,
    vote_count: u64,
}

impl View for PollOption {
    type V = OptionView;

    closed spec fn view(&self) -> OptionView {
        OptionView { name: self.name@, vote_count: self.vote_count }
    }
}

/// A poll with a title whose options are chosen by position.
#[derive(Debug)]
pub struct Poll {
    title: String,
    options: Vec<PollOption>,
}

impl View for Poll {
    type V = BallotView;

    closed spec fn view(&self) -> BallotView {
        BallotView { title: self.title@, options: self.options@.map_values(|o: PollOption| o@) }
    }
}

/// A choice of the option at a position.
#[derive(Clone, Copy, Debug, PartialEq, Eq, Structural)]
pub struct Vote(pub u8);

impl From<u8> for Vote {
    fn from(n: u8) -> (r: Vote) {
        Vote(n)
    }
}

impl Vote {
    /// Reads a command-line choice: the option's position in decimal.
    pub fn parse(arg: &str) -> (r: Option<Vote>)
        ensures
            match u8_text(arg@) {
                Some(n) => r == Some(Vote(n)),
                None => r is None,
            },
    {
        let len = arg.unicode_len();
        let mut start: usize = 0;
        if len > 0 && arg.get_char(0) == '+' {
            start = 1;
        }
        let ghost d = unsigned_digits(arg@);
        assert(d =~= arg@.skip(start as int));
        if start == len {
            return None;
        }
        let mut value: u32 = 0;
        let mut i: usize = start;
        while i < len
            invariant
                start <= i <= len,
                len == arg@.len(),
                d == arg@.skip(start as int),
                d == unsigned_digits(arg@),
                forall|j: int| 0 <= j < i - start ==> is_digit(#[trigger] d[j]),
                value == digits_value(d.take(i - start)),
                value <= 255,
            decreases len - i,
        {
            let c = arg.get_char(i);
            if c < '0' || c > '9' {
                assert(!is_digit(d[i - start]));
                return None;
            }
            assert(d.take(i - start + 1).drop_last() =~= d.take(i - start));
            value = value * 10 + (c as u32 - '0' as u32);
            i = i + 1;
            if value > 255 {
                proof {
                    if forall|j: int| 0 <= j < d.len() ==> is_digit(#[trigger] d[j]) {
                        lemma_digits_grow(d, i - start);
                    }
                }
                return None;
            }
        }
        assert(d.take(i - start) =~= d);
        Some(Vote(value as u8))
    }
}

impl vstd::std_specs::convert::FromSpecImpl<u8> for Vote {
    open spec fn obeys_from_spec() -> bool {
        true
    }

    open spec fn from_spec(n: u8) -> Vote {
        Vote(n)
    }
}

/// Whether `c` is an ASCII decimal digit.
pub open spec fn is_digit(c: char) -> bool {
    '0' <= c <= '9'
}

/// The number that a string of decimal digits writes.
pub open spec fn digits_value(s: Seq<char>) -> nat
    decreases s.len(),
{
    if s.len() == 0 {
        0
    } else {
        (digits_value(s.drop_last()) * 10 + s.last() as int - '0' as int) as nat
    }
}

/// The digits of a number written with an optional leading `+`.
pub open spec fn unsigned_digits(s: Seq<char>) -> Seq<char> {
    if s.len() > 0 && s[0] == '+' {
        s.drop_first()
    } else {
        s
    }
}

/// The byte that `s` writes in decimal, as `u8`'s `FromStr` reads it: an
/// optional `+`, then one or more digits, for a value up to 255.
pub open spec fn u8_text(s: Seq<char>) -> Option<u8> {
    let d = unsigned_digits(s);
    if d.len() > 0 && (forall|i: int| 0 <= i < d.len() ==> is_digit(#[trigger] d[i]))
        && digits_value(d) <= 255 {
        Some(digits_value(d) as u8)
    } else {
        None
    }
}

proof fn lemma_digits_grow(d: Seq<char>, i: int)
    requires
        0 <= i <= d.len(),
        forall|j: int| 0 <= j < d.len() ==> is_digit(#[trigger] d[j]),
    ensures
        digits_value(d.take(i)) <= digits_value(d),
    decreases d.len() - i,
{
    if i < d.len() {
        lemma_digits_grow(d, i + 1);
        assert(d.take(i + 1).drop_last() =~= d.take(i));
        assert(is_digit(d[i]));
    } else {
        assert(d.take(i) =~= d);
    }
}

/// Fresh options: the given names, each at zero votes.
pub open spec fn fresh_options(names: Seq<Seq<char>>) -> Seq<OptionView> {
    names.map_values(|n: Seq<char>| OptionView { name: n, vote_count: 0 })
}

/// Options as stored one after another: name, then tally.
pub open spec fn options_bytes(os: Seq<OptionView>) -> Seq<u8>
    decreases os.len(),
{
    if os.len() == 0 {
        Seq::empty()
    } else {
        str_bytes(os[0].name) + u64_bytes(os[0].vote_count) + options_bytes(os.drop_first())
    }
}

/// A titled poll as stored: the title, the number of options in four bytes,
/// then the options.
pub open spec fn ballot_bytes(p: BallotView) -> Seq<u8> {
    str_bytes(p.title) + u32_bytes(p.options.len() as u32) + options_bytes(p.options)
}

/// The size of the stored form of options.
pub open spec fn options_size(os: Seq<OptionView>) -> nat
    decreases os.len(),
{
    if os.len() == 0 {
        0
    } else {
        4 + byte_len(os[0].name) + 8 + options_size(os.drop_first())
    }
}

/// The size of a titled poll's record: a four-byte count and the options,
/// then a four-byte length and the title.
pub open spec fn ballot_size(p: BallotView) -> nat {
    4 + options_size(p.options) + 4 + byte_len(p.title)
}

/// Lengths the record's four-byte prefixes can state.
pub open spec fn ballot_storable(p: BallotView) -> bool {
    &&& storable(p.title)
    &&& p.options.len() <= u32::MAX
    &&& forall|i: int| 0 <= i < p.options.len() ==> storable(#[trigger] p.options[i].name)
}

proof fn lemma_options_size(os: Seq<OptionView>)
    ensures
        options_bytes(os).len() == options_size(os),
    decreases os.len(),
{
    if os.len() > 0 {
        lemma_str_bytes_len(os[0].name);
        lemma_options_size(os.drop_first());
    }
}

/// A titled poll's size is the length of its record.
pub proof fn lemma_ballot_size(p: BallotView)
    ensures
        ballot_bytes(p).len() == ballot_size(p),
{
    lemma_str_bytes_len(p.title);
    lemma_options_size(p.options);
}

pub open spec fn parse_option(b: Seq<u8>) -> Option<(OptionView, int)> {
    match parse_str(b) {
        Some((name, n)) => match parse_u64(b.skip(n)) {
            Some((vote_count, m)) => Some((OptionView { name, vote_count }, n + m)),
            None => None,
        },
        None => None,
    }
}

pub open spec fn parse_options(b: Seq<u8>, k: nat) -> Option<(Seq<OptionView>, int)>
    decreases k,
{
    if k == 0 {
        Some((Seq::empty(), 0))
    } else {
        match parse_option(b) {
            Some((o, n)) => match parse_options(b.skip(n), (k - 1) as nat) {
                Some((os, m)) => Some((seq![o] + os, n + m)),
                None => None,
            },
            None => None,
        }
    }
}

/// Reads a titled poll from the front of `b`: the poll and the number of
/// bytes it took.
pub open spec fn parse_ballot_prefix(b: Seq<u8>) -> Option<(BallotView, int)> {
    match parse_str(b) {
        Some((title, n1)) => {
            let b2 = b.skip(n1);
            match parse_u32(b2) {
                Some((k, n2)) => {
                    let b3 = b2.skip(n2);
                    match parse_options(b3, k as nat) {
                        Some((options, n3)) => Some((BallotView { title, options }, n1 + n2 + n3)),
                        None => None,
                    }
                },
                None => None,
            }
        },
        None => None,
    }
}

pub open spec fn parse_ballot(b: Seq<u8>) -> Option<BallotView> {
    match parse_ballot_prefix(b) {
        Some((p, n)) => if n == b.len() {
            Some(p)
        } else {
            None
        },
        None => None,
    }
}

pub open spec fn options_after(
    read: Seq<OptionView>,
    offset: int,
    rest: Option<(Seq<OptionView>, int)>,
) -> Option<(Seq<OptionView>, int)> {
    match rest {
        Some((os, m)) => Some((read + os, offset + m)),
        None => None,
    }
}

proof fn lemma_options_round_trip(os: Seq<OptionView>, rest: Seq<u8>)
    requires
        forall|i: int| 0 <= i < os.len() ==> storable(#[trigger] os[i].name),
    ensures
        parse_options(options_bytes(os) + rest, os.len()) == Some(
            (os, options_bytes(os).len() as int),
        ),
    decreases os.len(),
{
    if os.len() > 0 {
        let tail = os.drop_first();
        assert forall|i: int| 0 <= i < tail.len() implies storable(#[trigger] tail[i].name) by {
            assert(tail[i] == os[i + 1]);
        }
        lemma_options_round_trip(tail, rest);
        let o = os[0];
        let after_name = u64_bytes(o.vote_count) + (options_bytes(tail) + rest);
        let b = options_bytes(os) + rest;
        assert(b =~= str_bytes(o.name) + after_name);
        lemma_str_round_trip(o.name, after_name);
        let n = 4 + byte_len(o.name) as int;
        assert(b.skip(n) =~= after_name);
        lemma_u64_round_trip(o.vote_count, options_bytes(tail) + rest);
        assert(b.skip(n + 8) =~= options_bytes(tail) + rest);
        assert(b.skip(n).skip(8) =~= b.skip(n + 8));
        assert(seq![o] + tail =~= os);
    } else {
        assert(os =~= Seq::<OptionView>::empty());
    }
}

proof fn lemma_options_canonical(b: Seq<u8>, k: nat)
    requires
        parse_options(b, k) is Some,
    ensures
        ({
            let (os, n) = parse_options(b, k)->Some_0;
            &&& 0 <= n <= b.len()
            &&& os.len() == k
            &&& forall|i: int| 0 <= i < os.len() ==> storable(#[trigger] os[i].name)
            &&& b.take(n) == options_bytes(os)
        }),
    decreases k,
{
    let (os, n) = parse_options(b, k)->Some_0;
    if k == 0 {
        assert(b.take(0) =~= Seq::<u8>::empty());
    } else {
        let (o, n1) = parse_option(b)->Some_0;
        let (name, m1) = parse_str(b)->Some_0;
        lemma_str_canonical(b);
        lemma_u64_canonical(b.skip(m1));
        lemma_take_concat(b, m1, 8);
        lemma_options_canonical(b.skip(n1), (k - 1) as nat);
        let (tail, n2) = parse_options(b.skip(n1), (k - 1) as nat)->Some_0;
        assert(os.drop_first() =~= tail);
        assert(os[0] == o);
        assert forall|i: int| 0 <= i < os.len() implies storable(#[trigger] os[i].name) by {
            if i > 0 {
                assert(os[i] == tail[i - 1]);
            }
        }
        lemma_take_concat(b, n1, n2);
        lemma_concat3(str_bytes(o.name), u64_bytes(o.vote_count), options_bytes(tail));
    }
}

proof fn lemma_parse_ballot_prefix_round_trip(p: BallotView, rest: Seq<u8>)
    requires
        ballot_storable(p),
    ensures
        parse_ballot_prefix(ballot_bytes(p) + rest) == Some((p, ballot_bytes(p).len() as int)),
{
    let ob = options_bytes(p.options);
    let k = p.options.len() as u32;
    let r2 = u32_bytes(k) + (ob + rest);
    let b = ballot_bytes(p) + rest;
    assert(b =~= str_bytes(p.title) + r2);
    lemma_str_round_trip(p.title, r2);
    assert(b.skip(4 + byte_len(p.title) as int) =~= r2);
    lemma_u32_round_trip(k, ob + rest);
    assert(r2.skip(4) =~= ob + rest);
    lemma_options_round_trip(p.options, rest);
}

proof fn lemma_parse_ballot_round_trip(p: BallotView)
    requires
        ballot_storable(p),
    ensures
        parse_ballot(ballot_bytes(p)) == Some(p),
{
    lemma_parse_ballot_prefix_round_trip(p, Seq::empty());
    assert(ballot_bytes(p) + Seq::<u8>::empty() =~= ballot_bytes(p));
}

proof fn lemma_parse_ballot_prefix_canonical(b: Seq<u8>)
    requires
        parse_ballot_prefix(b) is Some,
    ensures
        ({
            let (p, n) = parse_ballot_prefix(b)->Some_0;
            &&& ballot_storable(p)
            &&& 0 <= n <= b.len()
            &&& b.take(n) == ballot_bytes(p)
        }),
{
    let (p, n) = parse_ballot_prefix(b)->Some_0;
    let (title, n1) = parse_str(b)->Some_0;
    let b2 = b.skip(n1);
    let (k, n2) = parse_u32(b2)->Some_0;
    let b3 = b2.skip(n2);
    let (options, n3) = parse_options(b3, k as nat)->Some_0;
    assert(p == BallotView { title, options });
    lemma_str_canonical(b);
    lemma_split(b, n1);
    lemma_u32_canonical(b2);
    lemma_split(b2, 4);
    lemma_options_canonical(b3, k as nat);
    let a = str_bytes(title);
    let c = u32_bytes(k);
    assert(b =~= a + (c + b3));
    assert(b.take(n) =~= a + c + b3.take(n3));
}

proof fn lemma_parse_ballot_canonical(b: Seq<u8>)
    requires
        parse_ballot(b) is Some,
    ensures
        ballot_storable(parse_ballot(b)->Some_0),
        ballot_bytes(parse_ballot(b)->Some_0) == b,
{
    lemma_parse_ballot_prefix_canonical(b);
    assert(b.take(b.len() as int) =~= b);
}

/// Decoding inverts encoding: the only titled poll whose bytes equal those of
/// `p` is `p` itself.
pub proof fn lemma_ballot_round_trip(p: BallotView, decoded: BallotView)
    requires
        ballot_storable(p),
        ballot_storable(decoded),
        ballot_bytes(decoded) == ballot_bytes(p),
    ensures
        decoded == p,
{
    lemma_parse_ballot_round_trip(p);
    lemma_parse_ballot_round_trip(decoded);
}

/// The poll after a vote for the option at `index`; a vote for a position
/// past the last option changes nothing.
pub open spec fn after_ballot_vote(p: BallotView, index: u8) -> BallotView {
    if index < p.options.len() {
        BallotView {
            title: p.title,
            options: p.options.update(
                index as int,
                OptionView {
                    name: p.options[index as int].name,
                    vote_count: (p.options[index as int].vote_count + 1) as u64,
                },
            ),
        }
    } else {
        p
    }
}

impl Poll {
    /// An untitled poll with no options.
    pub fn new() -> (r: Poll)
        ensures
            r@ == (BallotView { title: Seq::empty(), options: Seq::empty() }),
    {
        let r = Poll { title: String::new(), options: Vec::new() };
        assert(r@.options =~= Seq::<OptionView>::empty());
        r
    }

    pub fn with_title(self, title: String) -> (r: Poll)
        ensures
            r@ == (BallotView { title: title@, options: self@.options }),
    {
        Poll { title, options: self.options }
    }

    /// Replaces the options by the given names, each at zero votes.
    pub fn with_options(self, options: Vec<String>) -> (r: Poll)
        ensures
            r@ == (BallotView { title: self@.title, options: fresh_options(strings_view(options@)) }),
    {
        let ghost names = strings_view(options@);
        let mut made: Vec<PollOption> = Vec::new();
        let mut i: usize = 0;
        while i < options.len()
            invariant
                i <= options.len(),
                names == strings_view(options@),
                made@.map_values(|o: PollOption| o@) == fresh_options(names.take(i as int)),
            decreases options.len() - i,
        {
            let ghost before = made@.map_values(|o: PollOption| o@);
            let o = PollOption { name: options[i].clone(), vote_count: 0 };
            assert(o@ == (OptionView { name: names[i as int], vote_count: 0 }));
            made.push(o);
            assert(made@.map_values(|o: PollOption| o@) =~= before.push(o@));
            assert(names.take(i + 1) =~= names.take(i as int).push(names[i as int]));
            i = i + 1;
            assert(made@.map_values(|o: PollOption| o@) =~= fresh_options(names.take(i as int)));
        }
        assert(names.take(i as int) =~= names);
        Poll { title: self.title, options: made }
    }

    /// The length of the poll's record, which its account is allocated with.
    pub fn size(&self) -> (r: u64)
        requires
            ballot_size(self@) <= u64::MAX,
        ensures
            r == ballot_size(self@),
            r == ballot_bytes(self@).len(),
    {
        let ghost os = self@.options;
        assert(os.skip(0) =~= os);
        let mut total: u64 = 4;
        let mut i: usize = 0;
        while i < self.options.len()
            invariant
                i <= self.options.len(),
                os == self@.options,
                os.len() == self.options.len(),
                4 + options_size(os) + 4 + byte_len(self@.title) <= u64::MAX,
                total + options_size(os.skip(i as int)) == 4 + options_size(os),
            decreases self.options.len() - i,
        {
            assert(os[i as int] == self.options@[i as int]@);
            assert(os.skip(i as int).drop_first() =~= os.skip(i + 1));
            total = total + 4 + string_byte_len(&self.options[i].name) as u64 + 8;
            i = i + 1;
        }
        assert(os.skip(i as int) =~= Seq::<OptionView>::empty());
        proof {
            lemma_ballot_size(self@);
        }
        total + 4 + string_byte_len(&self.title) as u64
    }

    /// Counts a vote for the option at the chosen position, if there is one.
    pub fn vote(&mut self, vote: Vote)
        requires
            vote.0 < old(self)@.options.len() ==> old(self)@.options[vote.0 as int].vote_count
                < u64::MAX,
        ensures
            final(self)@ == after_ballot_vote(old(self)@, vote.0),
    {
        let index = vote.0 as usize;
        if index < self.options.len() {
            assert(self.options@[index as int]@ == self@.options[index as int]);
            self.options[index].vote_count = self.options[index].vote_count + 1;
            assert(self@.options =~= after_ballot_vote(old(self)@, vote.0).options);
        }
    }

    /// The poll's record.
    pub fn encode(&self) -> (r: Vec<u8>)
        requires
            ballot_storable(self@),
        ensures
            r@ == ballot_bytes(self@),
    {
        let mut out: Vec<u8> = Vec::new();
        self.write_to(&mut out);
        assert(out@ =~= ballot_bytes(self@));
        out
    }

    fn write_to(&self, out: &mut Vec<u8>)
        requires
            ballot_storable(self@),
        ensures
            final(out)@ == old(out)@ + ballot_bytes(self@),
    {
        write_str(out, &self.title);
        write_u32(out, self.options.len() as u32);
        let ghost head = out@;
        let ghost os = self@.options;
        assert(os.skip(0) =~= os);
        let mut i: usize = 0;
        while i < self.options.len()
            invariant
                i <= self.options.len(),
                os == self@.options,
                os.len() == self.options.len(),
                ballot_storable(self@),
                head + options_bytes(os) == out@ + options_bytes(os.skip(i as int)),
            decreases self.options.len() - i,
        {
            assert(os[i as int] == self.options@[i as int]@);
            assert(storable(os[i as int].name));
            let ghost before = out@;
            write_str(out, &self.options[i].name);
            write_u64(out, self.options[i].vote_count);
            assert(os.skip(i as int).drop_first() =~= os.skip(i + 1));
            assert(before + options_bytes(os.skip(i as int)) =~= before + str_bytes(
                os[i as int].name,
            ) + u64_bytes(os[i as int].vote_count) + options_bytes(os.skip(i + 1)));
            i = i + 1;
        }
        assert(os.skip(i as int) =~= Seq::<OptionView>::empty());
        assert(out@ =~= old(out)@ + ballot_bytes(self@));
    }

    /// The poll held by a record; `None` where the bytes are no poll's record.
    pub fn decode(bytes: &[u8]) -> (r: Option<Poll>)
        ensures
            match r {
                Some(p) => ballot_storable(p@) && ballot_bytes(p@) == bytes@,
                None => forall|v: BallotView| ballot_storable(v) ==> ballot_bytes(v) != bytes@,
            },
    {
        match Self::parse(bytes) {
            Some(p) => {
                proof {
                    lemma_parse_ballot_canonical(bytes@);
                }
                Some(p)
            },
            None => {
                assert forall|v: BallotView| ballot_storable(v) implies ballot_bytes(v) != bytes@ by {
                    lemma_parse_ballot_round_trip(v);
                }
                None
            },
        }
    }

    fn parse(b: &[u8]) -> (r: Option<Poll>)
        ensures
            match r {
                Some(p) => parse_ballot(b@) == Some(p@),
                None => parse_ballot(b@) is None,
            },
    {
        assert(rest_of(b@, 0) =~= b@);
        match Self::parse_prefix(b, 0) {
            Some((p, end)) => if end == b.len() {
                Some(p)
            } else {
                None
            },
            None => None,
        }
    }

    fn parse_prefix(b: &[u8], start: usize) -> (r: Option<(Poll, usize)>)
        requires
            start <= b@.len(),
        ensures
            match r {
                Some((p, end)) => start <= end <= b@.len() && parse_ballot_prefix(
                    rest_of(b@, start as int),
                ) == Some((p@, end - start)),
                None => parse_ballot_prefix(rest_of(b@, start as int)) is None,
            },
    {
        let (title, p1) = match read_str(b, start) {
            Some(x) => x,
            None => return None,
        };
        assert(rest_of(b@, start as int).skip(p1 - start) =~= rest_of(b@, p1 as int));
        let (k, p2) = match read_u32(b, p1) {
            Some(x) => x,
            None => return None,
        };
        assert(rest_of(b@, p1 as int).skip(p2 - p1) =~= rest_of(b@, p2 as int));
        let ghost whole = parse_options(rest_of(b@, p2 as int), k as nat);
        let mut options: Vec<PollOption> = Vec::new();
        let mut pos = p2;
        let mut i: u32 = 0;
        assert(options@.map_values(|o: PollOption| o@) + Seq::<OptionView>::empty()
            =~= options@.map_values(|o: PollOption| o@));
        while i < k
            invariant
                i <= k,
                p2 <= pos <= b@.len(),
                whole == parse_options(rest_of(b@, p2 as int), k as nat),
                whole is None ==> parse_ballot_prefix(rest_of(b@, start as int)) is None,
                whole == options_after(
                    options@.map_values(|o: PollOption| o@),
                    pos - p2,
                    parse_options(rest_of(b@, pos as int), (k - i) as nat),
                ),
            decreases k - i,
        {
            let ghost got = options@.map_values(|o: PollOption| o@);
            let ghost rest = rest_of(b@, pos as int);
            let (name, q) = match read_str(b, pos) {
                Some(x) => x,
                None => {
                    assert(parse_options(rest, (k - i) as nat) is None);
                    return None;
                },
            };
            assert(rest.skip(q - pos) =~= rest_of(b@, q as int));
            let (vote_count, q2) = match read_u64(b, q) {
                Some(x) => x,
                None => {
                    assert(parse_options(rest, (k - i) as nat) is None);
                    return None;
                },
            };
            assert(rest.skip(q2 - pos) =~= rest_of(b@, q2 as int));
            assert(rest_of(b@, q as int).skip(q2 - q) =~= rest_of(b@, q2 as int));
            let o = PollOption { name, vote_count };
            assert(parse_option(rest) == Some((o@, q2 - pos)));
            options.push(o);
            assert(options@.map_values(|o: PollOption| o@) =~= got.push(o@));
            assert forall|os: Seq<OptionView>| got + (seq![o@] + os) =~= got.push(o@) + os by {}
            pos = q2;
            i = i + 1;
        }
        assert(options@.map_values(|o: PollOption| o@) + Seq::<OptionView>::empty()
            =~= options@.map_values(|o: PollOption| o@));
        let poll = Poll { title, options };
        Some((poll, pos))
    }
}

/// The requests a titled-poll client sends.
#[derive(Debug)]
pub enum Instruction {
    CreatePoll { poll: Poll, rent: u64 },
    Vote(Vote),
}

/// What a titled-poll instruction is.
pub enum BallotInstructionView {
    CreatePoll { poll: BallotView, rent: u64 },
    Vote(u8),
}

impl View for Instruction {
    type V = BallotInstructionView;

    open spec fn view(&self) -> BallotInstructionView {
        match self {
            Instruction::CreatePoll { poll, rent } => BallotInstructionView::CreatePoll {
                poll: poll@,
                rent: *rent,
            },
            Instruction::Vote(v) => BallotInstructionView::Vote(v.0),
        }
    }
}

/// An instruction whose poll the wire format can hold.
pub open spec fn ballot_instruction_storable(ix: BallotInstructionView) -> bool {
    match ix {
        BallotInstructionView::CreatePoll { poll, rent } => ballot_storable(poll),
        BallotInstructionView::Vote(_) => true,
    }
}

/// An instruction on the wire: tag 0, the poll's record and the rent; or tag
/// 1 and the chosen position.
pub open spec fn ballot_instruction_bytes(ix: BallotInstructionView) -> Seq<u8> {
    match ix {
        BallotInstructionView::CreatePoll { poll, rent } => seq![0u8] + (ballot_bytes(poll)
            + u64_bytes(rent)),
        BallotInstructionView::Vote(v) => seq![1u8, v],
    }
}

pub open spec fn parse_ballot_instruction(b: Seq<u8>) -> Option<BallotInstructionView> {
    if b.len() == 0 {
        None
    } else if b[0] == 0 {
        match parse_ballot_prefix(b.skip(1)) {
            Some((poll, n)) => match parse_u64(b.skip(1).skip(n)) {
                Some((rent, m)) => if 1 + n + m == b.len() {
                    Some(BallotInstructionView::CreatePoll { poll, rent })
                } else {
                    None
                },
                None => None,
            },
            None => None,
        }
    } else if b[0] == 1 && b.len() == 2 {
        Some(BallotInstructionView::Vote(b[1]))
    } else {
        None
    }
}

proof fn lemma_parse_ballot_instruction_round_trip(ix: BallotInstructionView)
    requires
        ballot_instruction_storable(ix),
    ensures
        parse_ballot_instruction(ballot_instruction_bytes(ix)) == Some(ix),
{
    let b = ballot_instruction_bytes(ix);
    match ix {
        BallotInstructionView::CreatePoll { poll, rent } => {
            let pb = ballot_bytes(poll);
            assert(b.skip(1) =~= pb + u64_bytes(rent));
            lemma_parse_ballot_prefix_round_trip(poll, u64_bytes(rent));
            assert(b.skip(1).skip(pb.len() as int) =~= u64_bytes(rent) + Seq::<u8>::empty());
            lemma_u64_round_trip(rent, Seq::empty());
        },
        BallotInstructionView::Vote(v) => {},
    }
}

proof fn lemma_parse_ballot_instruction_canonical(b: Seq<u8>)
    requires
        parse_ballot_instruction(b) is Some,
    ensures
        ballot_instruction_storable(parse_ballot_instruction(b)->Some_0),
        ballot_instruction_bytes(parse_ballot_instruction(b)->Some_0) == b,
{
    if b[0] == 0 {
        let r1 = b.skip(1);
        let (poll, n) = parse_ballot_prefix(r1)->Some_0;
        let r2 = r1.skip(n);
        lemma_parse_ballot_prefix_canonical(r1);
        lemma_u64_canonical(r2);
        assert(r2.take(8) =~= r2);
        lemma_split(r1, n);
        lemma_split(b, 1);
        assert(b.take(1) =~= seq![0u8]);
    } else {
        assert(b =~= seq![1u8, b[1]]);
    }
}

/// Decoding inverts encoding: the only titled-poll instruction whose bytes
/// equal those of `ix` is `ix` itself.
pub proof fn lemma_ballot_instruction_round_trip(
    ix: BallotInstructionView,
    decoded: BallotInstructionView,
)
    requires
        ballot_instruction_storable(ix),
        ballot_instruction_storable(decoded),
        ballot_instruction_bytes(decoded) == ballot_instruction_bytes(ix),
    ensures
        decoded == ix,
{
    lemma_parse_ballot_instruction_round_trip(ix);
    lemma_parse_ballot_instruction_round_trip(decoded);
}

impl Instruction {
    pub fn encode(&self) -> (r: Vec<u8>)
        requires
            ballot_instruction_storable(self@),
        ensures
            r@ == ballot_instruction_bytes(self@),
    {
        let mut out: Vec<u8> = Vec::new();
        match self {
            Instruction::CreatePoll { poll, rent } => {
                out.push(0u8);
                poll.write_to(&mut out);
                write_u64(&mut out, *rent);
            },
            Instruction::Vote(v) => {
                out.push(1u8);
                out.push(v.0);
            },
        }
        assert(out@ =~= ballot_instruction_bytes(self@));
        out
    }

    /// The instruction that `bytes` carry; `None` where they carry none.
    pub fn decode(bytes: &[u8]) -> (r: Option<Instruction>)
        ensures
            match r {
                Some(ix) => ballot_instruction_storable(ix@) && ballot_instruction_bytes(ix@)
                    == bytes@,
                None => forall|ix: BallotInstructionView|
                    ballot_instruction_storable(ix) ==> ballot_instruction_bytes(ix) != bytes@,
            },
    {
        match Self::parse(bytes) {
            Some(ix) => {
                proof {
                    lemma_parse_ballot_instruction_canonical(bytes@);
                }
                Some(ix)
            },
            None => {
                assert forall|ix: BallotInstructionView| ballot_instruction_storable(ix) implies
                    ballot_instruction_bytes(ix) != bytes@ by {
                    lemma_parse_ballot_instruction_round_trip(ix);
                }
                None
            },
        }
    }

    fn parse(b: &[u8]) -> (r: Option<Instruction>)
        ensures
            match r {
                Some(ix) => parse_ballot_instruction(b@) == Some(ix@),
                None => parse_ballot_instruction(b@) is None,
            },
    {
        if b.len() == 0 {
            return None;
        }
        if b[0] == 1 {
            if b.len() != 2 {
                return None;
            }
            return Some(Instruction::Vote(Vote(b[1])));
        }
        if b[0] != 0 {
            return None;
        }
        assert(rest_of(b@, 1) =~= b@.skip(1));
        let (poll, end) = match Poll::parse_prefix(b, 1) {
            Some(x) => x,
            None => return None,
        };
        assert(b@.skip(1).skip(end - 1) =~= rest_of(b@, end as int));
        let (rent, q) = match read_u64(b, end) {
            Some(x) => x,
            None => return None,
        };
        if q != b.len() {
            return None;
        }
        Some(Instruction::CreatePoll { poll, rent })
    }
}

} // verus!
