use vstd::prelude::*;
use vstd::slice::slice_to_vec;
use vstd::utf8::encode_utf8;

verus! {

/// A 32-byte ledger address: where an entity is stored, or who signed.
#[derive(Clone, Copy, Debug)]
pub struct Address {
    pub bytes: [u8; 32],
}

impl View for Address {
    type V = Seq<u8>;

    open spec fn view(&self) -> Seq<u8> {
        self.bytes@
    }
}

pub open spec fn zero_address() -> Seq<u8> {
    Seq::new(32, |i: int| 0u8)
}

impl Address {
    pub fn new(bytes: [u8; 32]) -> (r: Address)
        ensures
            r@ == bytes@,
    {
        Address { bytes }
    }

    /// The all-zero address, which a fresh record holds before it is written.
    pub fn zero() -> (r: Address)
        ensures
            r@ == zero_address(),
    {
        let r = Address { bytes: [0u8; 32] };
        assert(r@ =~= zero_address());
        r
    }

    pub fn equals(&self, other: &Address) -> (r: bool)
        ensures
            r == (self@ == other@),
    {
        let mut i: usize = 0;
        while i < 32
            invariant
                i <= 32,
                self@.len() == 32,
                other@.len() == 32,
                forall|j: int| 0 <= j < i ==> self@[j] == other@[j],
            decreases 32 - i,
        {
            if self.bytes[i] != other.bytes[i] {
                return false;
            }
            i = i + 1;
        }
        assert(self@ =~= other@);
        true
    }
}

impl PartialEq for Address {
    fn eq(&self, other: &Address) -> (r: bool) {
        self.equals(other)
    }
}

impl Eq for Address {
}

impl vstd::std_specs::cmp::PartialEqSpecImpl for Address {
    open spec fn obeys_eq_spec() -> bool {
        true
    }

    open spec fn eq_spec(&self, other: &Address) -> bool {
        self@ == other@
    }
}

/// The address that the ledger derives for a list of seeds under a program:
/// a digest of the seeds and the program id, searched over bump values until it
/// lies off the signing curve.
pub uninterp spec fn program_address_of(seeds: Seq<Seq<u8>>, program_id: Seq<u8>) -> Option<Seq<u8>>;

/// The most seeds a derivation takes, the bump seed included.
pub const MAX_SEEDS: usize = 16;

/// The most bytes a single seed may hold.
pub const MAX_SEED_LEN: usize = 32;

pub open spec fn seeds_accepted(seeds: Seq<Seq<u8>>) -> bool {
    &&& seeds.len() < MAX_SEEDS
    &&& forall|i: int| 0 <= i < seeds.len() ==> #[trigger] seeds[i].len() <= MAX_SEED_LEN
}

/// The bytes of each seed of a list.
pub open spec fn seeds_view(seeds: Seq<Vec<u8>>) -> Seq<Seq<u8>> {
    seeds.map_values(|s: Vec<u8>| s@)
}

pub open spec fn address_option_view(r: Option<Address>) -> Option<Seq<u8>> {
    match r {
        Some(a) => Some(a@),
        None => None,
    }
}

/// Relies on solana_program's `Pubkey::try_find_program_address`: its result
/// depends on the seeds and the program id alone, and it gives `None` when
/// there are too many seeds or one of them is too long.
#[verifier::external_body]
fn find_program_address(seeds: &Vec<Vec<u8>>, program_id: &Address) -> (r: Option<Address>)
    ensures
        address_option_view(r) == program_address_of(seeds_view(seeds@), program_id@),
        !seeds_accepted(seeds_view(seeds@)) ==> r is None,
{
    let parts: Vec<&[u8]> = seeds.iter().map(|s| s.as_slice()).collect();
    let id = solana_program::pubkey::Pubkey::new_from_array(program_id.bytes);
    solana_program::pubkey::Pubkey::try_find_program_address(&parts, &id).map(
        |(key, _bump)| Address { bytes: key.to_bytes() },
    )
}

/// What an address is derived for.
#[derive(Clone, Copy, Debug, PartialEq, Eq, Structural)]
pub enum EntityKind {
    Poll,
    Voter,
}

/// The seed that separates the address spaces of the kinds: `"poll"` and `"voter"`.
pub open spec fn kind_tag(kind: EntityKind) -> Seq<u8> {
    match kind {
        EntityKind::Poll => seq![0x70u8, 0x6fu8, 0x6cu8, 0x6cu8],
        EntityKind::Voter => seq![0x76u8, 0x6fu8, 0x74u8, 0x65u8, 0x72u8],
    }
}

/// The seeds of a derivation: the kind's tag, then the key material.
pub open spec fn derivation_seeds(kind: EntityKind, key: Seq<Seq<u8>>) -> Seq<Seq<u8>> {
    seq![kind_tag(kind)] + key
}

pub open spec fn derived_address(kind: EntityKind, key: Seq<Seq<u8>>, program_id: Seq<u8>) -> Option<
    Seq<u8>,
> {
    program_address_of(derivation_seeds(kind, key), program_id)
}

/// The key material of a poll: its name's bytes.
pub open spec fn poll_key(name: Seq<u8>) -> Seq<Seq<u8>> {
    seq![name]
}

/// The key material of a voter: the poll's address, then the voter's identity.
pub open spec fn voter_key(poll: Seq<u8>, voter: Seq<u8>) -> Seq<Seq<u8>> {
    seq![poll, voter]
}

/// Derivation depends on its inputs alone: the same kind, key material and
/// program always give the same address.
pub proof fn lemma_derivation_deterministic(
    kind: EntityKind,
    key: Seq<Seq<u8>>,
    program_id: Seq<u8>,
    kind2: EntityKind,
    key2: Seq<Seq<u8>>,
    program_id2: Seq<u8>,
)
    requires
        kind == kind2,
        key == key2,
        program_id == program_id2,
    ensures
        derived_address(kind, key, program_id) == derived_address(kind2, key2, program_id2),
{
}

/// Derivation is domain-separated: a different kind or different key
/// material always hands the ledger a different list of seeds.
pub proof fn lemma_derivation_inputs_distinct(
    kind: EntityKind,
    key: Seq<Seq<u8>>,
    kind2: EntityKind,
    key2: Seq<Seq<u8>>,
)
    requires
        kind != kind2 || key != key2,
    ensures
        derivation_seeds(kind, key) != derivation_seeds(kind2, key2),
{
    if derivation_seeds(kind, key) == derivation_seeds(kind2, key2) {
        assert(derivation_seeds(kind, key)[0] == kind_tag(kind));
        assert(derivation_seeds(kind2, key2)[0] == kind_tag(kind2));
        assert(kind == kind2) by {
            if kind != kind2 {
                assert(kind_tag(kind).len() != kind_tag(kind2).len());
            }
        }
        assert(key =~= derivation_seeds(kind, key).skip(1));
        assert(key2 =~= derivation_seeds(kind2, key2).skip(1));
    }
}

fn kind_tag_bytes(kind: EntityKind) -> (r: Vec<u8>)
    ensures
        r@ == kind_tag(kind),
{
    let r = match kind {
        EntityKind::Poll => vec![0x70u8, 0x6fu8, 0x6cu8, 0x6cu8],
        EntityKind::Voter => vec![0x76u8, 0x6fu8, 0x74u8, 0x65u8, 0x72u8],
    };
    assert(r@ =~= kind_tag(kind));
    r
}

/// The address of an entity of `kind` with the given key material under
/// `program_id`; `None` where the ledger's derivation refuses the seeds or
/// finds no address.
pub fn derive_address(kind: EntityKind, key: &Vec<Vec<u8>>, program_id: &Address) -> (r: Option<Address>)
    ensures
        address_option_view(r) == derived_address(kind, seeds_view(key@), program_id@),
        !seeds_accepted(derivation_seeds(kind, seeds_view(key@))) ==> r is None,
{
    let mut seeds: Vec<Vec<u8>> = Vec::new();
    seeds.push(kind_tag_bytes(kind));
    let mut i: usize = 0;
    while i < key.len()
        invariant
            i <= key.len(),
            seeds_view(seeds@) =~= derivation_seeds(kind, seeds_view(key@).take(i as int)),
        decreases key.len() - i,
    {
        let part = slice_to_vec(key[i].as_slice());
        let ghost before = seeds@;
        seeds.push(part);
        i = i + 1;
        assert(seeds_view(seeds@) =~= seeds_view(before).push(key@[i - 1]@));
        assert(seeds_view(key@).take(i as int) =~= seeds_view(key@).take(i - 1).push(key@[i - 1]@));
        assert(seeds_view(seeds@) =~= derivation_seeds(kind, seeds_view(key@).take(i as int)));
    }
    assert(seeds_view(key@).take(i as int) =~= seeds_view(key@));
    find_program_address(&seeds, program_id)
}

/// The address of the poll named `name`.
pub fn poll_address(name: &str, program_id: &Address) -> (r: Option<Address>)
    ensures
        address_option_view(r) == derived_address(
            EntityKind::Poll,
            poll_key(encode_utf8(name@)),
            program_id@,
        ),
        encode_utf8(name@).len() > MAX_SEED_LEN ==> r is None,
{
    let key: Vec<Vec<u8>> = vec![slice_to_vec(name.as_bytes())];
    assert(seeds_view(key@) =~= poll_key(encode_utf8(name@)));
    assert(derivation_seeds(EntityKind::Poll, seeds_view(key@))[1] == encode_utf8(name@));
    derive_address(EntityKind::Poll, &key, program_id)
}

/// The address of the receipt that `voter` has voted in the poll at `poll`.
pub fn voter_address(poll: &Address, voter: &Address, program_id: &Address) -> (r: Option<Address>)
    ensures
        address_option_view(r) == derived_address(
            EntityKind::Voter,
            voter_key(poll@, voter@),
            program_id@,
        ),
{
    let key: Vec<Vec<u8>> = vec![slice_to_vec(poll.bytes.as_slice()), slice_to_vec(voter.bytes.as_slice())];
    assert(seeds_view(key@) =~= voter_key(poll@, voter@));
    derive_address(EntityKind::Voter, &key, program_id)
}

} // verus!
