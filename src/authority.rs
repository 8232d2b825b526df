//! Derived authorities: addresses that only this program can sign for,
//! computed from a label, an optional instance key and a bump byte.
use vstd::prelude::*;

use crate::error::CustomError;

verus! {

/// What `Pubkey::create_program_address` gives for a seed list and a program
/// id: the derived address, or `None` where the seeds are refused or the hash
/// lies on the curve.
pub uninterp spec fn program_address(seeds: Seq<Seq<u8>>, program_id: Seq<u8>) -> Option<Seq<u8>>;

/// The seeds held in a vector, as byte sequences.
pub open spec fn seeds_view(v: &Vec<Vec<u8>>) -> Seq<Seq<u8>> {
    v@.map_values(|s: Vec<u8>| s@)
}

/// The seed list extended by the one-byte bump seed.
pub open spec fn with_bump(seeds: Seq<Seq<u8>>, bump: u8) -> Seq<Seq<u8>> {
    seeds.push(seq![bump])
}

/// The canonical derivation: the search counts the bump down from 255 and
/// stops at the first valid one (bump 0 is never tried).
pub open spec fn is_canonical(
    seeds: Seq<Seq<u8>>,
    program_id: Seq<u8>,
    address: Seq<u8>,
    bump: u8,
) -> bool {
    &&& 1 <= bump
    &&& program_address(with_bump(seeds, bump), program_id) == Some(address)
    &&& forall|c: u8|
        bump < c ==> #[trigger] program_address(with_bump(seeds, c), program_id) is None
}

/// No bump from 1 to 255 gives a valid address.
pub open spec fn no_valid_bump(seeds: Seq<Seq<u8>>, program_id: Seq<u8>) -> bool {
    forall|c: u8| 1 <= c ==> #[trigger] program_address(with_bump(seeds, c), program_id) is None
}

/// The seed list of an authority: its label, then the instance key if any.
pub open spec fn seed_list(label: Seq<u8>, instance: Option<Seq<u8>>) -> Seq<Seq<u8>> {
    match instance {
        Some(key) => seq![label, key],
        None => seq![label],
    }
}

pub open spec fn key_view(instance: Option<[u8; 32]>) -> Option<Seq<u8>> {
    match instance {
        Some(key) => Some(key@),
        None => None,
    }
}

/// Relies on `Pubkey::try_find_program_address` of anchor_lang (solana_program):
/// it tries the bumps 255 down to 1 with `create_program_address` and returns the
/// first address found with its bump, or `None` when every try fails.
#[verifier::external_body]
fn find_program_address(seeds: &Vec<Vec<u8>>, program_id: &[u8; 32]) -> (r: Option<([u8; 32], u8)>)
    ensures
        match r {
            Some((address, bump)) => {
                &&& 1 <= bump
                &&& program_address(with_bump(seeds_view(&seeds), bump), program_id@) == Some(address@)
                &&& forall|c: u8|
                    bump < c ==> #[trigger] program_address(with_bump(seeds_view(&seeds), c), program_id@)
                        is None
            },
            None => forall|c: u8|
                1 <= c ==> #[trigger] program_address(with_bump(seeds_view(&seeds), c), program_id@)
                    is None,
        },
{
    let seed_refs: Vec<&[u8]> = seeds.iter().map(|s| s.as_slice()).collect();
    let program = anchor_lang::prelude::Pubkey::new_from_array(*program_id);
    anchor_lang::prelude::Pubkey::try_find_program_address(&seed_refs, &program).map(
        |(address, bump)| (address.to_bytes(), bump),
    )
}

/// A resolved authority: its address, its canonical bump and the seeds
/// (without the bump) it was derived from.
#[derive(Clone, Debug, PartialEq, Eq)]
pub struct DerivedAuthority {
    pub address: [u8; 32],
    pub bump: u8,
    pub seeds: Vec<Vec<u8>>,
}

impl DerivedAuthority {
    /// The signer proof handed to an invocation: the seeds followed by the bump.
    pub fn signer_seeds(&self) -> (r: Vec<Vec<u8>>)
        ensures
            seeds_view(&r) == with_bump(seeds_view(&self.seeds), self.bump),
    {
        let mut r: Vec<Vec<u8>> = Vec::new();
        let mut i: usize = 0;
        while i < self.seeds.len()
            invariant
                i <= self.seeds.len(),
                seeds_view(&r) == seeds_view(&self.seeds).subrange(0, i as int),
            decreases self.seeds.len() - i,
        {
            let seed = self.seeds[i].clone();
            proof {
                assert(seed@ =~= self.seeds@[i as int]@);
            }
            let ghost before = seeds_view(&r);
            r.push(seed);
            proof {
                assert(seeds_view(&r) =~= before.push(seed@));
                assert(seeds_view(&r) =~= seeds_view(&self.seeds).subrange(0, i + 1));
            }
            i = i + 1;
        }
        let mut last: Vec<u8> = Vec::new();
        last.push(self.bump);
        let ghost before = seeds_view(&r);
        r.push(last);
        proof {
            assert(last@ =~= seq![self.bump]);
            assert(seeds_view(&r) =~= before.push(last@));
            assert(seeds_view(&self.seeds).subrange(0, i as int) =~= seeds_view(&self.seeds));
            assert(seeds_view(&r) =~= with_bump(seeds_view(&self.seeds), self.bump));
        }
        r
    }
}

/// Two canonical derivations of the same seeds under the same program agree
/// in address and bump: resolving an authority twice gives the same result.
pub proof fn lemma_derivation_deterministic(
    seeds: Seq<Seq<u8>>,
    program_id: Seq<u8>,
    address1: Seq<u8>,
    bump1: u8,
    address2: Seq<u8>,
    bump2: u8,
)
    requires
        is_canonical(seeds, program_id, address1, bump1),
        is_canonical(seeds, program_id, address2, bump2),
    ensures
        address1 == address2,
        bump1 == bump2,
{
    if bump1 < bump2 {
        assert(program_address(with_bump(seeds, bump2), program_id) is Some);
    } else if bump2 < bump1 {
        assert(program_address(with_bump(seeds, bump1), program_id) is Some);
    }
}

/// The bytes of an address, as a seed.
pub fn address_bytes(key: &[u8; 32]) -> (r: Vec<u8>)
    ensures
        r@ == key@,
{
    let mut k: Vec<u8> = Vec::new();
    let mut i: usize = 0;
    while i < 32
        invariant
            i <= 32,
            k@ == key@.subrange(0, i as int),
        decreases 32 - i,
    {
        k.push(key[i]);
        proof {
            assert(k@ =~= key@.subrange(0, i + 1));
        }
        i = i + 1;
    }
    proof {
        assert(key@.subrange(0, 32) =~= key@);
    }
    k
}

/// The seeds of an authority with the given label and optional instance key.
pub fn authority_seeds(label: &Vec<u8>, instance: Option<[u8; 32]>) -> (r: Vec<Vec<u8>>)
    ensures
        seeds_view(&r) == seed_list(label@, key_view(instance)),
{
    let mut r: Vec<Vec<u8>> = Vec::new();
    let first = label.clone();
    proof {
        assert(first@ =~= label@);
    }
    r.push(first);
    match instance {
        Some(key) => {
            r.push(address_bytes(&key));
        },
        None => {},
    }
    proof {
        assert(seeds_view(&r) =~= seed_list(label@, key_view(instance)));
    }
    r
}

/// Resolves the canonical authority for a label and optional instance key.
pub fn resolve_authority(label: &Vec<u8>, instance: Option<[u8; 32]>, program_id: &[u8; 32]) -> (r:
    Result<DerivedAuthority, CustomError>)
    ensures
        match r {
            Ok(a) => {
                &&& is_canonical(seed_list(label@, key_view(instance)), program_id@, a.address@, a.bump)
                &&& seeds_view(&a.seeds) == seed_list(label@, key_view(instance))
            },
            Err(e) => {
                &&& e == CustomError::BumpNotFound
                &&& no_valid_bump(seed_list(label@, key_view(instance)), program_id@)
            },
        },
{
    let seeds = authority_seeds(label, instance);
    resolve_seeds(seeds, program_id)
}

/// Resolves the canonical derived address of a seed list under a program.
pub fn resolve_seeds(seeds: Vec<Vec<u8>>, program_id: &[u8; 32]) -> (r: Result<
    DerivedAuthority,
    CustomError,
>)
    ensures
        match r {
            Ok(a) => {
                &&& is_canonical(seeds_view(&seeds), program_id@, a.address@, a.bump)
                &&& seeds_view(&a.seeds) == seeds_view(&seeds)
            },
            Err(e) => {
                &&& e == CustomError::BumpNotFound
                &&& no_valid_bump(seeds_view(&seeds), program_id@)
            },
        },
{
    match find_program_address(&seeds, program_id) {
        Some((address, bump)) => Ok(DerivedAuthority { address, bump, seeds }),
        None => Err(CustomError::BumpNotFound),
    }
}

/// The seeds of the associated holder account of `owner` in `mint`.
pub open spec fn associated_seeds(owner: Seq<u8>, token_program_id: Seq<u8>, mint: Seq<u8>) -> Seq<
    Seq<u8>,
> {
    seq![owner, token_program_id, mint]
}

/// Whether `address` is the canonical derived address of `seeds`.
pub open spec fn derives_to(seeds: Seq<Seq<u8>>, program_id: Seq<u8>, address: Seq<u8>) -> bool {
    exists|bump: u8| is_canonical(seeds, program_id, address, bump)
}

/// The address of the associated holder account of `owner` in `mint`: the
/// canonical derivation of (owner, token program, mint) under the
/// associated-account program.
pub fn associated_address(
    owner: &[u8; 32],
    token_program_id: &[u8; 32],
    mint: &[u8; 32],
    associated_program_id: &[u8; 32],
) -> (r: Result<[u8; 32], CustomError>)
    ensures
        match r {
            Ok(address) => derives_to(
                associated_seeds(owner@, token_program_id@, mint@),
                associated_program_id@,
                address@,
            ),
            Err(e) => {
                &&& e == CustomError::BumpNotFound
                &&& no_valid_bump(
                    associated_seeds(owner@, token_program_id@, mint@),
                    associated_program_id@,
                )
            },
        },
{
    let mut seeds: Vec<Vec<u8>> = Vec::new();
    seeds.push(address_bytes(owner));
    seeds.push(address_bytes(token_program_id));
    seeds.push(address_bytes(mint));
    proof {
        assert(seeds_view(&seeds) =~= associated_seeds(owner@, token_program_id@, mint@));
    }
    match resolve_seeds(seeds, associated_program_id) {
        Ok(a) => Ok(a.address),
        Err(e) => Err(e),
    }
}

/// Whether two addresses are equal, byte by byte.
pub fn same_address(a: &[u8; 32], b: &[u8; 32]) -> (r: bool)
    ensures
        r == (a@ == b@),
{
    let mut i: usize = 0;
    while i < 32
        invariant
            i <= 32,
            forall|j: int| 0 <= j < i ==> a@[j] == b@[j],
        decreases 32 - i,
    {
        if a[i] != b[i] {
            return false;
        }
        i = i + 1;
    }
    proof {
        assert(a@ =~= b@);
    }
    true
}

/// Checks a claimed address and bump against the canonical derivation. A
/// caller-chosen bump is never trusted: it is accepted only where it is the
/// bump that the derivation itself finds.
pub fn check_authority(
    label: &Vec<u8>,
    instance: Option<[u8; 32]>,
    claimed: &[u8; 32],
    bump: u8,
    program_id: &[u8; 32],
) -> (r: Result<DerivedAuthority, CustomError>)
    ensures
        r is Ok <==> is_canonical(seed_list(label@, key_view(instance)), program_id@, claimed@, bump),
        match r {
            Ok(a) => {
                &&& a.address@ == claimed@
                &&& a.bump == bump
                &&& seeds_view(&a.seeds) == seed_list(label@, key_view(instance))
            },
            Err(e) => {
                &&& e == CustomError::BumpNotFound <==> no_valid_bump(
                    seed_list(label@, key_view(instance)),
                    program_id@,
                )
                &&& e == CustomError::BumpNotFound || e == CustomError::AuthorityMismatch
            },
        },
{
    let ghost seeds = seed_list(label@, key_view(instance));
    match resolve_authority(label, instance, program_id) {
        Ok(a) => {
            if same_address(&a.address, claimed) && a.bump == bump {
                Ok(a)
            } else {
                proof {
                    if is_canonical(seeds, program_id@, claimed@, bump) {
                        lemma_derivation_deterministic(
                            seeds,
                            program_id@,
                            a.address@,
                            a.bump,
                            claimed@,
                            bump,
                        );
                    }
                    assert(program_address(with_bump(seeds, a.bump), program_id@) is Some);
                }
                Err(CustomError::AuthorityMismatch)
            }
        },
        Err(e) => {
            proof {
                if 1 <= bump {
                    assert(program_address(with_bump(seeds, bump), program_id@) is None);
                }
            }
            Err(e)
        },
    }
}

} // verus!
