//! The account state that the module reads and changes: mints, holder
//! accounts and metadata records, each keyed by an address.
use vstd::prelude::*;

use crate::authority::same_address;

verus! {

/// A fungible asset type.
#[derive(Clone, Copy, Debug, PartialEq, Eq)]
pub struct MintAccount {
    pub address: [u8; 32],
    pub decimals: u8,
    pub authority: [u8; 32],
    pub supply: u64,
}

/// The balance of one owner in one mint. The owner may approve a delegate to
/// move up to `delegated_amount` of it.
#[derive(Clone, Copy, Debug, PartialEq, Eq)]
pub struct HolderAccount {
    pub address: [u8; 32],
    pub mint: [u8; 32],
    pub owner: [u8; 32],
    pub amount: u64,
    pub delegate: Option<[u8; 32]>,
    pub delegated_amount: u64,
}

/// The descriptive record bound to a mint; strings are held as UTF-8 bytes.
#[derive(Clone, Debug, PartialEq, Eq)]
pub struct MetadataRecord {
    pub mint: [u8; 32],
    pub name: Vec<u8>,
    pub symbol: Vec<u8>,
    pub uri: Vec<u8>,
    pub seller_fee_basis_points: u16,
    pub update_authority: [u8; 32],
    pub is_mutable: bool,
}

/// The state seen by the module: its own program id, the label of its mint
/// authority, the ids of the token and associated-account programs, and the
/// accounts.
#[derive(Clone, Debug, PartialEq, Eq)]
pub struct Ledger {
    pub program_id: [u8; 32],
    pub token_program_id: [u8; 32],
    pub associated_token_program_id: [u8; 32],
    pub authority_label: Vec<u8>,
    pub mints: Vec<MintAccount>,
    pub holders: Vec<HolderAccount>,
    pub records: Vec<MetadataRecord>,
}

pub open spec fn mint_at(s: Seq<MintAccount>, i: int, a: Seq<u8>) -> bool {
    0 <= i < s.len() && s[i].address@ == a
}

pub open spec fn holder_at(s: Seq<HolderAccount>, i: int, a: Seq<u8>) -> bool {
    0 <= i < s.len() && s[i].address@ == a
}

pub open spec fn record_at(s: Seq<MetadataRecord>, i: int, m: Seq<u8>) -> bool {
    0 <= i < s.len() && s[i].mint@ == m
}

pub open spec fn has_mint(s: Seq<MintAccount>, a: Seq<u8>) -> bool {
    exists|i: int| #[trigger] mint_at(s, i, a)
}

pub open spec fn has_holder(s: Seq<HolderAccount>, a: Seq<u8>) -> bool {
    exists|i: int| #[trigger] holder_at(s, i, a)
}

pub open spec fn has_record(s: Seq<MetadataRecord>, m: Seq<u8>) -> bool {
    exists|i: int| #[trigger] record_at(s, i, m)
}

/// The position of the mint with address `a` (meaningful where it exists).
pub open spec fn mint_index(s: Seq<MintAccount>, a: Seq<u8>) -> int {
    choose|i: int| mint_at(s, i, a)
}

/// The position of the holder account with address `a` (meaningful where it exists).
pub open spec fn holder_index(s: Seq<HolderAccount>, a: Seq<u8>) -> int {
    choose|i: int| holder_at(s, i, a)
}

pub open spec fn unique_mints(s: Seq<MintAccount>) -> bool {
    forall|i: int, j: int|
        0 <= i < s.len() && 0 <= j < s.len() && i != j ==> #[trigger] s[i].address@ != #[trigger] s[j].address@
}

pub open spec fn unique_holders(s: Seq<HolderAccount>) -> bool {
    forall|i: int, j: int|
        0 <= i < s.len() && 0 <= j < s.len() && i != j ==> #[trigger] s[i].address@ != #[trigger] s[j].address@
}

pub open spec fn unique_records(s: Seq<MetadataRecord>) -> bool {
    forall|i: int, j: int|
        0 <= i < s.len() && 0 <= j < s.len() && i != j ==> #[trigger] s[i].mint@ != #[trigger] s[j].mint@
}

impl Ledger {
    /// Addresses of mints and of holder accounts are unique, and each mint has
    /// at most one metadata record.
    pub open spec fn wf(&self) -> bool {
        &&& unique_mints(self.mints@)
        &&& unique_holders(self.holders@)
        &&& unique_records(self.records@)
    }

    /// An empty ledger for the program `program_id`, whose mint authority is
    /// derived from `authority_label`.
    pub fn new(
        program_id: [u8; 32],
        authority_label: Vec<u8>,
        token_program_id: [u8; 32],
        associated_token_program_id: [u8; 32],
    ) -> (r: Ledger)
        ensures
            r.wf(),
            r.program_id == program_id,
            r.token_program_id == token_program_id,
            r.associated_token_program_id == associated_token_program_id,
            r.authority_label == authority_label,
            r.mints@.len() == 0,
            r.holders@.len() == 0,
            r.records@.len() == 0,
    {
        Ledger {
            program_id,
            token_program_id,
            associated_token_program_id,
            authority_label,
            mints: Vec::new(),
            holders: Vec::new(),
            records: Vec::new(),
        }
    }

    /// The position of the mint with the given address.
    pub fn find_mint(&self, address: &[u8; 32]) -> (r: Option<usize>)
        ensures
            match r {
                Some(i) => mint_at(self.mints@, i as int, address@),
                None => !has_mint(self.mints@, address@),
            },
    {
        let mut i: usize = 0;
        while i < self.mints.len()
            invariant
                i <= self.mints@.len(),
                forall|j: int| 0 <= j < i ==> !#[trigger] mint_at(self.mints@, j, address@),
            decreases self.mints@.len() - i,
        {
            if same_address(&self.mints[i].address, address) {
                return Some(i);
            }
            i = i + 1;
        }
        None
    }

    /// The position of the holder account with the given address.
    pub fn find_holder(&self, address: &[u8; 32]) -> (r: Option<usize>)
        ensures
            match r {
                Some(i) => holder_at(self.holders@, i as int, address@),
                None => !has_holder(self.holders@, address@),
            },
    {
        let mut i: usize = 0;
        while i < self.holders.len()
            invariant
                i <= self.holders@.len(),
                forall|j: int| 0 <= j < i ==> !#[trigger] holder_at(self.holders@, j, address@),
            decreases self.holders@.len() - i,
        {
            if same_address(&self.holders[i].address, address) {
                return Some(i);
            }
            i = i + 1;
        }
        None
    }

    /// The position of the metadata record bound to the given mint.
    pub fn find_record(&self, mint: &[u8; 32]) -> (r: Option<usize>)
        ensures
            match r {
                Some(i) => record_at(self.records@, i as int, mint@),
                None => !has_record(self.records@, mint@),
            },
    {
        let mut i: usize = 0;
        while i < self.records.len()
            invariant
                i <= self.records@.len(),
                forall|j: int| 0 <= j < i ==> !#[trigger] record_at(self.records@, j, mint@),
            decreases self.records@.len() - i,
        {
            if same_address(&self.records[i].mint, mint) {
                return Some(i);
            }
            i = i + 1;
        }
        None
    }
}

/// Where a mint exists in a set of unique mints, its position is the only one.
pub proof fn lemma_mint_index(s: Seq<MintAccount>, i: int, a: Seq<u8>)
    requires
        unique_mints(s),
        mint_at(s, i, a),
    ensures
        mint_index(s, a) == i,
{
    let k = mint_index(s, a);
    assert(mint_at(s, k, a));
    if k != i {
        assert(s[k].address@ != s[i].address@);
    }
}

/// Where a holder account exists among unique ones, its position is the only one.
pub proof fn lemma_holder_index(s: Seq<HolderAccount>, i: int, a: Seq<u8>)
    requires
        unique_holders(s),
        holder_at(s, i, a),
    ensures
        holder_index(s, a) == i,
{
    let k = holder_index(s, a);
    assert(holder_at(s, k, a));
    if k != i {
        assert(s[k].address@ != s[i].address@);
    }
}

} // verus!
