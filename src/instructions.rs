//! The module's three requests. Each checks every precondition first and then
//! applies its whole effect, or rejects the request and changes nothing.
use vstd::prelude::*;

use crate::authority::{
    associated_address,
    associated_seeds,
    check_authority,
    derives_to,
    is_canonical,
    lemma_derivation_deterministic,
    no_valid_bump,
    program_address,
    same_address,
    seed_list,
    with_bump,
};
use crate::error::CustomError;
use crate::ledger::{
    has_holder,
    has_mint,
    has_record,
    holder_index,
    lemma_holder_index,
    lemma_mint_index,
    mint_index,
    HolderAccount,
    Ledger,
    MetadataRecord,
    MintAccount,
};

verus! {

/// The longest name, in bytes, that the metadata registry accepts.
pub const MAX_NAME_LENGTH: usize = 32;

/// The longest symbol, in bytes, that the metadata registry accepts.
pub const MAX_SYMBOL_LENGTH: usize = 10;

/// The longest URI, in bytes, that the metadata registry accepts.
pub const MAX_URI_LENGTH: usize = 200;

/// The largest royalty, in basis points (100%).
pub const MAX_BASIS_POINTS: u16 = 10000;

/// The accounts and values of a request to create a mint with its metadata.
/// `mint` is the derived address claimed for the mint, `mint_bump` its bump.
#[derive(Clone, Debug, PartialEq, Eq)]
pub struct CreateTokenWithMetadata {
    pub mint: [u8; 32],
    pub mint_bump: u8,
    pub payer: [u8; 32],
    pub decimals: u8,
    pub name: Vec<u8>,
    pub symbol: Vec<u8>,
    pub uri: Vec<u8>,
    pub seller_fee_basis_points: u16,
    pub is_mutable: bool,
}

/// The accounts of a request to issue supply to the payer's holder account.
#[derive(Clone, Copy, Debug, PartialEq, Eq)]
pub struct MintToken {
    pub mint: [u8; 32],
    pub mint_bump: u8,
    pub destination: [u8; 32],
    pub payer: [u8; 32],
}

/// The accounts of a request to move a balance between holder accounts.
#[derive(Clone, Copy, Debug, PartialEq, Eq)]
pub struct TransferToken {
    pub from: [u8; 32],
    pub to: [u8; 32],
    pub authority: [u8; 32],
}

/// The balance held at address `a`, zero where no holder account is there.
pub open spec fn balance_of(s: Seq<HolderAccount>, a: Seq<u8>) -> int {
    if has_holder(s, a) {
        s[holder_index(s, a)].amount as int
    } else {
        0
    }
}

/// The mint authority's seed list: the ledger's label alone.
pub open spec fn mint_seeds(l: Ledger) -> Seq<Seq<u8>> {
    seed_list(l.authority_label@, None)
}

/// Whether `mint` and `bump` are the canonical derivation of the mint authority.
pub open spec fn authority_outcome(l: Ledger, mint: Seq<u8>, bump: u8) -> Result<(), CustomError> {
    if is_canonical(mint_seeds(l), l.program_id@, mint, bump) {
        Ok(())
    } else if no_valid_bump(mint_seeds(l), l.program_id@) {
        Err(CustomError::BumpNotFound)
    } else {
        Err(CustomError::AuthorityMismatch)
    }
}

/// Program id and authority label are never changed by a request.
pub open spec fn keeps_config(new: Ledger, old: Ledger) -> bool {
    new.program_id == old.program_id && new.authority_label == old.authority_label
}

pub open spec fn create_outcome(l: Ledger, a: CreateTokenWithMetadata) -> Result<(), CustomError> {
    if authority_outcome(l, a.mint@, a.mint_bump) is Err {
        authority_outcome(l, a.mint@, a.mint_bump)
    } else if has_mint(l.mints@, a.mint@) || has_record(l.records@, a.mint@) {
        Err(CustomError::AlreadyExists)
    } else if a.name@.len() > MAX_NAME_LENGTH || a.symbol@.len() > MAX_SYMBOL_LENGTH
        || a.uri@.len() > MAX_URI_LENGTH {
        Err(CustomError::FieldTooLong)
    } else if a.seller_fee_basis_points > MAX_BASIS_POINTS {
        Err(CustomError::InvalidBasisPoints)
    } else {
        Ok(())
    }
}

/// The new mint: its own derived address is its authority, its supply zero.
pub open spec fn created_mint(a: CreateTokenWithMetadata) -> MintAccount {
    MintAccount { address: a.mint, decimals: a.decimals, authority: a.mint, supply: 0 }
}

/// The new record, whose update authority is the mint's derived address.
pub open spec fn created_record(a: CreateTokenWithMetadata) -> MetadataRecord {
    MetadataRecord {
        mint: a.mint,
        name: a.name,
        symbol: a.symbol,
        uri: a.uri,
        seller_fee_basis_points: a.seller_fee_basis_points,
        update_authority: a.mint,
        is_mutable: a.is_mutable,
    }
}

/// Creates the mint at its derived address, with the derived address as
/// minting authority, and binds a metadata record to it.
pub fn create_token_with_metadata(ledger: &mut Ledger, accounts: CreateTokenWithMetadata) -> (r:
    Result<(), CustomError>)
    requires
        old(ledger).wf(),
    ensures
        final(ledger).wf(),
        r == create_outcome(*old(ledger), accounts),
        r is Ok ==> {
            &&& final(ledger).mints@ == old(ledger).mints@.push(created_mint(accounts))
            &&& final(ledger).records@ == old(ledger).records@.push(created_record(accounts))
            &&& final(ledger).holders@ == old(ledger).holders@
            &&& keeps_config(*final(ledger), *old(ledger))
        },
        r is Err ==> *final(ledger) == *old(ledger),
{
    match check_authority(
        &ledger.authority_label,
        None,
        &accounts.mint,
        accounts.mint_bump,
        &ledger.program_id,
    ) {
        Ok(_) => {},
        Err(e) => {
            return Err(e);
        },
    }
    if ledger.find_mint(&accounts.mint).is_some() || ledger.find_record(&accounts.mint).is_some() {
        return Err(CustomError::AlreadyExists);
    }
    if accounts.name.len() > MAX_NAME_LENGTH || accounts.symbol.len() > MAX_SYMBOL_LENGTH
        || accounts.uri.len() > MAX_URI_LENGTH {
        return Err(CustomError::FieldTooLong);
    }
    if accounts.seller_fee_basis_points > MAX_BASIS_POINTS {
        return Err(CustomError::InvalidBasisPoints);
    }
    let ghost a = accounts;
    let CreateTokenWithMetadata {
        mint,
        mint_bump: _,
        payer: _,
        decimals,
        name,
        symbol,
        uri,
        seller_fee_basis_points,
        is_mutable,
    } = accounts;
    let ghost old_ledger = *ledger;
    ledger.mints.push(MintAccount { address: mint, decimals, authority: mint, supply: 0 });
    ledger.records.push(
        MetadataRecord {
            mint,
            name,
            symbol,
            uri,
            seller_fee_basis_points,
            update_authority: mint,
            is_mutable,
        },
    );
    proof {
        assert(ledger.mints@ == old_ledger.mints@.push(created_mint(a)));
        assert(ledger.records@ == old_ledger.records@.push(created_record(a)));
        assert forall|i: int| 0 <= i < old_ledger.mints@.len() implies #[trigger] ledger.mints@[i].address@
            != mint@ by {
            assert(!crate::ledger::mint_at(old_ledger.mints@, i, mint@));
        }
        assert forall|i: int| 0 <= i < old_ledger.records@.len() implies #[trigger] ledger.records@[i].mint@
            != mint@ by {
            assert(!crate::ledger::record_at(old_ledger.records@, i, mint@));
        }
    }
    Ok(())
}

/// The seeds of the payer's associated holder account in the mint.
pub open spec fn destination_seeds(l: Ledger, a: MintToken) -> Seq<Seq<u8>> {
    associated_seeds(a.payer@, l.token_program_id@, a.mint@)
}

pub open spec fn mint_outcome(l: Ledger, a: MintToken, q: u64) -> Result<(), CustomError> {
    let m = l.mints@[mint_index(l.mints@, a.mint@)];
    let h = l.holders@[holder_index(l.holders@, a.destination@)];
    if authority_outcome(l, a.mint@, a.mint_bump) is Err {
        authority_outcome(l, a.mint@, a.mint_bump)
    } else if !has_mint(l.mints@, a.mint@) {
        Err(CustomError::AccountNotFound)
    } else if m.authority@ != a.mint@ {
        Err(CustomError::AuthorityMismatch)
    } else if no_valid_bump(destination_seeds(l, a), l.associated_token_program_id@) {
        Err(CustomError::BumpNotFound)
    } else if !derives_to(destination_seeds(l, a), l.associated_token_program_id@, a.destination@) {
        Err(CustomError::InvalidDestination)
    } else if has_holder(l.holders@, a.destination@) && h.mint@ != a.mint@ {
        Err(CustomError::InvalidMint)
    } else if has_holder(l.holders@, a.destination@) && h.owner@ != a.payer@ {
        Err(CustomError::Unauthorized)
    } else if m.supply + q > u64::MAX || balance_of(l.holders@, a.destination@) + q > u64::MAX {
        Err(CustomError::Overflow)
    } else {
        Ok(())
    }
}

/// The mints after issuing `q`: the supply of the target mint grows by `q`.
pub open spec fn minted_mints(l: Ledger, a: MintToken, q: u64) -> Seq<MintAccount> {
    let i = mint_index(l.mints@, a.mint@);
    let m = l.mints@[i];
    l.mints@.update(
        i,
        MintAccount {
            address: m.address,
            decimals: m.decimals,
            authority: m.authority,
            supply: (m.supply + q) as u64,
        },
    )
}

/// The holder accounts after issuing `q`: the destination grows by `q`, and
/// is opened with balance `q` where it did not exist.
pub open spec fn minted_holders(l: Ledger, a: MintToken, q: u64) -> Seq<HolderAccount> {
    let i = holder_index(l.holders@, a.destination@);
    let h = l.holders@[i];
    if has_holder(l.holders@, a.destination@) {
        l.holders@.update(
            i,
            HolderAccount {
                address: h.address,
                mint: h.mint,
                owner: h.owner,
                amount: (h.amount + q) as u64,
                delegate: h.delegate,
                delegated_amount: h.delegated_amount,
            },
        )
    } else {
        l.holders@.push(
            HolderAccount {
                address: a.destination,
                mint: a.mint,
                owner: a.payer,
                amount: q,
                delegate: None,
                delegated_amount: 0,
            },
        )
    }
}

/// Issues `quantity` new units of the mint to the payer's associated holder
/// account, opening that account where it does not exist.
pub fn mint_token(ledger: &mut Ledger, accounts: &MintToken, quantity: u64) -> (r: Result<
    (),
    CustomError,
>)
    requires
        old(ledger).wf(),
    ensures
        final(ledger).wf(),
        r == mint_outcome(*old(ledger), *accounts, quantity),
        r is Ok ==> {
            &&& final(ledger).mints@ == minted_mints(*old(ledger), *accounts, quantity)
            &&& final(ledger).holders@ == minted_holders(*old(ledger), *accounts, quantity)
            &&& final(ledger).records@ == old(ledger).records@
            &&& keeps_config(*final(ledger), *old(ledger))
        },
        r is Err ==> *final(ledger) == *old(ledger),
{
    match check_authority(
        &ledger.authority_label,
        None,
        &accounts.mint,
        accounts.mint_bump,
        &ledger.program_id,
    ) {
        Ok(_) => {},
        Err(e) => {
            return Err(e);
        },
    }
    let mi = match ledger.find_mint(&accounts.mint) {
        Some(i) => i,
        None => {
            return Err(CustomError::AccountNotFound);
        },
    };
    proof {
        lemma_mint_index(ledger.mints@, mi as int, accounts.mint@);
    }
    if !same_address(&ledger.mints[mi].authority, &accounts.mint) {
        return Err(CustomError::AuthorityMismatch);
    }
    let ghost seeds = destination_seeds(*ledger, *accounts);
    let ghost atp = ledger.associated_token_program_id@;
    match associated_address(
        &accounts.payer,
        &ledger.token_program_id,
        &accounts.mint,
        &ledger.associated_token_program_id,
    ) {
        Ok(expected) => {
            let ghost b = choose|b: u8| is_canonical(seeds, atp, expected@, b);
            proof {
                assert(program_address(with_bump(seeds, b), atp) is Some);
            }
            if !same_address(&expected, &accounts.destination) {
                proof {
                    if derives_to(seeds, atp, accounts.destination@) {
                        let c = choose|c: u8| is_canonical(seeds, atp, accounts.destination@, c);
                        lemma_derivation_deterministic(seeds, atp, expected@, b, accounts.destination@, c);
                    }
                }
                return Err(CustomError::InvalidDestination);
            }
        },
        Err(e) => {
            return Err(e);
        },
    }
    let dest = ledger.find_holder(&accounts.destination);
    let mut balance: u64 = 0;
    match dest {
        Some(hi) => {
            proof {
                lemma_holder_index(ledger.holders@, hi as int, accounts.destination@);
            }
            if !same_address(&ledger.holders[hi].mint, &accounts.mint) {
                return Err(CustomError::InvalidMint);
            }
            if !same_address(&ledger.holders[hi].owner, &accounts.payer) {
                return Err(CustomError::Unauthorized);
            }
            balance = ledger.holders[hi].amount;
        },
        None => {},
    }
    let supply = ledger.mints[mi].supply;
    if quantity > u64::MAX - supply || quantity > u64::MAX - balance {
        return Err(CustomError::Overflow);
    }
    let ghost old_ledger = *ledger;
    let m = MintAccount {
        address: ledger.mints[mi].address,
        decimals: ledger.mints[mi].decimals,
        authority: ledger.mints[mi].authority,
        supply: supply + quantity,
    };
    ledger.mints.set(mi, m);
    match dest {
        Some(hi) => {
            let h = HolderAccount {
                address: ledger.holders[hi].address,
                mint: ledger.holders[hi].mint,
                owner: ledger.holders[hi].owner,
                amount: balance + quantity,
                delegate: ledger.holders[hi].delegate,
                delegated_amount: ledger.holders[hi].delegated_amount,
            };
            ledger.holders.set(hi, h);
            proof {
                assert(ledger.holders@ == minted_holders(old_ledger, *accounts, quantity));
                assert forall|i: int, j: int|
                    0 <= i < ledger.holders@.len() && 0 <= j < ledger.holders@.len() && i != j
                        implies #[trigger] ledger.holders@[i].address@
                    != #[trigger] ledger.holders@[j].address@ by {
                    assert(old_ledger.holders@[i].address@ != old_ledger.holders@[j].address@);
                }
            }
        },
        None => {
            ledger.holders.push(
                HolderAccount {
                    address: accounts.destination,
                    mint: accounts.mint,
                    owner: accounts.payer,
                    amount: quantity,
                    delegate: None,
                    delegated_amount: 0,
                },
            );
            proof {
                assert(ledger.holders@ == minted_holders(old_ledger, *accounts, quantity));
                assert forall|i: int| 0 <= i < old_ledger.holders@.len() implies #[trigger] ledger.holders@[i].address@
                    != accounts.destination@ by {
                    assert(!crate::ledger::holder_at(old_ledger.holders@, i, accounts.destination@));
                }
            }
        },
    }
    proof {
        assert(ledger.mints@ == minted_mints(old_ledger, *accounts, quantity));
        assert forall|i: int, j: int|
            0 <= i < ledger.mints@.len() && 0 <= j < ledger.mints@.len() && i != j
                implies #[trigger] ledger.mints@[i].address@ != #[trigger] ledger.mints@[j].address@ by {
            assert(old_ledger.mints@[i].address@ != old_ledger.mints@[j].address@);
        }
    }
    Ok(())
}

/// Whether `signer` is the approved delegate of the holder account.
pub open spec fn signs_as_delegate(h: HolderAccount, signer: Seq<u8>) -> bool {
    match h.delegate {
        Some(d) => d@ == signer,
        None => false,
    }
}

/// The source account after `amount` leaves it. A delegate's allowance
/// shrinks by the amount, and the delegate is removed once it reaches zero.
pub open spec fn debited(f: HolderAccount, amount: u64, by_delegate: bool) -> HolderAccount {
    let left = if by_delegate {
        (f.delegated_amount - amount) as u64
    } else {
        f.delegated_amount
    };
    HolderAccount {
        address: f.address,
        mint: f.mint,
        owner: f.owner,
        amount: (f.amount - amount) as u64,
        delegate: if by_delegate && left == 0 {
            None
        } else {
            f.delegate
        },
        delegated_amount: left,
    }
}

pub open spec fn transfer_outcome(l: Ledger, a: TransferToken, amount: u64) -> Result<(), CustomError> {
    let f = l.holders@[holder_index(l.holders@, a.from@)];
    let t = l.holders@[holder_index(l.holders@, a.to@)];
    if !has_holder(l.holders@, a.from@) || !has_holder(l.holders@, a.to@) {
        Err(CustomError::AccountNotFound)
    } else if f.mint@ != t.mint@ {
        Err(CustomError::InvalidMint)
    } else if f.amount < amount {
        Err(CustomError::InsufficientBalance)
    } else if signs_as_delegate(f, a.authority@) && f.delegated_amount < amount {
        Err(CustomError::InsufficientBalance)
    } else if !signs_as_delegate(f, a.authority@) && f.owner@ != a.authority@ {
        Err(CustomError::Unauthorized)
    } else if a.from@ != a.to@ && t.amount + amount > u64::MAX {
        Err(CustomError::Overflow)
    } else {
        Ok(())
    }
}

/// The holder accounts after moving `amount`: the source loses it and the
/// destination gains it; a transfer of an account to itself changes nothing.
pub open spec fn transferred_holders(l: Ledger, a: TransferToken, amount: u64) -> Seq<HolderAccount> {
    let fi = holder_index(l.holders@, a.from@);
    let ti = holder_index(l.holders@, a.to@);
    let f = l.holders@[fi];
    let t = l.holders@[ti];
    if a.from@ == a.to@ {
        l.holders@
    } else {
        l.holders@.update(fi, debited(f, amount, signs_as_delegate(f, a.authority@))).update(
            ti,
            HolderAccount {
                address: t.address,
                mint: t.mint,
                owner: t.owner,
                amount: (t.amount + amount) as u64,
                delegate: t.delegate,
                delegated_amount: t.delegated_amount,
            },
        )
    }
}

/// Moves `amount` from one holder account to another of the same mint, on
/// the authority of the source's owner or of its approved delegate within
/// the allowance.
pub fn transfer_token(ledger: &mut Ledger, accounts: &TransferToken, amount: u64) -> (r: Result<
    (),
    CustomError,
>)
    requires
        old(ledger).wf(),
    ensures
        final(ledger).wf(),
        r == transfer_outcome(*old(ledger), *accounts, amount),
        r is Ok ==> {
            &&& final(ledger).holders@ == transferred_holders(*old(ledger), *accounts, amount)
            &&& final(ledger).mints@ == old(ledger).mints@
            &&& final(ledger).records@ == old(ledger).records@
            &&& keeps_config(*final(ledger), *old(ledger))
        },
        r is Err ==> *final(ledger) == *old(ledger),
{
    let fi = match ledger.find_holder(&accounts.from) {
        Some(i) => i,
        None => {
            return Err(CustomError::AccountNotFound);
        },
    };
    let ti = match ledger.find_holder(&accounts.to) {
        Some(i) => i,
        None => {
            return Err(CustomError::AccountNotFound);
        },
    };
    proof {
        lemma_holder_index(ledger.holders@, fi as int, accounts.from@);
        lemma_holder_index(ledger.holders@, ti as int, accounts.to@);
    }
    if !same_address(&ledger.holders[fi].mint, &ledger.holders[ti].mint) {
        return Err(CustomError::InvalidMint);
    }
    let source = ledger.holders[fi].amount;
    if source < amount {
        return Err(CustomError::InsufficientBalance);
    }
    let by_delegate = match ledger.holders[fi].delegate {
        Some(d) => same_address(&d, &accounts.authority),
        None => false,
    };
    if by_delegate {
        if ledger.holders[fi].delegated_amount < amount {
            return Err(CustomError::InsufficientBalance);
        }
    } else if !same_address(&ledger.holders[fi].owner, &accounts.authority) {
        return Err(CustomError::Unauthorized);
    }
    if fi == ti {
        return Ok(());
    }
    let target = ledger.holders[ti].amount;
    if amount > u64::MAX - target {
        return Err(CustomError::Overflow);
    }
    let ghost old_ledger = *ledger;
    let allowance = ledger.holders[fi].delegated_amount;
    let left = if by_delegate {
        allowance - amount
    } else {
        allowance
    };
    let delegate = if by_delegate && left == 0 {
        None
    } else {
        ledger.holders[fi].delegate
    };
    let f = HolderAccount {
        address: ledger.holders[fi].address,
        mint: ledger.holders[fi].mint,
        owner: ledger.holders[fi].owner,
        amount: source - amount,
        delegate,
        delegated_amount: left,
    };
    ledger.holders.set(fi, f);
    let t = HolderAccount {
        address: ledger.holders[ti].address,
        mint: ledger.holders[ti].mint,
        owner: ledger.holders[ti].owner,
        amount: target + amount,
        delegate: ledger.holders[ti].delegate,
        delegated_amount: ledger.holders[ti].delegated_amount,
    };
    ledger.holders.set(ti, t);
    proof {
        assert(ledger.holders@ == transferred_holders(old_ledger, *accounts, amount));
        assert forall|i: int, j: int|
            0 <= i < ledger.holders@.len() && 0 <= j < ledger.holders@.len() && i != j
                implies #[trigger] ledger.holders@[i].address@
            != #[trigger] ledger.holders@[j].address@ by {
            assert(old_ledger.holders@[i].address@ != old_ledger.holders@[j].address@);
        }
    }
    Ok(())
}

/// A transfer between holder accounts of different mints is refused with
/// `InvalidMint`, whatever the amount and whoever signs.
pub proof fn lemma_transfer_requires_same_mint(l: Ledger, a: TransferToken, amount: u64)
    requires
        has_holder(l.holders@, a.from@),
        has_holder(l.holders@, a.to@),
        l.holders@[holder_index(l.holders@, a.from@)].mint@ != l.holders@[holder_index(
            l.holders@,
            a.to@,
        )].mint@,
    ensures
        transfer_outcome(l, a, amount) == Err::<(), CustomError>(CustomError::InvalidMint),
{
}

/// Issuing `q` units raises the destination's balance by exactly `q` and
/// leaves the balance at every other address as it was.
pub proof fn lemma_mint_changes_only_destination(l: Ledger, a: MintToken, q: u64, x: Seq<u8>)
    requires
        l.wf(),
        mint_outcome(l, a, q) is Ok,
    ensures
        balance_of(minted_holders(l, a, q), a.destination@) == balance_of(l.holders@, a.destination@)
            + q,
        x != a.destination@ ==> balance_of(minted_holders(l, a, q), x) == balance_of(l.holders@, x),
{
    let s = l.holders@;
    let n = minted_holders(l, a, q);
    let d = a.destination@;
    if has_holder(s, d) {
        let i = holder_index(s, d);
        assert(crate::ledger::holder_at(n, i, d));
        assert forall|j: int, k: int|
            0 <= j < n.len() && 0 <= k < n.len() && j != k implies #[trigger] n[j].address@
            != #[trigger] n[k].address@ by {
            if j < s.len() && k < s.len() {
                assert(s[j].address@ != s[k].address@);
            }
        }
        lemma_holder_index(n, i, d);
        if has_holder(s, x) && x != d {
            let k = holder_index(s, x);
            assert(crate::ledger::holder_at(n, k, x));
            lemma_holder_index(n, k, x);
        }
        if has_holder(n, x) && x != d {
            let k = holder_index(n, x);
            assert(crate::ledger::holder_at(s, k, x));
        }
    } else {
        let i = s.len() as int;
        assert(crate::ledger::holder_at(n, i, d));
        assert forall|j: int| 0 <= j < s.len() implies #[trigger] s[j].address@ != d by {
            assert(!crate::ledger::holder_at(s, j, d));
        }
        assert forall|j: int, k: int|
            0 <= j < n.len() && 0 <= k < n.len() && j != k implies #[trigger] n[j].address@
            != #[trigger] n[k].address@ by {
            if j < s.len() && k < s.len() {
                assert(s[j].address@ != s[k].address@);
            }
        }
        lemma_holder_index(n, i, d);
        if has_holder(s, x) && x != d {
            let k = holder_index(s, x);
            assert(crate::ledger::holder_at(n, k, x));
            lemma_holder_index(n, k, x);
        }
        if has_holder(n, x) && x != d {
            let k = holder_index(n, x);
            assert(crate::ledger::holder_at(s, k, x));
        }
    }
}

/// Once a request has created a mint with its record, the same request made
/// again is refused with `AlreadyExists`.
pub proof fn lemma_create_twice_fails(l: Ledger, a: CreateTokenWithMetadata, after: Ledger)
    requires
        create_outcome(l, a) is Ok,
        after.mints@ == l.mints@.push(created_mint(a)),
        after.records@ == l.records@.push(created_record(a)),
        keeps_config(after, l),
    ensures
        create_outcome(after, a) == Err::<(), CustomError>(CustomError::AlreadyExists),
{
    assert(crate::ledger::mint_at(after.mints@, l.mints@.len() as int, a.mint@));
}

} // verus!
