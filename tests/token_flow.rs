use anchor_spl_token_demo::authority::{associated_address, authority_seeds};
use anchor_spl_token_demo::{
    check_authority, create_token_with_metadata, mint_token, resolve_authority, transfer_token,
    CreateTokenWithMetadata, CustomError, HolderAccount, Ledger, MintToken, TransferToken,
};

const PROGRAM: [u8; 32] = [7u8; 32];
const PAYER: [u8; 32] = [11u8; 32];
const OTHER_PAYER: [u8; 32] = [12u8; 32];
const OTHER_HOLDER: [u8; 32] = [22u8; 32];
const TOKEN_PROGRAM: [u8; 32] = [31u8; 32];
const ASSOCIATED_PROGRAM: [u8; 32] = [32u8; 32];

fn new_ledger() -> Ledger {
    Ledger::new(PROGRAM, label(), TOKEN_PROGRAM, ASSOCIATED_PROGRAM)
}

fn ata(owner: [u8; 32], mint: [u8; 32]) -> [u8; 32] {
    associated_address(&owner, &TOKEN_PROGRAM, &mint, &ASSOCIATED_PROGRAM).expect("derivable")
}

fn holder(address: [u8; 32], mint: [u8; 32], owner: [u8; 32], amount: u64) -> HolderAccount {
    HolderAccount { address, mint, owner, amount, delegate: None, delegated_amount: 0 }
}

fn label() -> Vec<u8> {
    b"abc".to_vec()
}

fn canonical(label: &[u8]) -> ([u8; 32], u8) {
    let a = resolve_authority(&label.to_vec(), None, &PROGRAM).expect("derivable");
    (a.address, a.bump)
}

fn create_request(mint: [u8; 32], bump: u8, decimals: u8) -> CreateTokenWithMetadata {
    CreateTokenWithMetadata {
        mint,
        mint_bump: bump,
        payer: PAYER,
        decimals,
        name: b"Person Top Token".to_vec(),
        symbol: b"PTT".to_vec(),
        uri: b"https://example.org/metadata.json".to_vec(),
        seller_fee_basis_points: 0,
        is_mutable: true,
    }
}

fn ledger_with_mint() -> (Ledger, [u8; 32], u8) {
    let mut ledger = new_ledger();
    let (mint, bump) = canonical(b"abc");
    assert_eq!(create_token_with_metadata(&mut ledger, create_request(mint, bump, 9)), Ok(()));
    (ledger, mint, bump)
}

fn balance(ledger: &Ledger, address: [u8; 32]) -> Option<u64> {
    ledger.holders.iter().find(|h| h.address == address).map(|h| h.amount)
}

#[test]
fn derivation_is_repeatable() {
    let first = resolve_authority(&label(), None, &PROGRAM).unwrap();
    let second = resolve_authority(&label(), None, &PROGRAM).unwrap();
    assert_eq!(first, second);
    assert!(first.bump >= 1);
    let keyed1 = resolve_authority(&label(), Some([3u8; 32]), &PROGRAM).unwrap();
    let keyed2 = resolve_authority(&label(), Some([3u8; 32]), &PROGRAM).unwrap();
    assert_eq!(keyed1, keyed2);
    assert_ne!(keyed1.address, first.address);
}

#[test]
fn derived_address_is_not_an_input() {
    let a = resolve_authority(&label(), None, &PROGRAM).unwrap();
    assert_ne!(a.address, PROGRAM);
    assert_ne!(a.address.to_vec(), label());
    let other = resolve_authority(&b"xyz".to_vec(), None, &PROGRAM).unwrap();
    assert_ne!(a.address, other.address);
}

#[test]
fn signer_seeds_end_with_bump() {
    let a = resolve_authority(&label(), None, &PROGRAM).unwrap();
    assert_eq!(a.signer_seeds(), vec![label(), vec![a.bump]]);
    let seeds = authority_seeds(&label(), Some([5u8; 32]));
    assert_eq!(seeds, vec![label(), vec![5u8; 32]]);
}

#[test]
fn canonical_bump_is_accepted() {
    let (mint, bump) = canonical(b"abc");
    let a = check_authority(&label(), None, &mint, bump, &PROGRAM).unwrap();
    assert_eq!(a.address, mint);
    assert_eq!(a.bump, bump);
}

#[test]
fn chosen_bump_is_rejected() {
    let (mint, bump) = canonical(b"abc");
    let forged = bump.wrapping_sub(1);
    assert_eq!(
        check_authority(&label(), None, &mint, forged, &PROGRAM).unwrap_err(),
        CustomError::AuthorityMismatch
    );
    assert_eq!(
        check_authority(&label(), None, &[9u8; 32], bump, &PROGRAM).unwrap_err(),
        CustomError::AuthorityMismatch
    );
    let mut ledger = new_ledger();
    let before = ledger.clone();
    assert_eq!(
        create_token_with_metadata(&mut ledger, create_request(mint, forged, 9)),
        Err(CustomError::AuthorityMismatch)
    );
    assert_eq!(ledger, before);
}

#[test]
fn create_sets_self_authority() {
    let (ledger, mint, _) = ledger_with_mint();
    assert_eq!(ledger.mints.len(), 1);
    assert_eq!(ledger.mints[0].address, mint);
    assert_eq!(ledger.mints[0].authority, mint);
    assert_eq!(ledger.mints[0].decimals, 9);
    assert_eq!(ledger.mints[0].supply, 0);
    assert_eq!(ledger.records.len(), 1);
    assert_eq!(ledger.records[0].mint, mint);
    assert_eq!(ledger.records[0].update_authority, mint);
    assert_eq!(ledger.records[0].symbol, b"PTT".to_vec());
}

#[test]
fn create_twice_fails() {
    let (mut ledger, mint, bump) = ledger_with_mint();
    let before = ledger.clone();
    let mut again = create_request(mint, bump, 6);
    again.name = b"Another Name".to_vec();
    assert_eq!(create_token_with_metadata(&mut ledger, again), Err(CustomError::AlreadyExists));
    assert_eq!(ledger, before);
    assert_eq!(ledger.records[0].name, b"Person Top Token".to_vec());
}

#[test]
fn create_rejects_long_fields() {
    let (mint, bump) = canonical(b"abc");
    let mut ledger = new_ledger();
    let mut req = create_request(mint, bump, 9);
    req.name = vec![b'n'; 33];
    assert_eq!(create_token_with_metadata(&mut ledger, req), Err(CustomError::FieldTooLong));
    let mut req = create_request(mint, bump, 9);
    req.symbol = vec![b's'; 11];
    assert_eq!(create_token_with_metadata(&mut ledger, req), Err(CustomError::FieldTooLong));
    let mut req = create_request(mint, bump, 9);
    req.uri = vec![b'u'; 201];
    assert_eq!(create_token_with_metadata(&mut ledger, req), Err(CustomError::FieldTooLong));
    let mut req = create_request(mint, bump, 9);
    req.name = vec![b'n'; 32];
    req.symbol = vec![b's'; 10];
    req.uri = vec![b'u'; 200];
    assert_eq!(create_token_with_metadata(&mut ledger, req), Ok(()));
}

#[test]
fn create_rejects_basis_points_above_whole() {
    let (mint, bump) = canonical(b"abc");
    let mut ledger = new_ledger();
    let mut req = create_request(mint, bump, 9);
    req.seller_fee_basis_points = 10001;
    assert_eq!(create_token_with_metadata(&mut ledger, req), Err(CustomError::InvalidBasisPoints));
    assert!(ledger.mints.is_empty());
    let mut req = create_request(mint, bump, 9);
    req.seller_fee_basis_points = 10000;
    assert_eq!(create_token_with_metadata(&mut ledger, req), Ok(()));
}

#[test]
fn scenario_mint_one_billion() {
    let (mut ledger, mint, bump) = ledger_with_mint();
    let dest = ata(PAYER, mint);
    let req = MintToken { mint, mint_bump: bump, destination: dest, payer: PAYER };
    assert_eq!(mint_token(&mut ledger, &req, 1_000_000_000), Ok(()));
    assert_eq!(balance(&ledger, dest), Some(1_000_000_000));
    assert_eq!(ledger.mints[0].supply, 1_000_000_000);
    assert_eq!(ledger.holders[0].owner, PAYER);
    assert_eq!(ledger.holders[0].mint, mint);
}

#[test]
fn mint_changes_only_destination() {
    let (mut ledger, mint, bump) = ledger_with_mint();
    let first = ata(PAYER, mint);
    let second = ata(OTHER_PAYER, mint);
    let to_first = MintToken { mint, mint_bump: bump, destination: first, payer: PAYER };
    let to_second = MintToken { mint, mint_bump: bump, destination: second, payer: OTHER_PAYER };
    assert_eq!(mint_token(&mut ledger, &to_first, 500), Ok(()));
    assert_eq!(mint_token(&mut ledger, &to_second, 70), Ok(()));
    assert_eq!(mint_token(&mut ledger, &to_first, 25), Ok(()));
    assert_eq!(balance(&ledger, first), Some(525));
    assert_eq!(balance(&ledger, second), Some(70));
    assert_eq!(ledger.mints[0].supply, 595);
}

#[test]
fn mint_zero_is_no_change() {
    let (mut ledger, mint, bump) = ledger_with_mint();
    let req = MintToken { mint, mint_bump: bump, destination: ata(PAYER, mint), payer: PAYER };
    assert_eq!(mint_token(&mut ledger, &req, 40), Ok(()));
    let before = ledger.clone();
    assert_eq!(mint_token(&mut ledger, &req, 0), Ok(()));
    assert_eq!(ledger, before);
}

#[test]
fn mint_overflow_is_rejected() {
    let (mut ledger, mint, bump) = ledger_with_mint();
    let req = MintToken { mint, mint_bump: bump, destination: ata(PAYER, mint), payer: PAYER };
    assert_eq!(mint_token(&mut ledger, &req, u64::MAX), Ok(()));
    let before = ledger.clone();
    assert_eq!(mint_token(&mut ledger, &req, 1), Err(CustomError::Overflow));
    assert_eq!(ledger, before);
}

#[test]
fn mint_before_create_is_rejected() {
    let (mint, bump) = canonical(b"abc");
    let mut ledger = new_ledger();
    let req = MintToken { mint, mint_bump: bump, destination: ata(PAYER, mint), payer: PAYER };
    assert_eq!(mint_token(&mut ledger, &req, 1), Err(CustomError::AccountNotFound));
}

#[test]
fn mint_with_forged_bump_is_rejected() {
    let (mut ledger, mint, bump) = ledger_with_mint();
    let req = MintToken {
        mint,
        mint_bump: bump.wrapping_sub(1),
        destination: ata(PAYER, mint),
        payer: PAYER,
    };
    let before = ledger.clone();
    assert_eq!(mint_token(&mut ledger, &req, 1), Err(CustomError::AuthorityMismatch));
    assert_eq!(ledger, before);
}

#[test]
fn mint_checks_recorded_authority() {
    let (mut ledger, mint, bump) = ledger_with_mint();
    ledger.mints[0].authority = PAYER;
    let req = MintToken { mint, mint_bump: bump, destination: ata(PAYER, mint), payer: PAYER };
    assert_eq!(mint_token(&mut ledger, &req, 1), Err(CustomError::AuthorityMismatch));
}

#[test]
fn mint_only_to_associated_account() {
    let (mut ledger, mint, bump) = ledger_with_mint();
    let before = ledger.clone();
    let req = MintToken { mint, mint_bump: bump, destination: OTHER_HOLDER, payer: PAYER };
    assert_eq!(mint_token(&mut ledger, &req, 1), Err(CustomError::InvalidDestination));
    let someone_else = MintToken {
        mint,
        mint_bump: bump,
        destination: ata(OTHER_PAYER, mint),
        payer: PAYER,
    };
    assert_eq!(mint_token(&mut ledger, &someone_else, 1), Err(CustomError::InvalidDestination));
    assert_eq!(ledger, before);
}

#[test]
fn mint_checks_destination_account() {
    let (mut ledger, mint, bump) = ledger_with_mint();
    ledger.holders.push(holder(ata(PAYER, mint), [1u8; 32], PAYER, 0));
    ledger.holders.push(holder(ata(OTHER_PAYER, mint), mint, [2u8; 32], 0));
    let wrong_mint = MintToken { mint, mint_bump: bump, destination: ata(PAYER, mint), payer: PAYER };
    assert_eq!(mint_token(&mut ledger, &wrong_mint, 1), Err(CustomError::InvalidMint));
    let wrong_owner = MintToken {
        mint,
        mint_bump: bump,
        destination: ata(OTHER_PAYER, mint),
        payer: OTHER_PAYER,
    };
    assert_eq!(mint_token(&mut ledger, &wrong_owner, 1), Err(CustomError::Unauthorized));
}

fn two_mint_ledger() -> (Ledger, [u8; 32], [u8; 32]) {
    let (mut ledger, m1, b1) = ledger_with_mint();
    let req = MintToken { mint: m1, mint_bump: b1, destination: ata(PAYER, m1), payer: PAYER };
    assert_eq!(mint_token(&mut ledger, &req, 100), Ok(()));
    ledger.authority_label = b"xyz".to_vec();
    let (m2, b2) = canonical(b"xyz");
    assert_eq!(create_token_with_metadata(&mut ledger, create_request(m2, b2, 6)), Ok(()));
    let req = MintToken { mint: m2, mint_bump: b2, destination: ata(PAYER, m2), payer: PAYER };
    assert_eq!(mint_token(&mut ledger, &req, 50), Ok(()));
    (ledger, m1, m2)
}

#[test]
fn scenario_transfer_across_mints() {
    let (mut ledger, m1, m2) = two_mint_ledger();
    assert_ne!(m1, m2);
    let (h1, h2) = (ata(PAYER, m1), ata(PAYER, m2));
    let before = ledger.clone();
    let req = TransferToken { from: h1, to: h2, authority: PAYER };
    assert_eq!(transfer_token(&mut ledger, &req, 10), Err(CustomError::InvalidMint));
    assert_eq!(transfer_token(&mut ledger, &req, 1000), Err(CustomError::InvalidMint));
    let unsigned = TransferToken { from: h1, to: h2, authority: [3u8; 32] };
    assert_eq!(transfer_token(&mut ledger, &unsigned, 10), Err(CustomError::InvalidMint));
    assert_eq!(ledger, before);
    assert_eq!(balance(&ledger, h1), Some(100));
    assert_eq!(balance(&ledger, h2), Some(50));
}

fn one_mint_two_holders() -> (Ledger, [u8; 32]) {
    let (mut ledger, mint, bump) = ledger_with_mint();
    let source = ata(PAYER, mint);
    let req = MintToken { mint, mint_bump: bump, destination: source, payer: PAYER };
    assert_eq!(mint_token(&mut ledger, &req, 100), Ok(()));
    ledger.holders.push(holder(OTHER_HOLDER, mint, [2u8; 32], 5));
    (ledger, source)
}

#[test]
fn scenario_transfer_beyond_balance() {
    let (mut ledger, source) = one_mint_two_holders();
    let before = ledger.clone();
    let req = TransferToken { from: source, to: OTHER_HOLDER, authority: PAYER };
    assert_eq!(transfer_token(&mut ledger, &req, 101), Err(CustomError::InsufficientBalance));
    assert_eq!(ledger, before);
}

#[test]
fn transfer_moves_balance() {
    let (mut ledger, source) = one_mint_two_holders();
    let req = TransferToken { from: source, to: OTHER_HOLDER, authority: PAYER };
    assert_eq!(transfer_token(&mut ledger, &req, 40), Ok(()));
    assert_eq!(balance(&ledger, source), Some(60));
    assert_eq!(balance(&ledger, OTHER_HOLDER), Some(45));
    assert_eq!(transfer_token(&mut ledger, &req, 60), Ok(()));
    assert_eq!(balance(&ledger, source), Some(0));
    assert_eq!(balance(&ledger, OTHER_HOLDER), Some(105));
    assert_eq!(ledger.mints[0].supply, 100);
}

#[test]
fn transfer_needs_owner() {
    let (mut ledger, source) = one_mint_two_holders();
    let before = ledger.clone();
    let req = TransferToken { from: source, to: OTHER_HOLDER, authority: [2u8; 32] };
    assert_eq!(transfer_token(&mut ledger, &req, 1), Err(CustomError::Unauthorized));
    assert_eq!(ledger, before);
}

#[test]
fn transfer_by_delegate_within_allowance() {
    let (mut ledger, source) = one_mint_two_holders();
    let delegate = [4u8; 32];
    ledger.holders[0].delegate = Some(delegate);
    ledger.holders[0].delegated_amount = 30;
    let req = TransferToken { from: source, to: OTHER_HOLDER, authority: delegate };
    assert_eq!(transfer_token(&mut ledger, &req, 20), Ok(()));
    assert_eq!(balance(&ledger, source), Some(80));
    assert_eq!(balance(&ledger, OTHER_HOLDER), Some(25));
    assert_eq!(ledger.holders[0].delegated_amount, 10);
    assert_eq!(ledger.holders[0].delegate, Some(delegate));
    assert_eq!(transfer_token(&mut ledger, &req, 10), Ok(()));
    assert_eq!(ledger.holders[0].delegated_amount, 0);
    assert_eq!(ledger.holders[0].delegate, None);
    assert_eq!(transfer_token(&mut ledger, &req, 1), Err(CustomError::Unauthorized));
}

#[test]
fn transfer_by_delegate_beyond_allowance() {
    let (mut ledger, source) = one_mint_two_holders();
    let delegate = [4u8; 32];
    ledger.holders[0].delegate = Some(delegate);
    ledger.holders[0].delegated_amount = 30;
    let before = ledger.clone();
    let req = TransferToken { from: source, to: OTHER_HOLDER, authority: delegate };
    assert_eq!(transfer_token(&mut ledger, &req, 31), Err(CustomError::InsufficientBalance));
    assert_eq!(ledger, before);
    let by_owner = TransferToken { from: source, to: OTHER_HOLDER, authority: PAYER };
    assert_eq!(transfer_token(&mut ledger, &by_owner, 31), Ok(()));
    assert_eq!(ledger.holders[0].delegated_amount, 30);
}

#[test]
fn transfer_to_unknown_account() {
    let (mut ledger, source) = one_mint_two_holders();
    let req = TransferToken { from: source, to: [99u8; 32], authority: PAYER };
    assert_eq!(transfer_token(&mut ledger, &req, 1), Err(CustomError::AccountNotFound));
}

#[test]
fn transfer_overflow_is_rejected() {
    let (mut ledger, source) = one_mint_two_holders();
    ledger.holders[1].amount = u64::MAX;
    let before = ledger.clone();
    let req = TransferToken { from: source, to: OTHER_HOLDER, authority: PAYER };
    assert_eq!(transfer_token(&mut ledger, &req, 1), Err(CustomError::Overflow));
    assert_eq!(ledger, before);
}

#[test]
fn transfer_to_self_changes_nothing() {
    let (mut ledger, source) = one_mint_two_holders();
    let before = ledger.clone();
    let req = TransferToken { from: source, to: source, authority: PAYER };
    assert_eq!(transfer_token(&mut ledger, &req, 100), Ok(()));
    assert_eq!(ledger, before);
}
