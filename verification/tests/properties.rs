//! Exercises for the registry-wide properties: balance accounting across
//! operation sequences, exact event logs, operator revocation, and the
//! error reported on each rejected input.

use pokenft::ledger::{Approval, Error, Event, PokeNFT, Transfer};

fn acct(b: u8) -> [u8; 32] {
    [b; 32]
}

fn seed(b: u8) -> [u8; 32] {
    [b; 32]
}

#[test]
fn mint_increments_balance_by_one() {
    let mut nft = PokeNFT::new();
    assert_eq!(nft.balance_of(acct(1)), 0);

    nft.mint(seed(5), acct(1)).unwrap();
    assert_eq!(nft.balance_of(acct(1)), 1);
    assert_eq!(nft.owner_of(seed(5)), Some(acct(1)));

    nft.mint(seed(6), acct(1)).unwrap();
    assert_eq!(nft.balance_of(acct(1)), 2);
}

#[test]
fn mint_twice_fails_and_changes_nothing() {
    let mut nft = PokeNFT::new();
    nft.mint(seed(5), acct(1)).unwrap();
    let species = nft.pokemon_of(seed(5));
    let events_before = nft.events().len();

    let result = nft.mint(seed(5), acct(2));

    assert_eq!(result, Err(Error::TokenAlreadyExists));
    assert_eq!(nft.owner_of(seed(5)), Some(acct(1)));
    assert_eq!(nft.pokemon_of(seed(5)), species);
    assert_eq!(nft.balance_of(acct(1)), 1);
    assert_eq!(nft.balance_of(acct(2)), 0);
    assert_eq!(nft.events().len(), events_before);
}

#[test]
fn mint_by_zero_account_fails() {
    let mut nft = PokeNFT::new();

    let result = nft.mint(seed(5), [0u8; 32]);

    assert_eq!(result, Err(Error::NotAllowed));
    assert_eq!(nft.owner_of(seed(5)), None);
}

#[test]
fn transfer_moves_exactly_one_unit_and_keeps_species() {
    let mut nft = PokeNFT::new();
    nft.mint(seed(5), acct(1)).unwrap();
    nft.mint(seed(6), acct(1)).unwrap();
    let species = nft.pokemon_of(seed(5)).unwrap();

    nft.transfer(acct(2), seed(5), acct(1)).unwrap();

    assert_eq!(nft.balance_of(acct(1)), 1);
    assert_eq!(nft.balance_of(acct(2)), 1);
    assert_eq!(nft.pokemon_of(seed(5)), Some(species));
    assert_eq!(nft.get_approved(seed(5)), None);
}

#[test]
fn transfer_to_zero_account_fails() {
    let mut nft = PokeNFT::new();
    nft.mint(seed(5), acct(1)).unwrap();

    let result = nft.transfer([0u8; 32], seed(5), acct(1));

    assert_eq!(result, Err(Error::InvalidAddress));
    assert_eq!(nft.owner_of(seed(5)), Some(acct(1)));
}

#[test]
fn transfer_from_wrong_source_fails() {
    let mut nft = PokeNFT::new();
    nft.mint(seed(5), acct(1)).unwrap();

    // Caller is the owner and authorized, but `from` is not the owner.
    let result = nft.transfer_from(acct(3), acct(2), seed(5), acct(1));

    assert_eq!(result, Err(Error::NotAllowed));
    assert_eq!(nft.owner_of(seed(5)), Some(acct(1)));
    assert_eq!(nft.balance_of(acct(1)), 1);
    assert_eq!(nft.balance_of(acct(2)), 0);
    assert_eq!(nft.balance_of(acct(3)), 0);
}

#[test]
fn revoked_operator_cannot_transfer() {
    let mut nft = PokeNFT::new();
    nft.mint(seed(5), acct(1)).unwrap();
    nft.set_approval_for_all(acct(2), true, acct(1)).unwrap();
    nft.set_approval_for_all(acct(2), false, acct(1)).unwrap();

    assert_eq!(nft.is_approved_for_all(acct(1), acct(2)), false);

    let result = nft.transfer_from(acct(1), acct(2), seed(5), acct(2));

    assert_eq!(result, Err(Error::NotAllowed));
    assert_eq!(nft.owner_of(seed(5)), Some(acct(1)));
}

#[test]
fn operator_must_not_be_zero_or_self() {
    let mut nft = PokeNFT::new();

    assert_eq!(
        nft.set_approval_for_all([0u8; 32], true, acct(1)),
        Err(Error::InvalidAddress)
    );
    assert_eq!(
        nft.set_approval_for_all(acct(1), true, acct(1)),
        Err(Error::NotAllowed)
    );
    assert_eq!(nft.is_approved_for_all(acct(1), acct(1)), false);
}

#[test]
fn clear_approval_without_approval_is_a_quiet_no_op() {
    let mut nft = PokeNFT::new();
    nft.mint(seed(5), acct(1)).unwrap();
    let events_before = nft.events().len();

    let result = nft.clear_approval(seed(5), acct(1));

    assert_eq!(result, Ok(()));
    assert_eq!(nft.events().len(), events_before);
}

#[test]
fn clear_approval_of_missing_token_fails() {
    let mut nft = PokeNFT::new();

    assert_eq!(
        nft.clear_approval(seed(5), acct(1)),
        Err(Error::TokenNotFound)
    );
}

#[test]
fn approve_zero_leaves_approval_unchanged() {
    let mut nft = PokeNFT::new();
    nft.mint(seed(5), acct(1)).unwrap();
    nft.approve(acct(2), seed(5), acct(1)).unwrap();

    let result = nft.approve([0u8; 32], seed(5), acct(1));

    assert_eq!(result, Err(Error::InvalidAddress));
    assert_eq!(nft.get_approved(seed(5)), Some(acct(2)));
}

#[test]
fn transfer_logs_the_cleared_approval_then_the_move() {
    let mut nft = PokeNFT::new();
    nft.mint(seed(5), acct(1)).unwrap();
    nft.approve(acct(2), seed(5), acct(1)).unwrap();
    let before = nft.events().len();

    nft.transfer(acct(3), seed(5), acct(1)).unwrap();

    let events = nft.events();
    assert_eq!(events.len(), before + 2);
    assert_eq!(
        events[before],
        Event::Approval(Approval {
            seed: seed(5),
            account: None,
        })
    );
    assert_eq!(
        events[before + 1],
        Event::Transfer(Transfer {
            seed: seed(5),
            from: Some(acct(1)),
            to: Some(acct(3)),
        })
    );
}

#[test]
fn balances_sum_to_token_count_across_a_session() {
    let mut nft = PokeNFT::new();
    let accounts = [acct(1), acct(2), acct(3), acct(4)];

    nft.mint(seed(1), acct(1)).unwrap();
    nft.mint(seed(2), acct(1)).unwrap();
    nft.mint(seed(3), acct(2)).unwrap();
    nft.transfer(acct(3), seed(1), acct(1)).unwrap();
    nft.approve(acct(4), seed(2), acct(1)).unwrap();
    nft.transfer_from(acct(1), acct(4), seed(2), acct(4)).unwrap();
    nft.mint(seed(4), acct(4)).unwrap();
    let _ = nft.mint(seed(4), acct(2));
    let _ = nft.transfer(acct(2), seed(3), acct(4));

    let total: u64 = accounts.iter().map(|a| nft.balance_of(*a) as u64).sum();
    assert_eq!(total, 4);
}

#[test]
fn minted_species_matches_the_sampler() {
    let mut nft = PokeNFT::new();
    nft.mint([10u8; 32], acct(1)).unwrap();

    assert_eq!(
        nft.pokemon_of([10u8; 32]),
        Some(pokenft::rng::sample([10u8; 32]).unwrap())
    );
    assert_eq!(
        *nft.events().first().unwrap(),
        Event::Transfer(Transfer {
            seed: [10u8; 32],
            from: None,
            to: Some(acct(1)),
        })
    );
}
