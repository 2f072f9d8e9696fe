use pokenft::ledger::{Approval, Error, Event, PokeNFT, Transfer};

fn alice() -> [u8; 32] {
    [1u8; 32]
}

fn bob() -> [u8; 32] {
    [2u8; 32]
}

fn charlie() -> [u8; 32] {
    [3u8; 32]
}

fn zero_account() -> [u8; 32] {
    [0u8; 32]
}

fn seed(b: u8) -> [u8; 32] {
    [b; 32]
}

fn last_event(nft: &PokeNFT) -> Event {
    *nft.events().last().expect("No event found")
}

fn get_event(nft: &PokeNFT, idx: usize) -> Event {
    *nft.events().get(idx).expect("No event found")
}

#[test]
fn mint() {
    let mut nft = PokeNFT::new();
    nft.mint(seed(10), alice()).unwrap();

    assert_eq!(nft.owner_of(seed(10)), Some(alice()));
    assert_eq!(nft.pokemon_of(seed(10)), Some(16));

    if let Event::Transfer(Transfer { from, to, seed: s }) = last_event(&nft) {
        assert_eq!(from, None);
        assert_eq!(to, Some(alice()));
        assert_eq!(s, seed(10));
    } else {
        panic!("Expected to find Transfer event");
    };
}

#[test]
fn transfer() {
    let mut nft = PokeNFT::new();
    nft.mint(seed(0), alice()).unwrap();

    nft.transfer(bob(), seed(0), alice()).unwrap();

    assert_eq!(nft.owner_of(seed(0)), Some(bob()));

    if let Event::Transfer(Transfer { from, to, seed: s }) = last_event(&nft) {
        assert_eq!(from, Some(alice()));
        assert_eq!(to, Some(bob()));
        assert_eq!(s, seed(0));
    } else {
        panic!("Expected to find Transfer event");
    };
}

#[test]
fn transfer_someone_elses_token() {
    let mut nft = PokeNFT::new();
    nft.mint(seed(0), alice()).unwrap();

    let result = nft.transfer(alice(), seed(0), bob());

    assert_eq!(result, Err(Error::NotAllowed));
}

#[test]
fn approved_transfers_from() {
    let mut nft = PokeNFT::new();
    nft.mint(seed(0), alice()).unwrap();
    nft.approve(bob(), seed(0), alice()).unwrap();

    let result = nft.transfer_from(alice(), charlie(), seed(0), bob());

    assert_eq!(result, Ok(()));
    assert_eq!(nft.owner_of(seed(0)).unwrap(), charlie());
}

#[test]
fn unapproved_transfers_from() {
    let mut nft = PokeNFT::new();
    nft.mint(seed(0), alice()).unwrap();

    let result = nft.transfer_from(alice(), charlie(), seed(0), bob());

    assert_eq!(result, Err(Error::NotAllowed));
    assert_eq!(nft.owner_of(seed(0)).unwrap(), alice());
}

#[test]
fn transfer_non_existing_token() {
    let mut nft = PokeNFT::new();

    let result = nft.transfer(bob(), seed(0), alice());

    assert_eq!(result, Err(Error::TokenNotFound));
}

#[test]
fn transfer_removes_approval() {
    let mut nft = PokeNFT::new();
    nft.mint(seed(0), alice()).unwrap();
    nft.approve(bob(), seed(0), alice()).unwrap();

    nft.transfer(charlie(), seed(0), alice()).unwrap();

    assert_eq!(nft.get_approved(seed(0)), None);
}

#[test]
fn balance_of() {
    let mut nft = PokeNFT::new();
    nft.mint(seed(0), alice()).unwrap();
    nft.mint(seed(1), alice()).unwrap();

    assert_eq!(nft.balance_of(alice()), 2);
    assert_eq!(nft.balance_of(bob()), 0);

    nft.transfer(bob(), seed(0), alice()).unwrap();

    assert_eq!(nft.balance_of(alice()), 1);
    assert_eq!(nft.balance_of(bob()), 1);

    nft.transfer(alice(), seed(0), bob()).unwrap();

    assert_eq!(nft.balance_of(alice()), 2);
    assert_eq!(nft.balance_of(bob()), 0);
}

#[test]
fn owner_of() {
    let mut nft = PokeNFT::new();
    nft.mint(seed(0), alice()).unwrap();
    nft.mint(seed(1), alice()).unwrap();

    assert_eq!(nft.owner_of(seed(0)), Some(alice()));
    assert_eq!(nft.owner_of(seed(1)), Some(alice()));
    assert_eq!(nft.owner_of(seed(2)), None);

    nft.transfer(bob(), seed(0), alice()).unwrap();

    assert_eq!(nft.owner_of(seed(0)), Some(bob()));
    assert_eq!(nft.owner_of(seed(1)), Some(alice()));
    assert_eq!(nft.owner_of(seed(2)), None);
}

#[test]
fn pokemon_of() {
    let mut nft = PokeNFT::new();
    nft.mint(seed(0), alice()).unwrap();
    nft.mint(seed(1), alice()).unwrap();

    assert_eq!(nft.pokemon_of(seed(0)), Some(72));
    assert_eq!(nft.pokemon_of(seed(1)), Some(19));
    assert_eq!(nft.pokemon_of(seed(2)), None);
}

#[test]
fn approved() {
    let mut nft = PokeNFT::new();
    nft.mint(seed(0), alice()).unwrap();

    assert_eq!(nft.get_approved(seed(0)), None);

    nft.approve(bob(), seed(0), alice()).unwrap();

    assert_eq!(nft.get_approved(seed(0)), Some(bob()));

    if let Event::Approval(Approval { seed: s, account }) = get_event(&nft, 1) {
        assert_eq!(s, seed(0));
        assert_eq!(account, Some(bob()));
    } else {
        panic!("Expected last event to be an Approval");
    }
}

#[test]
fn approve_zero_address() {
    let mut nft = PokeNFT::new();
    nft.mint(seed(0), alice()).unwrap();

    assert_eq!(
        nft.approve(zero_account(), seed(0), alice()),
        Err(Error::InvalidAddress)
    );
}

#[test]
fn approve_while_not_owner() {
    let mut nft = PokeNFT::new();
    nft.mint(seed(0), alice()).unwrap();

    assert_eq!(nft.approve(bob(), seed(0), bob()), Err(Error::NotAllowed));
}

#[test]
fn approve_non_existing_token() {
    let mut nft = PokeNFT::new();
    assert_eq!(nft.get_approved(seed(0)), None);

    let result = nft.approve(bob(), seed(0), alice());

    assert_eq!(result, Err(Error::TokenNotFound));
}

#[test]
fn approve_while_approved() {
    let mut nft = PokeNFT::new();
    nft.mint(seed(0), alice()).unwrap();
    nft.approve(bob(), seed(0), alice()).unwrap();

    let result = nft.approve(alice(), seed(0), bob());

    assert_eq!(result, Ok(()));
}

#[test]
fn clear_approval() {
    let mut nft = PokeNFT::new();

    nft.mint(seed(0), alice()).unwrap();

    nft.approve(bob(), seed(0), alice()).unwrap();
    assert_eq!(nft.get_approved(seed(0)), Some(bob()));

    nft.clear_approval(seed(0), alice()).unwrap();

    assert_eq!(nft.get_approved(seed(0)), None);
}

#[test]
fn approver_removes_itself() {
    let mut nft = PokeNFT::new();

    nft.mint(seed(0), alice()).unwrap();

    nft.approve(bob(), seed(0), alice()).unwrap();
    assert_eq!(nft.get_approved(seed(0)), Some(bob()));

    nft.clear_approval(seed(0), bob()).unwrap();

    assert_eq!(nft.get_approved(seed(0)), None);
}

#[test]
fn other_user_fails_to_remove_approver() {
    let mut nft = PokeNFT::new();

    nft.mint(seed(0), alice()).unwrap();

    nft.approve(bob(), seed(0), alice()).unwrap();
    assert_eq!(nft.get_approved(seed(0)), Some(bob()));

    let result = nft.clear_approval(seed(0), charlie());

    assert_eq!(result, Err(Error::NotAllowed));
    assert_eq!(nft.get_approved(seed(0)), Some(bob()));
}

#[test]
fn approved_for_all() {
    let mut nft = PokeNFT::new();

    assert_eq!(nft.is_approved_for_all(alice(), bob()), false);

    nft.set_approval_for_all(bob(), true, alice()).unwrap();

    assert_eq!(nft.is_approved_for_all(alice(), bob()), true);
}

#[test]
fn operator_can_transfer_from_owner() {
    let mut nft = PokeNFT::new();
    nft.mint(seed(0), alice()).unwrap();
    nft.set_approval_for_all(bob(), true, alice()).unwrap();

    nft.transfer_from(alice(), bob(), seed(0), bob()).unwrap();
}
