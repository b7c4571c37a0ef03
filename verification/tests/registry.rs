use nft_collection::registry::NFTCollection;
use nft_collection::types::{Approval, CollectionInfo, Error, Expiration, Ledger};

fn base_info() -> CollectionInfo {
    CollectionInfo {
        creator: 1,
        admin: 2,
        minter: 3,
        name: Some(b"orbit".to_vec()),
        description: None,
        external_link: None,
        royalty_info: None,
    }
}

fn led(sequence: u32) -> Ledger {
    Ledger { sequence, timestamp: 1_000 }
}

fn ready() -> NFTCollection {
    let mut c = NFTCollection::new();
    assert_eq!(c.initialize(base_info(), false), Ok(()));
    c
}

#[test]
fn initialize_succeeds_once() {
    let mut c = NFTCollection::new();
    assert_eq!(c.initialize(base_info(), false), Ok(()));
    assert_eq!(c.initialize(base_info(), false), Err(Error::AlreadyInitialized));
    assert_eq!(c.get_collection_info().unwrap().minter, 3);
}

#[test]
fn uninitialized_reads_fail() {
    let c = NFTCollection::new();
    assert!(matches!(c.get_collection_info(), Err(Error::NotInitialized)));
    assert_eq!(c.upgrade(), Err(Error::NotInitialized));
    assert_eq!(c.get_tokens_count(), 0);
    assert_eq!(c.get_max_token_id(), 0);
    assert!(!c.is_collection_frozen());
}

#[test]
fn mint_requires_initialization() {
    let mut c = NFTCollection::new();
    assert_eq!(c.mint(7, 1, b"u".to_vec(), led(10)), Err(Error::NotInitialized));
}

#[test]
fn mint_and_read_back() {
    let mut c = ready();
    assert_eq!(c.mint(7, 5, b"ipfs://a".to_vec(), led(10)), Ok(()));
    let t = c.get_token_info(5).unwrap();
    assert_eq!(t.owner, 7);
    assert_eq!(t.token_uri, b"ipfs://a".to_vec());
    assert!(t.approvals.is_empty());
    assert_eq!(c.get_tokens_count(), 1);
    assert_eq!(c.get_max_token_id(), 5);
}

#[test]
fn second_mint_of_same_id_fails() {
    let mut c = ready();
    assert_eq!(c.mint(7, 5, b"a".to_vec(), led(10)), Ok(()));
    assert_eq!(c.mint(8, 5, b"b".to_vec(), led(10)), Err(Error::AlreadyMinted));
    assert_eq!(c.get_token_info(5).unwrap().owner, 7);
    assert_eq!(c.get_tokens_count(), 1);
}

#[test]
fn bulk_mint_two_ids() {
    let mut c = ready();
    let batch = vec![(5, b"five".to_vec()), (7, b"seven".to_vec())];
    assert_eq!(c.bulk_mint(9, batch, led(10)), Ok(()));
    assert_eq!(c.get_tokens_count(), 2);
    assert_eq!(c.get_max_token_id(), 7);
    assert_eq!(c.get_token_info(5).unwrap().token_uri, b"five".to_vec());
    assert_eq!(c.get_token_info(7).unwrap().owner, 9);
}

#[test]
fn bulk_mint_is_atomic_on_existing_id() {
    let mut c = ready();
    assert_eq!(c.mint(7, 5, b"a".to_vec(), led(10)), Ok(()));
    let batch = vec![(6, b"b".to_vec()), (5, b"c".to_vec())];
    assert_eq!(c.bulk_mint(9, batch, led(10)), Err(Error::AlreadyMinted));
    assert_eq!(c.get_tokens_count(), 1);
    assert!(matches!(c.get_token_info(6), Err(Error::NotNFT)));
    assert_eq!(c.get_max_token_id(), 5);
}

#[test]
fn bulk_mint_is_atomic_on_duplicate_within_batch() {
    let mut c = ready();
    let batch = vec![(8, b"a".to_vec()), (8, b"b".to_vec())];
    assert_eq!(c.bulk_mint(9, batch, led(10)), Err(Error::AlreadyMinted));
    assert_eq!(c.get_tokens_count(), 0);
    assert!(matches!(c.get_token_info(8), Err(Error::NotNFT)));
}

#[test]
fn transfer_moves_ownership_and_clears_approvals() {
    let mut c = ready();
    assert_eq!(c.mint(7, 1, b"a".to_vec(), led(10)), Ok(()));
    assert_eq!(c.approve(7, 20, 1, None, led(10)), Ok(()));
    assert_eq!(c.approve(7, 21, 1, Some(Expiration::AtHeight(500)), led(10)), Ok(()));
    assert_eq!(c.get_token_info(1).unwrap().approvals.len(), 2);
    assert_eq!(c.transfer(7, 30, 1, led(10)), Ok(()));
    let t = c.get_token_info(1).unwrap();
    assert_eq!(t.owner, 30);
    assert!(t.approvals.is_empty());
    assert_eq!(t.token_uri, b"a".to_vec());
}

#[test]
fn approved_spender_can_transfer_and_approvals_reset() {
    let mut c = ready();
    assert_eq!(c.mint(7, 1, b"a".to_vec(), led(10)), Ok(()));
    assert_eq!(c.approve(7, 20, 1, None, led(10)), Ok(()));
    assert_eq!(c.transfer(20, 20, 1, led(10)), Ok(()));
    let t = c.get_token_info(1).unwrap();
    assert_eq!(t.owner, 20);
    assert!(t.approvals.is_empty());
}

#[test]
fn transfer_of_missing_item_fails() {
    let mut c = ready();
    assert_eq!(c.transfer(7, 8, 42, led(10)), Err(Error::NotNFT));
}

#[test]
fn stranger_cannot_transfer() {
    let mut c = ready();
    assert_eq!(c.mint(7, 1, b"a".to_vec(), led(10)), Ok(()));
    assert_eq!(c.transfer(99, 99, 1, led(10)), Err(Error::NotAuthorized));
    assert_eq!(c.get_token_info(1).unwrap().owner, 7);
}

#[test]
fn approval_expires_at_height() {
    let mut c = ready();
    assert_eq!(c.mint(7, 1, b"a".to_vec(), led(10)), Ok(()));
    assert_eq!(c.approve(7, 20, 1, Some(Expiration::AtHeight(100)), led(10)), Ok(()));
    // at height 99 the approval still holds; at 100 it has lapsed
    let mut probe = c;
    assert_eq!(probe.transfer(20, 20, 1, led(99)), Ok(()));
    let mut c = ready();
    assert_eq!(c.mint(7, 1, b"a".to_vec(), led(10)), Ok(()));
    assert_eq!(c.approve(7, 20, 1, Some(Expiration::AtHeight(100)), led(10)), Ok(()));
    assert_eq!(c.transfer(20, 20, 1, led(100)), Err(Error::NotAuthorized));
    assert_eq!(c.transfer(20, 20, 1, led(150)), Err(Error::NotAuthorized));
    assert_eq!(c.get_token_info(1).unwrap().owner, 7);
}

#[test]
fn approval_expires_at_time() {
    let mut c = ready();
    assert_eq!(c.mint(7, 1, b"a".to_vec(), led(10)), Ok(()));
    assert_eq!(c.approve(7, 20, 1, Some(Expiration::AtTime(2_000)), led(10)), Ok(()));
    let late = Ledger { sequence: 10, timestamp: 2_000 };
    assert_eq!(c.transfer(20, 20, 1, late), Err(Error::NotAuthorized));
    let early = Ledger { sequence: 10, timestamp: 1_999 };
    assert_eq!(c.transfer(20, 20, 1, early), Ok(()));
}

#[test]
fn approving_with_lapsed_expiration_fails() {
    let mut c = ready();
    assert_eq!(c.mint(7, 1, b"a".to_vec(), led(10)), Ok(()));
    assert_eq!(
        c.approve(7, 20, 1, Some(Expiration::AtHeight(10)), led(10)),
        Err(Error::NotAuthorized)
    );
    assert!(c.get_token_info(1).unwrap().approvals.is_empty());
}

#[test]
fn approve_overwrites_previous_grant_for_spender() {
    let mut c = ready();
    assert_eq!(c.mint(7, 1, b"a".to_vec(), led(10)), Ok(()));
    assert_eq!(c.approve(7, 20, 1, Some(Expiration::AtHeight(50)), led(10)), Ok(()));
    assert_eq!(c.approve(7, 20, 1, Some(Expiration::AtHeight(90)), led(10)), Ok(()));
    let t = c.get_token_info(1).unwrap();
    assert_eq!(t.approvals.len(), 1);
    assert_eq!(t.approvals[0], Approval { spender: 20, expires: Expiration::AtHeight(90) });
}

#[test]
fn revoke_removes_spender() {
    let mut c = ready();
    assert_eq!(c.mint(7, 1, b"a".to_vec(), led(10)), Ok(()));
    assert_eq!(c.approve(7, 20, 1, None, led(10)), Ok(()));
    assert_eq!(c.revoke(7, 20, 1, led(10)), Ok(()));
    assert!(c.get_token_info(1).unwrap().approvals.is_empty());
    assert_eq!(c.transfer(20, 20, 1, led(10)), Err(Error::NotAuthorized));
}

#[test]
fn burn_removes_item_and_lowers_count_only() {
    let mut c = ready();
    assert_eq!(c.mint(7, 5, b"a".to_vec(), led(10)), Ok(()));
    assert_eq!(c.mint(7, 9, b"b".to_vec(), led(10)), Ok(()));
    assert_eq!(c.get_tokens_count(), 2);
    assert_eq!(c.burn(7, 9, led(10)), Ok(()));
    assert!(matches!(c.get_token_info(9), Err(Error::NotNFT)));
    assert_eq!(c.get_tokens_count(), 1);
    assert_eq!(c.get_max_token_id(), 9);
    assert_eq!(c.burn(7, 9, led(10)), Err(Error::NotNFT));
}

#[test]
fn approved_spender_can_burn() {
    let mut c = ready();
    assert_eq!(c.mint(7, 5, b"a".to_vec(), led(10)), Ok(()));
    assert_eq!(c.approve(7, 20, 5, None, led(10)), Ok(()));
    assert_eq!(c.burn(20, 5, led(10)), Ok(()));
    assert_eq!(c.get_tokens_count(), 0);
}

#[test]
fn operator_grants_are_recorded_and_removed() {
    let mut c = ready();
    c.approve_all(7, 20, 500, led(10));
    c.approve_all(7, 21, 600, led(10));
    c.approve_all(7, 20, 550, led(10));
    assert_eq!(c.operators.len(), 2);
    assert!(c
        .operators
        .iter()
        .any(|g| g.owner == 7 && g.operator == 20 && g.expiration == 550));
    c.revoke_all(7, 20);
    assert_eq!(c.operators.len(), 1);
    assert!(!c.operators.iter().any(|g| g.operator == 20));
    // the grant channel is write-only: it confers no transfer authority
    assert_eq!(c.mint(7, 1, b"a".to_vec(), led(10)), Ok(()));
    assert_eq!(c.transfer(21, 21, 1, led(10)), Err(Error::NotAuthorized));
}

#[test]
fn get_tokens_scans_ascending_inclusive() {
    let mut c = ready();
    for id in [3u32, 0, 7, 1] {
        assert_eq!(c.mint(10 + u64::from(id), id, b"u".to_vec(), led(10)), Ok(()));
    }
    let all = c.get_tokens(None, 0, 5);
    // ids 0, 1, 3 lie in [0, min(5, 7)] = [0, 5]; id 7 does not
    assert_eq!(all.len(), 3);
    assert_eq!(all[0].owner, 10);
    assert_eq!(all[1].owner, 11);
    assert_eq!(all[2].owner, 13);
    let everything = c.get_tokens(None, 0, 100);
    assert_eq!(everything.len(), 4);
    assert_eq!(everything[3].owner, 17);
    let tail = c.get_tokens(None, 2, 100);
    assert_eq!(tail.len(), 2);
}

#[test]
fn get_tokens_filters_by_owner() {
    let mut c = ready();
    assert_eq!(c.mint(7, 0, b"a".to_vec(), led(10)), Ok(()));
    assert_eq!(c.mint(8, 1, b"b".to_vec(), led(10)), Ok(()));
    assert_eq!(c.mint(7, 2, b"c".to_vec(), led(10)), Ok(()));
    let mine = c.get_tokens(Some(7), 0, 10);
    assert_eq!(mine.len(), 2);
    assert_eq!(mine[0].token_uri, b"a".to_vec());
    assert_eq!(mine[1].token_uri, b"c".to_vec());
    assert!(c.get_tokens(Some(99), 0, 10).is_empty());
}

#[test]
fn version_is_fixed() {
    assert_eq!(NFTCollection::version(), 1);
}

#[test]
fn get_tokens_with_zero_limit_still_scans_the_start() {
    let mut c = ready();
    assert_eq!(c.mint(7, 0, b"zero".to_vec(), led(10)), Ok(()));
    assert_eq!(c.mint(7, 2, b"two".to_vec(), led(10)), Ok(()));
    let only_zero = c.get_tokens(None, 0, 0);
    assert_eq!(only_zero.len(), 1);
    assert_eq!(only_zero[0].token_uri, b"zero".to_vec());
}

#[test]
fn get_tokens_beyond_high_water_mark_is_empty() {
    let mut c = ready();
    assert_eq!(c.mint(7, 3, b"a".to_vec(), led(10)), Ok(()));
    assert!(c.get_tokens(None, 4, 100).is_empty());
    assert!(NFTCollection::new().get_tokens(None, 0, 100).is_empty());
}
