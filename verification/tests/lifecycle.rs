use nft_collection::lifecycle::{
    DAY_IN_LEDGERS, INSTANCE_BUMP_AMOUNT, PERSISTENT_BUMP_AMOUNT, PERSISTENT_LIFETIME_THRESHOLD,
};
use nft_collection::registry::NFTCollection;
use nft_collection::types::{CollectionInfo, Ledger};

fn info() -> CollectionInfo {
    CollectionInfo {
        creator: 1,
        admin: 2,
        minter: 3,
        name: None,
        description: None,
        external_link: None,
        royalty_info: None,
    }
}

fn led(sequence: u32) -> Ledger {
    Ledger { sequence, timestamp: 1_000 }
}

fn ready() -> NFTCollection {
    let mut c = NFTCollection::new();
    assert_eq!(c.initialize(info(), false), Ok(()));
    c
}

#[test]
fn constants_relate() {
    assert_eq!(DAY_IN_LEDGERS, 17_280);
    assert_eq!(PERSISTENT_BUMP_AMOUNT, 30 * DAY_IN_LEDGERS);
    assert_eq!(PERSISTENT_LIFETIME_THRESHOLD, PERSISTENT_BUMP_AMOUNT - DAY_IN_LEDGERS);
}

#[test]
fn mint_sets_retention_window() {
    let mut c = ready();
    assert_eq!(c.mint(7, 1, b"a".to_vec(), led(100)), Ok(()));
    assert_eq!(c.item_live.get(&1), Some(&(100 + PERSISTENT_BUMP_AMOUNT)));
}

#[test]
fn extend_ttl_item_refreshes_existing_only() {
    let mut c = ready();
    assert_eq!(c.mint(7, 1, b"a".to_vec(), led(100)), Ok(()));
    c.extend_ttl_item(1, led(200));
    // well over a day of margin is left, so nothing changes yet
    assert_eq!(c.item_live.get(&1), Some(&(100 + PERSISTENT_BUMP_AMOUNT)));
    c.extend_ttl_item(1, led(20_000));
    // now the window would lapse within the threshold: it moves out
    assert_eq!(c.item_live.get(&1), Some(&(20_000 + PERSISTENT_BUMP_AMOUNT)));
    c.extend_ttl_item(42, led(200));
    assert_eq!(c.item_live.get(&42), None);
}

#[test]
fn extend_ttl_collection_walks_the_range() {
    let mut c = ready();
    assert_eq!(c.mint(7, 1, b"a".to_vec(), led(100)), Ok(()));
    assert_eq!(c.mint(7, 3, b"b".to_vec(), led(100)), Ok(()));
    assert_eq!(c.mint(7, 9, b"c".to_vec(), led(100)), Ok(()));
    c.extend_ttl_collection(0, 5, led(20_000));
    assert_eq!(c.collection_live, 20_000 + INSTANCE_BUMP_AMOUNT);
    // ids 1 and 3 lie in [0, min(5, 9)]; id 9 does not
    assert_eq!(c.item_live.get(&1), Some(&(20_000 + PERSISTENT_BUMP_AMOUNT)));
    assert_eq!(c.item_live.get(&3), Some(&(20_000 + PERSISTENT_BUMP_AMOUNT)));
    assert_eq!(c.item_live.get(&9), Some(&(100 + PERSISTENT_BUMP_AMOUNT)));
}

#[test]
fn extend_ttl_collection_with_zero_limit_touches_no_item() {
    let mut c = ready();
    assert_eq!(c.mint(7, 0, b"a".to_vec(), led(100)), Ok(()));
    c.extend_ttl_collection(0, 0, led(20_000));
    assert_eq!(c.collection_live, 20_000 + INSTANCE_BUMP_AMOUNT);
    assert_eq!(c.item_live.get(&0), Some(&(100 + PERSISTENT_BUMP_AMOUNT)));
}

#[test]
fn retention_never_shrinks_on_refresh() {
    let mut c = ready();
    assert_eq!(c.mint(7, 1, b"a".to_vec(), led(9_000)), Ok(()));
    let before = *c.item_live.get(&1).unwrap();
    c.extend_ttl_item(1, led(100));
    assert!(*c.item_live.get(&1).unwrap() >= before);
}
