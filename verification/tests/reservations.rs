use overlord_core::items::{Inventory, ItemKind};
use overlord_core::reservations::Reservations;

const ROCK: ItemKind = ItemKind::Rock;

fn chest_with(stock: u32) -> Inventory {
    let mut inv = Inventory::new();
    inv.add(ROCK, stock);
    inv
}

#[test]
fn reserve_within_stock_succeeds() {
    let mut res = Reservations::new();
    let inv = chest_with(1000);
    assert!(res.try_reserve(1, 100, ROCK, 600, &inv));
    assert_eq!(res.owner_reserved(1, 100, ROCK), 600);
    assert_eq!(res.total_reserved(100, ROCK), 600);
}

#[test]
fn reserve_beyond_free_stock_fails_and_records_nothing() {
    let mut res = Reservations::new();
    let inv = chest_with(1000);
    assert!(res.try_reserve(1, 100, ROCK, 600, &inv));
    // Only 400 remain unreserved, so a second 600 must be refused whole.
    assert!(!res.try_reserve(2, 100, ROCK, 600, &inv));
    assert_eq!(res.owner_reserved(2, 100, ROCK), 0);
    assert_eq!(res.total_reserved(100, ROCK), 600);
    // The remainder can still be claimed.
    assert!(res.try_reserve(2, 100, ROCK, 400, &inv));
    assert_eq!(res.total_reserved(100, ROCK), 1000);
    // Now nothing is free at all.
    assert!(!res.try_reserve(3, 100, ROCK, 1, &inv));
}

#[test]
fn totals_match_sum_of_owner_claims() {
    let mut res = Reservations::new();
    let inv = chest_with(100);
    assert!(res.try_reserve(1, 7, ROCK, 10, &inv));
    assert!(res.try_reserve(2, 7, ROCK, 20, &inv));
    assert!(res.try_reserve(3, 7, ROCK, 30, &inv));
    let by_owners = res.owner_reserved(1, 7, ROCK) + res.owner_reserved(2, 7, ROCK)
        + res.owner_reserved(3, 7, ROCK);
    assert_eq!(res.total_reserved(7, ROCK), by_owners);
    assert_eq!(by_owners, 60);
}

#[test]
fn repeated_reserves_by_one_owner_accumulate() {
    let mut res = Reservations::new();
    let inv = chest_with(10);
    assert!(res.try_reserve(1, 7, ROCK, 4, &inv));
    assert!(res.try_reserve(1, 7, ROCK, 4, &inv));
    assert!(!res.try_reserve(1, 7, ROCK, 4, &inv));
    assert_eq!(res.owner_reserved(1, 7, ROCK), 8);
    assert_eq!(res.total_reserved(7, ROCK), 8);
}

#[test]
fn release_subtracts_and_saturates() {
    let mut res = Reservations::new();
    let inv = chest_with(50);
    assert!(res.try_reserve(1, 7, ROCK, 30, &inv));
    res.release(1, 7, ROCK, 10);
    assert_eq!(res.owner_reserved(1, 7, ROCK), 20);
    res.release(1, 7, ROCK, 100);
    assert_eq!(res.owner_reserved(1, 7, ROCK), 0);
    assert_eq!(res.total_reserved(7, ROCK), 0);
}

#[test]
fn release_of_absent_claim_is_harmless() {
    let mut res = Reservations::new();
    res.release(9, 9, ROCK, 5);
    assert_eq!(res.total_reserved(9, ROCK), 0);
}

#[test]
fn release_all_clears_one_owner_only() {
    let mut res = Reservations::new();
    let inv = chest_with(100);
    assert!(res.try_reserve(1, 7, ROCK, 10, &inv));
    assert!(res.try_reserve(1, 8, ROCK, 15, &inv));
    assert!(res.try_reserve(2, 7, ROCK, 20, &inv));
    res.release_all_for_owner(1);
    assert_eq!(res.owner_reserved(1, 7, ROCK), 0);
    assert_eq!(res.owner_reserved(1, 8, ROCK), 0);
    assert_eq!(res.owner_reserved(2, 7, ROCK), 20);
    assert_eq!(res.total_reserved(7, ROCK), 20);
    assert_eq!(res.total_reserved(8, ROCK), 0);
}

#[test]
fn reserving_zero_succeeds_without_a_claim() {
    let mut res = Reservations::new();
    let inv = chest_with(5);
    assert!(res.try_reserve(1, 7, ROCK, 0, &inv));
    assert_eq!(res.owner_reserved(1, 7, ROCK), 0);
    assert_eq!(res.total_reserved(7, ROCK), 0);
}
