use overlord_core::items::{Inventory, ItemKind};

#[test]
fn new_inventory_is_empty() {
    let inv = Inventory::new();
    assert_eq!(inv.count(&ItemKind::Rock), 0);
    assert!(!inv.has_enough_item(ItemKind::Rock, 1));
    assert!(inv.has_enough_item(ItemKind::Rock, 0));
}

#[test]
fn add_accumulates() {
    let mut inv = Inventory::new();
    inv.add(ItemKind::Rock, 3);
    inv.add(ItemKind::Rock, 4);
    assert_eq!(inv.count(&ItemKind::Rock), 7);
    assert!(inv.has_enough_item(ItemKind::Rock, 7));
    assert!(!inv.has_enough_item(ItemKind::Rock, 8));
}

#[test]
fn add_zero_changes_nothing() {
    let mut inv = Inventory::new();
    inv.add(ItemKind::Rock, 0);
    assert_eq!(inv.count(&ItemKind::Rock), 0);
}

#[test]
fn remove_exact_and_partial() {
    let mut inv = Inventory::new();
    inv.add(ItemKind::Rock, 10);
    assert!(inv.remove(&ItemKind::Rock, 4));
    assert_eq!(inv.count(&ItemKind::Rock), 6);
    assert!(inv.remove(&ItemKind::Rock, 6));
    assert_eq!(inv.count(&ItemKind::Rock), 0);
}

#[test]
fn remove_more_than_held_fails_and_keeps_stock() {
    let mut inv = Inventory::new();
    inv.add(ItemKind::Rock, 5);
    assert!(!inv.remove(&ItemKind::Rock, 6));
    assert_eq!(inv.count(&ItemKind::Rock), 5);
}

#[test]
fn remove_from_empty_fails() {
    let mut inv = Inventory::new();
    assert!(!inv.remove(&ItemKind::Rock, 1));
    assert!(!inv.remove(&ItemKind::Rock, 0));
}

#[test]
fn unique_items_add_and_remove() {
    let mut inv = Inventory::new();
    inv.add_unique_item(41);
    inv.add_unique_item(42);
    assert!(inv.remove_unique_item(41));
    assert!(!inv.remove_unique_item(41));
    assert!(inv.remove_unique_item(42));
    assert!(!inv.remove_unique_item(7));
}

#[test]
fn a_full_stack_is_countable() {
    let mut inv = Inventory::new();
    inv.add(ItemKind::Rock, u32::MAX);
    assert_eq!(inv.count(&ItemKind::Rock), u32::MAX);
    assert!(inv.has_enough_item(ItemKind::Rock, u32::MAX));
    assert!(inv.remove(&ItemKind::Rock, u32::MAX));
    assert_eq!(inv.count(&ItemKind::Rock), 0);
}
