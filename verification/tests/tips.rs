use rusted_wizard_core::{Player, Tips};

fn named(name: &str) -> Player {
    Player::new(String::from(name))
}

#[test]
fn new_table_is_empty() {
    let tips = Tips::new();
    assert_eq!(tips.sum(), 0);
    assert_eq!(tips.checked_sum(), Some(0));
    assert_eq!(tips.get_tip(&named("Ann")), 0);
}

#[test]
fn get_tip_returns_what_was_recorded() {
    let mut tips = Tips::new();
    tips.add_tip(&named("Ann"), 3);
    tips.add_tip(&named("Bob"), 7);
    assert_eq!(tips.get_tip(&named("Ann")), 3);
    assert_eq!(tips.get_tip(&named("Bob")), 7);
}

#[test]
fn get_tip_of_unknown_player_is_zero() {
    let mut tips = Tips::new();
    tips.add_tip(&named("Ann"), 3);
    assert_eq!(tips.get_tip(&named("Cid")), 0);
    assert_eq!(tips.get_tip(&named("")), 0);
    assert_eq!(tips.get_tip(&named("ann")), 0);
}

#[test]
fn add_tip_overwrites_by_name() {
    let mut tips = Tips::new();
    tips.add_tip(&named("Ann"), 3);
    tips.add_tip(&named("Bob"), 7);
    tips.add_tip(&named("Ann"), 5);
    assert_eq!(tips.get_tip(&named("Ann")), 5);
    assert_eq!(tips.get_tip(&named("Bob")), 7);
    assert_eq!(tips.sum(), 12);
}

#[test]
fn sum_adds_one_value_per_name() {
    let mut tips = Tips::new();
    tips.add_tip(&named("Ann"), 1);
    assert_eq!(tips.sum(), 1);
    tips.add_tip(&named("Bob"), 0);
    assert_eq!(tips.sum(), 1);
    tips.add_tip(&named("Cid"), 255);
    assert_eq!(tips.sum(), 256);
    tips.add_tip(&named("Cid"), 0);
    assert_eq!(tips.sum(), 1);
}

#[test]
fn sum_exceeds_the_range_of_a_single_value() {
    let mut tips = Tips::new();
    for i in 0..20u32 {
        tips.add_tip(&Player::new(format!("player {}", i)), 255);
    }
    assert_eq!(tips.sum(), 20 * 255);
    assert_eq!(tips.checked_sum(), Some(5100));
}

#[test]
fn points_do_not_matter_for_the_table() {
    let mut tips = Tips::new();
    let ann = named("Ann");
    tips.add_tip(&ann, 4);
    let other_ann = named("Ann");
    assert_eq!(tips.get_tip(&other_ann), 4);
}

#[test]
fn clone_of_table_is_independent() {
    let mut tips = Tips::new();
    tips.add_tip(&named("Ann"), 3);
    let copy = tips.clone();
    tips.add_tip(&named("Ann"), 9);
    tips.add_tip(&named("Bob"), 1);
    assert_eq!(copy.get_tip(&named("Ann")), 3);
    assert_eq!(copy.get_tip(&named("Bob")), 0);
    assert_eq!(copy.sum(), 3);
    assert_eq!(tips.sum(), 10);
}

#[test]
fn tables_are_equal_whatever_the_order_of_entry() {
    let mut one = Tips::new();
    one.add_tip(&named("Ann"), 3);
    one.add_tip(&named("Bob"), 7);
    let mut other = Tips::new();
    other.add_tip(&named("Bob"), 7);
    other.add_tip(&named("Ann"), 1);
    assert!(one != other);
    other.add_tip(&named("Ann"), 3);
    assert!(one == other);
    assert!(other == one);
    assert!(one == one.clone());
}

#[test]
fn tables_differ_by_names_and_by_values() {
    let mut one = Tips::new();
    let empty = Tips::new();
    assert!(empty == Tips::new());
    one.add_tip(&named("Ann"), 0);
    assert!(one != empty);
    assert!(empty != one);
    let mut other = Tips::new();
    other.add_tip(&named("Bob"), 0);
    assert!(one != other);
    other.add_tip(&named("Ann"), 0);
    assert!(one != other);
    assert!(other != one);
    one.add_tip(&named("Bob"), 1);
    assert!(one != other);
    one.add_tip(&named("Bob"), 0);
    assert!(one == other);
}
