use dull_idle_game::goods::Good;
use dull_idle_game::inventory::Inventory;
use dull_idle_game::rational::Rational;
use num::rational::BigRational;

fn q(numer: i64, denom: i64) -> Rational {
    Rational::new(numer, denom).unwrap()
}

#[test]
fn new_inventory_holds_zero_of_every_good() {
    let inventory = Inventory::new();
    for good in Good::all() {
        assert_eq!(inventory.get(good), Rational::zero());
    }
}

#[test]
fn credit_adds_to_one_good_only() {
    let mut inventory = Inventory::new();
    inventory.credit(Good::IronOre, &q(7, 2));
    inventory.credit(Good::IronOre, &q(1, 3));
    assert_eq!(inventory.get(Good::IronOre), q(23, 6));
    assert_eq!(inventory.get(Good::Money), Rational::zero());
    assert_eq!(inventory.get(Good::Coal), Rational::zero());
}

#[test]
fn debit_takes_from_one_good_only() {
    let mut inventory = Inventory::new();
    inventory.credit(Good::Coal, &q(5, 1));
    inventory.credit(Good::GoldOre, &q(2, 1));
    inventory.debit(Good::Coal, &q(5, 4));
    assert_eq!(inventory.get(Good::Coal), q(15, 4));
    assert_eq!(inventory.get(Good::GoldOre), q(2, 1));
}

#[test]
fn debit_is_not_held_at_zero() {
    let mut inventory = Inventory::new();
    inventory.credit(Good::Coal, &q(1, 1));
    inventory.debit(Good::Coal, &q(3, 2));
    assert_eq!(inventory.get(Good::Coal), q(-1, 2));
}

#[test]
fn credit_and_debit_of_zero_change_nothing() {
    let mut inventory = Inventory::new();
    inventory.credit(Good::Money, &q(9, 4));
    inventory.credit(Good::Money, &Rational::zero());
    inventory.debit(Good::Money, &Rational::zero());
    assert_eq!(inventory.get(Good::Money), q(9, 4));
}

#[test]
fn adjust_moves_a_balance_either_way() {
    let mut inventory = Inventory::new();
    inventory.adjust(Good::Money, &q(100, 1));
    inventory.adjust(Good::Money, &q(-250, 1));
    inventory.adjust(Good::Coal, &q(1, 3));
    assert_eq!(inventory.get(Good::Money), q(-150, 1));
    assert_eq!(inventory.get(Good::Coal), q(1, 3));
    assert_eq!(inventory.get(Good::IronOre), Rational::zero());
}

#[test]
fn entries_list_every_good_in_declaration_order() {
    let mut inventory = Inventory::new();
    inventory.credit(Good::SilverOre, &q(4, 1));
    let entries = inventory.entries();
    let goods: Vec<Good> = entries.iter().map(|entry| entry.0).collect();
    assert_eq!(goods, Good::all());
    for (good, amount) in entries {
        if good == Good::SilverOre {
            assert_eq!(amount, q(4, 1));
        } else {
            assert_eq!(amount, Rational::zero());
        }
    }
}

#[test]
fn from_entries_defaults_missing_goods_to_zero() {
    let inventory = Inventory::from_entries(&vec![(Good::Coal, q(3, 4))]);
    assert_eq!(inventory.get(Good::Coal), q(3, 4));
    assert_eq!(inventory.get(Good::Money), Rational::zero());
    assert_eq!(inventory.get(Good::IronOre), Rational::zero());
    assert_eq!(inventory.get(Good::GoldOre), Rational::zero());
    assert_eq!(inventory.get(Good::SilverOre), Rational::zero());
}

#[test]
fn from_entries_takes_the_last_of_repeated_goods() {
    let inventory =
        Inventory::from_entries(&vec![(Good::Coal, q(3, 4)), (Good::Money, q(1, 1)), (Good::Coal, q(5, 1))]);
    assert_eq!(inventory.get(Good::Coal), q(5, 1));
    assert_eq!(inventory.get(Good::Money), q(1, 1));
}

#[test]
fn entries_round_trip() {
    let mut inventory = Inventory::new();
    inventory.credit(Good::Money, &q(7, 2));
    inventory.credit(Good::Coal, &q(1, 3));
    inventory.debit(Good::GoldOre, &q(2, 1));
    let back = Inventory::from_entries(&inventory.entries());
    for good in Good::all() {
        assert_eq!(back.get(good), inventory.get(good));
    }
}

#[test]
fn serialized_inventory_round_trips() {
    let inventory =
        Inventory::from_entries(&vec![(Good::Money, q(7, 2)), (Good::IronOre, Rational::zero())]);
    let saved: Vec<(usize, BigRational)> =
        inventory.entries().iter().map(|entry| (entry.0.index(), entry.1.to_big())).collect();
    let text = serde_json::to_string(&saved).unwrap();
    let loaded: Vec<(usize, BigRational)> = serde_json::from_str(&text).unwrap();
    let all = Good::all();
    let entries: Vec<(Good, Rational)> = loaded
        .into_iter()
        .map(|entry| (all[entry.0], Rational::from_big(entry.1).unwrap()))
        .collect();
    let back = Inventory::from_entries(&entries);
    for good in Good::all() {
        assert_eq!(back.get(good), inventory.get(good));
    }
    assert_eq!(back.get(Good::Money), q(7, 2));
    assert_eq!(back.get(Good::IronOre), Rational::zero());
}
