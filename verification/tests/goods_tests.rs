use dull_idle_game::goods::{Good, GoodGroup, GOOD_COUNT};

#[test]
fn catalog_lists_every_good() {
    let money = Good::Money.properties();
    assert_eq!(money.name, "Money");
    assert_eq!(money.group, GoodGroup::Money);
    assert_eq!(money.difficulty, 0);
    let iron = Good::IronOre.properties();
    assert_eq!(iron.name, "Iron Ore");
    assert_eq!(iron.group, GoodGroup::Ore);
    assert_eq!(iron.difficulty, 3);
    let gold = Good::GoldOre.properties();
    assert_eq!(gold.name, "Gold Ore");
    assert_eq!(gold.group, GoodGroup::Ore);
    assert_eq!(gold.difficulty, 5);
    let silver = Good::SilverOre.properties();
    assert_eq!(silver.name, "Silver Ore");
    assert_eq!(silver.group, GoodGroup::Ore);
    assert_eq!(silver.difficulty, 4);
    let coal = Good::Coal.properties();
    assert_eq!(coal.name, "Coal");
    assert_eq!(coal.group, GoodGroup::Ore);
    assert_eq!(coal.difficulty, 3);
}

#[test]
fn all_goods_come_in_declaration_order() {
    assert_eq!(
        Good::all(),
        vec![Good::Money, Good::IronOre, Good::GoldOre, Good::SilverOre, Good::Coal]
    );
    assert_eq!(Good::all().len(), GOOD_COUNT);
}

#[test]
fn index_is_the_position_in_all() {
    let all = Good::all();
    for (position, good) in all.iter().enumerate() {
        assert_eq!(good.index(), position);
    }
}

#[test]
fn group_iter_filters_in_declaration_order() {
    assert_eq!(
        Good::group_iter(GoodGroup::Ore),
        vec![Good::IronOre, Good::GoldOre, Good::SilverOre, Good::Coal]
    );
    assert_eq!(Good::group_iter(GoodGroup::Money), vec![Good::Money]);
}

#[test]
fn group_iter_can_be_restarted() {
    assert_eq!(Good::group_iter(GoodGroup::Ore), Good::group_iter(GoodGroup::Ore));
}

#[test]
fn default_for_group_belongs_to_the_group() {
    assert_eq!(Good::_default_for_group(GoodGroup::Money), Good::Money);
    assert_eq!(Good::_default_for_group(GoodGroup::Ore), Good::IronOre);
    assert_eq!(Good::_default_for_group(GoodGroup::Ore).properties().group, GoodGroup::Ore);
}

#[test]
fn default_good_is_money() {
    assert_eq!(Good::default(), Good::Money);
}

#[test]
fn label_is_the_display_name() {
    assert_eq!(Good::SilverOre.label(), "Silver Ore");
    assert_eq!(Good::Money.label(), "Money");
}

#[test]
fn goods_sort_by_declaration_order() {
    let mut goods = vec![Good::Coal, Good::Money, Good::SilverOre, Good::IronOre, Good::GoldOre];
    goods.sort();
    assert_eq!(goods, Good::all());
}
