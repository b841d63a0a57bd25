//! The catalog of goods.
//!
//! A good is a bare identifier. What is known about it (display name, group,
//! difficulty of its mining minigame) is looked up here and never stored on the
//! value.
use vstd::prelude::*;

verus! {

/// The goods of the game, in declaration order.
#[derive(Clone, Copy, PartialEq, Eq, Structural, Hash, PartialOrd, Ord, Debug)]
pub enum Good {
    Money,
    IronOre,
    GoldOre,
    SilverOre,
    Coal,
}

/// The groups that goods are sorted into, used for iteration and defaults.
#[derive(Clone, Copy, PartialEq, Eq, Structural, Hash, PartialOrd, Ord, Debug)]
pub enum GoodGroup {
    Money,
    Ore,
}

/// What the catalog knows about one good.
#[derive(Clone, Copy, PartialEq, Eq, Hash, PartialOrd, Ord, Debug)]
pub struct GoodProperties {
    /// The display name.
    pub name: &'static str,
    /// The group the good belongs to.
    pub group: GoodGroup,
    /// The number of buttons of the good's mining minigame.
    pub difficulty: u32,
}

/// The number of goods.
pub const GOOD_COUNT: usize = 5;

/// Every good once, in declaration order.
pub open spec fn all_goods() -> Seq<Good> {
    seq![Good::Money, Good::IronOre, Good::GoldOre, Good::SilverOre, Good::Coal]
}

/// The goods of one group, in declaration order.
pub open spec fn group_members(group: GoodGroup) -> Seq<Good> {
    all_goods().filter(|good: Good| good.spec_properties().group == group)
}

impl Good {
    /// The catalog entry of a good.
    pub open spec fn spec_properties(self) -> GoodProperties {
        match self {
            Good::Money => GoodProperties { name: "Money", group: GoodGroup::Money, difficulty: 0 },
            Good::IronOre => GoodProperties {
                name: "Iron Ore",
                group: GoodGroup::Ore,
                difficulty: 3,
            },
            Good::GoldOre => GoodProperties {
                name: "Gold Ore",
                group: GoodGroup::Ore,
                difficulty: 5,
            },
            Good::SilverOre => GoodProperties {
                name: "Silver Ore",
                group: GoodGroup::Ore,
                difficulty: 4,
            },
            Good::Coal => GoodProperties { name: "Coal", group: GoodGroup::Ore, difficulty: 3 },
        }
    }

    /// The position of a good in declaration order.
    pub open spec fn spec_index(self) -> int {
        match self {
            Good::Money => 0,
            Good::IronOre => 1,
            Good::GoldOre => 2,
            Good::SilverOre => 3,
            Good::Coal => 4,
        }
    }

    /// Looks a good up in the catalog.
    pub fn properties(&self) -> (props: GoodProperties)
        ensures
            props == self.spec_properties(),
    {
        match self {
            Good::Money => GoodProperties { name: "Money", group: GoodGroup::Money, difficulty: 0 },
            Good::IronOre => GoodProperties {
                name: "Iron Ore",
                group: GoodGroup::Ore,
                difficulty: 3,
            },
            Good::GoldOre => GoodProperties {
                name: "Gold Ore",
                group: GoodGroup::Ore,
                difficulty: 5,
            },
            Good::SilverOre => GoodProperties {
                name: "Silver Ore",
                group: GoodGroup::Ore,
                difficulty: 4,
            },
            Good::Coal => GoodProperties { name: "Coal", group: GoodGroup::Ore, difficulty: 3 },
        }
    }

    /// The text that names a good: its display name.
    pub fn label(&self) -> (text: String)
        ensures
            text@ == self.spec_properties().name@,
    {
        String::from_str(self.properties().name)
    }

    /// The position of a good in declaration order.
    pub fn index(&self) -> (i: usize)
        ensures
            i == self.spec_index(),
            i < GOOD_COUNT,
            all_goods()[i as int] == *self,
    {
        match self {
            Good::Money => 0,
            Good::IronOre => 1,
            Good::GoldOre => 2,
            Good::SilverOre => 3,
            Good::Coal => 4,
        }
    }

    /// Every good once, in declaration order.
    pub fn all() -> (goods: Vec<Good>)
        ensures
            goods@ == all_goods(),
    {
        let goods = vec![Good::Money, Good::IronOre, Good::GoldOre, Good::SilverOre, Good::Coal];
        assert(goods@ =~= all_goods());
        goods
    }

    /// The good that stands for a group where none was chosen.
    pub fn _default_for_group(group: GoodGroup) -> (good: Good)
        ensures
            good == match group {
                GoodGroup::Money => Good::Money,
                GoodGroup::Ore => Good::IronOre,
            },
            good.spec_properties().group == group,
    {
        match group {
            GoodGroup::Money => Good::Money,
            GoodGroup::Ore => Good::IronOre,
        }
    }

    /// The goods of a group, in declaration order.
    pub fn group_iter(group: GoodGroup) -> (goods: Vec<Good>)
        ensures
            goods@ == group_members(group),
    {
        let all = Good::all();
        let mut goods: Vec<Good> = Vec::new();
        let ghost in_group = |good: Good| good.spec_properties().group == group;
        let mut i: usize = 0;
        while i < all.len()
            invariant
                i <= all.len(),
                all@ == all_goods(),
                in_group == (|good: Good| good.spec_properties().group == group),
                goods@ == all@.take(i as int).filter(in_group),
            decreases all.len() - i,
        {
            let good = all[i];
            proof {
                all@.take(i as int).lemma_filter_push(good, in_group);
                assert(all@.take(i as int).push(good) =~= all@.take(i as int + 1));
            }
            if good.properties().group == group {
                goods.push(good);
            }
            i += 1;
        }
        assert(all@.take(i as int) =~= all@);
        goods
    }
}

impl Default for Good {
    fn default() -> (good: Good)
        ensures
            good == Good::Money,
    {
        Good::Money
    }
}

/// The catalog is total and without repetition: every good stands in
/// `all_goods` exactly once, at its own index.
pub proof fn lemma_all_goods_complete(good: Good)
    ensures
        all_goods().len() == GOOD_COUNT,
        0 <= good.spec_index() < GOOD_COUNT,
        all_goods()[good.spec_index()] == good,
        forall|i: int| 0 <= i < all_goods().len() && all_goods()[i] == good ==> i == good.spec_index(),
{
}

/// A group's members are exactly the goods whose catalog entry names the group.
pub proof fn lemma_group_members(group: GoodGroup, good: Good)
    ensures
        group_members(group).contains(good) <==> good.spec_properties().group == group,
{
    broadcast use vstd::seq_lib::group_filter_ensures;

    let in_group = |g: Good| g.spec_properties().group == group;
    lemma_all_goods_complete(good);

    if good.spec_properties().group == group {
        assert(all_goods().contains(good));
        assert(in_group(good));
    }
    if group_members(group).contains(good) {
        assert(in_group(good));
    }
}

} // verus!
