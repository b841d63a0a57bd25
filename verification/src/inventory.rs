//! The inventory: an exact balance for every good of the catalog.
use crate::goods::{all_goods, lemma_all_goods_complete, Good, GOOD_COUNT};
use crate::rational::Rational;
use vstd::prelude::*;

verus! {

/// A balance for every good.
///
/// Every good of the catalog has an entry at all times; a good that was never
/// credited stands at zero. The view is the total map from goods to balances.
#[derive(Debug)]
pub struct Inventory {
    amounts: [Rational; GOOD_COUNT],
}

/// The map in which every good stands at zero.
pub open spec fn empty_balances() -> Map<Good, real> {
    Map::total(|good: Good| 0real)
}

/// No balance is below zero.
pub open spec fn non_negative(balances: Map<Good, real>) -> bool {
    forall|good: Good| #[trigger] balances[good] >= 0real
}

/// The balances that a list of entries describes: zero for a good that the list
/// does not name, and the last entry for a good that it names more than once.
pub open spec fn balances_of(entries: Seq<(Good, real)>) -> Map<Good, real>
    decreases entries.len(),
{
    if entries.len() == 0 {
        empty_balances()
    } else {
        balances_of(entries.drop_last()).insert(entries.last().0, entries.last().1)
    }
}

/// Every good with its balance, in declaration order.
pub open spec fn entries_of(balances: Map<Good, real>) -> Seq<(Good, real)> {
    all_goods().map_values(|good: Good| (good, balances[good]))
}

/// The entries of a list of exact quantities, each taken as the number it denotes.
pub open spec fn entry_values(entries: Seq<(Good, Rational)>) -> Seq<(Good, real)> {
    entries.map_values(|entry: (Good, Rational)| (entry.0, entry.1@))
}

impl Inventory {
    /// The balance of one good.
    pub closed spec fn balance(self, good: Good) -> real {
        self.amounts@[good.spec_index()]@
    }

    /// The inventory in which every good stands at zero.
    pub fn new() -> (inventory: Inventory)
        ensures
            inventory@ == empty_balances(),
    {
        let inventory = Inventory {
            amounts: [
                Rational::zero(),
                Rational::zero(),
                Rational::zero(),
                Rational::zero(),
                Rational::zero(),
            ],
        };
        assert(inventory@ =~= empty_balances());
        inventory
    }

    /// The balance of `good`.
    pub fn get(&self, good: Good) -> (amount: Rational)
        ensures
            amount@ == self@[good],
    {
        self.amounts[good.index()].clone()
    }

    /// Replaces the balance of `good`.
    fn set(&mut self, good: Good, amount: Rational)
        ensures
            final(self)@ == old(self)@.insert(good, amount@),
    {
        let i = good.index();
        self.amounts[i] = amount;
        proof {
            assert forall|other: Good| #[trigger]
                final(self)@[other] == old(self)@.insert(good, amount@)[other] by {
                lemma_all_goods_complete(other);
                lemma_all_goods_complete(good);
            }
            assert(final(self)@ =~= old(self)@.insert(good, amount@));
        }
    }

    /// Adds `amount`, which is not below zero, to the balance of `good`.
    pub fn credit(&mut self, good: Good, amount: &Rational)
        requires
            amount@ >= 0real,
        ensures
            final(self)@ == old(self)@.insert(good, old(self)@[good] + amount@),
    {
        let sum = self.get(good).add(amount);
        self.set(good, sum);
    }

    /// Takes `amount`, which is not below zero, from the balance of `good`.
    ///
    /// The balance is not held at zero: a caller that takes more than there is
    /// leaves it negative.
    pub fn debit(&mut self, good: Good, amount: &Rational)
        requires
            amount@ >= 0real,
        ensures
            final(self)@ == old(self)@.insert(good, old(self)@[good] - amount@),
    {
        let rest = self.get(good).sub(amount);
        self.set(good, rest);
    }

    /// Changes the balance of `good` by `amount`, up or down by its sign.
    pub fn adjust(&mut self, good: Good, amount: &Rational)
        ensures
            final(self)@ == old(self)@.insert(good, old(self)@[good] + amount@),
    {
        let sum = self.get(good).add(amount);
        self.set(good, sum);
    }

    /// Every good with its balance, in declaration order.
    pub fn entries(&self) -> (entries: Vec<(Good, Rational)>)
        ensures
            entry_values(entries@) == entries_of(self@),
    {
        let goods = Good::all();
        let mut entries: Vec<(Good, Rational)> = Vec::new();
        let mut i: usize = 0;
        while i < goods.len()
            invariant
                i <= goods.len(),
                goods@ == all_goods(),
                entries@.len() == i,
                entry_values(entries@) == entries_of(self@).take(i as int),
            decreases goods.len() - i,
        {
            let good = goods[i];
            let amount = self.get(good);
            let ghost before = entries@;
            entries.push((good, amount));
            assert(entry_values(entries@) =~= entries_of(self@).take(i as int + 1)) by {
                assert(entry_values(before) == entries_of(self@).take(i as int));
                assert forall|j: int| 0 <= j < i implies entry_values(entries@)[j] == entries_of(
                    self@,
                )[j] by {
                    assert(entry_values(before)[j] == entries_of(self@).take(i as int)[j]);
                    assert(entries@[j] == before[j]);
                }
            }
            i += 1;
        }
        assert(entries_of(self@).take(i as int) =~= entries_of(self@));
        entries
    }

    /// The inventory that a list of entries describes. A good that the list does
    /// not name stands at zero; of several entries for one good the last counts.
    pub fn from_entries(entries: &Vec<(Good, Rational)>) -> (inventory: Inventory)
        ensures
            inventory@ == balances_of(entry_values(entries@)),
    {
        let mut inventory = Inventory::new();
        let mut i: usize = 0;
        while i < entries.len()
            invariant
                i <= entries.len(),
                inventory@ == balances_of(entry_values(entries@.take(i as int))),
            decreases entries.len() - i,
        {
            let good = entries[i].0;
            let amount = entries[i].1.clone();
            proof {
                let before = entry_values(entries@.take(i as int));
                let after = entry_values(entries@.take(i as int + 1));
                assert(after.drop_last() =~= before);
                assert(after.last() == (good, amount@));
            }
            inventory.set(good, amount);
            i += 1;
        }
        assert(entries@.take(i as int) =~= entries@);
        inventory
    }
}

impl View for Inventory {
    type V = Map<Good, real>;

    open spec fn view(&self) -> Map<Good, real> {
        Map::total(|good: Good| self.balance(good))
    }
}

/// Writing balances out as entries and reading the entries back gives the same
/// balance for every good.
pub proof fn lemma_entries_round_trip(balances: Map<Good, real>)
    requires
        forall|good: Good| balances.dom().contains(good),
    ensures
        balances_of(entries_of(balances)) == balances,
{
    let e5 = entries_of(balances);
    let e4 = e5.drop_last();
    let e3 = e4.drop_last();
    let e2 = e3.drop_last();
    let e1 = e2.drop_last();
    let e0 = e1.drop_last();
    assert(e0.len() == 0);
    assert(balances_of(e0) == empty_balances());
    assert(balances_of(e1) == balances_of(e0).insert(e1.last().0, e1.last().1));
    assert(balances_of(e2) == balances_of(e1).insert(e2.last().0, e2.last().1));
    assert(balances_of(e3) == balances_of(e2).insert(e3.last().0, e3.last().1));
    assert(balances_of(e4) == balances_of(e3).insert(e4.last().0, e4.last().1));
    assert(balances_of(e5) == balances_of(e4).insert(e5.last().0, e5.last().1));
    assert(e1.last() == e5[0]);
    assert(e2.last() == e5[1]);
    assert(e3.last() == e5[2]);
    assert(e4.last() == e5[3]);
    assert(e5.last() == e5[4]);
    assert forall|good: Good| #[trigger] balances_of(e5)[good] == balances[good] by {
        lemma_all_goods_complete(good);
    }
    assert(balances_of(e5) =~= balances);
}

} // verus!
