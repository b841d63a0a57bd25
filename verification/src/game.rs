//! The game state and its per-frame update.
//!
//! The state is one explicit value: the inventory, the elements the player has
//! built, and one minigame session for each ore. A frame moves the clock, runs
//! the ticks that are due, and settles the minigames.
use crate::clock::{elapsed_seconds, ticks_due, GameClock};
use crate::element::Element;
use crate::goods::{all_goods, lemma_all_goods_complete, Good, GoodGroup, GOOD_COUNT};
use crate::inventory::{empty_balances, non_negative, Inventory};
use crate::ores::{OreMinigame, Session};
use crate::producers::{
    credit_all, lemma_catalog_valid, lemma_step_keeps_non_negative, step, total_rate, Producer,
};
use crate::rational::{lemma_quotient_sign, quotient, Rational};
use rand::rngs::StdRng;
use vstd::prelude::*;

verus! {

/// The number of ticks in one second.
pub const TICKS_PER_SECOND: i64 = 20;

/// The most ticks that one frame runs.
pub const TICK_LIMIT: u32 = 100;

/// The producer that a slot of the element list holds, if it holds one.
pub open spec fn producer_at(slot: Option<Element>) -> Option<Producer> {
    match slot {
        Some(element) => element.variant.spec_producer(),
        None => None,
    }
}

/// The balances after every producer among the elements has made one
/// production step of `dt` seconds, one after the other in the order of their
/// handles. A producer further down the list finds what those before it left.
pub open spec fn advance_all(
    elements: Seq<Option<Element>>,
    balances: Map<Good, real>,
    dt: real,
) -> Map<Good, real>
    decreases elements.len(),
{
    if elements.len() == 0 {
        balances
    } else {
        let before = advance_all(elements.drop_last(), balances, dt);
        match producer_at(elements.last()) {
            Some(producer) => step(producer.spec_outputs(), producer.spec_inputs(), before, dt),
            None => before,
        }
    }
}

/// The balances after `count` ticks of `dt` seconds each.
pub open spec fn advance_ticks(
    elements: Seq<Option<Element>>,
    balances: Map<Good, real>,
    dt: real,
    count: nat,
) -> Map<Good, real>
    decreases count,
{
    if count == 0 {
        balances
    } else {
        advance_all(elements, advance_ticks(elements, balances, dt, (count - 1) as nat), dt)
    }
}

/// The rates of all producers among the elements, added up for each good as if
/// nothing were throttled: what they would produce per second, or with
/// `consumed` set what they would use up.
pub open spec fn theoretical_rates(
    elements: Seq<Option<Element>>,
    consumed: bool,
) -> Map<Good, real>
    decreases elements.len(),
{
    if elements.len() == 0 {
        empty_balances()
    } else {
        let before = theoretical_rates(elements.drop_last(), consumed);
        match producer_at(elements.last()) {
            Some(producer) => {
                let rates = if consumed {
                    producer.spec_inputs()
                } else {
                    producer.spec_outputs()
                };
                Map::total(|good: Good| before[good] + total_rate(rates, good))
            },
            None => before,
        }
    }
}

/// A session that has just been started with the given difficulty.
pub open spec fn started(session: Session, difficulty: int) -> bool {
    &&& session.valid()
    &&& session.difficulty == difficulty
    &&& session.next == 1
    &&& !session.failed
}

/// The most handles that a saved game is taken to hold.
pub const MAX_HANDLES: usize = 1_048_576;

/// The element list with `element` under `handle`. The list is extended by
/// empty slots where it was too short.
pub open spec fn placed(slots: Seq<Option<Element>>, handle: int, element: Element) -> Seq<
    Option<Element>,
> {
    let padded = if handle < slots.len() {
        slots
    } else {
        slots + Seq::new((handle + 1 - slots.len()) as nat, |i: int| None::<Element>)
    };
    padded.update(handle, Some(element))
}

/// The element list that a list of handles with their elements describes. Of
/// several entries for one handle the last counts, and an entry whose handle
/// is `MAX_HANDLES` or more is left out.
pub open spec fn slots_of(entries: Seq<(usize, Element)>) -> Seq<Option<Element>>
    decreases entries.len(),
{
    if entries.len() == 0 {
        Seq::empty()
    } else if entries.last().0 < MAX_HANDLES {
        placed(slots_of(entries.drop_last()), entries.last().0 as int, entries.last().1)
    } else {
        slots_of(entries.drop_last())
    }
}

/// A slot of the element list with its window opened or closed.
pub open spec fn with_open(slot: Option<Element>, is_open: bool) -> Option<Element> {
    match slot {
        Some(element) => Some(Element { is_open, ..element }),
        None => None,
    }
}

/// The session after the press of one frame, if there was one.
pub open spec fn played(session: Session, pressed: Option<u32>) -> Session {
    match pressed {
        Some(value) => session.press(value),
        None => session,
    }
}

/// How a frame ends for a session that stands at `played`: in progress it
/// stays as it is, failed or solved it is started afresh, and exactly a solved
/// one yields a unit.
pub open spec fn settled(played: Session, after: Session, mined: bool) -> bool {
    &&& mined == (played.solved() && !played.failed)
    &&& after.valid()
    &&& if played.in_progress() {
        after == played
    } else {
        started(after, played.difficulty)
    }
}

/// What the producers would produce and use up per second if nothing were
/// throttled.
#[derive(Debug)]
pub struct ProductionTable {
    /// The rate at which each good would be produced.
    pub outputs: Inventory,
    /// The rate at which each good would be used up.
    pub inputs: Inventory,
}

/// One line of the inventory table that the player sees.
#[derive(Debug)]
pub struct InventoryRow {
    /// The good of this line.
    pub good: Good,
    /// The balance.
    pub amount: Rational,
    /// The balance in whole units, rounded down.
    pub whole: Rational,
    /// The rate at which the good would be produced.
    pub output: Rational,
    /// The rate at which the good would be used up.
    pub input: Rational,
    /// What is left of the production after the use.
    pub net: Rational,
}

impl InventoryRow {
    /// The line says of `good` what the balances and the elements give.
    pub open spec fn describes(
        self,
        good: Good,
        balances: Map<Good, real>,
        elements: Seq<Option<Element>>,
    ) -> bool {
        &&& self.good == good
        &&& self.amount@ == balances[good]
        &&& self.whole@ == balances[good].floor() as real
        &&& self.output@ == theoretical_rates(elements, false)[good]
        &&& self.input@ == theoretical_rates(elements, true)[good]
        &&& self.net@ == self.output@ - self.input@
    }
}

/// Everything that is saved and that belongs to the game itself.
#[derive(Debug)]
pub struct GameState {
    inventory: Inventory,
    ore_minigames: Vec<Option<OreMinigame>>,
    elements: Vec<Option<Element>>,
}

impl GameState {
    /// The balances.
    pub closed spec fn spec_inventory(&self) -> Map<Good, real> {
        self.inventory@
    }

    /// The elements by handle. A handle whose element was removed holds `None`.
    pub closed spec fn spec_elements(&self) -> Seq<Option<Element>> {
        self.elements@
    }

    /// The minigame session of a good, if one was started.
    pub closed spec fn spec_minigame(&self, good: Good) -> Option<Session> {
        if good.spec_index() < self.ore_minigames@.len() {
            match self.ore_minigames@[good.spec_index()] {
                Some(game) => Some(game@),
                None => None,
            }
        } else {
            None
        }
    }

    /// The state at the start of a game: every balance at zero, no elements,
    /// and for every ore, and for no other good, a session that has just been
    /// started with the difficulty that the catalog gives.
    pub open spec fn is_new_game(&self) -> bool {
        &&& self.spec_inventory() == empty_balances()
        &&& self.spec_elements().len() == 0
        &&& forall|good: Good| #[trigger]
            self.spec_minigame(good) is Some <==> good.spec_properties().group == GoodGroup::Ore
        &&& forall|good: Good| #[trigger]
            self.spec_minigame(good) is Some ==> started(
                self.spec_minigame(good)->0,
                good.spec_properties().difficulty as int,
            )
    }

    /// The state at the start of a game.
    pub fn new(rng: &mut StdRng) -> (state: GameState)
        ensures
            state.is_new_game(),
    {
        let goods = Good::all();
        let mut ore_minigames: Vec<Option<OreMinigame>> = Vec::new();
        let mut i: usize = 0;
        while i < goods.len()
            invariant
                i <= goods.len(),
                goods@ == all_goods(),
                ore_minigames@.len() == i,
                forall|j: int|
                    0 <= j < i ==> (#[trigger] ore_minigames@[j] is Some
                        <==> goods@[j].spec_properties().group == GoodGroup::Ore),
                forall|j: int|
                    0 <= j < i && #[trigger] ore_minigames@[j] is Some ==> started(
                        ore_minigames@[j]->0@,
                        goods@[j].spec_properties().difficulty as int,
                    ),
            decreases goods.len() - i,
        {
            let props = goods[i].properties();
            if props.group == GoodGroup::Ore {
                ore_minigames.push(Some(OreMinigame::new(props.difficulty, rng)));
            } else {
                ore_minigames.push(None);
            }
            i += 1;
        }
        let state = GameState { inventory: Inventory::new(), ore_minigames, elements: Vec::new() };
        proof {
            assert forall|good: Good| #[trigger]
                state.spec_minigame(good) is Some <==> good.spec_properties().group
                    == GoodGroup::Ore by {
                lemma_all_goods_complete(good);
            }
            assert forall|good: Good| #[trigger]
                state.spec_minigame(good) is Some implies started(
                state.spec_minigame(good)->0,
                good.spec_properties().difficulty as int,
            ) by {
                lemma_all_goods_complete(good);
                assert(state.ore_minigames@[good.spec_index()] is Some);
            }
        }
        state
    }

    /// A saved state taken up again: the balances, and the elements under the
    /// handles they had. Minigame sessions are not saved: each is started when
    /// it is first played.
    pub fn restore(inventory: Inventory, entries: &Vec<(usize, Element)>) -> (state: GameState)
        ensures
            state.spec_inventory() == inventory@,
            state.spec_elements() == slots_of(entries@),
            forall|good: Good| #[trigger] state.spec_minigame(good) is None,
    {
        let mut elements: Vec<Option<Element>> = Vec::new();
        let mut i: usize = 0;
        while i < entries.len()
            invariant
                i <= entries.len(),
                elements@ == slots_of(entries@.take(i as int)),
            decreases entries.len() - i,
        {
            proof {
                assert(entries@.take(i as int + 1).drop_last() =~= entries@.take(i as int));
                assert(entries@.take(i as int + 1).last() == entries@[i as int]);
            }
            let handle = entries[i].0;
            if handle < MAX_HANDLES {
                let ghost before = elements@;
                assert(elements@ =~= before + Seq::new(0, |i: int| None::<Element>));
                while elements.len() <= handle
                    invariant
                        handle < MAX_HANDLES,
                        before.len() <= elements@.len(),
                        before.len() <= handle ==> elements@.len() <= handle + 1,
                        before.len() > handle ==> elements@.len() == before.len(),
                        elements@ == before + Seq::new(
                            (elements@.len() - before.len()) as nat,
                            |i: int| None::<Element>,
                        ),
                    decreases handle + 1 - elements.len(),
                {
                    elements.push(None);
                    assert(elements@ =~= before + Seq::new(
                        (elements@.len() - before.len()) as nat,
                        |i: int| None::<Element>,
                    ));
                }
                assert(before.len() > handle ==> elements@ =~= before);
                elements.set(handle, Some(entries[i].1.clone()));
            }
            i += 1;
        }
        assert(entries@.take(i as int) =~= entries@);
        GameState { inventory, ore_minigames: Vec::new(), elements }
    }

    /// The inventory.
    pub fn inventory(&self) -> (inventory: &Inventory)
        ensures
            inventory@ == self.spec_inventory(),
    {
        &self.inventory
    }

    /// The inventory, to credit or debit it from outside the production step.
    pub fn inventory_mut(&mut self) -> (inventory: &mut Inventory)
        ensures
            inventory@ == old(self).spec_inventory(),
            final(self).spec_inventory() == final(inventory)@,
            final(self).spec_elements() == old(self).spec_elements(),
            forall|good: Good| final(self).spec_minigame(good) == old(self).spec_minigame(good),
    {
        &mut self.inventory
    }

    /// The elements by handle. A handle whose element was removed holds `None`.
    pub fn elements(&self) -> (elements: &Vec<Option<Element>>)
        ensures
            elements@ == self.spec_elements(),
    {
        &self.elements
    }

    /// The handle that the next element will get. Handles count up and are
    /// never given out again, also after an element was removed.
    pub fn next_handle(&self) -> (handle: usize)
        ensures
            handle == self.spec_elements().len(),
    {
        self.elements.len()
    }

    /// Adds an element and returns its handle.
    pub fn add_element(&mut self, element: Element) -> (handle: usize)
        ensures
            handle == old(self).spec_elements().len(),
            final(self).spec_elements() == old(self).spec_elements().push(Some(element)),
            final(self).spec_inventory() == old(self).spec_inventory(),
            forall|good: Good| final(self).spec_minigame(good) == old(self).spec_minigame(good),
    {
        let handle = self.elements.len();
        self.elements.push(Some(element));
        handle
    }

    /// Removes the element with the given handle, if there is one. The handle
    /// stays taken.
    pub fn remove_element(&mut self, handle: usize)
        ensures
            final(self).spec_elements() == if handle < old(self).spec_elements().len() {
                old(self).spec_elements().update(handle as int, None)
            } else {
                old(self).spec_elements()
            },
            final(self).spec_inventory() == old(self).spec_inventory(),
            forall|good: Good| final(self).spec_minigame(good) == old(self).spec_minigame(good),
    {
        if handle < self.elements.len() {
            self.elements.set(handle, None);
        }
    }

    /// Opens or closes the window of the element with the given handle, if
    /// there is one.
    pub fn set_open(&mut self, handle: usize, is_open: bool)
        ensures
            final(self).spec_elements().len() == old(self).spec_elements().len(),
            forall|i: int|
                0 <= i < old(self).spec_elements().len() ==> final(self).spec_elements()[i] == if i
                    == handle {
                    with_open(old(self).spec_elements()[i], is_open)
                } else {
                    old(self).spec_elements()[i]
                },
            final(self).spec_inventory() == old(self).spec_inventory(),
            forall|good: Good| final(self).spec_minigame(good) == old(self).spec_minigame(good),
    {
        if handle < self.elements.len() {
            let mut slot: Option<Element> = None;
            core::mem::swap(&mut self.elements[handle], &mut slot);
            match slot {
                Some(element) => {
                    self.elements.set(
                        handle,
                        Some(Element { is_open, ..element }),
                    );
                },
                None => {},
            }
        }
    }

    /// The minigame session of `ore`, if one was started.
    pub fn minigame(&self, ore: Good) -> (game: Option<&OreMinigame>)
        ensures
            game is Some <==> self.spec_minigame(ore) is Some,
            game is Some ==> game->0@ == self.spec_minigame(ore)->0 && game->0@.valid(),
    {
        let index = ore.index();
        if index < self.ore_minigames.len() {
            match &self.ore_minigames[index] {
                Some(game) => {
                    let _ = game.next();
                    Some(game)
                },
                None => None,
            }
        } else {
            None
        }
    }

    /// Starts a session for `ore` with the difficulty that the catalog gives,
    /// unless there is one already.
    pub fn ensure_minigame(&mut self, ore: Good, rng: &mut StdRng)
        ensures
            final(self).spec_minigame(ore) is Some,
            old(self).spec_minigame(ore) is Some ==> final(self).spec_minigame(ore)
                == old(self).spec_minigame(ore),
            old(self).spec_minigame(ore) is None ==> started(
                final(self).spec_minigame(ore)->0,
                ore.spec_properties().difficulty as int,
            ),
            forall|good: Good|
                good != ore ==> final(self).spec_minigame(good) == old(self).spec_minigame(good),
            final(self).spec_inventory() == old(self).spec_inventory(),
            final(self).spec_elements() == old(self).spec_elements(),
    {
        let index = ore.index();
        while self.ore_minigames.len() <= index
            invariant
                index == ore.spec_index(),
                self.inventory == old(self).inventory,
                self.elements == old(self).elements,
                forall|good: Good| self.spec_minigame(good) == old(self).spec_minigame(good),
            decreases index + 1 - self.ore_minigames.len(),
        {
            let ghost before = *self;
            self.ore_minigames.push(None);
            assert forall|good: Good| self.spec_minigame(good) == before.spec_minigame(good) by {
                let index = good.spec_index();
                if index < before.ore_minigames@.len() {
                    assert(self.ore_minigames@[index] == before.ore_minigames@[index]);
                }
            }
        }
        if self.ore_minigames[index].is_none() {
            let ghost before = *self;
            let game = OreMinigame::new(ore.properties().difficulty, rng);
            self.ore_minigames.set(index, Some(game));
            assert forall|good: Good| good != ore implies self.spec_minigame(good)
                == before.spec_minigame(good) by {
                lemma_all_goods_complete(good);
                lemma_all_goods_complete(ore);
            }
        }
    }

    /// One frame of the minigame of `ore`.
    ///
    /// A session is started if there is none. The press, if there was one, is
    /// taken. A failed session is started afresh. A solved session yields one
    /// unit of the ore, once, and is then started afresh too.
    pub fn play_minigame(&mut self, ore: Good, pressed: Option<u32>, rng: &mut StdRng) -> (mined:
        bool)
        ensures
            final(self).spec_minigame(ore) is Some,
            old(self).spec_minigame(ore) is Some ==> settled(
                played(old(self).spec_minigame(ore)->0, pressed),
                final(self).spec_minigame(ore)->0,
                mined,
            ),
            old(self).spec_minigame(ore) is None ==> exists|session: Session|
                started(session, ore.spec_properties().difficulty as int) && settled(
                    played(session, pressed),
                    final(self).spec_minigame(ore)->0,
                    mined,
                ),
            forall|good: Good|
                good != ore ==> final(self).spec_minigame(good) == old(self).spec_minigame(good),
            final(self).spec_inventory() == if mined {
                old(self).spec_inventory().insert(ore, old(self).spec_inventory()[ore] + 1real)
            } else {
                old(self).spec_inventory()
            },
            final(self).spec_elements() == old(self).spec_elements(),
    {
        let index = ore.index();
        self.ensure_minigame(ore, rng);
        let ghost ready = *self;
        let mut slot: Option<OreMinigame> = None;
        core::mem::swap(&mut self.ore_minigames[index], &mut slot);
        let mut game = slot.unwrap();
        match pressed {
            Some(value) => {
                game.press(value);
            },
            None => {},
        }
        game.reset_if_failed(rng);
        let mined = game.is_solved();
        if mined {
            let one = Rational::from_integer(1);
            self.inventory.credit(ore, &one);
        }
        game.reset_if_solved(rng);
        self.ore_minigames.set(index, Some(game));
        proof {
            assert forall|good: Good| good != ore implies self.spec_minigame(good)
                == ready.spec_minigame(good) by {
                lemma_all_goods_complete(good);
                lemma_all_goods_complete(ore);
            }
        }
        mined
    }

    /// Runs one tick of `tick_rate` seconds: every producer among the elements
    /// makes one production step, in the order of the handles. Balances that
    /// were not below zero stay so.
    pub fn tick(&mut self, tick_rate: &Rational)
        requires
            tick_rate@ >= 0real,
        ensures
            final(self).spec_inventory() == advance_all(
                old(self).spec_elements(),
                old(self).spec_inventory(),
                tick_rate@,
            ),
            non_negative(old(self).spec_inventory()) ==> non_negative(final(self).spec_inventory()),
            final(self).spec_elements() == old(self).spec_elements(),
            forall|good: Good| final(self).spec_minigame(good) == old(self).spec_minigame(good),
    {
        let ghost start = self.inventory@;
        let mut i: usize = 0;
        while i < self.elements.len()
            invariant
                i <= self.elements.len(),
                tick_rate@ >= 0real,
                self.elements == old(self).elements,
                self.ore_minigames == old(self).ore_minigames,
                self.inventory@ == advance_all(self.elements@.take(i as int), start, tick_rate@),
                non_negative(start) ==> non_negative(self.inventory@),
            decreases self.elements.len() - i,
        {
            proof {
                assert(self.elements@.take(i as int + 1).drop_last() =~= self.elements@.take(
                    i as int,
                ));
                assert(self.elements@.take(i as int + 1).last() == self.elements@[i as int]);
            }
            let producer = match &self.elements[i] {
                Some(element) => element.variant.producer(),
                None => None,
            };
            match producer {
                Some(producer) => {
                    producer.tick(&mut self.inventory, tick_rate);
                },
                None => {},
            }
            i += 1;
        }
        assert(self.elements@.take(i as int) =~= self.elements@);
    }

    /// Runs `count` ticks of `tick_rate` seconds each.
    pub fn run_ticks(&mut self, count: u32, tick_rate: &Rational)
        requires
            tick_rate@ >= 0real,
        ensures
            final(self).spec_inventory() == advance_ticks(
                old(self).spec_elements(),
                old(self).spec_inventory(),
                tick_rate@,
                count as nat,
            ),
            non_negative(old(self).spec_inventory()) ==> non_negative(final(self).spec_inventory()),
            final(self).spec_elements() == old(self).spec_elements(),
            forall|good: Good| final(self).spec_minigame(good) == old(self).spec_minigame(good),
    {
        let ghost start = self.inventory@;
        let mut done: u32 = 0;
        while done < count
            invariant
                done <= count,
                tick_rate@ >= 0real,
                self.spec_elements() == old(self).spec_elements(),
                forall|good: Good| self.spec_minigame(good) == old(self).spec_minigame(good),
                self.inventory@ == advance_ticks(self.elements@, start, tick_rate@, done as nat),
                non_negative(start) ==> non_negative(self.inventory@),
            decreases count - done,
        {
            self.tick(tick_rate);
            done += 1;
        }
    }

    /// What the producers among the elements would produce and use up per
    /// second if nothing were throttled.
    pub fn production_table_theoretical(&self) -> (table: ProductionTable)
        ensures
            table.outputs@ == theoretical_rates(self.spec_elements(), false),
            table.inputs@ == theoretical_rates(self.spec_elements(), true),
    {
        let one = Rational::from_integer(1);
        let mut table = ProductionTable { outputs: Inventory::new(), inputs: Inventory::new() };
        let mut i: usize = 0;
        while i < self.elements.len()
            invariant
                i <= self.elements.len(),
                one@ == 1real,
                table.outputs@ == theoretical_rates(self.elements@.take(i as int), false),
                table.inputs@ == theoretical_rates(self.elements@.take(i as int), true),
            decreases self.elements.len() - i,
        {
            proof {
                assert(self.elements@.take(i as int + 1).drop_last() =~= self.elements@.take(
                    i as int,
                ));
                assert(self.elements@.take(i as int + 1).last() == self.elements@[i as int]);
            }
            let producer = match &self.elements[i] {
                Some(element) => element.variant.producer(),
                None => None,
            };
            match producer {
                Some(producer) => {
                    let props = producer.properties();
                    let ghost outputs_before = table.outputs@;
                    let ghost inputs_before = table.inputs@;
                    credit_all(&mut table.outputs, &props.outputs, &one);
                    credit_all(&mut table.inputs, &props.inputs, &one);
                    proof {
                        let none = Seq::<(Good, real)>::empty();
                        assert forall|good: Good|
                            total_rate(producer.spec_outputs(), good) * 1real == total_rate(
                                producer.spec_outputs(),
                                good,
                            ) && total_rate(producer.spec_inputs(), good) * 1real == total_rate(
                                producer.spec_inputs(),
                                good,
                            ) && total_rate(none, good) * 1real == 0real by {
                            lemma_times_one(total_rate(producer.spec_outputs(), good));
                            lemma_times_one(total_rate(producer.spec_inputs(), good));
                            lemma_times_one(total_rate(none, good));
                        }
                        assert(table.outputs@ =~= theoretical_rates(
                            self.elements@.take(i as int + 1),
                            false,
                        ));
                        assert(table.inputs@ =~= theoretical_rates(
                            self.elements@.take(i as int + 1),
                            true,
                        ));
                    }
                },
                None => {},
            }
            i += 1;
        }
        assert(self.elements@.take(i as int) =~= self.elements@);
        table
    }

    /// The inventory table: one line for each good, in declaration order, with
    /// its balance and its theoretical rates.
    pub fn inventory_rows(&self) -> (rows: Vec<InventoryRow>)
        ensures
            rows@.len() == GOOD_COUNT,
            forall|i: int|
                0 <= i < GOOD_COUNT ==> (#[trigger] rows@[i]).describes(
                    all_goods()[i],
                    self.spec_inventory(),
                    self.spec_elements(),
                ),
    {
        let table = self.production_table_theoretical();
        let goods = Good::all();
        let mut rows: Vec<InventoryRow> = Vec::new();
        let mut i: usize = 0;
        while i < goods.len()
            invariant
                i <= goods.len(),
                goods@ == all_goods(),
                rows@.len() == i,
                table.outputs@ == theoretical_rates(self.spec_elements(), false),
                table.inputs@ == theoretical_rates(self.spec_elements(), true),
                forall|j: int|
                    0 <= j < i ==> (#[trigger] rows@[j]).describes(
                        all_goods()[j],
                        self.spec_inventory(),
                        self.spec_elements(),
                    ),
            decreases goods.len() - i,
        {
            let good = goods[i];
            let amount = self.inventory.get(good);
            let whole = amount.floor();
            let output = table.outputs.get(good);
            let input = table.inputs.get(good);
            let net = output.sub(&input);
            rows.push(InventoryRow { good, amount, whole, output, input, net });
            i += 1;
        }
        rows
    }
}

/// The length of one tick in seconds.
pub open spec fn tick_seconds() -> real {
    quotient(1, TICKS_PER_SECOND as int)
}

/// The game as a whole: the clock and the state that the clock drives.
#[derive(Debug)]
pub struct IdleGame {
    clock: GameClock,
    game_state: GameState,
}

impl IdleGame {
    /// The clock.
    pub closed spec fn spec_clock(&self) -> GameClock {
        self.clock
    }

    /// The game state.
    pub closed spec fn spec_game_state(&self) -> GameState {
        self.game_state
    }

    /// A new game that starts at `now`, in milliseconds since the epoch.
    pub fn new(now: i64, rng: &mut StdRng) -> (game: IdleGame)
        ensures
            game.spec_clock().spec_game_timer() == 0real,
            game.spec_clock().spec_prev_time() == now,
            game.spec_game_state().is_new_game(),
    {
        IdleGame { clock: GameClock::new(now), game_state: GameState::new(rng) }
    }

    /// A saved game taken up again at `now`. The time that passed while the
    /// game was not running is not made up for.
    pub fn resume(game_timer: Rational, game_state: GameState, now: i64) -> (game: IdleGame)
        ensures
            game.spec_clock().spec_game_timer() == game_timer@,
            game.spec_clock().spec_prev_time() == now,
            game.spec_game_state() == game_state,
    {
        IdleGame { clock: GameClock::resume(game_timer, now), game_state }
    }

    /// The length of one tick.
    pub fn tick_rate() -> (tick: Rational)
        ensures
            tick@ == tick_seconds(),
            tick@ > 0real,
    {
        let tick = Rational::new(1, TICKS_PER_SECOND);
        proof {
            lemma_quotient_sign(1, TICKS_PER_SECOND as int);
        }
        tick.unwrap()
    }

    /// The clock.
    pub fn clock(&self) -> (clock: &GameClock)
        ensures
            *clock == self.spec_clock(),
    {
        &self.clock
    }

    /// The clock, to add time to it from outside.
    pub fn clock_mut(&mut self) -> (clock: &mut GameClock)
        ensures
            *clock == old(self).spec_clock(),
            final(self).spec_clock() == *final(clock),
            final(self).spec_game_state() == old(self).spec_game_state(),
    {
        &mut self.clock
    }

    /// The game state.
    pub fn game_state(&self) -> (state: &GameState)
        ensures
            *state == self.spec_game_state(),
    {
        &self.game_state
    }

    /// The game state, to change it from outside the ticks.
    pub fn game_state_mut(&mut self) -> (state: &mut GameState)
        ensures
            *state == old(self).spec_game_state(),
            final(self).spec_game_state() == *final(state),
            final(self).spec_clock() == old(self).spec_clock(),
    {
        &mut self.game_state
    }

    /// Starts the game over: the state of a new game, on the clock as it stands.
    pub fn reset(&mut self, rng: &mut StdRng)
        ensures
            final(self).spec_clock() == old(self).spec_clock(),
            final(self).spec_game_state().is_new_game(),
    {
        self.game_state = GameState::new(rng);
    }

    /// The simulation part of a frame at `now`: moves the clock and runs the
    /// ticks that are due, `TICK_LIMIT` at most, and returns their number.
    pub fn advance(&mut self, now: i64) -> (ticks: u32)
        ensures
            ticks <= TICK_LIMIT,
            ticks == ticks_due(
                old(self).spec_clock().spec_game_timer() + elapsed_seconds(
                    old(self).spec_clock().spec_prev_time(),
                    now as int,
                ),
                tick_seconds(),
                TICK_LIMIT as nat,
            ),
            final(self).spec_clock().spec_prev_time() == now,
            final(self).spec_clock().spec_game_timer() == old(self).spec_clock().spec_game_timer()
                + elapsed_seconds(old(self).spec_clock().spec_prev_time(), now as int) - ticks as real
                * tick_seconds(),
            final(self).spec_game_state().spec_inventory() == advance_ticks(
                old(self).spec_game_state().spec_elements(),
                old(self).spec_game_state().spec_inventory(),
                tick_seconds(),
                ticks as nat,
            ),
            non_negative(old(self).spec_game_state().spec_inventory()) ==> non_negative(
                final(self).spec_game_state().spec_inventory(),
            ),
            final(self).spec_game_state().spec_elements()
                == old(self).spec_game_state().spec_elements(),
            forall|good: Good|
                final(self).spec_game_state().spec_minigame(good)
                    == old(self).spec_game_state().spec_minigame(good),
    {
        let tick = IdleGame::tick_rate();
        let ticks = self.clock.advance(now, &tick, TICK_LIMIT);
        self.game_state.run_ticks(ticks, &tick);
        ticks
    }
}

/// A number times one is that number.
pub proof fn lemma_times_one(a: real)
    ensures
        a * 1real == a,
{
    assert(a * 1real == a) by (nonlinear_arith);
}

/// Under the production engine no balance goes below zero: after every
/// producer's step of a tick that is not negative, balances that were not
/// below zero are not below zero.
pub proof fn lemma_advance_all_keeps_non_negative(
    elements: Seq<Option<Element>>,
    balances: Map<Good, real>,
    dt: real,
)
    requires
        non_negative(balances),
        dt >= 0real,
    ensures
        non_negative(advance_all(elements, balances, dt)),
    decreases elements.len(),
{
    if elements.len() > 0 {
        lemma_advance_all_keeps_non_negative(elements.drop_last(), balances, dt);
        match producer_at(elements.last()) {
            Some(producer) => {
                lemma_catalog_valid(producer);
                lemma_step_keeps_non_negative(
                    producer.spec_outputs(),
                    producer.spec_inputs(),
                    advance_all(elements.drop_last(), balances, dt),
                    dt,
                );
            },
            None => {},
        }
    }
}

/// The balances after one run of the engine for each of the given slices, in
/// their order.
pub open spec fn advance_each(
    elements: Seq<Option<Element>>,
    balances: Map<Good, real>,
    slices: Seq<real>,
) -> Map<Good, real>
    decreases slices.len(),
{
    if slices.len() == 0 {
        balances
    } else {
        advance_all(elements, advance_each(elements, balances, slices.drop_last()), slices.last())
    }
}

/// The same over any sequence of runs: whatever the slices are, as long as
/// none is negative, balances that were not below zero stay so.
pub proof fn lemma_advance_each_keeps_non_negative(
    elements: Seq<Option<Element>>,
    balances: Map<Good, real>,
    slices: Seq<real>,
)
    requires
        non_negative(balances),
        forall|i: int| 0 <= i < slices.len() ==> slices[i] >= 0real,
    ensures
        non_negative(advance_each(elements, balances, slices)),
    decreases slices.len(),
{
    if slices.len() > 0 {
        lemma_advance_each_keeps_non_negative(elements, balances, slices.drop_last());
        lemma_advance_all_keeps_non_negative(
            elements,
            advance_each(elements, balances, slices.drop_last()),
            slices.last(),
        );
    }
}

/// The same over any number of ticks: however often the engine runs, balances
/// that were not below zero stay so.
pub proof fn lemma_advance_ticks_keeps_non_negative(
    elements: Seq<Option<Element>>,
    balances: Map<Good, real>,
    dt: real,
    count: nat,
)
    requires
        non_negative(balances),
        dt >= 0real,
    ensures
        non_negative(advance_ticks(elements, balances, dt, count)),
    decreases count,
{
    if count > 0 {
        lemma_advance_ticks_keeps_non_negative(elements, balances, dt, (count - 1) as nat);
        lemma_advance_all_keeps_non_negative(
            elements,
            advance_ticks(elements, balances, dt, (count - 1) as nat),
            dt,
        );
    }
}

} // verus!
