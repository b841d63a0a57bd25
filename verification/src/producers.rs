//! Producers and the production step.
//!
//! A producer turns input goods into output goods at fixed rates per second.
//! When an input runs short the producer is throttled in proportion: it works
//! for the part of the time slice that the scarcest input can feed, and for no
//! more. It never produces all-or-nothing and never drives a balance below zero.
use crate::goods::{Good, GoodGroup};
use crate::inventory::{entry_values, non_negative, Inventory};
use crate::rational::{lemma_quotient_sign, quotient, Rational};
use vstd::prelude::*;

verus! {

/// The producers of the game. A drill is specialised to the good it digs up.
#[derive(Clone, Copy, PartialEq, Eq, Structural, Hash, PartialOrd, Ord, Debug)]
pub enum Producer {
    /// Produces and consumes nothing.
    Blank,
    /// Digs up one unit per second for free.
    GravityDrill(Good),
    /// Digs up one unit per second and burns a quarter unit of coal per second.
    CoalDrill(Good),
}

/// What the catalog knows about one producer.
#[derive(Debug)]
pub struct ProducerProperties {
    /// The display name.
    pub name: &'static str,
    /// The price of one such producer.
    pub cost: Rational,
    /// The goods produced, each with its rate in units per second.
    pub outputs: Vec<(Good, Rational)>,
    /// The goods consumed, each with its rate in units per second.
    pub inputs: Vec<(Good, Rational)>,
}

/// No rate of the table is below zero.
pub open spec fn rates_non_negative(rates: Seq<(Good, real)>) -> bool {
    forall|i: int| 0 <= i < rates.len() ==> (#[trigger] rates[i]).1 >= 0real
}

/// No good stands in the table twice.
pub open spec fn goods_distinct(rates: Seq<(Good, real)>) -> bool {
    forall|i: int, j: int|
        0 <= i < j < rates.len() ==> (#[trigger] rates[i]).0 != (#[trigger] rates[j]).0
}

/// The sum of the rates that the table lists for `good`.
pub open spec fn total_rate(rates: Seq<(Good, real)>, good: Good) -> real
    decreases rates.len(),
{
    if rates.len() == 0 {
        0real
    } else if rates.last().0 == good {
        total_rate(rates.drop_last(), good) + rates.last().1
    } else {
        total_rate(rates.drop_last(), good)
    }
}

/// The time, at most `dt`, for which the balances can feed every input: the
/// least of `dt` and of `balance / rate` over the inputs with a rate above zero.
pub open spec fn affordable_time(
    inputs: Seq<(Good, real)>,
    balances: Map<Good, real>,
    dt: real,
) -> real
    decreases inputs.len(),
{
    if inputs.len() == 0 {
        dt
    } else {
        let rest = affordable_time(inputs.drop_last(), balances, dt);
        let limit = balances[inputs.last().0] / inputs.last().1;
        if inputs.last().1 > 0real && limit < rest {
            limit
        } else {
            rest
        }
    }
}

/// The time for which a producer works within a slice of `dt`: the affordable
/// time, held at zero from below.
pub open spec fn throttled_time(
    inputs: Seq<(Good, real)>,
    balances: Map<Good, real>,
    dt: real,
) -> real {
    let time = affordable_time(inputs, balances, dt);
    if time < 0real {
        0real
    } else {
        time
    }
}

/// The balances after a producer has worked for `time`: every good gains what
/// the outputs list for it and loses what the inputs list for it.
pub open spec fn produced(
    outputs: Seq<(Good, real)>,
    inputs: Seq<(Good, real)>,
    balances: Map<Good, real>,
    time: real,
) -> Map<Good, real> {
    Map::total(
        |good: Good|
            balances[good] + total_rate(outputs, good) * time - total_rate(inputs, good) * time,
    )
}

/// The balances after one production step of `dt` seconds.
pub open spec fn step(
    outputs: Seq<(Good, real)>,
    inputs: Seq<(Good, real)>,
    balances: Map<Good, real>,
    dt: real,
) -> Map<Good, real> {
    produced(outputs, inputs, balances, throttled_time(inputs, balances, dt))
}

/// Every input can be fed for the whole of `dt`.
pub open spec fn enough_inputs(
    inputs: Seq<(Good, real)>,
    balances: Map<Good, real>,
    dt: real,
) -> bool {
    forall|i: int| 0 <= i < inputs.len() ==> balances[(#[trigger] inputs[i]).0] >= inputs[i].1 * dt
}

impl ProducerProperties {
    /// The outputs as numbers.
    pub open spec fn outputs_view(&self) -> Seq<(Good, real)> {
        entry_values(self.outputs@)
    }

    /// The inputs as numbers.
    pub open spec fn inputs_view(&self) -> Seq<(Good, real)> {
        entry_values(self.inputs@)
    }

    /// Both tables are mappings from goods to rates that are not below zero.
    pub open spec fn valid(&self) -> bool {
        &&& rates_non_negative(self.outputs_view())
        &&& rates_non_negative(self.inputs_view())
        &&& goods_distinct(self.outputs_view())
        &&& goods_distinct(self.inputs_view())
    }

    /// Whether the properties are valid.
    pub fn is_valid(&self) -> (ok: bool)
        ensures
            ok == self.valid(),
    {
        table_is_valid(&self.outputs) && table_is_valid(&self.inputs)
    }

    /// The time for which the producer can work within a slice of `dt`.
    pub fn throttle(&self, inventory: &Inventory, dt: &Rational) -> (time: Rational)
        ensures
            time@ == throttled_time(self.inputs_view(), inventory@, dt@),
    {
        let ghost inputs = self.inputs_view();
        let mut time = dt.clone();
        let mut i: usize = 0;
        while i < self.inputs.len()
            invariant
                i <= self.inputs.len(),
                inputs == self.inputs_view(),
                time@ == affordable_time(inputs.take(i as int), inventory@, dt@),
            decreases self.inputs.len() - i,
        {
            proof {
                assert(inputs.take(i as int + 1).drop_last() =~= inputs.take(i as int));
                assert(inputs.take(i as int + 1).last() == inputs[i as int]);
            }
            let rate = &self.inputs[i].1;
            if rate.is_positive() {
                let limit = inventory.get(self.inputs[i].0).div(rate);
                time = time.min(limit);
            }
            i += 1;
        }
        assert(inputs.take(i as int) =~= inputs);
        time.max(Rational::zero())
    }

    /// Whether every input can be fed for the whole of `dt`, so that the
    /// producer works unthrottled.
    pub fn has_enough_inputs(&self, inventory: &Inventory, dt: &Rational) -> (enough: bool)
        ensures
            enough == enough_inputs(self.inputs_view(), inventory@, dt@),
    {
        let ghost inputs = self.inputs_view();
        let mut i: usize = 0;
        while i < self.inputs.len()
            invariant
                i <= self.inputs.len(),
                inputs == self.inputs_view(),
                enough_inputs(inputs.take(i as int), inventory@, dt@),
            decreases self.inputs.len() - i,
        {
            let needed = self.inputs[i].1.mul(dt);
            if inventory.get(self.inputs[i].0).lt(&needed) {
                assert(inputs[i as int] == (self.inputs@[i as int].0, self.inputs@[i as int].1@));
                return false;
            }
            proof {
                let before = inputs.take(i as int);
                let after = inputs.take(i as int + 1);
                assert forall|j: int| 0 <= j < after.len() implies inventory@[(
                #[trigger] after[j]).0] >= after[j].1 * dt@ by {
                    if j < i {
                        assert(before[j] == after[j]);
                    }
                }
            }
            i += 1;
        }
        assert(inputs.take(i as int) =~= inputs);
        true
    }

    /// Lets the producer work for `time`: credits every output and debits every
    /// input at its rate, whatever the balances are.
    pub fn tick_inventory(&self, inventory: &mut Inventory, time: &Rational)
        requires
            rates_non_negative(self.outputs_view()),
            rates_non_negative(self.inputs_view()),
            time@ >= 0real,
        ensures
            final(inventory)@ == produced(
                self.outputs_view(),
                self.inputs_view(),
                old(inventory)@,
                time@,
            ),
    {
        credit_all(inventory, &self.outputs, time);
        debit_all(inventory, &self.inputs, time);
        proof {
            let none = Seq::<(Good, real)>::empty();
            assert forall|good: Good| #[trigger]
                inventory@[good] == produced(
                    self.outputs_view(),
                    self.inputs_view(),
                    old(inventory)@,
                    time@,
                )[good] by {
                assert(total_rate(none, good) * time@ == 0real) by (nonlinear_arith)
                    requires
                        total_rate(none, good) == 0real,
                ;
            }
            assert(inventory@ =~= produced(
                self.outputs_view(),
                self.inputs_view(),
                old(inventory)@,
                time@,
            ));
        }
    }

    /// One production step of `dt` seconds: the producer works for the time that
    /// its inputs can feed. Balances that were not below zero stay so.
    pub fn tick(&self, inventory: &mut Inventory, dt: &Rational)
        requires
            self.valid(),
            dt@ >= 0real,
        ensures
            final(inventory)@ == step(self.outputs_view(), self.inputs_view(), old(inventory)@, dt@),
            non_negative(old(inventory)@) ==> non_negative(final(inventory)@),
    {
        let time = self.throttle(inventory, dt);
        proof {
            if non_negative(inventory@) {
                lemma_step_keeps_non_negative(
                    self.outputs_view(),
                    self.inputs_view(),
                    inventory@,
                    dt@,
                );
            }
        }
        self.tick_inventory(inventory, &time);
    }
}

/// Adds to every good what the table lists for it, for a working time of `time`.
pub fn credit_all(inventory: &mut Inventory, rates: &Vec<(Good, Rational)>, time: &Rational)
    requires
        rates_non_negative(entry_values(rates@)),
        time@ >= 0real,
    ensures
        final(inventory)@ == produced(
            entry_values(rates@),
            Seq::<(Good, real)>::empty(),
            old(inventory)@,
            time@,
        ),
{
    let ghost start = inventory@;
    let ghost table = entry_values(rates@);
    let ghost none = Seq::<(Good, real)>::empty();
    proof {
        assert(0real * time@ == 0real) by (nonlinear_arith);
        assert(inventory@ =~= produced(table.take(0), none, start, time@));
    }
    let mut i: usize = 0;
    while i < rates.len()
        invariant
            i <= rates.len(),
            table == entry_values(rates@),
            rates_non_negative(table),
            time@ >= 0real,
            none.len() == 0,
            inventory@ == produced(table.take(i as int), none, start, time@),
        decreases rates.len() - i,
    {
        let good = rates[i].0;
        let amount = rates[i].1.mul(time);
        proof {
            assert(table[i as int] == (good, rates@[i as int].1@));
            lemma_product_non_negative(table[i as int].1, time@);
        }
        inventory.credit(good, &amount);
        proof {
            assert forall|other: Good| #[trigger]
                inventory@[other] == produced(table.take(i as int + 1), none, start, time@)[other] by {
                lemma_total_rate_take(table, i as int, other);
                lemma_product_distributes(
                    total_rate(table.take(i as int), other),
                    table[i as int].1,
                    time@,
                );
            }
            assert(inventory@ =~= produced(table.take(i as int + 1), none, start, time@));
        }
        i += 1;
    }
    assert(table.take(i as int) =~= table);
}

/// Takes from every good what the table lists for it, for a working time of
/// `time`, whatever the balances are.
pub fn debit_all(inventory: &mut Inventory, rates: &Vec<(Good, Rational)>, time: &Rational)
    requires
        rates_non_negative(entry_values(rates@)),
        time@ >= 0real,
    ensures
        final(inventory)@ == produced(
            Seq::<(Good, real)>::empty(),
            entry_values(rates@),
            old(inventory)@,
            time@,
        ),
{
    let ghost start = inventory@;
    let ghost table = entry_values(rates@);
    let ghost none = Seq::<(Good, real)>::empty();
    proof {
        assert(0real * time@ == 0real) by (nonlinear_arith);
        assert(inventory@ =~= produced(none, table.take(0), start, time@));
    }
    let mut i: usize = 0;
    while i < rates.len()
        invariant
            i <= rates.len(),
            table == entry_values(rates@),
            rates_non_negative(table),
            time@ >= 0real,
            none.len() == 0,
            inventory@ == produced(none, table.take(i as int), start, time@),
        decreases rates.len() - i,
    {
        let good = rates[i].0;
        let amount = rates[i].1.mul(time);
        proof {
            assert(table[i as int] == (good, rates@[i as int].1@));
            lemma_product_non_negative(table[i as int].1, time@);
        }
        inventory.debit(good, &amount);
        proof {
            assert forall|other: Good| #[trigger]
                inventory@[other] == produced(none, table.take(i as int + 1), start, time@)[other] by {
                lemma_total_rate_take(table, i as int, other);
                lemma_product_distributes(
                    total_rate(table.take(i as int), other),
                    table[i as int].1,
                    time@,
                );
            }
            assert(inventory@ =~= produced(none, table.take(i as int + 1), start, time@));
        }
        i += 1;
    }
    assert(table.take(i as int) =~= table);
}

/// Whether a table is a mapping from goods to rates that are not below zero.
fn table_is_valid(table: &Vec<(Good, Rational)>) -> (ok: bool)
    ensures
        ok == (rates_non_negative(entry_values(table@)) && goods_distinct(entry_values(table@))),
{
    let ghost rates = entry_values(table@);
    let mut i: usize = 0;
    while i < table.len()
        invariant
            i <= table.len(),
            rates == entry_values(table@),
            rates_non_negative(rates.take(i as int)),
            goods_distinct(rates.take(i as int)),
        decreases table.len() - i,
    {
        if table[i].1.is_negative() {
            assert(rates[i as int].1 < 0real);
            return false;
        }
        let mut j: usize = 0;
        while j < i
            invariant
                j <= i < table.len(),
                rates == entry_values(table@),
                forall|k: int| 0 <= k < j ==> (#[trigger] rates[k]).0 != rates[i as int].0,
            decreases i - j,
        {
            if table[j].0 == table[i].0 {
                assert(rates[j as int].0 == rates[i as int].0);
                return false;
            }
            j += 1;
        }
        proof {
            let before = rates.take(i as int);
            let after = rates.take(i as int + 1);
            assert forall|k: int| 0 <= k < after.len() implies (#[trigger] after[k]).1 >= 0real by {
                if k < i {
                    assert(before[k] == after[k]);
                }
            }
            assert forall|k: int, l: int| 0 <= k < l < after.len() implies (#[trigger] after[k]).0 != (
            #[trigger] after[l]).0 by {
                if l < i {
                    assert(before[k] == after[k]);
                    assert(before[l] == after[l]);
                }
            }
        }
        i += 1;
    }
    assert(rates.take(i as int) =~= rates);
    true
}

impl Producer {
    /// The name under which the catalog lists a producer.
    pub open spec fn spec_name(self) -> &'static str {
        match self {
            Producer::Blank => "None",
            Producer::GravityDrill(_) => "Gravity Drill",
            Producer::CoalDrill(_) => "Coal Drill",
        }
    }

    /// The price of a producer.
    pub open spec fn spec_cost(self) -> real {
        match self {
            Producer::Blank => 0real,
            Producer::GravityDrill(_) => 10real,
            Producer::CoalDrill(_) => 10real,
        }
    }

    /// What a producer yields, in units per second.
    pub open spec fn spec_outputs(self) -> Seq<(Good, real)> {
        match self {
            Producer::Blank => seq![],
            Producer::GravityDrill(good) => seq![(good, 1real)],
            Producer::CoalDrill(good) => seq![(good, 1real)],
        }
    }

    /// What a producer uses up, in units per second.
    pub open spec fn spec_inputs(self) -> Seq<(Good, real)> {
        match self {
            Producer::Blank => seq![],
            Producer::GravityDrill(_) => seq![],
            Producer::CoalDrill(_) => seq![(Good::Coal, quotient(1, 4))],
        }
    }

    /// The name under which the catalog lists a producer.
    pub fn name(&self) -> (name: &'static str)
        ensures
            name == self.spec_name(),
    {
        match self {
            Producer::Blank => "None",
            Producer::GravityDrill(_) => "Gravity Drill",
            Producer::CoalDrill(_) => "Coal Drill",
        }
    }

    /// Looks a producer up in the catalog.
    pub fn properties(&self) -> (props: ProducerProperties)
        ensures
            props.name == self.spec_name(),
            props.cost@ == self.spec_cost(),
            props.outputs_view() == self.spec_outputs(),
            props.inputs_view() == self.spec_inputs(),
            props.valid(),
    {
        let props = match self {
            Producer::Blank => ProducerProperties {
                name: self.name(),
                cost: Rational::from_integer(0),
                outputs: Vec::new(),
                inputs: Vec::new(),
            },
            Producer::GravityDrill(good) => ProducerProperties {
                name: self.name(),
                cost: Rational::from_integer(10),
                outputs: vec![(*good, Rational::from_integer(1))],
                inputs: Vec::new(),
            },
            Producer::CoalDrill(good) => {
                let quarter = Rational::new(1, 4);
                ProducerProperties {
                    name: self.name(),
                    cost: Rational::from_integer(10),
                    outputs: vec![(*good, Rational::from_integer(1))],
                    inputs: vec![(Good::Coal, quarter.unwrap())],
                }
            },
        };
        proof {
            assert(props.outputs_view() =~= self.spec_outputs());
            assert(props.inputs_view() =~= self.spec_inputs());
            lemma_catalog_valid(*self);
        }
        props
    }

    /// The producer that stands for a group where none was chosen.
    pub fn _default_for_group(group: GoodGroup) -> (producer: Producer)
        ensures
            producer == match group {
                GoodGroup::Money => Producer::Blank,
                GoodGroup::Ore => Producer::GravityDrill(Good::IronOre),
            },
    {
        match group {
            GoodGroup::Money => Producer::Blank,
            GoodGroup::Ore => Producer::GravityDrill(Good::_default_for_group(group)),
        }
    }

    /// One production step of `tick_rate` seconds. Balances that were not below
    /// zero stay so.
    pub fn tick(&self, inventory: &mut Inventory, tick_rate: &Rational)
        requires
            tick_rate@ >= 0real,
        ensures
            final(inventory)@ == step(
                self.spec_outputs(),
                self.spec_inputs(),
                old(inventory)@,
                tick_rate@,
            ),
            non_negative(old(inventory)@) ==> non_negative(final(inventory)@),
    {
        self.properties().tick(inventory, tick_rate);
    }

    /// Whether every input can be fed for the whole of `tick_rate`.
    pub fn has_enough_inputs(&self, inventory: &Inventory, tick_rate: &Rational) -> (enough: bool)
        ensures
            enough == enough_inputs(self.spec_inputs(), inventory@, tick_rate@),
    {
        self.properties().has_enough_inputs(inventory, tick_rate)
    }

    /// Lets the producer work for `time`, whatever the balances are.
    pub fn tick_inventory(&self, inventory: &mut Inventory, time: &Rational)
        requires
            time@ >= 0real,
        ensures
            final(inventory)@ == produced(
                self.spec_outputs(),
                self.spec_inputs(),
                old(inventory)@,
                time@,
            ),
    {
        self.properties().tick_inventory(inventory, time);
    }

    /// The text that names a producer: its catalog name, and for a drill the
    /// name of its good in brackets.
    pub fn label(&self) -> (text: String)
        ensures
            text@ == self.spec_label(),
    {
        match self {
            Producer::Blank => String::from_str("None"),
            Producer::GravityDrill(good) => String::from_str("Gravity Drill (").concat(
                good.properties().name,
            ).concat(")"),
            Producer::CoalDrill(good) => String::from_str("Coal Drill (").concat(
                good.properties().name,
            ).concat(")"),
        }
    }

    /// The text that names a producer.
    pub open spec fn spec_label(self) -> Seq<char> {
        match self {
            Producer::Blank => "None"@,
            Producer::GravityDrill(good) => "Gravity Drill ("@ + good.spec_properties().name@ + ")"@,
            Producer::CoalDrill(good) => "Coal Drill ("@ + good.spec_properties().name@ + ")"@,
        }
    }
}

impl Default for Producer {
    fn default() -> (producer: Producer)
        ensures
            producer == Producer::Blank,
    {
        Producer::Blank
    }
}

/// The product of two numbers that are not below zero is not below zero.
pub proof fn lemma_product_non_negative(a: real, b: real)
    requires
        a >= 0real,
        b >= 0real,
    ensures
        a * b >= 0real,
{
    assert(a >= 0real && b >= 0real ==> a * b >= 0real) by (nonlinear_arith);
}

/// Multiplication distributes over a sum.
pub proof fn lemma_product_distributes(a: real, b: real, c: real)
    ensures
        (a + b) * c == a * c + b * c,
{
    assert((a + b) * c == a * c + b * c) by (nonlinear_arith);
}

/// A time that is at most `balance / rate` uses up at most `balance`.
pub proof fn lemma_within_limit(rate: real, time: real, balance: real)
    requires
        rate > 0real,
        time <= balance / rate,
    ensures
        rate * time <= balance,
{
    assert(rate > 0real && time <= balance / rate ==> rate * time <= balance) by (nonlinear_arith);
}

/// Extending a table by its next row adds that row's rate to the total of the
/// row's good and leaves every other total alone.
pub proof fn lemma_total_rate_take(rates: Seq<(Good, real)>, i: int, good: Good)
    requires
        0 <= i < rates.len(),
    ensures
        total_rate(rates.take(i + 1), good) == total_rate(rates.take(i), good) + if rates[i].0
            == good {
            rates[i].1
        } else {
            0real
        },
{
    assert(rates.take(i + 1).drop_last() =~= rates.take(i));
    assert(rates.take(i + 1).last() == rates[i]);
}

/// In a table without repeated goods the total of a good is the rate of its
/// row, and zero for a good without a row.
pub proof fn lemma_total_rate_of_mapping(rates: Seq<(Good, real)>, good: Good)
    requires
        goods_distinct(rates),
    ensures
        forall|i: int|
            0 <= i < rates.len() && (#[trigger] rates[i]).0 == good ==> total_rate(rates, good)
                == rates[i].1,
        (forall|i: int| 0 <= i < rates.len() ==> (#[trigger] rates[i]).0 != good) ==> total_rate(
            rates,
            good,
        ) == 0real,
    decreases rates.len(),
{
    if rates.len() > 0 {
        let rest = rates.drop_last();
        assert forall|i: int, j: int| 0 <= i < j < rest.len() implies (#[trigger] rest[i]).0 != (
        #[trigger] rest[j]).0 by {
            assert(rest[i] == rates[i]);
            assert(rest[j] == rates[j]);
        }
        lemma_total_rate_of_mapping(rest, good);
        assert forall|i: int| 0 <= i < rates.len() && (#[trigger] rates[i]).0 == good implies total_rate(
            rates,
            good,
        ) == rates[i].1 by {
            if i < rest.len() {
                assert(rest[i] == rates[i]);
                assert(rates.last().0 != good) by {
                    assert(rates[rates.len() - 1] == rates.last());
                }
            } else {
                assert forall|k: int| 0 <= k < rest.len() implies (#[trigger] rest[k]).0 != good by {
                    assert(rest[k] == rates[k]);
                }
            }
        }
        if forall|i: int| 0 <= i < rates.len() ==> (#[trigger] rates[i]).0 != good {
            assert forall|k: int| 0 <= k < rest.len() implies (#[trigger] rest[k]).0 != good by {
                assert(rest[k] == rates[k]);
            }
            assert(rates[rates.len() - 1] == rates.last());
        }
    }
}

/// The affordable time is at most `dt` and at most `balance / rate` for every
/// input with a rate above zero, and it is one of these numbers.
pub proof fn lemma_affordable_time(inputs: Seq<(Good, real)>, balances: Map<Good, real>, dt: real)
    ensures
        affordable_time(inputs, balances, dt) <= dt,
        forall|i: int|
            0 <= i < inputs.len() && (#[trigger] inputs[i]).1 > 0real ==> affordable_time(
                inputs,
                balances,
                dt,
            ) <= balances[inputs[i].0] / inputs[i].1,
        affordable_time(inputs, balances, dt) == dt || exists|i: int|
            0 <= i < inputs.len() && (#[trigger] inputs[i]).1 > 0real && affordable_time(
                inputs,
                balances,
                dt,
            ) == balances[inputs[i].0] / inputs[i].1,
    decreases inputs.len(),
{
    if inputs.len() > 0 {
        let rest = inputs.drop_last();
        let time = affordable_time(inputs, balances, dt);
        lemma_affordable_time(rest, balances, dt);
        assert forall|i: int| 0 <= i < inputs.len() && (#[trigger] inputs[i]).1 > 0real implies time
            <= balances[inputs[i].0] / inputs[i].1 by {
            if i < rest.len() {
                assert(rest[i] == inputs[i]);
            }
        }
        if time != dt {
            if time == affordable_time(rest, balances, dt) {
                let k = choose|k: int|
                    0 <= k < rest.len() && (#[trigger] rest[k]).1 > 0real && affordable_time(
                        rest,
                        balances,
                        dt,
                    ) == balances[rest[k].0] / rest[k].1;
                assert(inputs[k] == rest[k]);
            } else {
                assert(inputs[inputs.len() - 1] == inputs.last());
            }
        }
    }
}

/// Within the throttled time no input asks for more than its balance holds.
pub proof fn lemma_throttled_time(inputs: Seq<(Good, real)>, balances: Map<Good, real>, dt: real)
    requires
        rates_non_negative(inputs),
        non_negative(balances),
        dt >= 0real,
    ensures
        0real <= throttled_time(inputs, balances, dt) <= dt,
        forall|i: int|
            0 <= i < inputs.len() ==> (#[trigger] inputs[i]).1 * throttled_time(inputs, balances, dt)
                <= balances[inputs[i].0],
{
    let time = throttled_time(inputs, balances, dt);
    lemma_affordable_time(inputs, balances, dt);
    assert forall|i: int| 0 <= i < inputs.len() implies (#[trigger] inputs[i]).1 * time
        <= balances[inputs[i].0] by {
        let rate = inputs[i].1;
        let balance = balances[inputs[i].0];
        assert(balance >= 0real);
        if rate > 0real && affordable_time(inputs, balances, dt) >= 0real {
            lemma_within_limit(rate, time, balance);
        } else if rate > 0real {
            assert(rate * 0real == 0real) by (nonlinear_arith);
        } else {
            assert(rate == 0real);
            assert(0real * time == 0real) by (nonlinear_arith);
        }
    }
}

/// Under the production step no balance goes below zero: for any slice that is
/// not negative, balances that were not below zero stay so.
pub proof fn lemma_step_keeps_non_negative(
    outputs: Seq<(Good, real)>,
    inputs: Seq<(Good, real)>,
    balances: Map<Good, real>,
    dt: real,
)
    requires
        rates_non_negative(outputs),
        rates_non_negative(inputs),
        goods_distinct(inputs),
        non_negative(balances),
        dt >= 0real,
    ensures
        non_negative(step(outputs, inputs, balances, dt)),
{
    let time = throttled_time(inputs, balances, dt);
    lemma_throttled_time(inputs, balances, dt);
    assert forall|good: Good| #[trigger] step(outputs, inputs, balances, dt)[good] >= 0real by {
        lemma_total_rate_non_negative(outputs, good);
        lemma_product_non_negative(total_rate(outputs, good), time);
        lemma_total_rate_of_mapping(inputs, good);
        assert(balances[good] >= 0real);
        if exists|i: int| 0 <= i < inputs.len() && (#[trigger] inputs[i]).0 == good {
            let i = choose|i: int| 0 <= i < inputs.len() && (#[trigger] inputs[i]).0 == good;
            assert(total_rate(inputs, good) == inputs[i].1);
        } else {
            assert(total_rate(inputs, good) == 0real);
            assert(0real * time == 0real) by (nonlinear_arith);
        }
    }
}

/// The total of rates that are not below zero is not below zero.
pub proof fn lemma_total_rate_non_negative(rates: Seq<(Good, real)>, good: Good)
    requires
        rates_non_negative(rates),
    ensures
        total_rate(rates, good) >= 0real,
    decreases rates.len(),
{
    if rates.len() > 0 {
        let rest = rates.drop_last();
        assert forall|i: int| 0 <= i < rest.len() implies (#[trigger] rest[i]).1 >= 0real by {
            assert(rest[i] == rates[i]);
        }
        lemma_total_rate_non_negative(rest, good);
        assert(rates[rates.len() - 1] == rates.last());
    }
}

/// A producer without inputs is never throttled: it works for the whole slice
/// and every good gains its full rate times `dt`, whatever the balances are.
pub proof fn lemma_no_inputs_full_rate(
    outputs: Seq<(Good, real)>,
    inputs: Seq<(Good, real)>,
    balances: Map<Good, real>,
    dt: real,
)
    requires
        inputs.len() == 0,
        dt >= 0real,
    ensures
        throttled_time(inputs, balances, dt) == dt,
        forall|good: Good| #[trigger]
            step(outputs, inputs, balances, dt)[good] == balances[good] + total_rate(outputs, good)
                * dt,
{
    assert forall|good: Good| #[trigger]
        step(outputs, inputs, balances, dt)[good] == balances[good] + total_rate(outputs, good)
            * dt by {
        assert(total_rate(inputs, good) == 0real);
        assert(0real * dt == 0real) by (nonlinear_arith);
    }
}

/// The throttled time is the longest that the inputs allow: no time within
/// the slice that every input can feed is longer.
pub proof fn lemma_throttled_time_is_longest(
    inputs: Seq<(Good, real)>,
    balances: Map<Good, real>,
    dt: real,
    time: real,
)
    requires
        0real <= time <= dt,
        forall|i: int|
            0 <= i < inputs.len() ==> (#[trigger] inputs[i]).1 * time <= balances[inputs[i].0],
    ensures
        time <= throttled_time(inputs, balances, dt),
{
    lemma_affordable_time(inputs, balances, dt);
    let affordable = affordable_time(inputs, balances, dt);
    if affordable != dt {
        let i = choose|i: int|
            0 <= i < inputs.len() && (#[trigger] inputs[i]).1 > 0real && affordable
                == balances[inputs[i].0] / inputs[i].1;
        let rate = inputs[i].1;
        let balance = balances[inputs[i].0];
        assert(rate * time <= balance);
        assert(time <= balance / rate) by (nonlinear_arith)
            requires
                rate > 0real,
                rate * time <= balance,
        ;
    }
}

/// A producer works unthrottled exactly if every input can be fed for the
/// whole slice.
pub proof fn lemma_enough_inputs_unthrottled(
    inputs: Seq<(Good, real)>,
    balances: Map<Good, real>,
    dt: real,
)
    requires
        rates_non_negative(inputs),
        non_negative(balances),
        dt >= 0real,
    ensures
        enough_inputs(inputs, balances, dt) <==> throttled_time(inputs, balances, dt) == dt,
{
    lemma_throttled_time(inputs, balances, dt);
    if enough_inputs(inputs, balances, dt) {
        lemma_throttled_time_is_longest(inputs, balances, dt, dt);
    }
}

/// A throttled producer uses up one of its inputs: where it works for less
/// than the slice, what it takes of some input is all that was there.
pub proof fn lemma_throttled_uses_up_an_input(
    inputs: Seq<(Good, real)>,
    balances: Map<Good, real>,
    dt: real,
)
    requires
        non_negative(balances),
        dt >= 0real,
        throttled_time(inputs, balances, dt) < dt,
    ensures
        exists|i: int|
            0 <= i < inputs.len() && (#[trigger] inputs[i]).1 > 0real && inputs[i].1 * throttled_time(
                inputs,
                balances,
                dt,
            ) == balances[inputs[i].0],
{
    lemma_affordable_time(inputs, balances, dt);
    let affordable = affordable_time(inputs, balances, dt);
    let i = choose|i: int|
        0 <= i < inputs.len() && (#[trigger] inputs[i]).1 > 0real && affordable
            == balances[inputs[i].0] / inputs[i].1;
    let rate = inputs[i].1;
    let balance = balances[inputs[i].0];
    assert(balance >= 0real);
    assert(balance / rate >= 0real && rate * (balance / rate) == balance) by (nonlinear_arith)
        requires
            rate > 0real,
            balance >= 0real,
    ;
}

/// A producer that lacks an input altogether stands still: where the balance
/// of an input with a rate above zero is used up, the step changes nothing,
/// and so on until that input is replenished.
pub proof fn lemma_idle_without_input(
    outputs: Seq<(Good, real)>,
    inputs: Seq<(Good, real)>,
    balances: Map<Good, real>,
    dt: real,
    i: int,
)
    requires
        dt >= 0real,
        0 <= i < inputs.len(),
        inputs[i].1 > 0real,
        balances[inputs[i].0] <= 0real,
    ensures
        throttled_time(inputs, balances, dt) == 0real,
        forall|good: Good| #[trigger] step(outputs, inputs, balances, dt)[good] == balances[good],
{
    lemma_affordable_time(inputs, balances, dt);
    let rate = inputs[i].1;
    let balance = balances[inputs[i].0];
    assert(balance / rate <= 0real) by (nonlinear_arith)
        requires
            rate > 0real,
            balance <= 0real,
    ;
    assert forall|good: Good| #[trigger] step(outputs, inputs, balances, dt)[good] == balances[good] by {
        assert(total_rate(outputs, good) * 0real == 0real) by (nonlinear_arith);
        assert(total_rate(inputs, good) * 0real == 0real) by (nonlinear_arith);
    }
}

/// A throttled step is followed by standstill: where a producer whose outputs
/// feed none of its inputs was throttled, the next step changes nothing.
pub proof fn lemma_throttled_then_idle(
    outputs: Seq<(Good, real)>,
    inputs: Seq<(Good, real)>,
    balances: Map<Good, real>,
    dt: real,
)
    requires
        goods_distinct(inputs),
        non_negative(balances),
        dt >= 0real,
        throttled_time(inputs, balances, dt) < dt,
        forall|i: int|
            0 <= i < inputs.len() ==> total_rate(outputs, (#[trigger] inputs[i]).0) == 0real,
    ensures
        step(outputs, inputs, step(outputs, inputs, balances, dt), dt) == step(
            outputs,
            inputs,
            balances,
            dt,
        ),
{
    let time = throttled_time(inputs, balances, dt);
    let after = step(outputs, inputs, balances, dt);
    lemma_throttled_uses_up_an_input(inputs, balances, dt);
    let i = choose|i: int|
        0 <= i < inputs.len() && (#[trigger] inputs[i]).1 > 0real && inputs[i].1 * time
            == balances[inputs[i].0];
    lemma_total_rate_of_mapping(inputs, inputs[i].0);
    assert(total_rate(outputs, inputs[i].0) * time == 0real) by (nonlinear_arith)
        requires
            total_rate(outputs, inputs[i].0) == 0real,
    ;
    assert(after[inputs[i].0] == 0real);
    lemma_idle_without_input(outputs, inputs, after, dt, i);
    assert(step(outputs, inputs, after, dt) =~= after);
}

/// The tables of the catalog are valid for every producer.
pub proof fn lemma_catalog_valid(producer: Producer)
    ensures
        rates_non_negative(producer.spec_outputs()),
        rates_non_negative(producer.spec_inputs()),
        goods_distinct(producer.spec_outputs()),
        goods_distinct(producer.spec_inputs()),
{
    lemma_quotient_sign(1, 4);
}

} // verus!
