//! The ore minigame.
//!
//! To mine one unit of an ore the player presses the buttons 1 to `difficulty`
//! in ascending order. The buttons are shown in a shuffled order. One press out
//! of order fails the whole session; a session is started afresh after a win
//! and after a failure.
use rand::rngs::StdRng;
use vstd::prelude::*;
use vstd::seq_lib::{to_multiset_contains, to_multiset_len};
use vstd::set_lib::lemma_subset_equality;

verus! {

/// `rand`'s standard generator, carried through as an opaque value. Nothing is
/// claimed of the numbers it yields.
#[verifier::external_type_specification]
#[verifier::external_body]
pub struct ExStdRng(StdRng);

/// `SliceRandom::shuffle` on the vector's slice. It only swaps elements, so
/// whatever the generator yields, the vector holds the same values as before,
/// each as often as before.
#[verifier::external_body]
fn shuffle(values: &mut Vec<u32>, rng: &mut StdRng)
    ensures
        final(values)@.to_multiset() == old(values)@.to_multiset(),
{
    rand::seq::SliceRandom::shuffle(values.as_mut_slice(), rng);
}

/// The difficulty of a session where none is given.
pub const DEFAULT_DIFFICULTY: u32 = 5;

/// The values 1 to `difficulty` in ascending order.
pub open spec fn ascending(difficulty: int) -> Seq<u32> {
    Seq::new(difficulty as nat, |i: int| (i + 1) as u32)
}

/// `order` holds the values 1 to `difficulty`, each once, in any order.
pub open spec fn is_shuffle(order: Seq<u32>, difficulty: int) -> bool {
    order.to_multiset() == ascending(difficulty).to_multiset()
}

/// A session of the minigame as the contracts see it.
pub struct Session {
    /// The values in the order in which the buttons are shown.
    pub order: Seq<u32>,
    /// The value that has to be pressed next.
    pub next: int,
    /// The number of buttons.
    pub difficulty: int,
    /// Whether a value was pressed out of order.
    pub failed: bool,
}

impl Session {
    /// What holds of every session: the buttons are a shuffle of 1 to
    /// `difficulty`, `next` runs from 1 to one past `difficulty`, and a session is
    /// not both failed and solved.
    pub open spec fn valid(self) -> bool {
        &&& 0 <= self.difficulty < u32::MAX
        &&& is_shuffle(self.order, self.difficulty)
        &&& 1 <= self.next <= self.difficulty + 1
        &&& !(self.failed && self.solved())
    }

    /// Every value has been pressed in order.
    pub open spec fn solved(self) -> bool {
        self.next > self.difficulty
    }

    /// Neither failed nor solved: presses count.
    pub open spec fn in_progress(self) -> bool {
        !self.failed && !self.solved()
    }

    /// A session that has just been started with the given buttons.
    pub open spec fn fresh(order: Seq<u32>) -> Session {
        Session { order, next: 1, difficulty: order.len() as int, failed: false }
    }

    /// The session after `value` was pressed. In progress, the expected value
    /// moves the session on and any other value fails it. A failed or solved
    /// session takes no presses.
    pub open spec fn press(self, value: u32) -> Session {
        if !self.in_progress() {
            self
        } else if value == self.next {
            Session { next: self.next + 1, ..self }
        } else {
            Session { failed: true, ..self }
        }
    }

    /// The session after the values were pressed one after the other.
    pub open spec fn press_all(self, values: Seq<u32>) -> Session
        decreases values.len(),
    {
        if values.len() == 0 {
            self
        } else {
            self.press_all(values.drop_last()).press(values.last())
        }
    }
}

/// The session state of one good's minigame.
#[derive(Debug)]
pub struct OreMinigame {
    order: Vec<u32>,
    next: u32,
    difficulty: u32,
    failed: bool,
}

impl View for OreMinigame {
    type V = Session;

    closed spec fn view(&self) -> Session {
        Session {
            order: self.order@,
            next: self.next as int,
            difficulty: self.difficulty as int,
            failed: self.failed,
        }
    }
}

impl OreMinigame {
    #[verifier::type_invariant]
    spec fn well_formed(self) -> bool {
        self@.valid()
    }

    /// Starts a session with `difficulty` buttons in an order drawn from `rng`.
    pub fn new(difficulty: u32, rng: &mut StdRng) -> (game: OreMinigame)
        requires
            difficulty < u32::MAX,
        ensures
            game@.valid(),
            game@.difficulty == difficulty,
            game@.next == 1,
            !game@.failed,
            difficulty >= 1 ==> game@.in_progress(),
    {
        let mut order: Vec<u32> = Vec::new();
        let mut value: u32 = 0;
        while value < difficulty
            invariant
                value <= difficulty,
                order@ == ascending(value as int),
            decreases difficulty - value,
        {
            value += 1;
            order.push(value);
            assert(order@ =~= ascending(value as int));
        }
        shuffle(&mut order, rng);
        OreMinigame { order, next: 1, difficulty, failed: false }
    }

    /// Starts a session of the difficulty that is taken where none is given.
    pub fn with_default_difficulty(rng: &mut StdRng) -> (game: OreMinigame)
        ensures
            game@.valid(),
            game@.difficulty == DEFAULT_DIFFICULTY,
            game@.next == 1,
            game@.in_progress(),
    {
        OreMinigame::new(DEFAULT_DIFFICULTY, rng)
    }

    /// Starts a session with the buttons in the given order, or returns `None`
    /// where the order is no shuffle of 1 to its length.
    pub fn from_order(order: Vec<u32>) -> (game: Option<OreMinigame>)
        ensures
            game is Some <==> order@.len() < u32::MAX && is_shuffle(order@, order@.len() as int),
            game is Some ==> game->0@ == Session::fresh(order@),
    {
        let count = order.len();
        if count >= u32::MAX as usize {
            return None;
        }
        let mut seen: Vec<bool> = Vec::new();
        let mut k: usize = 0;
        while k < count
            invariant
                k <= count,
                seen@.len() == k,
                forall|j: int| 0 <= j < k ==> !(#[trigger] seen@[j]),
            decreases count - k,
        {
            seen.push(false);
            k += 1;
        }
        let mut i: usize = 0;
        while i < count
            invariant
                i <= count,
                count == order@.len(),
                count < u32::MAX,
                seen@.len() == count,
                forall|j: int| 0 <= j < i ==> 1 <= #[trigger] order@[j] <= count,
                forall|j: int, l: int| 0 <= j < l < i ==> order@[j] != order@[l],
                forall|v: int|
                    0 <= v < count ==> (#[trigger] seen@[v] <==> exists|j: int|
                        0 <= j < i && #[trigger] order@[j] == v + 1),
            decreases count - i,
        {
            let value = order[i];
            if value < 1 || value as usize > count {
                proof {
                    lemma_shuffle_characterized(order@, count as int);
                }
                return None;
            }
            let slot = (value - 1) as usize;
            if seen[slot] {
                proof {
                    let j = choose|j: int| 0 <= j < i && #[trigger] order@[j] == slot + 1;
                    assert(order@[j] == order@[i as int]);
                    lemma_shuffle_characterized(order@, count as int);
                }
                return None;
            }
            seen.set(slot, true);
            proof {
                assert forall|v: int| 0 <= v < count implies (#[trigger] seen@[v] <==> exists|j: int|
                    0 <= j < i + 1 && #[trigger] order@[j] == v + 1) by {
                    if v == slot {
                        assert(order@[i as int] == v + 1);
                    } else if seen@[v] {
                        let j = choose|j: int| 0 <= j < i && #[trigger] order@[j] == v + 1;
                        assert(0 <= j < i + 1 && order@[j] == v + 1);
                    }
                }
            }
            i += 1;
        }
        proof {
            lemma_shuffle_characterized(order@, count as int);
        }
        Some(OreMinigame { order, next: 1, difficulty: count as u32, failed: false })
    }

    /// The values in the order in which the buttons are shown.
    pub fn order(&self) -> (order: &Vec<u32>)
        ensures
            order@ == self@.order,
            self@.valid(),
    {
        proof {
            use_type_invariant(self);
        }
        &self.order
    }

    /// The value that has to be pressed next; one past `difficulty` once the
    /// session is solved.
    pub fn next(&self) -> (next: u32)
        ensures
            next == self@.next,
            self@.valid(),
    {
        proof {
            use_type_invariant(self);
        }
        self.next
    }

    /// The number of buttons.
    pub fn difficulty(&self) -> (difficulty: u32)
        ensures
            difficulty == self@.difficulty,
            self@.valid(),
    {
        proof {
            use_type_invariant(self);
        }
        self.difficulty
    }

    /// Whether the button with `value` is the one to press next, which is shown
    /// highlighted.
    pub fn is_next(&self, value: u32) -> (highlighted: bool)
        ensures
            highlighted == (value == self@.next),
    {
        value == self.next
    }

    /// Whether the button with `value` can still be pressed. A value that was
    /// accepted already is shown disabled.
    pub fn is_enabled(&self, value: u32) -> (enabled: bool)
        ensures
            enabled == (value >= self@.next),
    {
        value >= self.next
    }

    /// Takes a press of the button with `value`.
    pub fn press(&mut self, value: u32)
        ensures
            final(self)@ == old(self)@.press(value),
            old(self)@.valid(),
            final(self)@.valid(),
    {
        proof {
            use_type_invariant(&*self);
        }
        if !self.failed && self.next <= self.difficulty {
            if value == self.next {
                self.next = self.next + 1;
            } else {
                self.failed = true;
            }
        }
    }

    /// Whether a value was pressed out of order.
    pub fn is_failed(&self) -> (failed: bool)
        ensures
            failed == self@.failed,
            self@.valid(),
    {
        proof {
            use_type_invariant(self);
        }
        self.failed
    }

    /// Whether every value has been pressed in order.
    pub fn is_solved(&self) -> (solved: bool)
        ensures
            solved == self@.solved(),
            self@.valid(),
    {
        proof {
            use_type_invariant(self);
        }
        self.next > self.difficulty
    }

    /// Starts the session afresh: the same difficulty, a new order drawn from
    /// `rng`, nothing pressed.
    pub fn reset(&mut self, rng: &mut StdRng) -> (game: &mut OreMinigame)
        ensures
            *final(game) == *final(self),
            old(self)@.valid(),
            game@.valid(),
            game@.difficulty == old(self)@.difficulty,
            game@.next == 1,
            !game@.failed,
            game@.difficulty >= 1 ==> game@.in_progress(),
    {
        proof {
            use_type_invariant(&*self);
        }
        *self = OreMinigame::new(self.difficulty, rng);
        self
    }

    /// Starts the session afresh if it has failed, and leaves it alone if not.
    pub fn reset_if_failed(&mut self, rng: &mut StdRng) -> (game: &mut OreMinigame)
        ensures
            *final(game) == *final(self),
            old(self)@.valid(),
            game@.valid(),
            !game@.failed,
            !old(self)@.failed ==> game@ == old(self)@,
            old(self)@.failed ==> game@.difficulty == old(self)@.difficulty && game@.next == 1,
    {
        proof {
            use_type_invariant(&*self);
        }
        if self.is_failed() {
            self.reset(rng);
        }
        self
    }

    /// Calls `effect` on the session if it is solved, and does nothing if not.
    pub fn do_if_solved<F>(&mut self, effect: F) -> (game: &mut OreMinigame) where
        F: FnOnce(&mut OreMinigame),

        requires
            old(self)@.solved() ==> forall|session: &mut OreMinigame|
                *session == *old(self) ==> call_requires(effect, (session,)),
        ensures
            *final(game) == *final(self),
            !old(self)@.solved() ==> *game == *old(self),
            old(self)@.solved() ==> exists|session: &mut OreMinigame|
                *session == *old(self) && *final(session) == *game && call_ensures(
                    effect,
                    (session,),
                    (),
                ),
    {
        if self.is_solved() {
            effect(self);
        }
        self
    }

    /// Starts the session afresh if it is solved, and leaves it alone if not.
    pub fn reset_if_solved(&mut self, rng: &mut StdRng) -> (game: &mut OreMinigame)
        ensures
            *final(game) == *final(self),
            old(self)@.valid(),
            game@.valid(),
            !old(self)@.solved() ==> game@ == old(self)@,
            old(self)@.solved() ==> game@.difficulty == old(self)@.difficulty && game@.next == 1
                && !game@.failed,
    {
        proof {
            use_type_invariant(&*self);
        }
        if self.is_solved() {
            self.reset(rng);
        }
        self
    }
}

/// A press leaves a valid session valid.
pub proof fn lemma_press_keeps_valid(session: Session, value: u32)
    requires
        session.valid(),
    ensures
        session.press(value).valid(),
        session.press(value).order == session.order,
        session.press(value).difficulty == session.difficulty,
{
}

/// A press out of order fails the session, however many values were accepted
/// before: in progress, any value but the expected one, a value accepted
/// earlier among them, leads to failure, and no press leads out of it.
pub proof fn lemma_press_out_of_order_fails(session: Session, value: u32, later: Seq<u32>)
    requires
        session.in_progress(),
        value != session.next,
    ensures
        session.press(value).failed,
        session.press(value).press_all(later).failed,
        !session.press(value).press_all(later).solved(),
    decreases later.len(),
{
    if later.len() > 0 {
        lemma_press_out_of_order_fails(session, value, later.drop_last());
    }
}

/// Pressing the expected values in ascending order solves the session: from a
/// session that has not failed and expects `next`, the presses `next` to
/// `difficulty` one after the other end in a solved session that has not
/// failed. For a session that has just been started these are the presses 1 to
/// `difficulty`.
pub proof fn lemma_presses_in_order_solve(session: Session)
    requires
        session.valid(),
        !session.failed,
    ensures
        session.press_all(
            ascending(session.difficulty).subrange(session.next - 1, session.difficulty),
        ).solved(),
        !session.press_all(
            ascending(session.difficulty).subrange(session.next - 1, session.difficulty),
        ).failed,
        session.next == 1 ==> session.press_all(ascending(session.difficulty)).solved()
            && !session.press_all(ascending(session.difficulty)).failed,
{
    lemma_presses_in_order(session, session.difficulty);
    if session.next == 1 {
        assert(ascending(session.difficulty).subrange(0, session.difficulty) =~= ascending(
            session.difficulty,
        ));
    }
}

/// After the presses `next` to `upto` in ascending order, a session in progress
/// expects the value after `upto`.
pub proof fn lemma_presses_in_order(session: Session, upto: int)
    requires
        session.valid(),
        !session.failed,
        session.next - 1 <= upto <= session.difficulty,
    ensures
        session.press_all(ascending(session.difficulty).subrange(session.next - 1, upto)) == (Session {
            next: upto + 1,
            ..session
        }),
    decreases upto - session.next + 1,
{
    let values = ascending(session.difficulty).subrange(session.next - 1, upto);
    if upto > session.next - 1 {
        lemma_presses_in_order(session, upto - 1);
        assert(values.drop_last() =~= ascending(session.difficulty).subrange(
            session.next - 1,
            upto - 1,
        ));
        assert(values.last() == upto as u32);
    } else {
        assert(values.len() == 0);
    }
}

/// A sequence is a shuffle of 1 to `difficulty` exactly if it has `difficulty`
/// elements, all from 1 to `difficulty`, and none of them twice.
pub proof fn lemma_shuffle_characterized(order: Seq<u32>, difficulty: int)
    requires
        0 <= difficulty <= u32::MAX,
    ensures
        is_shuffle(order, difficulty) <==> {
            &&& order.len() == difficulty
            &&& forall|i: int| 0 <= i < order.len() ==> 1 <= #[trigger] order[i] <= difficulty
            &&& forall|i: int, j: int| 0 <= i < j < order.len() ==> order[i] != order[j]
        },
{
    let sorted = ascending(difficulty);
    assert(sorted.no_duplicates());
    sorted.lemma_multiset_has_no_duplicates();
    to_multiset_len(order);
    to_multiset_len(sorted);
    assert forall|v: u32| sorted.contains(v) <==> 1 <= v <= difficulty by {
        if 1 <= v <= difficulty {
            assert(sorted[v - 1] == v);
        }
    }
    assert forall|v: u32| #![trigger order.to_multiset().count(v)]
        order.contains(v) <==> order.to_multiset().count(v) > 0 by {
        to_multiset_contains(order, v);
    }
    assert forall|v: u32| #![trigger sorted.to_multiset().count(v)]
        sorted.contains(v) <==> sorted.to_multiset().count(v) > 0 by {
        to_multiset_contains(sorted, v);
    }
    if is_shuffle(order, difficulty) {
        assert forall|i: int| 0 <= i < order.len() implies 1 <= #[trigger] order[i] <= difficulty by {
            assert(order.contains(order[i]));
            assert(order.to_multiset().count(order[i]) > 0);
        }
        order.lemma_multiset_has_no_duplicates_conv();
    }
    if order.len() == difficulty && (forall|i: int|
        0 <= i < order.len() ==> 1 <= #[trigger] order[i] <= difficulty) && (forall|i: int, j: int|
        0 <= i < j < order.len() ==> order[i] != order[j]) {
        assert(order.no_duplicates());
        order.lemma_multiset_has_no_duplicates();
        order.unique_seq_to_set();
        sorted.unique_seq_to_set();
        assert(order.to_set().subset_of(sorted.to_set())) by {
            assert forall|v: u32| order.to_set().contains(v) implies sorted.to_set().contains(v) by {
                let i = choose|i: int| 0 <= i < order.len() && order[i] == v;
                assert(1 <= order[i] <= difficulty);
            }
        }
        vstd::seq_lib::seq_to_set_is_finite(order);
        vstd::seq_lib::seq_to_set_is_finite(sorted);
        lemma_subset_equality(order.to_set(), sorted.to_set());
        assert forall|v: u32| order.to_multiset().count(v) == sorted.to_multiset().count(v) by {
            assert(order.to_set().contains(v) <==> sorted.to_set().contains(v));
            assert(order.contains(v) <==> sorted.contains(v));
        }
        assert(order.to_multiset() =~= sorted.to_multiset());
    }
}

} // verus!
