//! The game clock.
//!
//! The simulation runs in ticks of a fixed length, whatever the frame rate is.
//! Each frame the clock adds the wall-clock time since the frame before to a
//! balance of seconds and takes whole ticks out of it, up to a limit per frame.
//! Time beyond the limit stays in the balance; the clock never loops longer to
//! catch up.
use crate::rational::Rational;
use vstd::prelude::*;

verus! {

/// The seconds between two timestamps in milliseconds.
pub open spec fn elapsed_seconds(prev: int, now: int) -> real {
    (now - prev) as real / 1000real
}

/// The number of ticks that a balance of seconds pays for: one for each time
/// the balance covers a whole tick, and `limit` at most.
pub open spec fn ticks_due(balance: real, tick: real, limit: nat) -> nat
    decreases limit,
{
    if limit == 0 || balance < tick {
        0
    } else {
        1 + ticks_due(balance - tick, tick, (limit - 1) as nat)
    }
}

/// The balance of seconds not yet turned into ticks, and the time of the frame
/// before, in milliseconds since the epoch.
#[derive(Debug)]
pub struct GameClock {
    game_timer: Rational,
    prev_time: i64,
}

impl GameClock {
    /// The balance of seconds.
    pub closed spec fn spec_game_timer(&self) -> real {
        self.game_timer@
    }

    /// The time of the frame before.
    pub closed spec fn spec_prev_time(&self) -> int {
        self.prev_time as int
    }

    /// A clock with an empty balance that starts at `now`.
    pub fn new(now: i64) -> (clock: GameClock)
        ensures
            clock.spec_game_timer() == 0real,
            clock.spec_prev_time() == now,
    {
        GameClock { game_timer: Rational::zero(), prev_time: now }
    }

    /// A clock that takes up a saved balance at `now`. The time at which the
    /// balance was saved plays no part, so that no burst of ticks follows.
    pub fn resume(game_timer: Rational, now: i64) -> (clock: GameClock)
        ensures
            clock.spec_game_timer() == game_timer@,
            clock.spec_prev_time() == now,
    {
        GameClock { game_timer, prev_time: now }
    }

    /// The balance of seconds.
    pub fn game_timer(&self) -> (balance: &Rational)
        ensures
            balance@ == self.spec_game_timer(),
    {
        &self.game_timer
    }

    /// The time of the frame before, in milliseconds since the epoch.
    pub fn prev_time(&self) -> (time: i64)
        ensures
            time == self.spec_prev_time(),
    {
        self.prev_time
    }

    /// Adds seconds to the balance, or takes them from it where `seconds` is
    /// below zero.
    pub fn add_seconds(&mut self, seconds: &Rational)
        ensures
            final(self).spec_game_timer() == old(self).spec_game_timer() + seconds@,
            final(self).spec_prev_time() == old(self).spec_prev_time(),
    {
        self.game_timer = self.game_timer.add(seconds);
    }

    /// Moves the clock to `now` and returns the number of ticks to run.
    ///
    /// The time since the frame before is added to the balance. Then one tick
    /// is taken out for each time the balance covers `tick` seconds, `limit`
    /// times at most.
    pub fn advance(&mut self, now: i64, tick: &Rational, limit: u32) -> (ticks: u32)
        ensures
            ticks <= limit,
            final(self).spec_prev_time() == now,
            ticks == ticks_due(
                old(self).spec_game_timer() + elapsed_seconds(old(self).spec_prev_time(), now as int),
                tick@,
                limit as nat,
            ),
            final(self).spec_game_timer() == old(self).spec_game_timer() + elapsed_seconds(
                old(self).spec_prev_time(),
                now as int,
            ) - ticks as real * tick@,
    {
        let thousand = Rational::from_integer(1000);
        let elapsed = Rational::from_integer(now).sub(&Rational::from_integer(self.prev_time)).div(
            &thousand,
        );
        self.game_timer = self.game_timer.add(&elapsed);
        self.prev_time = now;
        let ghost balance = self.game_timer@;
        let mut ticks: u32 = 0;
        assert(0real * tick@ == 0real) by (nonlinear_arith);
        while ticks < limit && tick.le(&self.game_timer)
            invariant
                ticks <= limit,
                self.prev_time == now,
                self.game_timer@ == balance - ticks as real * tick@,
                ticks_due(balance, tick@, limit as nat) == ticks + ticks_due(
                    self.game_timer@,
                    tick@,
                    (limit - ticks) as nat,
                ),
            decreases limit - ticks,
        {
            assert((ticks + 1) as real * tick@ == ticks as real * tick@ + tick@)
                by (nonlinear_arith);
            self.game_timer = self.game_timer.sub(tick);
            ticks += 1;
        }
        ticks
    }
}

/// The clock never asks for more ticks than the limit allows.
pub proof fn lemma_ticks_due_bounded(balance: real, tick: real, limit: nat)
    ensures
        ticks_due(balance, tick, limit) <= limit,
    decreases limit,
{
    if limit > 0 && balance >= tick {
        lemma_ticks_due_bounded(balance - tick, tick, (limit - 1) as nat);
    }
}

/// For a tick longer than zero, the ticks due are the whole ticks that fit into
/// the balance, or `limit` where more would fit: every tick taken was covered,
/// and below the limit what is left covers no further tick.
pub proof fn lemma_ticks_due_fit(balance: real, tick: real, limit: nat)
    requires
        tick > 0real,
    ensures
        ticks_due(balance, tick, limit) > 0 ==> ticks_due(balance, tick, limit) as real * tick
            <= balance,
        ticks_due(balance, tick, limit) < limit ==> balance - ticks_due(balance, tick, limit) as real
            * tick < tick,
    decreases limit,
{
    let due = ticks_due(balance, tick, limit);
    if limit > 0 && balance >= tick {
        let rest = ticks_due(balance - tick, tick, (limit - 1) as nat);
        lemma_ticks_due_fit(balance - tick, tick, (limit - 1) as nat);
        assert(due == rest + 1);
        assert((rest + 1) as real * tick == rest as real * tick + tick) by (nonlinear_arith);
        assert(0real * tick == 0real) by (nonlinear_arith);
    } else {
        assert(0real * tick == 0real) by (nonlinear_arith);
    }
}

/// A balance that covers `limit` ticks or more yields exactly `limit` ticks,
/// and what goes beyond them stays in the balance.
pub proof fn lemma_ticks_due_capped(balance: real, tick: real, limit: nat)
    requires
        tick > 0real,
        balance >= limit as real * tick,
    ensures
        ticks_due(balance, tick, limit) == limit,
    decreases limit,
{
    if limit > 0 {
        assert(limit as real * tick == (limit - 1) as real * tick + tick) by (nonlinear_arith);
        assert((limit - 1) as real * tick >= 0real) by (nonlinear_arith)
            requires
                limit >= 1,
                tick > 0real,
        ;
        lemma_ticks_due_capped(balance - tick, tick, (limit - 1) as nat);
    }
}

} // verus!
