use dull_idle_game::clock::GameClock;
use dull_idle_game::rational::Rational;

fn q(numer: i64, denom: i64) -> Rational {
    Rational::new(numer, denom).unwrap()
}

#[test]
fn new_clock_is_empty() {
    let clock = GameClock::new(1_000);
    assert_eq!(*clock.game_timer(), Rational::zero());
    assert_eq!(clock.prev_time(), 1_000);
}

#[test]
fn advance_turns_whole_ticks_into_a_count() {
    let mut clock = GameClock::new(0);
    assert_eq!(clock.advance(1_000, &q(1, 20), 100), 20);
    assert_eq!(*clock.game_timer(), Rational::zero());
    assert_eq!(clock.prev_time(), 1_000);
}

#[test]
fn advance_keeps_the_fraction_of_a_tick() {
    let mut clock = GameClock::new(500);
    assert_eq!(clock.advance(549, &q(1, 20), 100), 0);
    assert_eq!(*clock.game_timer(), q(49, 1000));
    assert_eq!(clock.advance(550, &q(1, 20), 100), 1);
    assert_eq!(*clock.game_timer(), Rational::zero());
    assert_eq!(clock.advance(687, &q(1, 20), 100), 2);
    assert_eq!(*clock.game_timer(), q(37, 1000));
    assert_eq!(clock.prev_time(), 687);
}

#[test]
fn advance_is_bounded_by_the_limit() {
    let mut clock = GameClock::new(0);
    assert_eq!(clock.advance(50_000, &q(1, 20), 100), 100);
    assert_eq!(*clock.game_timer(), q(45, 1));
    assert!(clock.game_timer().is_positive());
    assert_eq!(clock.prev_time(), 50_000);
}

#[test]
fn advance_works_the_backlog_off_frame_by_frame() {
    let mut clock = GameClock::new(0);
    assert_eq!(clock.advance(6_000, &q(1, 20), 100), 100);
    assert_eq!(clock.advance(6_000, &q(1, 20), 100), 20);
    assert_eq!(clock.advance(6_000, &q(1, 20), 100), 0);
    assert_eq!(*clock.game_timer(), Rational::zero());
}

#[test]
fn advance_with_a_limit_of_zero_runs_nothing() {
    let mut clock = GameClock::new(0);
    assert_eq!(clock.advance(2_000, &q(1, 20), 0), 0);
    assert_eq!(*clock.game_timer(), q(2, 1));
    assert_eq!(clock.prev_time(), 2_000);
}

#[test]
fn advance_backwards_in_time_takes_from_the_balance() {
    let mut clock = GameClock::new(1_000);
    assert_eq!(clock.advance(900, &q(1, 20), 100), 0);
    assert_eq!(*clock.game_timer(), q(-1, 10));
    assert_eq!(clock.prev_time(), 900);
    assert_eq!(clock.advance(1_050, &q(1, 20), 100), 1);
    assert_eq!(*clock.game_timer(), Rational::zero());
}

#[test]
fn advance_spans_the_whole_range_of_timestamps() {
    let mut clock = GameClock::new(i64::MIN);
    assert_eq!(clock.advance(i64::MAX, &q(1, 20), 3), 3);
    assert_eq!(clock.prev_time(), i64::MAX);
    assert!(clock.game_timer().is_positive());
}

#[test]
fn add_seconds_fills_the_balance() {
    let mut clock = GameClock::new(0);
    clock.add_seconds(&q(5, 2));
    assert_eq!(*clock.game_timer(), q(5, 2));
    assert_eq!(clock.advance(0, &q(1, 1), 100), 2);
    assert_eq!(*clock.game_timer(), q(1, 2));
    clock.add_seconds(&q(-1, 1));
    assert_eq!(*clock.game_timer(), q(-1, 2));
}

#[test]
fn resume_takes_the_balance_and_forgets_the_time_away() {
    let mut clock = GameClock::resume(q(1, 40), 9_000_000);
    assert_eq!(*clock.game_timer(), q(1, 40));
    assert_eq!(clock.prev_time(), 9_000_000);
    assert_eq!(clock.advance(9_000_025, &q(1, 20), 100), 1);
    assert_eq!(*clock.game_timer(), Rational::zero());
}
