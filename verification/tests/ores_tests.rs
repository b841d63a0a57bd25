use dull_idle_game::goods::Good;
use dull_idle_game::inventory::Inventory;
use dull_idle_game::ores::{OreMinigame, DEFAULT_DIFFICULTY};
use dull_idle_game::rational::Rational;
use rand::rngs::StdRng;
use rand::SeedableRng;

fn sorted(order: &Vec<u32>) -> Vec<u32> {
    let mut values = order.clone();
    values.sort();
    values
}

#[test]
fn new_session_holds_a_shuffle() {
    let mut rng = StdRng::seed_from_u64(1);
    for difficulty in 0..12u32 {
        let game = OreMinigame::new(difficulty, &mut rng);
        assert_eq!(game.difficulty(), difficulty);
        assert_eq!(game.next(), 1);
        assert!(!game.is_failed());
        assert_eq!(sorted(game.order()), (1..=difficulty).collect::<Vec<u32>>());
    }
}

#[test]
fn new_session_is_in_progress_unless_empty() {
    let mut rng = StdRng::seed_from_u64(2);
    assert!(!OreMinigame::new(1, &mut rng).is_solved());
    assert!(!OreMinigame::new(3, &mut rng).is_solved());
    assert!(OreMinigame::new(0, &mut rng).is_solved());
}

#[test]
fn new_session_draws_its_order_from_the_generator() {
    let ascending: Vec<u32> = (1..=10).collect();
    let mut shuffled = 0;
    for seed in 0..20 {
        let mut rng = StdRng::seed_from_u64(seed);
        if *OreMinigame::new(10, &mut rng).order() != ascending {
            shuffled += 1;
        }
    }
    assert!(shuffled > 0);
}

#[test]
fn same_seed_gives_the_same_order() {
    let mut first = StdRng::seed_from_u64(99);
    let mut second = StdRng::seed_from_u64(99);
    assert_eq!(OreMinigame::new(8, &mut first).order(), OreMinigame::new(8, &mut second).order());
}

#[test]
fn default_difficulty_is_five() {
    let mut rng = StdRng::seed_from_u64(3);
    let game = OreMinigame::with_default_difficulty(&mut rng);
    assert_eq!(DEFAULT_DIFFICULTY, 5);
    assert_eq!(game.difficulty(), 5);
    assert_eq!(sorted(game.order()), vec![1, 2, 3, 4, 5]);
    assert_eq!(game.next(), 1);
}

#[test]
fn from_order_keeps_the_order() {
    let game = OreMinigame::from_order(vec![2, 1, 3]).unwrap();
    assert_eq!(*game.order(), vec![2, 1, 3]);
    assert_eq!(game.difficulty(), 3);
    assert_eq!(game.next(), 1);
    assert!(!game.is_failed());
    assert!(!game.is_solved());
}

#[test]
fn from_order_refuses_what_is_no_shuffle() {
    assert!(OreMinigame::from_order(vec![1, 2, 2]).is_none());
    assert!(OreMinigame::from_order(vec![0, 1, 2]).is_none());
    assert!(OreMinigame::from_order(vec![1, 2, 4]).is_none());
    assert!(OreMinigame::from_order(vec![2, 3]).is_none());
    assert!(OreMinigame::from_order(vec![3, 1, 2]).is_some());
    assert!(OreMinigame::from_order(vec![1]).is_some());
}

#[test]
fn from_order_of_nothing_is_solved() {
    let game = OreMinigame::from_order(vec![]).unwrap();
    assert_eq!(game.difficulty(), 0);
    assert!(game.is_solved());
    assert!(!game.is_failed());
}

#[test]
fn presses_in_ascending_order_solve() {
    let mut rng = StdRng::seed_from_u64(4);
    let mut game = OreMinigame::new(5, &mut rng);
    for value in 1..=5u32 {
        assert!(!game.is_solved());
        assert_eq!(game.next(), value);
        game.press(value);
        assert!(!game.is_failed());
    }
    assert!(game.is_solved());
    assert_eq!(game.next(), 6);
}

#[test]
fn press_out_of_order_fails() {
    let mut game = OreMinigame::from_order(vec![3, 1, 2, 4]).unwrap();
    game.press(3);
    assert!(game.is_failed());
    assert!(!game.is_solved());
    assert_eq!(game.next(), 1);
}

#[test]
fn press_out_of_order_fails_after_correct_presses() {
    let mut game = OreMinigame::from_order(vec![3, 1, 2, 4]).unwrap();
    game.press(1);
    game.press(2);
    assert!(!game.is_failed());
    game.press(4);
    assert!(game.is_failed());
    assert_eq!(game.next(), 3);
}

#[test]
fn pressing_an_accepted_value_again_fails() {
    let mut game = OreMinigame::from_order(vec![3, 1, 2, 4]).unwrap();
    game.press(1);
    game.press(2);
    game.press(1);
    assert!(game.is_failed());
    assert!(!game.is_solved());
}

#[test]
fn failed_session_takes_no_presses() {
    let mut game = OreMinigame::from_order(vec![1, 2]).unwrap();
    game.press(2);
    assert!(game.is_failed());
    game.press(1);
    game.press(2);
    assert!(game.is_failed());
    assert!(!game.is_solved());
    assert_eq!(game.next(), 1);
}

#[test]
fn solved_session_takes_no_presses() {
    let mut game = OreMinigame::from_order(vec![2, 1]).unwrap();
    game.press(1);
    game.press(2);
    assert!(game.is_solved());
    game.press(1);
    game.press(3);
    assert!(game.is_solved());
    assert!(!game.is_failed());
    assert_eq!(game.next(), 3);
}

#[test]
fn buttons_are_highlighted_and_disabled_by_value() {
    let mut game = OreMinigame::from_order(vec![2, 1, 3]).unwrap();
    game.press(1);
    assert!(game.is_next(2));
    assert!(!game.is_next(1));
    assert!(!game.is_next(3));
    assert!(!game.is_enabled(1));
    assert!(game.is_enabled(2));
    assert!(game.is_enabled(3));
}

#[test]
fn reset_after_failure_starts_afresh() {
    let mut rng = StdRng::seed_from_u64(5);
    let mut game = OreMinigame::new(4, &mut rng);
    game.press(1);
    game.press(1);
    assert!(game.is_failed());
    game.reset(&mut rng);
    assert!(!game.is_failed());
    assert!(!game.is_solved());
    assert_eq!(game.next(), 1);
    assert_eq!(game.difficulty(), 4);
    assert_eq!(sorted(game.order()), vec![1, 2, 3, 4]);
}

#[test]
fn reset_after_win_starts_afresh() {
    let mut rng = StdRng::seed_from_u64(6);
    let mut game = OreMinigame::new(3, &mut rng);
    game.press(1);
    game.press(2);
    game.press(3);
    assert!(game.is_solved());
    game.reset(&mut rng);
    assert!(!game.is_failed());
    assert!(!game.is_solved());
    assert_eq!(game.next(), 1);
    assert_eq!(game.difficulty(), 3);
    assert_eq!(sorted(game.order()), vec![1, 2, 3]);
}

#[test]
fn reset_twice_is_as_fresh_as_once() {
    let mut rng = StdRng::seed_from_u64(7);
    let mut game = OreMinigame::new(6, &mut rng);
    game.press(2);
    game.reset(&mut rng).reset(&mut rng);
    assert!(!game.is_failed());
    assert_eq!(game.next(), 1);
    assert_eq!(game.difficulty(), 6);
    assert_eq!(sorted(game.order()), vec![1, 2, 3, 4, 5, 6]);
}

#[test]
fn reset_if_failed_leaves_a_running_session_alone() {
    let mut rng = StdRng::seed_from_u64(8);
    let mut game = OreMinigame::from_order(vec![2, 1, 3]).unwrap();
    game.press(1);
    game.reset_if_failed(&mut rng);
    assert_eq!(game.next(), 2);
    assert_eq!(*game.order(), vec![2, 1, 3]);
    game.press(3);
    game.reset_if_failed(&mut rng);
    assert!(!game.is_failed());
    assert_eq!(game.next(), 1);
    assert_eq!(game.difficulty(), 3);
}

#[test]
fn reset_if_solved_leaves_a_running_session_alone() {
    let mut rng = StdRng::seed_from_u64(9);
    let mut game = OreMinigame::from_order(vec![2, 1]).unwrap();
    game.press(1);
    game.reset_if_solved(&mut rng);
    assert_eq!(game.next(), 2);
    assert_eq!(*game.order(), vec![2, 1]);
    game.press(2);
    assert!(game.is_solved());
    game.reset_if_solved(&mut rng);
    assert!(!game.is_solved());
    assert_eq!(game.next(), 1);
    assert_eq!(game.difficulty(), 2);
}

#[test]
fn do_if_solved_runs_only_when_solved() {
    let mut calls = 0;
    let mut game = OreMinigame::from_order(vec![1, 2]).unwrap();
    game.do_if_solved(|_| calls += 1);
    assert_eq!(calls, 0);
    game.press(1);
    game.do_if_solved(|_| calls += 1);
    assert_eq!(calls, 0);
    game.press(2);
    game.do_if_solved(|_| calls += 1);
    assert_eq!(calls, 1);
    let mut failed = OreMinigame::from_order(vec![1, 2]).unwrap();
    failed.press(2);
    failed.do_if_solved(|_| calls += 1);
    assert_eq!(calls, 1);
}

#[test]
fn iron_ore_scenario_grants_one_unit_exactly_once() {
    let mut rng = StdRng::seed_from_u64(10);
    let mut inventory = Inventory::new();
    let one = Rational::from_integer(1);
    assert_eq!(Good::IronOre.properties().difficulty, 3);
    let mut game = OreMinigame::from_order(vec![2, 1, 3]).unwrap();
    game.press(2);
    assert!(game.is_failed());
    game.reset_if_failed(&mut rng)
        .do_if_solved(|_| inventory.credit(Good::IronOre, &one))
        .reset_if_solved(&mut rng);
    assert_eq!(inventory.get(Good::IronOre), Rational::zero());
    assert_eq!(game.next(), 1);
    assert_eq!(game.difficulty(), 3);
    for value in 1..=3u32 {
        game.press(value);
        let solved = game.is_solved();
        game.reset_if_failed(&mut rng)
            .do_if_solved(|_| inventory.credit(Good::IronOre, &one))
            .reset_if_solved(&mut rng);
        assert_eq!(solved, value == 3);
    }
    assert_eq!(inventory.get(Good::IronOre), one);
    assert!(!game.is_solved());
    assert_eq!(game.next(), 1);
    game.reset_if_failed(&mut rng)
        .do_if_solved(|_| inventory.credit(Good::IronOre, &one))
        .reset_if_solved(&mut rng);
    assert_eq!(inventory.get(Good::IronOre), one);
}
