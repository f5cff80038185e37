use zombie_sim::rules::Rules;
use zombie_sim::state::GameState;
use zombie_sim::scoring::checked_reward;

#[test]
fn three_kills_with_four_humans_are_worth_960() {
    let rules = Rules::standard();
    assert_eq!(GameState::calc_score_for_zombie_kills(3, 4, &rules), 960);
}

#[test]
fn no_kill_is_worth_nothing() {
    let rules = Rules::standard();
    assert_eq!(GameState::calc_score_for_zombie_kills(0, 4, &rules), 0);
    assert_eq!(GameState::calc_score_for_zombie_kills(0, 0, &rules), 0);
    assert_eq!(GameState::calc_score_for_zombie_kills(5, 0, &rules), 0);
}

#[test]
fn kills_follow_the_fibonacci_numbers() {
    let rules = Rules::standard();
    assert_eq!(GameState::calc_score_for_zombie_kills(1, 1, &rules), 10);
    assert_eq!(GameState::calc_score_for_zombie_kills(2, 1, &rules), 30);
    assert_eq!(GameState::calc_score_for_zombie_kills(2, 3, &rules), 270);
    assert_eq!(GameState::calc_score_for_zombie_kills(5, 2, &rules), 760);
    assert_eq!(GameState::calc_score_for_zombie_kills(28, 1, &rules), 13_462_670);
    assert_eq!(
        GameState::calc_score_for_zombie_kills(99, 99, &rules),
        10 * 99 * 99 * (927_372_692_193_078_999_176i128 - 2)
    );
}

#[test]
fn kills_scale_with_the_points_of_the_rules() {
    let mut rules = Rules::standard();
    rules.zombie_points = 3;
    assert_eq!(GameState::calc_score_for_zombie_kills(3, 4, &rules), 288);
    rules.zombie_points = 0;
    assert_eq!(GameState::calc_score_for_zombie_kills(3, 4, &rules), 0);
}

#[test]
fn reward_is_held_against_the_room_left() {
    assert_eq!(checked_reward(10, 3, 4, 960), Some(960));
    assert_eq!(checked_reward(10, 3, 4, 959), None);
    assert_eq!(checked_reward(10, 3, 4, i128::MAX), Some(960));
    assert_eq!(checked_reward(10, 0, 4, 0), Some(0));
    assert_eq!(checked_reward(10, 7, 0, 0), Some(0));
    assert_eq!(checked_reward(0, 7, 7, 0), Some(0));
    assert_eq!(checked_reward(10, 1, 1, 10), Some(10));
    assert_eq!(checked_reward(10, 1, 1, 9), None);
    assert_eq!(
        checked_reward(10, 99, 99, i128::MAX),
        Some(10 * 99 * 99 * (927_372_692_193_078_999_176i128 - 2))
    );
    assert_eq!(checked_reward(10, 200, 1, i128::MAX), None);
    assert_eq!(checked_reward(10, 1, usize::MAX, i128::MAX), None);
    assert_eq!(checked_reward(10, usize::MAX, 1, i128::MAX), None);
    assert_eq!(
        checked_reward(1, 180, 1, i128::MAX),
        Some(78_569_350_599_398_894_027_251_472_817_058_687_520)
    );
}
