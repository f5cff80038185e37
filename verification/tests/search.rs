use zombie_sim::entity::{Human, Player, PlayerView, Target, Zombie, FAR};
use zombie_sim::policy::Policy;
use zombie_sim::rules::Rules;
use zombie_sim::search::{SimTree, LOST};
use zombie_sim::state::{GameState, StateView};
use zombie_sim::strategy::Strategy;
use zombie_sim::vector::Vec2;

struct GoTo(Vec2);

impl Policy for GoTo {
    fn choice(&self, _state: StateView, _rules: Rules) -> PlayerView {
        unreachable!()
    }

    fn decide(&self, _state: &GameState, _rules: &Rules) -> Player {
        Player::new_labeled(self.0, "go")
    }
}

fn pt(x: i32, y: i32) -> Vec2 {
    Vec2 { x, y }
}

fn human(id: i32, x: i32, y: i32) -> Human {
    Human { id, pos: pt(x, y), targeted_by: None }
}

fn zombie(id: i32, pos: Vec2, next_pos: Vec2) -> Zombie {
    Zombie { id, pos, next_pos, target: Target::Player, target_dist_sq: FAR }
}

fn lone_walker() -> GameState {
    GameState::new(
        Player::new(pt(1000, 1000)),
        vec![human(0, 9000, 8000)],
        vec![zombie(0, pt(5000, 1000), pt(4600, 1000))],
    )
}

fn played(start: &GameState, policy: &Strategy, turns: u32, rules: &Rules) -> GameState {
    let mut state = start.clone();
    for _ in 0..turns {
        if state.ended() {
            break;
        }
        state = state.simulate(policy, rules);
    }
    state
}

#[test]
fn a_fresh_search_has_seen_nothing() {
    let tree = SimTree::with_strategies(vec![Strategy::Hold, Strategy::SaveHumans]);
    assert_eq!(tree.strategies, vec![Strategy::Hold, Strategy::SaveHumans]);
    assert_eq!(tree.best_score, LOST);
    assert_eq!(tree.best_score, -1);
    assert!(tree.best_state == GameState::empty());
    assert_eq!(tree.best_state.player.msg, "???");
}

#[test]
fn the_engine_heads_for_the_only_human() {
    let rules = Rules::standard();
    let start = GameState::new(Player::new(pt(0, 0)), vec![human(0, 5000, 0)], vec![]);
    let mut tree = SimTree::with_strategies(vec![Strategy::SaveHumans]);
    let best = tree.calculate_best_state(&start, 12, &rules);
    assert_eq!(best.player.pos, pt(1000, 0));
    assert_eq!(best.player.msg, "guard");
    assert_eq!(best.score, 0);
    assert_eq!(tree.best_score, 0);
    assert_eq!(Strategy::SaveHumans.decide(&start, &rules).pos, pt(5000, 0));
    assert_eq!(String::from_utf8(best.player.to_bytes()).unwrap(), "1000 0 guard");
}

#[test]
fn the_engine_arrives_at_a_human_within_reach() {
    let rules = Rules::standard();
    let start = GameState::new(Player::new(pt(4400, 0)), vec![human(0, 5000, 0)], vec![]);
    let mut tree = SimTree::with_strategies(vec![Strategy::SaveHumans, Strategy::Hold]);
    let best = tree.calculate_best_state(&start, 12, &rules);
    assert_eq!(best.player.pos, pt(5000, 0));
}

#[test]
fn a_game_that_is_over_is_worth_the_same_at_every_depth() {
    let rules = Rules::standard();
    let tree = SimTree::with_strategies(vec![Strategy::Hold, Strategy::SaveHumans]);
    let mut won = GameState::new(Player::new(pt(0, 0)), vec![human(0, 5000, 0)], vec![]);
    won.score = 70;
    let lost = GameState::new(
        Player::new(pt(0, 0)),
        vec![],
        vec![zombie(0, pt(5000, 1000), pt(4600, 1000))],
    );
    let mut void = GameState::empty();
    void.score = 30;
    for depth in [0, 1, 2, 12] {
        assert_eq!(tree.calc_max_score_inner_rec(&won, depth, &rules), 70);
        assert_eq!(tree.calc_max_score_inner_rec(&lost, depth, &rules), -1);
        assert_eq!(tree.calc_max_score_inner_rec(&void, depth, &rules), -1);
    }
}

#[test]
fn a_state_out_of_depth_counts_only_if_it_is_winnable() {
    let rules = Rules::standard();
    let tree = SimTree::with_strategies(vec![Strategy::Hold]);
    let mut hopeless = lone_walker();
    hopeless.score = 40;
    assert_eq!(tree.calc_max_score_inner_rec(&hopeless, 0, &rules), -1);
    let mut hopeful = GameState::new(
        Player::new(pt(8000, 4000)),
        vec![human(0, 9000, 4000)],
        vec![zombie(0, pt(12000, 4000), pt(11600, 4000))],
    );
    hopeful.score = 40;
    assert_eq!(tree.calc_max_score_inner_rec(&hopeful, 0, &rules), 40);
}

#[test]
fn a_state_is_worth_at_least_its_own_score() {
    let rules = Rules::standard();
    let tree = SimTree::with_strategies(vec![Strategy::Hold]);
    let mut state = lone_walker();
    state.score = 40;
    assert_eq!(tree.calc_max_score_inner_rec(&state, 1, &rules), 40);
    assert_eq!(tree.calc_max_score_inner_rec(&state, 4, &rules), 40);
    assert_eq!(tree.calc_max_score_inner_rec(&state, 5, &rules), 50);
    assert_eq!(tree.calc_max_score_inner_rec(&state, 12, &rules), 50);
    let none: SimTree<Strategy> = SimTree::with_strategies(vec![]);
    assert_eq!(none.calc_max_score_inner_rec(&state, 3, &rules), 40);
    assert_eq!(none.calc_max_score_inner_rec(&state, 0, &rules), -1);
}

#[test]
fn a_single_policy_search_sees_what_playing_the_policy_yields() {
    let rules = Rules::standard();
    let start = lone_walker();
    for depth in [4, 5, 12] {
        let mut tree = SimTree::with_strategies(vec![Strategy::Hold]);
        let best = tree.calculate_best_state(&start, depth, &rules);
        let first = start.simulate(&Strategy::Hold, &rules);
        assert!(best == first);
        assert_eq!(best.zombies[0].next_pos, first.zombies[0].next_pos);
        let mut end = played(&first, &Strategy::Hold, depth, &rules);
        assert!(end.humans.len() > 0 && end.winnable(&rules));
        assert_eq!(tree.best_score, end.score);
        assert_eq!(tree.best_score, 10);
        assert_eq!(tree.calc_max_score_inner_rec(&first, depth, &rules), end.score);
    }
}

#[test]
fn a_single_policy_search_of_a_rescue_sees_what_the_rescue_yields() {
    let rules = Rules::standard();
    let start = GameState::new(
        Player::new(pt(2000, 4000)),
        vec![human(0, 9000, 4000), human(1, 9000, 4500)],
        vec![
            zombie(0, pt(14000, 4000), pt(13600, 4000)),
            zombie(1, pt(14000, 4500), pt(13600, 4500)),
            zombie(2, pt(14000, 5000), pt(13600, 5000)),
        ],
    );
    for depth in 0..9 {
        let mut tree = SimTree::with_strategies(vec![Strategy::SaveHumans]);
        let best = tree.calculate_best_state(&start, depth, &rules);
        let first = start.simulate(&Strategy::SaveHumans, &rules);
        let mut end = played(&first, &Strategy::SaveHumans, depth, &rules);
        if end.humans.len() > 0 && end.winnable(&rules) {
            assert!(best == first);
            assert_eq!(tree.best_score, end.score);
        }
    }
    let mut tree = SimTree::with_strategies(vec![Strategy::SaveHumans]);
    tree.calculate_best_state(&start, 8, &rules);
    assert!(tree.best_score > 0);
}

#[test]
fn among_equals_the_earliest_policy_wins() {
    let rules = Rules::standard();
    let start = GameState::new(Player::new(pt(0, 0)), vec![human(0, 5000, 0)], vec![]);
    let mut tree = SimTree::with_strategies(vec![GoTo(pt(0, 3000)), GoTo(pt(3000, 0))]);
    assert_eq!(tree.calculate_best_state(&start, 3, &rules).player.pos, pt(0, 1000));
    let mut tree = SimTree::with_strategies(vec![GoTo(pt(3000, 0)), GoTo(pt(0, 3000))]);
    assert_eq!(tree.calculate_best_state(&start, 3, &rules).player.pos, pt(1000, 0));
}

#[test]
fn the_policy_with_the_most_in_sight_wins() {
    let rules = Rules::standard();
    let start = GameState::new(
        Player::new(pt(0, 0)),
        vec![human(0, 9000, 8000)],
        vec![zombie(0, pt(3400, 0), pt(3000, 0))],
    );
    let mut tree = SimTree::with_strategies(vec![GoTo(pt(0, 5000)), GoTo(pt(5000, 0))]);
    let best = tree.calculate_best_state(&start, 0, &rules);
    assert_eq!(best.player.pos, pt(1000, 0));
    assert_eq!(best.score, 10);
    assert_eq!(tree.best_score, 10);
}

#[test]
fn a_search_that_finds_nothing_worth_following_makes_the_first_move() {
    let rules = Rules::standard();
    let start = GameState::new(
        Player::new(pt(0, 0)),
        vec![],
        vec![zombie(0, pt(9000, 0), pt(8600, 0))],
    );
    let mut tree = SimTree::with_strategies(vec![Strategy::SaveHumans]);
    let best = tree.calculate_best_state(&start, 12, &rules);
    assert_eq!(tree.best_score, -1);
    assert_eq!(best.player.pos, pt(1000, 0));
    assert_eq!(best.player.msg, "Shoo");
    assert!(best == start.simulate(&Strategy::SaveHumans, &rules));

    let mut tree = SimTree::with_strategies(vec![Strategy::Hold, Strategy::SaveHumans]);
    let best = tree.calculate_best_state(&start, 12, &rules);
    assert_eq!(tree.best_score, -1);
    assert_eq!(best.player.pos, pt(0, 0));
    assert_eq!(best.player.msg, "hold");
    assert_eq!(best.zombies.len(), 1);
    assert_eq!(best.zombies[0].pos, pt(8600, 0));

    let mut tree = SimTree::with_strategies(vec![Strategy::SaveHumans, Strategy::Hold]);
    let best = tree.calculate_best_state(&start, 12, &rules);
    assert_eq!(best.player.pos, pt(1000, 0));
}

#[test]
fn a_search_without_policies_returns_the_empty_state() {
    let rules = Rules::standard();
    let mut none: SimTree<Strategy> = SimTree::with_strategies(vec![]);
    let best = none.calculate_best_state(&lone_walker(), 12, &rules);
    assert!(best == GameState::empty());
    assert_eq!(best.player.msg, "???");
    assert_eq!(none.best_score, -1);
    none.best_score = 500;
    none.best_state = lone_walker();
    let best = none.calculate_best_state(&lone_walker(), 12, &rules);
    assert!(best == GameState::empty());
    assert_eq!(none.best_score, -1);
}

#[test]
fn a_search_starts_afresh_on_every_run() {
    let rules = Rules::standard();
    let mut tree = SimTree::with_strategies(vec![Strategy::Hold, Strategy::SaveHumans]);
    let first = tree.calculate_best_state(&lone_walker(), 12, &rules);
    assert_eq!(tree.best_score, 10);
    assert!(first == lone_walker().simulate(&Strategy::Hold, &rules));
    let calm = GameState::new(Player::new(pt(0, 0)), vec![human(0, 5000, 0)], vec![]);
    let second = tree.calculate_best_state(&calm, 12, &rules);
    assert_eq!(tree.best_score, 0);
    assert!(second == calm.simulate(&Strategy::Hold, &rules));
    assert_eq!(second.player.pos, pt(0, 0));
    assert!(tree.best_state == second);
    let again = tree.calculate_best_state(&lone_walker(), 12, &rules);
    assert_eq!(tree.best_score, 10);
    assert!(again == first);
}
