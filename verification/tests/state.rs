use zombie_sim::entity::{Human, Player, PlayerView, Target, Zombie, FAR};
use zombie_sim::policy::Policy;
use zombie_sim::rules::Rules;
use zombie_sim::state::{GameState, StateView};
use zombie_sim::strategy::Strategy;
use zombie_sim::vector::{dist_squared, Vec2};

struct GoTo(Vec2);

impl Policy for GoTo {
    fn choice(&self, _state: StateView, _rules: Rules) -> PlayerView {
        unreachable!()
    }

    fn decide(&self, _state: &GameState, _rules: &Rules) -> Player {
        Player::new_labeled(self.0, "go")
    }
}

fn pt(x: i32, y: i32) -> Vec2 {
    Vec2 { x, y }
}

fn human(id: i32, x: i32, y: i32) -> Human {
    Human { id, pos: pt(x, y), targeted_by: None }
}

fn zombie(id: i32, pos: Vec2, next_pos: Vec2) -> Zombie {
    Zombie { id, pos, next_pos, target: Target::Player, target_dist_sq: FAR }
}

fn crowd() -> GameState {
    GameState::new(
        Player::new(pt(8000, 4500)),
        vec![human(0, 0, 0), human(1, 100, 0), human(2, 200, 0), human(3, 300, 0)],
        vec![
            zombie(0, pt(8000, 3600), pt(8000, 4000)),
            zombie(1, pt(8900, 4500), pt(8500, 4500)),
            zombie(2, pt(15000, 8000), pt(14700, 8000)),
            zombie(3, pt(6600, 4500), pt(7000, 4500)),
        ],
    )
}

#[test]
fn new_state_has_no_score() {
    let s = crowd();
    assert_eq!(s.score, 0);
    assert_eq!(s.humans.len(), 4);
    assert_eq!(s.zombies.len(), 4);
    assert_eq!(s.player.pos, pt(8000, 4500));
}

#[test]
fn empty_state_has_nobody() {
    let s = GameState::empty();
    assert_eq!(s.player.pos, pt(0, 0));
    assert_eq!(s.player.msg, "???");
    assert!(s.humans.is_empty());
    assert!(s.zombies.is_empty());
    assert_eq!(s.score, 0);
}

#[test]
fn clone_is_a_copy() {
    let mut s = crowd();
    s.score = 77;
    s.player.msg = "label".to_string();
    s.humans[1].targeted_by = Some(2);
    s.zombies[2].target = Target::Human(1);
    let c = s.clone();
    assert!(c == s);
    assert_eq!(c.score, 77);
    assert_eq!(c.player.msg, "label");
    assert_eq!(c.humans[1].targeted_by, Some(2));
    assert_eq!(c.zombies[2].target, Target::Human(1));
    assert_eq!(c.zombies[2].target_dist_sq, FAR);
}

#[test]
fn states_are_the_same_by_who_stands_where_and_the_score() {
    let a = crowd();
    let mut b = crowd();
    b.player.msg = "x".to_string();
    b.humans[0].targeted_by = Some(1);
    assert!(a == b);
    b.score = 1;
    assert!(a != b);
    let mut c = crowd();
    c.humans.pop();
    assert!(a != c);
    let mut d = crowd();
    d.zombies[1].next_pos = pt(8501, 4500);
    assert!(a != d);
    let mut e = crowd();
    e.player.pos = pt(1, 1);
    assert!(a != e);
}

#[test]
fn a_state_has_ended_without_humans_or_without_zombies() {
    assert!(!crowd().ended());
    let mut s = crowd();
    s.humans.clear();
    assert!(s.ended());
    let mut t = crowd();
    t.zombies.clear();
    assert!(t.ended());
    assert!(GameState::empty().ended());
}

#[test]
fn clearing_forgets_all_targeting() {
    let mut s = crowd();
    s.humans[2].targeted_by = Some(1);
    s.zombies[1].target = Target::Human(2);
    s.zombies[1].target_dist_sq = 5;
    s.score = 30;
    s.clear_targets();
    for h in &s.humans {
        assert_eq!(h.targeted_by, None);
    }
    for z in &s.zombies {
        assert_eq!(z.target, Target::Player);
        assert_eq!(z.target_dist_sq, FAR);
    }
    assert!(s == {
        let mut c = crowd();
        c.score = 30;
        c
    });
}

#[test]
fn targeting_gives_each_human_its_nearest_hunter() {
    let mut s = GameState::new(
        Player::new(pt(15000, 8000)),
        vec![human(0, 1000, 1000), human(1, 5000, 5000), human(2, 9000, 1000)],
        vec![
            zombie(0, pt(1000, 2000), pt(1000, 1600)),
            zombie(1, pt(1000, 1700), pt(1000, 1300)),
            zombie(2, pt(700, 600), pt(700, 1000)),
            zombie(3, pt(15000, 7000), pt(15000, 7400)),
            zombie(4, pt(5000, 5700), pt(5000, 5300)),
            zombie(5, pt(5700, 5000), pt(5300, 5000)),
        ],
    );
    s.humans[2].targeted_by = Some(3);
    s.zombies_set_targets();
    let targets: Vec<Target> = s.zombies.iter().map(|z| z.target).collect();
    assert_eq!(
        targets,
        vec![
            Target::Human(0),
            Target::Human(0),
            Target::Human(0),
            Target::Player,
            Target::Human(1),
            Target::Human(1)
        ]
    );
    let dists: Vec<i64> = s.zombies.iter().map(|z| z.target_dist_sq).collect();
    assert_eq!(dists, vec![360_000, 90_000, 90_000, 360_000, 90_000, 90_000]);
    assert_eq!(s.humans[0].targeted_by, Some(1));
    assert_eq!(s.humans[1].targeted_by, Some(4));
    assert_eq!(s.humans[2].targeted_by, None);
    assert_eq!(s.zombies[0].pos, pt(1000, 2000));
    assert_eq!(s.zombies[0].next_pos, pt(1000, 1600));
}

#[test]
fn zombies_arrive_where_they_were_going() {
    let mut s = crowd();
    s.move_zombies();
    let places: Vec<Vec2> = s.zombies.iter().map(|z| z.pos).collect();
    assert_eq!(places, vec![pt(8000, 4000), pt(8500, 4500), pt(14700, 8000), pt(7000, 4500)]);
    for z in &s.zombies {
        assert_eq!(z.pos, z.next_pos);
    }
}

#[test]
fn fire_removes_the_zombies_in_range_and_scores_them() {
    let rules = Rules::standard();
    let mut s = crowd();
    s.score = 5;
    s.move_zombies();
    s.kill_zombies(&rules);
    assert_eq!(s.zombies.len(), 1);
    assert_eq!(s.zombies[0].id, 2);
    assert_eq!(s.score, 965);
    assert_eq!(s.humans.len(), 4);
    s.kill_zombies(&rules);
    assert_eq!(s.zombies.len(), 1);
    assert_eq!(s.score, 965);
}

#[test]
fn fire_keeps_the_order_of_the_survivors() {
    let rules = Rules::standard();
    let mut s = GameState::new(
        Player::new(pt(8000, 4500)),
        vec![human(0, 0, 0)],
        vec![
            zombie(0, pt(1000, 1000), pt(1000, 1000)),
            zombie(1, pt(8000, 4500), pt(8000, 4500)),
            zombie(2, pt(2000, 2000), pt(2000, 2000)),
            zombie(3, pt(8000, 6500), pt(8000, 6500)),
            zombie(4, pt(8000, 6501), pt(8000, 6501)),
        ],
    );
    s.kill_zombies(&rules);
    let ids: Vec<i32> = s.zombies.iter().map(|z| z.id).collect();
    assert_eq!(ids, vec![0, 2, 4]);
    assert_eq!(s.score, 30);
}

#[test]
fn zombies_feed_on_the_humans_they_stand_on() {
    let mut s = GameState::new(
        Player::new(pt(0, 0)),
        vec![human(0, 100, 100), human(1, 200, 200), human(2, 300, 300), human(3, 200, 200)],
        vec![zombie(0, pt(200, 200), pt(300, 300)), zombie(1, pt(100, 101), pt(100, 100))],
    );
    s.kill_humans();
    let ids: Vec<i32> = s.humans.iter().map(|h| h.id).collect();
    assert_eq!(ids, vec![0, 2]);
    assert_eq!(s.zombies.len(), 2);
    assert_eq!(s.score, 0);
}

#[test]
fn zombies_plan_their_next_move() {
    let rules = Rules::standard();
    let mut s = GameState::new(
        Player::new(pt(8000, 4500)),
        vec![human(0, 1000, 1000)],
        vec![zombie(0, pt(1000, 4000), pt(1000, 4000)), zombie(1, pt(9000, 4500), pt(9000, 4500))],
    );
    s.calc_zombies_next_move(&rules);
    assert_eq!(s.zombies[0].target, Target::Human(0));
    assert_eq!(s.zombies[0].target_dist_sq, 9_000_000);
    assert_eq!(s.zombies[0].pos, pt(1000, 4000));
    assert_eq!(s.zombies[0].next_pos, pt(1000, 3600));
    assert_eq!(s.zombies[1].target, Target::Player);
    assert_eq!(s.zombies[1].target_dist_sq, 1_000_000);
    assert_eq!(s.zombies[1].next_pos, pt(8600, 4500));
    assert_eq!(s.humans[0].targeted_by, Some(0));
}

#[test]
fn a_turn_with_a_combo_kill() {
    let rules = Rules::standard();
    let start = crowd();
    let next = start.simulate(&Strategy::Hold, &rules);
    assert_eq!(next.score, 960);
    assert_eq!(next.player.pos, pt(8000, 4500));
    assert_eq!(next.player.msg, "hold");
    assert_eq!(next.humans.len(), 4);
    assert_eq!(next.zombies.len(), 1);
    let z = next.zombies[0];
    assert_eq!(z.id, 2);
    assert_eq!(z.pos, pt(14700, 8000));
    assert_eq!(z.target, Target::Player);
    assert_eq!(z.target_dist_sq, 57_140_000);
    assert_eq!(z.next_pos, pt(14346, 7815));
    for h in &next.humans {
        assert_eq!(h.targeted_by, None);
    }
    assert!(start == crowd());
    assert_eq!(start.zombies[0].target_dist_sq, FAR);
}

#[test]
fn a_turn_in_which_a_human_is_caught() {
    let rules = Rules::standard();
    let start = GameState::new(
        Player::new(pt(15000, 8000)),
        vec![human(0, 5000, 0), human(1, 10000, 5000)],
        vec![zombie(0, pt(5000, 400), pt(5000, 0))],
    );
    let next = start.simulate(&Strategy::Hold, &rules);
    assert_eq!(next.score, 0);
    assert_eq!(next.humans.len(), 1);
    assert_eq!(next.humans[0].id, 1);
    assert_eq!(next.humans[0].targeted_by, Some(0));
    assert_eq!(next.zombies.len(), 1);
    assert_eq!(next.zombies[0].pos, pt(5000, 0));
    assert_eq!(next.zombies[0].target, Target::Human(0));
    assert_eq!(next.zombies[0].target_dist_sq, 50_000_000);
    assert_eq!(next.zombies[0].next_pos, pt(5282, 282));
}

#[test]
fn a_turn_moves_the_player_before_the_fire() {
    let rules = Rules::standard();
    let start = GameState::new(
        Player::new(pt(0, 0)),
        vec![human(0, 9000, 8000)],
        vec![zombie(0, pt(3400, 0), pt(3000, 0))],
    );
    let held = start.simulate(&Strategy::Hold, &rules);
    assert_eq!(held.zombies.len(), 1);
    assert_eq!(held.score, 0);
    let gone = start.simulate(&GoTo(pt(5000, 0)), &rules);
    assert_eq!(gone.player.pos, pt(1000, 0));
    assert_eq!(gone.player.msg, "go");
    assert!(gone.zombies.is_empty());
    assert_eq!(gone.score, 10);
    assert_eq!(gone.humans.len(), 1);
}

#[test]
fn a_policy_sees_fresh_targeting() {
    struct Spy;
    impl Policy for Spy {
        fn choice(&self, _state: StateView, _rules: Rules) -> PlayerView {
            unreachable!()
        }

        fn decide(&self, state: &GameState, _rules: &Rules) -> Player {
            assert_eq!(state.zombies[0].target, Target::Human(0));
            assert_eq!(state.zombies[0].target_dist_sq, 1_000_000);
            assert_eq!(state.humans[0].targeted_by, Some(0));
            assert_eq!(state.zombies[0].pos, Vec2 { x: 5000, y: 400 });
            Player::new(state.player.pos)
        }
    }
    let rules = Rules::standard();
    let mut start = GameState::new(
        Player::new(pt(15000, 8000)),
        vec![human(0, 5000, 1000)],
        vec![zombie(0, pt(5000, 400), pt(5000, 0))],
    );
    start.zombies[0].target = Target::Player;
    start.zombies[0].target_dist_sq = 3;
    let next = start.simulate(&Spy, &rules);
    assert_eq!(next.player.msg, "");
    assert_eq!(next.zombies[0].pos, pt(5000, 0));
    assert_eq!(next.zombies[0].next_pos, pt(5000, 400));
}

#[test]
fn score_never_drops_and_nobody_leaves_the_map() {
    let rules = Rules::standard();
    let mut state = GameState::new(
        Player::new(pt(8000, 4500)),
        vec![human(0, 100, 100), human(1, 15000, 8000), human(2, 8000, 100), human(3, 4000, 7000)],
        vec![
            zombie(0, pt(0, 8999), pt(250, 8700)),
            zombie(1, pt(15999, 0), pt(15700, 200)),
            zombie(2, pt(9000, 100), pt(8600, 100)),
            zombie(3, pt(12000, 8000), pt(12400, 8000)),
            zombie(4, pt(4000, 4000), pt(4000, 4400)),
        ],
    );
    assert!(state.is_wf(&rules));
    let before = state.zombies.len();
    for turn in 0..60 {
        let policy = if turn % 3 == 0 { Strategy::Hold } else { Strategy::SaveHumans };
        let next = state.simulate(&policy, &rules);
        assert!(next.score >= state.score);
        assert!(next.zombies.len() <= state.zombies.len());
        assert!(next.humans.len() <= state.humans.len());
        assert!(dist_squared(state.player.pos, next.player.pos) <= 1_000_000);
        assert!(next.is_wf(&rules));
        for (z, w) in next.zombies.iter().zip(state.zombies.iter().filter(|w| {
            next.zombies.iter().any(|z| z.id == w.id)
        })) {
            assert_eq!(z.id, w.id);
            assert_eq!(z.pos, w.next_pos);
        }
        state = next;
    }
    assert!(state.zombies.len() < before);
    assert!(state.score > 0);
}

#[test]
fn score_is_carried_over_from_the_turn_before() {
    let rules = Rules::standard();
    let mut previous = crowd();
    previous.score = 100;
    let mut now = crowd();
    now.zombies.truncate(1);
    now.calculate_new_score(&previous, &rules);
    assert_eq!(now.score, 100 + 960);
    let mut same = crowd();
    same.calculate_new_score(&previous, &rules);
    assert_eq!(same.score, 100);
}
