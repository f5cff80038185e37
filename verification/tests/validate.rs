use zombie_sim::entity::{Human, Player, Target, Zombie, FAR};
use zombie_sim::rules::{Rules, MAX_EXTENT};
use zombie_sim::state::GameState;
use zombie_sim::vector::Vec2;

fn pt(x: i32, y: i32) -> Vec2 {
    Vec2 { x, y }
}

fn sample() -> GameState {
    GameState::new(
        Player::new(pt(0, 0)),
        vec![Human { id: 0, pos: pt(15999, 8999), targeted_by: None }],
        vec![Zombie {
            id: 0,
            pos: pt(4000, 4000),
            next_pos: pt(4240, 4320),
            target: Target::Player,
            target_dist_sq: FAR,
        }],
    )
}

#[test]
fn the_standard_rules() {
    let r = Rules::standard();
    assert_eq!((r.width, r.height), (16000, 9000));
    assert_eq!((r.player_step, r.player_range, r.zombie_step, r.zombie_points), (1000, 2000, 400, 10));
    assert!(r.is_valid());
    assert_eq!(MAX_EXTENT, 32768);
}

#[test]
fn rules_that_are_not_usable() {
    let edit = |f: &dyn Fn(&mut Rules)| {
        let mut r = Rules::standard();
        f(&mut r);
        r.is_valid()
    };
    assert!(edit(&|r| r.width = 32768));
    assert!(!edit(&|r| r.width = 32769));
    assert!(!edit(&|r| r.width = 0));
    assert!(!edit(&|r| r.height = 0));
    assert!(!edit(&|r| r.height = 40000));
    assert!(!edit(&|r| r.zombie_step = 0));
    assert!(!edit(&|r| r.zombie_step = 1000));
    assert!(edit(&|r| r.zombie_step = 999));
    assert!(!edit(&|r| r.player_step = 32769));
    assert!(edit(&|r| r.player_range = 0));
    assert!(!edit(&|r| r.player_range = -1));
    assert!(!edit(&|r| r.player_range = 32769));
    assert!(edit(&|r| r.zombie_points = 0));
    assert!(!edit(&|r| r.zombie_points = -1));
}

#[test]
fn the_map_holds_its_points() {
    let r = Rules::standard();
    assert!(r.contains(pt(0, 0)));
    assert!(r.contains(pt(15999, 8999)));
    assert!(!r.contains(pt(16000, 0)));
    assert!(!r.contains(pt(0, 9000)));
    assert!(!r.contains(pt(-1, 0)));
    assert!(!r.contains(pt(0, -1)));
}

#[test]
fn a_state_that_the_engine_works_on() {
    let rules = Rules::standard();
    let s = sample();
    assert!(s.is_placed(&rules));
    assert!(s.is_funded(&rules));
    assert!(s.is_linked());
    assert!(s.is_wf(&rules));
    assert!(GameState::empty().is_wf(&rules));
}

#[test]
fn a_state_with_someone_off_the_map() {
    let rules = Rules::standard();
    let mut s = sample();
    s.player.pos = pt(16000, 0);
    assert!(!s.is_placed(&rules));
    assert!(!s.is_wf(&rules));
    let mut s = sample();
    s.humans[0].pos = pt(0, 9000);
    assert!(!s.is_placed(&rules));
    let mut s = sample();
    s.zombies[0].pos = pt(-1, 4000);
    s.zombies[0].next_pos = pt(0, 4000);
    assert!(!s.is_placed(&rules));
    let mut s = sample();
    s.zombies[0].pos = pt(15999, 4000);
    s.zombies[0].next_pos = pt(16000, 4000);
    assert!(!s.is_placed(&rules));
}

#[test]
fn a_state_with_a_zombie_that_goes_too_far() {
    let rules = Rules::standard();
    let mut s = sample();
    s.zombies[0].next_pos = pt(4240, 4321);
    assert!(!s.is_placed(&rules));
    s.zombies[0].next_pos = pt(4000, 4400);
    assert!(s.is_placed(&rules));
    s.zombies[0].next_pos = pt(4000, 4401);
    assert!(!s.is_placed(&rules));
}

#[test]
fn a_state_without_room_for_the_score() {
    let rules = Rules::standard();
    let mut s = sample();
    s.score = -1;
    assert!(!s.is_funded(&rules));
    s.score = i128::MAX - 10;
    assert!(s.is_funded(&rules));
    s.score = i128::MAX - 9;
    assert!(!s.is_funded(&rules));
    assert!(!s.is_wf(&rules));
    s.zombies.clear();
    assert!(s.is_funded(&rules));
    s.score = i128::MAX;
    assert!(s.is_funded(&rules));
}

#[test]
fn a_state_with_broken_links() {
    let rules = Rules::standard();
    let mut s = sample();
    s.zombies[0].target = Target::Human(0);
    assert!(s.is_linked());
    s.zombies[0].target = Target::Human(1);
    assert!(!s.is_linked());
    assert!(!s.is_wf(&rules));
    let mut s = sample();
    s.humans[0].targeted_by = Some(0);
    assert!(!s.is_linked());
    s.zombies[0].target = Target::Human(0);
    assert!(s.is_linked());
    s.humans[0].targeted_by = Some(1);
    assert!(!s.is_linked());
}

#[test]
fn a_wide_map_is_checked_and_fired_on_as_well() {
    let wide = Rules {
        width: i32::MAX,
        height: i32::MAX,
        player_step: 5,
        player_range: 1_000_000,
        zombie_step: 2_000_000,
        zombie_points: 10,
    };
    assert!(!wide.is_valid());
    let far = i32::MAX - 1;
    let mut s = GameState::new(
        Player::new(pt(0, 0)),
        vec![Human { id: 0, pos: pt(far, far), targeted_by: None }],
        vec![
            Zombie {
                id: 0,
                pos: pt(far, far),
                next_pos: pt(far, far - 2_000_000),
                target: Target::Player,
                target_dist_sq: FAR,
            },
            Zombie {
                id: 1,
                pos: pt(600_000, 800_000),
                next_pos: pt(600_000, 800_000),
                target: Target::Player,
                target_dist_sq: FAR,
            },
        ],
    );
    assert!(s.is_placed(&wide));
    assert!(s.is_wf(&wide));
    assert_eq!(s.nearest_zombie(&wide), Some(1));
    assert_eq!(s.centroid(&wide), pt(1_074_041_823, 1_074_141_823));
    s.kill_zombies(&wide);
    assert_eq!(s.zombies.len(), 1);
    assert_eq!(s.zombies[0].id, 0);
    assert_eq!(s.score, 10);
    s.zombies[0].next_pos = pt(far, far - 2_000_001);
    assert!(!s.is_placed(&wide));
}
