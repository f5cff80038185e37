//! The rule set of a game: the size of the map, how far player and zombies
//! move in a turn, how far the player's weapon reaches and what a kill is
//! worth.

use vstd::prelude::*;
use crate::vector::{dist_sq, Vec2};

verus! {

/// The largest extent, step or range that a rule set may hold. Within it
/// every quantity that the engine computes fits the machine's integers.
pub const MAX_EXTENT: i32 = 32768;

/// The tunable constants of the game.
#[derive(Debug, Clone, Copy, PartialEq, Eq, Structural)]
pub struct Rules {
    /// The map holds the points with `0 <= x < width`.
    pub width: i32,
    /// The map holds the points with `0 <= y < height`.
    pub height: i32,
    /// How far the player moves in one turn, at most.
    pub player_step: i32,
    /// Zombies within this distance of the player are killed.
    pub player_range: i32,
    /// How far a zombie moves in one turn, at most.
    pub zombie_step: i32,
    /// The base worth of a kill.
    pub zombie_points: i32,
}

impl Rules {
    /// The rule set is usable: the map is not empty, a zombie moves, the
    /// player is faster than a zombie, and nothing exceeds `MAX_EXTENT`.
    pub open spec fn wf(&self) -> bool {
        &&& 1 <= self.width <= MAX_EXTENT
        &&& 1 <= self.height <= MAX_EXTENT
        &&& 1 <= self.zombie_step < self.player_step <= MAX_EXTENT
        &&& 0 <= self.player_range <= MAX_EXTENT
        &&& 0 <= self.zombie_points
    }

    /// The point lies on the map.
    pub open spec fn on_map(&self, p: Vec2) -> bool {
        0 <= p.x < self.width && 0 <= p.y < self.height
    }

    /// The rules of the standard game: a map of 16000 by 9000, a player who
    /// moves 1000 and shoots 2000 far, zombies that move 400, ten points a
    /// kill.
    pub fn standard() -> (r: Rules)
        ensures
            r.wf(),
            r == (Rules {
                width: 16000,
                height: 9000,
                player_step: 1000,
                player_range: 2000,
                zombie_step: 400,
                zombie_points: 10,
            }),
    {
        Rules {
            width: 16000,
            height: 9000,
            player_step: 1000,
            player_range: 2000,
            zombie_step: 400,
            zombie_points: 10,
        }
    }

    /// Tells whether the rule set is usable.
    pub fn is_valid(&self) -> (ok: bool)
        ensures
            ok == self.wf(),
    {
        1 <= self.width && self.width <= MAX_EXTENT && 1 <= self.height && self.height
            <= MAX_EXTENT && 1 <= self.zombie_step && self.zombie_step < self.player_step
            && self.player_step <= MAX_EXTENT && 0 <= self.player_range && self.player_range
            <= MAX_EXTENT && 0 <= self.zombie_points
    }

    /// Tells whether the point lies on the map.
    pub fn contains(&self, p: Vec2) -> (ok: bool)
        ensures
            ok == self.on_map(p),
    {
        0 <= p.x && p.x < self.width && 0 <= p.y && p.y < self.height
    }
}

/// The squared distance between two points on a map fits the machine's
/// integers, however large the map.
pub proof fn lemma_on_map_fits(rules: Rules, a: Vec2, b: Vec2)
    requires
        rules.on_map(a),
        rules.on_map(b),
    ensures
        0 <= dist_sq(a, b) <= i64::MAX,
{
    let dx = a.x - b.x;
    let dy = a.y - b.y;
    assert(0 <= dx * dx <= 0x7fff_ffff * 0x7fff_ffff) by (nonlinear_arith)
        requires
            -0x7fff_ffff <= dx <= 0x7fff_ffff,
    ;
    assert(0 <= dy * dy <= 0x7fff_ffff * 0x7fff_ffff) by (nonlinear_arith)
        requires
            -0x7fff_ffff <= dy <= 0x7fff_ffff,
    ;
}

/// Two points on the map are near enough for their squared distance to fit
/// the machine's integers with room to spare.
pub proof fn lemma_on_map_near(rules: Rules, a: Vec2, b: Vec2)
    requires
        rules.wf(),
        rules.on_map(a),
        rules.on_map(b),
    ensures
        0 <= dist_sq(a, b) <= 2 * MAX_EXTENT * MAX_EXTENT,
{
    let dx = a.x - b.x;
    let dy = a.y - b.y;
    assert(0 <= dx * dx <= 32768 * 32768) by (nonlinear_arith)
        requires
            -32768 <= dx <= 32768,
    ;
    assert(0 <= dy * dy <= 32768 * 32768) by (nonlinear_arith)
        requires
            -32768 <= dy <= 32768,
    ;
}

} // verus!
