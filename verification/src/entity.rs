//! The player, the humans and the zombies, and how zombies pick their
//! targets and humans learn who hunts them.

use vstd::prelude::*;
use crate::arith::square;
use crate::rules::Rules;
use crate::vector::{dist_sq, dist_squared, move_from_to_capped, move_toward, Vec2};

verus! {

/// The squared distance that stands for "no target chosen yet".
pub const FAR: i64 = i64::MAX;

/// Whom a zombie hunts.
#[derive(Debug, Clone, Copy, PartialEq, Eq, Structural)]
pub enum Target {
    /// The player.
    Player,
    /// The human at this index of the state's humans.
    Human(usize),
}

/// The player: a position and a free-text label that goes out with it.
#[derive(Debug)]
pub struct Player {
    pub pos: Vec2,
    pub msg: String,
}

/// What a `Player` holds, with its label as a sequence of characters.
pub struct PlayerView {
    pub pos: Vec2,
    pub msg: Seq<char>,
}

impl View for Player {
    type V = PlayerView;

    open spec fn view(&self) -> PlayerView {
        PlayerView { pos: self.pos, msg: self.msg@ }
    }
}

impl Clone for Player {
    fn clone(&self) -> (r: Self)
        ensures
            r@ == self@,
    {
        Player { pos: self.pos, msg: self.msg.clone() }
    }
}

impl Player {
    /// A player at `pos` with an empty label.
    pub fn new(pos: Vec2) -> (r: Self)
        ensures
            r.pos == pos,
            r.msg@.len() == 0,
    {
        Player { pos, msg: String::new() }
    }

    /// A player at `pos` with the given label.
    pub fn new_labeled(pos: Vec2, label: &str) -> (r: Self)
        ensures
            r.pos == pos,
            r.msg@ == label@,
    {
        Player { pos, msg: label.to_owned() }
    }
}

impl Player {
    /// The player that a line of input describes: its fields are `x` and
    /// `y`. None if the line has fewer fields.
    pub fn from_fields(fields: &[i32]) -> (r: Option<Player>)
        ensures
            fields@.len() < 2 ==> r is None,
            fields@.len() >= 2 ==> (r matches Some(p) && p.pos == (Vec2 {
                x: fields@[0],
                y: fields@[1],
            }) && p.msg@.len() == 0),
    {
        if fields.len() < 2 {
            return None;
        }
        Some(Player::new(Vec2 { x: fields[0], y: fields[1] }))
    }
}

/// A human: stands still until a zombie reaches it.
#[derive(Debug, Clone, Copy)]
pub struct Human {
    pub id: i32,
    pub pos: Vec2,
    /// The index of the zombie that hunts this human from nearest, if any
    /// zombie hunts it.
    pub targeted_by: Option<usize>,
}

/// A zombie: walks toward the nearest of the player and the humans.
#[derive(Debug, Clone, Copy)]
pub struct Zombie {
    pub id: i32,
    pub pos: Vec2,
    /// Where the zombie will stand after the coming turn.
    pub next_pos: Vec2,
    pub target: Target,
    /// The squared distance to the target, measured when it was chosen.
    pub target_dist_sq: i64,
}

/// The nearest of the player and the first `n` humans, seen from `from`,
/// with its squared distance. A human displaces the choice made so far only
/// if it is strictly nearer.
pub open spec fn nearest(from: Vec2, player: Vec2, humans: Seq<Human>, n: int) -> (Target, int)
    decreases n,
{
    if n <= 0 {
        (Target::Player, dist_sq(from, player))
    } else {
        let best = nearest(from, player, humans, n - 1);
        let d = dist_sq(from, humans[n - 1].pos);
        if d < best.1 {
            (Target::Human((n - 1) as usize), d)
        } else {
            best
        }
    }
}

/// The claim on a human after the zombie at `idx`, which hunts it, has been
/// heard: the zombie takes the human over if nobody held it, or if its
/// target is strictly nearer than the holder's.
pub open spec fn claim(prev: Option<usize>, zombies: Seq<Zombie>, idx: int) -> Option<usize> {
    match prev {
        None => Some(idx as usize),
        Some(p) => if zombies[idx].target_dist_sq < zombies[p as int].target_dist_sq {
            Some(idx as usize)
        } else {
            prev
        },
    }
}

/// Who holds the human at index `h` once the first `n` zombies have been
/// heard in order.
pub open spec fn hunter(zombies: Seq<Zombie>, h: int, n: int) -> Option<usize>
    decreases n,
{
    if n <= 0 {
        None
    } else {
        let prev = hunter(zombies, h, n - 1);
        if zombies[n - 1].target == Target::Human(h as usize) {
            claim(prev, zombies, n - 1)
        } else {
            prev
        }
    }
}

/// The target that `nearest` picks is a nearest one; the player is picked if
/// and only if no human is strictly nearer than the player; and a human is
/// picked only if every human before it is strictly farther.
pub proof fn lemma_nearest(from: Vec2, player: Vec2, humans: Seq<Human>, n: int)
    requires
        0 <= n <= humans.len(),
        humans.len() <= usize::MAX,
    ensures
        ({
            let (t, d) = nearest(from, player, humans, n);
            &&& d <= dist_sq(from, player)
            &&& forall|i: int| 0 <= i < n ==> d <= dist_sq(from, #[trigger] humans[i].pos)
            &&& t == Target::Player <==> forall|i: int|
                0 <= i < n ==> dist_sq(from, player) <= dist_sq(from, #[trigger] humans[i].pos)
            &&& t == Target::Player ==> d == dist_sq(from, player)
            &&& t matches Target::Human(k) ==> {
                &&& k < n
                &&& d == dist_sq(from, humans[k as int].pos)
                &&& d < dist_sq(from, player)
                &&& forall|i: int| 0 <= i < k ==> d < dist_sq(from, #[trigger] humans[i].pos)
            }
        }),
    decreases n,
{
    if n > 0 {
        lemma_nearest(from, player, humans, n - 1);
        let best = nearest(from, player, humans, n - 1);
        let d = dist_sq(from, humans[n - 1].pos);
        if d < best.1 {
            assert(!(dist_sq(from, player) <= dist_sq(from, humans[n - 1].pos)));
        }
    }
}

/// Which target is nearest depends on where the humans stand, not on who
/// holds them.
pub proof fn lemma_nearest_by_place(
    from: Vec2,
    player: Vec2,
    a: Seq<Human>,
    b: Seq<Human>,
    n: int,
)
    requires
        0 <= n <= a.len(),
        n <= b.len(),
        forall|i: int| 0 <= i < n ==> a[i].pos == b[i].pos,
    ensures
        nearest(from, player, a, n) == nearest(from, player, b, n),
    decreases n,
{
    if n > 0 {
        lemma_nearest_by_place(from, player, a, b, n - 1);
    }
}

/// Whoever holds a human hunts it, is nearest to its target among the
/// zombies that hunt this human, and comes first among those equally near.
pub proof fn lemma_hunter(zombies: Seq<Zombie>, h: int, n: int)
    requires
        0 <= n <= zombies.len(),
        zombies.len() <= usize::MAX,
        0 <= h <= usize::MAX,
    ensures
        hunter(zombies, h, n) is None <==> forall|i: int|
            0 <= i < n ==> (#[trigger] zombies[i]).target != Target::Human(h as usize),
        hunter(zombies, h, n) matches Some(p) ==> {
            &&& p < n
            &&& zombies[p as int].target == Target::Human(h as usize)
            &&& forall|i: int|
                0 <= i < n && (#[trigger] zombies[i]).target == Target::Human(h as usize)
                    ==> zombies[p as int].target_dist_sq <= zombies[i].target_dist_sq
            &&& forall|i: int|
                0 <= i < p && (#[trigger] zombies[i]).target == Target::Human(h as usize)
                    ==> zombies[p as int].target_dist_sq < zombies[i].target_dist_sq
        },
    decreases n,
{
    if n > 0 {
        lemma_hunter(zombies, h, n - 1);
        if zombies[n - 1].target == Target::Human(h as usize) {
            assert(hunter(zombies, h, n) is Some);
        }
    }
}

impl Human {
    /// The human that a line of input describes: its fields are `id`, `x`
    /// and `y`. None if the line has fewer fields.
    pub fn from_fields(fields: &[i32]) -> (r: Option<Human>)
        ensures
            fields@.len() < 3 ==> r is None,
            fields@.len() >= 3 ==> r == Some(
                Human {
                    id: fields@[0],
                    pos: Vec2 { x: fields@[1], y: fields@[2] },
                    targeted_by: None,
                },
            ),
    {
        if fields.len() < 3 {
            return None;
        }
        Some(Human { id: fields[0], pos: Vec2 { x: fields[1], y: fields[2] }, targeted_by: None })
    }

    /// The human with its hunter forgotten.
    pub open spec fn unclaimed(self) -> Human {
        Human { targeted_by: None, ..self }
    }

    /// The human held by `by`.
    pub open spec fn held(self, by: Option<usize>) -> Human {
        Human { targeted_by: by, ..self }
    }

    /// Tells whether a zombie stands where this human stands.
    pub fn check_within_zombie(&self, zombies: &[Zombie]) -> (caught: bool)
        ensures
            caught == exists|i: int| 0 <= i < zombies@.len() && zombies@[i].pos == self.pos,
    {
        let mut i: usize = 0;
        while i < zombies.len()
            invariant
                i <= zombies@.len(),
                forall|j: int| 0 <= j < i ==> zombies@[j].pos != self.pos,
            decreases zombies@.len() - i,
        {
            if zombies[i].pos == self.pos {
                return true;
            }
            i = i + 1;
        }
        false
    }

    /// Hears the zombie at `idx`, which hunts this human: the zombie takes
    /// the human over if nobody held it, or if its target is strictly nearer
    /// than the holder's.
    pub fn set_target(&mut self, zombies: &[Zombie], idx: usize)
        requires
            idx < zombies@.len(),
            old(self).targeted_by matches Some(p) ==> p < zombies@.len(),
        ensures
            *final(self) == old(self).held(claim(old(self).targeted_by, zombies@, idx as int)),
    {
        match self.targeted_by {
            None => {
                self.targeted_by = Some(idx);
            },
            Some(holder) => {
                if zombies[idx].target_dist_sq < zombies[holder].target_dist_sq {
                    self.targeted_by = Some(idx);
                }
            },
        }
    }
}

impl Zombie {
    /// The zombie that a line of input describes: its fields are `id`, `x`,
    /// `y` and the `x` and `y` of where it will stand next. None if the line
    /// has fewer fields.
    pub fn from_fields(fields: &[i32]) -> (r: Option<Zombie>)
        ensures
            fields@.len() < 5 ==> r is None,
            fields@.len() >= 5 ==> r == Some(
                Zombie {
                    id: fields@[0],
                    pos: Vec2 { x: fields@[1], y: fields@[2] },
                    next_pos: Vec2 { x: fields@[3], y: fields@[4] },
                    target: Target::Player,
                    target_dist_sq: FAR,
                },
            ),
    {
        if fields.len() < 5 {
            return None;
        }
        Some(
            Zombie {
                id: fields[0],
                pos: Vec2 { x: fields[1], y: fields[2] },
                next_pos: Vec2 { x: fields[3], y: fields[4] },
                target: Target::Player,
                target_dist_sq: FAR,
            },
        )
    }

    /// The zombie with its target forgotten.
    pub open spec fn untargeted(self) -> Zombie {
        Zombie { target: Target::Player, target_dist_sq: FAR, ..self }
    }

    /// The zombie hunting the nearest of the player and the humans, seen
    /// from where it will stand next.
    pub open spec fn retargeted(self, player: Vec2, humans: Seq<Human>) -> Zombie {
        let best = nearest(self.next_pos, player, humans, humans.len() as int);
        Zombie { target: best.0, target_dist_sq: best.1 as i64, ..self }
    }

    /// The zombie having arrived where it was going.
    pub open spec fn arrived(self) -> Zombie {
        Zombie { pos: self.next_pos, ..self }
    }

    /// The place of the zombie's target.
    pub open spec fn target_pos(self, player: Vec2, humans: Seq<Human>) -> Vec2 {
        match self.target {
            Target::Player => player,
            Target::Human(i) => humans[i as int].pos,
        }
    }

    /// The zombie with a fresh target and the move that follows from it: one
    /// step from where it stands toward its target.
    pub open spec fn replanned(self, player: Vec2, humans: Seq<Human>, step: int) -> Zombie {
        let z = self.retargeted(player, humans);
        Zombie { next_pos: move_toward(z.pos, z.target_pos(player, humans), step), ..z }
    }

    /// Every squared distance from where the zombie will stand next, to the
    /// player and to each human, fits the machine's integers.
    pub open spec fn in_sight(self, player: Vec2, humans: Seq<Human>) -> bool {
        &&& dist_sq(self.next_pos, player) <= i64::MAX
        &&& forall|i: int|
            0 <= i < humans.len() ==> dist_sq(self.next_pos, #[trigger] humans[i].pos) <= i64::MAX
    }

    /// Picks the nearest of the player and the humans as the target. The
    /// player wins ties; among humans equally near the first one wins.
    pub fn set_target(&mut self, player: &Player, humans: &[Human])
        requires
            old(self).in_sight(player.pos, humans@),
        ensures
            *final(self) == old(self).retargeted(player.pos, humans@),
    {
        self.target_dist_sq = dist_squared(self.next_pos, player.pos);
        self.target = Target::Player;
        let mut idx: usize = 0;
        while idx < humans.len()
            invariant
                idx <= humans@.len(),
                old(self).in_sight(player.pos, humans@),
                self.next_pos == old(self).next_pos,
                self.pos == old(self).pos,
                self.id == old(self).id,
                (self.target, self.target_dist_sq as int) == nearest(
                    self.next_pos,
                    player.pos,
                    humans@,
                    idx as int,
                ),
            decreases humans@.len() - idx,
        {
            let curr_dist: i64 = dist_squared(self.next_pos, humans[idx].pos);
            if curr_dist < self.target_dist_sq {
                self.target_dist_sq = curr_dist;
                self.target = Target::Human(idx);
            }
            idx = idx + 1;
        }
    }

    /// Tells whether the zombie stands within the player's range.
    pub fn check_within_player(&self, player: &Player, rules: &Rules) -> (hit: bool)
        requires
            0 <= rules.player_range,
            dist_sq(self.pos, player.pos) <= i64::MAX,
        ensures
            hit == (dist_sq(self.pos, player.pos) <= square(rules.player_range as int)),
    {
        let range: i64 = rules.player_range as i64;
        assert(0 <= range * range <= 0x7fff_ffff * 0x7fff_ffff) by (nonlinear_arith)
            requires
                0 <= range <= 0x7fff_ffff,
        ;
        dist_squared(self.pos, player.pos) <= range * range
    }

    /// Picks a fresh target and plans the move toward it.
    pub fn set_next_move(&mut self, player: &Player, humans: &[Human], rules: &Rules)
        requires
            old(self).in_sight(player.pos, humans@),
            0 <= rules.zombie_step,
        ensures
            *final(self) == old(self).replanned(player.pos, humans@, rules.zombie_step as int),
    {
        self.set_target(player, humans);
        proof {
            assert(humans@.len() == humans.len());
            lemma_nearest(self.next_pos, player.pos, humans@, humans@.len() as int);
        }
        let mut target_pos: Vec2 = player.pos;
        if let Target::Human(idx) = self.target {
            target_pos = humans[idx].pos;
        }
        self.next_pos = move_from_to_capped(self.pos, target_pos, rules.zombie_step);
    }
}

} // verus!
