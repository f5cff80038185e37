//! Ready-made policies.

use vstd::prelude::*;
use crate::entity::{Player, PlayerView, Target};
use crate::policy::Policy;
use crate::rules::{lemma_on_map_fits, Rules};
use crate::state::{GameState, StateView};
use crate::vector::{dist_sq, dist_squared, Vec2};

verus! {

/// The policies that come with the engine.
#[derive(Debug, Clone, Copy, PartialEq, Eq, Structural)]
pub enum Strategy {
    /// Stay where the player stands.
    Hold,
    /// Go to the human most in danger among those worth going to.
    SaveHumans,
}

/// Which humans a rescue considers.
#[derive(Debug, Clone, Copy, PartialEq, Eq, Structural)]
pub enum Tier {
    /// Those that the player can still reach in time.
    Savable,
    /// Those that no zombie holds.
    Unclaimed,
    /// All of them.
    Anyone,
}

impl StateView {
    /// How pressing the danger to the human at index `h` is; less is more
    /// pressing. For a human that a zombie holds it is that zombie's squared
    /// distance to its target, for any other the human's squared distance
    /// to the player.
    pub open spec fn danger(self, h: int) -> int {
        match self.humans[h].targeted_by {
            Some(z) => self.zombies[z as int].target_dist_sq as int,
            None => dist_sq(self.humans[h].pos, self.player.pos),
        }
    }

    /// The humans that a rescue considers: the savable ones if there are
    /// any, else those that no zombie holds if there are any, else all.
    pub open spec fn tier(self, rules: Rules) -> Tier {
        if exists|h: int|
            0 <= h < self.humans.len() && (#[trigger] self.humans[h]).is_savable(
                self.player.pos,
                self.zombies,
                rules,
            ) {
            Tier::Savable
        } else if exists|h: int|
            0 <= h < self.humans.len() && (#[trigger] self.humans[h]).targeted_by is None {
            Tier::Unclaimed
        } else {
            Tier::Anyone
        }
    }

    /// The human at index `h` belongs to `tier`.
    pub open spec fn in_tier(self, tier: Tier, h: int, rules: Rules) -> bool {
        match tier {
            Tier::Savable => self.humans[h].is_savable(self.player.pos, self.zombies, rules),
            Tier::Unclaimed => self.humans[h].targeted_by is None,
            Tier::Anyone => true,
        }
    }

    /// The human of `tier` in the most pressing danger among the first `n`
    /// humans; of several in the same danger, the first.
    pub open spec fn most_pressing(self, tier: Tier, rules: Rules, n: int) -> Option<usize>
        decreases n,
    {
        if n <= 0 {
            None
        } else {
            let before = self.most_pressing(tier, rules, n - 1);
            if self.in_tier(tier, n - 1, rules) && (before matches Some(b) ==> self.danger(n - 1)
                < self.danger(b as int)) {
                Some((n - 1) as usize)
            } else {
                before
            }
        }
    }
}

/// The human that `most_pressing` picks belongs to the tier, no human of
/// the tier is in more pressing danger, and those before it are in less
/// pressing danger. It picks nobody only if the tier is empty.
pub proof fn lemma_most_pressing(s: StateView, tier: Tier, rules: Rules, n: int)
    requires
        0 <= n <= s.humans.len(),
        s.humans.len() <= usize::MAX,
    ensures
        s.most_pressing(tier, rules, n) is None <==> forall|h: int|
            0 <= h < n ==> !s.in_tier(tier, h, rules),
        s.most_pressing(tier, rules, n) matches Some(b) ==> {
            &&& b < n
            &&& s.in_tier(tier, b as int, rules)
            &&& forall|h: int|
                0 <= h < n && s.in_tier(tier, h, rules) ==> s.danger(b as int) <= s.danger(h)
            &&& forall|h: int|
                0 <= h < b && s.in_tier(tier, h, rules) ==> s.danger(b as int) < s.danger(h)
        },
    decreases n,
{
    if n > 0 {
        lemma_most_pressing(s, tier, rules, n - 1);
    }
}

impl GameState {
    /// How pressing the danger to the human at index `h` is.
    pub fn danger(&self, h: usize, rules: &Rules) -> (d: i64)
        requires
            self@.placed(*rules),
            self@.linked(),
            h < self.humans@.len(),
        ensures
            d == self@.danger(h as int),
    {
        match self.humans[h].targeted_by {
            Some(z) => self.zombies[z].target_dist_sq,
            None => {
                proof {
                    lemma_on_map_fits(*rules, self.humans@[h as int].pos, self.player.pos);
                }
                dist_squared(self.humans[h].pos, self.player.pos)
            },
        }
    }

    /// Tells whether the human at index `h` belongs to `tier`.
    pub fn in_tier(&self, tier: Tier, h: usize, rules: &Rules) -> (ok: bool)
        requires
            rules.wf(),
            self.wf(*rules),
            h < self.humans@.len(),
        ensures
            ok == self@.in_tier(tier, h as int, *rules),
    {
        match tier {
            Tier::Savable => self.humans[h].savable(&self.player, self.zombies.as_slice(), rules),
            Tier::Unclaimed => self.humans[h].targeted_by.is_none(),
            Tier::Anyone => true,
        }
    }

    /// Tells whether any human belongs to `tier`.
    fn any_in_tier(&self, tier: Tier, rules: &Rules) -> (found: bool)
        requires
            rules.wf(),
            self.wf(*rules),
        ensures
            found == exists|h: int|
                0 <= h < self@.humans.len() && self@.in_tier(tier, h, *rules),
    {
        let mut i: usize = 0;
        while i < self.humans.len()
            invariant
                i <= self.humans.len(),
                rules.wf(),
                self.wf(*rules),
                forall|h: int| 0 <= h < i ==> !self@.in_tier(tier, h, *rules),
            decreases self.humans.len() - i,
        {
            if self.in_tier(tier, i, rules) {
                return true;
            }
            i = i + 1;
        }
        false
    }

    /// The humans that a rescue considers.
    pub fn tier(&self, rules: &Rules) -> (t: Tier)
        requires
            rules.wf(),
            self.wf(*rules),
        ensures
            t == self@.tier(*rules),
    {
        if self.any_in_tier(Tier::Savable, rules) {
            let ghost h = choose|h: int|
                0 <= h < self@.humans.len() && self@.in_tier(Tier::Savable, h, *rules);
            assert(self@.humans[h].is_savable(self@.player.pos, self@.zombies, *rules));
            Tier::Savable
        } else if self.any_in_tier(Tier::Unclaimed, rules) {
            let ghost h = choose|h: int|
                0 <= h < self@.humans.len() && self@.in_tier(Tier::Unclaimed, h, *rules);
            assert(self@.humans[h].targeted_by is None);
            assert forall|h: int| 0 <= h < self@.humans.len() implies !(
            #[trigger] self@.humans[h]).is_savable(self@.player.pos, self@.zombies, *rules) by {
                assert(!self@.in_tier(Tier::Savable, h, *rules));
            }
            Tier::Unclaimed
        } else {
            assert forall|h: int| 0 <= h < self@.humans.len() implies !(
            #[trigger] self@.humans[h]).is_savable(self@.player.pos, self@.zombies, *rules) by {
                assert(!self@.in_tier(Tier::Savable, h, *rules));
            }
            assert forall|h: int| 0 <= h < self@.humans.len() implies !((
            #[trigger] self@.humans[h]).targeted_by is None) by {
                assert(!self@.in_tier(Tier::Unclaimed, h, *rules));
            }
            Tier::Anyone
        }
    }

    /// The human of `tier` in the most pressing danger; of several in the
    /// same danger, the first.
    pub fn most_pressing(&self, tier: Tier, rules: &Rules) -> (best: Option<usize>)
        requires
            rules.wf(),
            self.wf(*rules),
        ensures
            best == self@.most_pressing(tier, *rules, self@.humans.len() as int),
            best matches Some(b) ==> b < self@.humans.len(),
    {
        let mut best: Option<usize> = None;
        let mut least: i64 = 0;
        let mut i: usize = 0;
        while i < self.humans.len()
            invariant
                i <= self.humans.len(),
                rules.wf(),
                self.wf(*rules),
                best == self@.most_pressing(tier, *rules, i as int),
                best matches Some(b) ==> b < i && least == self@.danger(b as int),
            decreases self.humans.len() - i,
        {
            if self.in_tier(tier, i, rules) {
                let d: i64 = self.danger(i, rules);
                if best.is_none() || d < least {
                    best = Some(i);
                    least = d;
                }
            }
            i = i + 1;
        }
        best
    }
}

impl Strategy {
    /// What `hold_position` chooses: the player's own place, under the
    /// label `hold`.
    pub open spec fn held_position(state: StateView) -> PlayerView {
        PlayerView { pos: state.player.pos, msg: "hold"@ }
    }

    /// Chooses the player's own place.
    pub fn hold_position(state: &GameState) -> (p: Player)
        ensures
            p@ == Self::held_position(state@),
    {
        Player::new_labeled(state.player.pos, "hold")
    }

    /// What `save_humans` chooses.
    ///
    /// Against a single zombie: the human that it hunts, or the zombie
    /// itself if it hunts the player, under the label `Shoo`. Otherwise the
    /// human in the most pressing danger among those that the rescue
    /// considers, under a label that tells which those are: `protec` for the
    /// savable, `guard` for those that no zombie holds, `RIP` where all had
    /// to be considered. With no human at all: the player's own place.
    pub open spec fn rescue(state: StateView, rules: Rules) -> PlayerView {
        if state.zombies.len() == 1 {
            PlayerView {
                pos: match state.zombies[0].target {
                    Target::Human(h) => state.humans[h as int].pos,
                    Target::Player => state.zombies[0].pos,
                },
                msg: "Shoo"@,
            }
        } else {
            let tier = state.tier(rules);
            PlayerView {
                pos: match state.most_pressing(tier, rules, state.humans.len() as int) {
                    Some(h) => state.humans[h as int].pos,
                    None => state.player.pos,
                },
                msg: match tier {
                    Tier::Savable => "protec"@,
                    Tier::Unclaimed => "guard"@,
                    Tier::Anyone => "RIP"@,
                },
            }
        }
    }

    /// Chooses the human to go to: the one hunted by the only zombie, or
    /// the one in the most pressing danger among the savable, else among
    /// those that no zombie holds, else among all.
    pub fn save_humans(state: &GameState, rules: &Rules) -> (p: Player)
        requires
            rules.wf(),
            state.wf(*rules),
        ensures
            p@ == Self::rescue(state@, *rules),
            rules.on_map(p.pos),
    {
        if state.zombies.len() == 1 {
            if let Target::Human(h_idx) = state.zombies[0].target {
                return Player::new_labeled(state.humans[h_idx].pos, "Shoo");
            }
            return Player::new_labeled(state.zombies[0].pos, "Shoo");
        }
        let tier = state.tier(rules);
        let msg: &str = match tier {
            Tier::Savable => "protec",
            Tier::Unclaimed => "guard",
            Tier::Anyone => "RIP",
        };
        match state.most_pressing(tier, rules) {
            Some(h) => Player::new_labeled(state.humans[h].pos, msg),
            None => Player::new_labeled(state.player.pos, msg),
        }
    }
}

/// Where a hunt leads the player.
#[derive(Debug, Clone, Copy, PartialEq, Eq, Structural)]
pub enum KillPlan {
    /// Go to this place.
    Go(Vec2),
    /// Close in on the zombies, more than one, that hunt the human at this
    /// index.
    Encircle(usize),
}

impl StateView {
    /// Every zombie hunts the player.
    pub open spec fn all_hunt_player(self) -> bool {
        forall|i: int| 0 <= i < self.zombies.len() ==> (#[trigger] self.zombies[i]).target
            == Target::Player
    }

    /// The sum of the first `n` zombies' `x`.
    pub open spec fn sum_x(self, n: int) -> int
        decreases n,
    {
        if n <= 0 {
            0
        } else {
            self.sum_x(n - 1) + self.zombies[n - 1].pos.x
        }
    }

    /// The sum of the first `n` zombies' `y`.
    pub open spec fn sum_y(self, n: int) -> int
        decreases n,
    {
        if n <= 0 {
            0
        } else {
            self.sum_y(n - 1) + self.zombies[n - 1].pos.y
        }
    }

    /// The centroid of the zombies, each coordinate rounded down; the
    /// origin where there is no zombie.
    pub open spec fn centroid(self) -> Vec2 {
        let n = self.zombies.len() as int;
        if n == 0 {
            Vec2 { x: 0, y: 0 }
        } else {
            Vec2 { x: (self.sum_x(n) / n) as i32, y: (self.sum_y(n) / n) as i32 }
        }
    }

    /// How many of the first `n` zombies hunt the human at index `h`.
    pub open spec fn hunters(self, h: int, n: int) -> nat
        decreases n,
    {
        if n <= 0 {
            0
        } else if self.zombies[n - 1].target == Target::Human(h as usize) {
            self.hunters(h, n - 1) + 1
        } else {
            self.hunters(h, n - 1)
        }
    }

    /// The first of the first `n` zombies that hunts the human at index `h`.
    pub open spec fn first_hunter(self, h: int, n: int) -> Option<usize>
        decreases n,
    {
        if n <= 0 {
            None
        } else if self.first_hunter(h, n - 1) is None && self.zombies[n - 1].target
            == Target::Human(h as usize) {
            Some((n - 1) as usize)
        } else {
            self.first_hunter(h, n - 1)
        }
    }

    /// The zombie nearest to the player among the first `n`; of several
    /// equally near, the first.
    pub open spec fn nearest_zombie(self, n: int) -> Option<usize>
        decreases n,
    {
        if n <= 0 {
            None
        } else {
            let before = self.nearest_zombie(n - 1);
            if before matches Some(b) ==> dist_sq(self.zombies[n - 1].pos, self.player.pos)
                < dist_sq(self.zombies[b as int].pos, self.player.pos) {
                Some((n - 1) as usize)
            } else {
                before
            }
        }
    }
}

/// The sums of the zombies' coordinates stay within the map's extent times
/// their number.
pub proof fn lemma_sums(s: StateView, rules: Rules, n: int)
    requires
        s.placed(rules),
        0 <= n <= s.zombies.len(),
    ensures
        0 <= s.sum_x(n) <= n * (rules.width - 1),
        0 <= s.sum_y(n) <= n * (rules.height - 1),
    decreases n,
{
    if n > 0 {
        lemma_sums(s, rules, n - 1);
        assert(rules.on_map(s.zombies[n - 1].pos));
        assert(n * (rules.width - 1) == (n - 1) * (rules.width - 1) + (rules.width - 1))
            by (nonlinear_arith);
        assert(n * (rules.height - 1) == (n - 1) * (rules.height - 1) + (rules.height - 1))
            by (nonlinear_arith);
    } else {
        assert(0 * (rules.width - 1) == 0 && 0 * (rules.height - 1) == 0) by (nonlinear_arith);
    }
}

/// The first hunter of a human is a zombie that hunts it, and there is one
/// as soon as the human has a hunter at all.
pub proof fn lemma_first_hunter(s: StateView, h: int, n: int)
    requires
        0 <= n <= s.zombies.len(),
        s.zombies.len() <= usize::MAX,
    ensures
        s.first_hunter(h, n) is None <==> s.hunters(h, n) == 0,
        s.first_hunter(h, n) matches Some(z) ==> z < n && s.zombies[z as int].target
            == Target::Human(h as usize),
    decreases n,
{
    if n > 0 {
        lemma_first_hunter(s, h, n - 1);
    }
}

/// A human that a zombie among the first `n` hunts has a hunter among them.
pub proof fn lemma_hunted(s: StateView, h: int, z: int, n: int)
    requires
        0 <= z < n <= s.zombies.len(),
        s.zombies[z].target == Target::Human(h as usize),
    ensures
        s.hunters(h, n) >= 1,
    decreases n,
{
    if z < n - 1 {
        lemma_hunted(s, h, z, n - 1);
    }
}

/// The nearest zombie is a zombie, and there is one as soon as there is a
/// zombie at all.
pub proof fn lemma_nearest_zombie(s: StateView, n: int)
    requires
        0 <= n <= s.zombies.len(),
        s.zombies.len() <= usize::MAX,
    ensures
        s.nearest_zombie(n) is None <==> n == 0,
        s.nearest_zombie(n) matches Some(z) ==> {
            &&& z < n
            &&& forall|i: int|
                0 <= i < n ==> dist_sq(s.zombies[z as int].pos, s.player.pos) <= dist_sq(
                    (#[trigger] s.zombies[i]).pos,
                    s.player.pos,
                )
            &&& forall|i: int|
                0 <= i < z ==> dist_sq(s.zombies[z as int].pos, s.player.pos) < dist_sq(
                    (#[trigger] s.zombies[i]).pos,
                    s.player.pos,
                )
        },
    decreases n,
{
    if n > 0 {
        lemma_nearest_zombie(s, n - 1);
    }
}

impl GameState {
    /// Tells whether every zombie hunts the player.
    pub fn all_hunt_player(&self) -> (all: bool)
        ensures
            all == self@.all_hunt_player(),
    {
        let mut i: usize = 0;
        while i < self.zombies.len()
            invariant
                i <= self.zombies.len(),
                forall|j: int| 0 <= j < i ==> (#[trigger] self.zombies@[j]).target == Target::Player,
            decreases self.zombies.len() - i,
        {
            match self.zombies[i].target {
                Target::Player => {},
                Target::Human(_) => {
                    return false;
                },
            }
            i = i + 1;
        }
        true
    }

    /// The centroid of the zombies, each coordinate rounded down; the
    /// origin where there is no zombie.
    pub fn centroid(&self, rules: &Rules) -> (c: Vec2)
        requires
            self@.placed(*rules),
        ensures
            c == self@.centroid(),
            rules.on_map(c),
    {
        let n: usize = self.zombies.len();
        if n == 0 {
            return Vec2::new();
        }
        let mut sx: i128 = 0;
        let mut sy: i128 = 0;
        let mut i: usize = 0;
        while i < n
            invariant
                i <= n,
                n == self.zombies.len(),
                self@.placed(*rules),
                sx == self@.sum_x(i as int),
                sy == self@.sum_y(i as int),
            decreases n - i,
        {
            proof {
                lemma_sums(self@, *rules, i as int);
                lemma_sums(self@, *rules, i + 1);
                assert(rules.on_map(self@.zombies[i as int].pos));
                assert(i * (rules.width - 1) <= 0xffff_ffff_ffff_ffff * 0x7fff_ffff
                    && (i + 1) * (rules.width - 1) <= 0xffff_ffff_ffff_ffff * 0x7fff_ffff && i * (
                rules.height - 1) <= 0xffff_ffff_ffff_ffff * 0x7fff_ffff && (i + 1) * (rules.height
                    - 1) <= 0xffff_ffff_ffff_ffff * 0x7fff_ffff) by (nonlinear_arith)
                    requires
                        0 <= i < 0xffff_ffff_ffff_ffff,
                        0 <= rules.width - 1 < 0x7fff_ffff,
                        0 <= rules.height - 1 < 0x7fff_ffff,
                ;
            }
            sx = sx + self.zombies[i].pos.x as i128;
            sy = sy + self.zombies[i].pos.y as i128;
            i = i + 1;
        }
        proof {
            lemma_sums(self@, *rules, n as int);
            let w = rules.width - 1;
            let h = rules.height - 1;
            assert(0 <= sx / (n as i128) <= w) by (nonlinear_arith)
                requires
                    0 <= sx <= n * w,
                    n > 0,
            ;
            assert(0 <= sy / (n as i128) <= h) by (nonlinear_arith)
                requires
                    0 <= sy <= n * h,
                    n > 0,
            ;
        }
        Vec2 { x: (sx / (n as i128)) as i32, y: (sy / (n as i128)) as i32 }
    }

    /// How many zombies hunt the human at index `h`, and the first of them.
    pub fn hunters(&self, h: usize) -> (r: (usize, Option<usize>))
        ensures
            r.0 == self@.hunters(h as int, self@.zombies.len() as int),
            r.1 == self@.first_hunter(h as int, self@.zombies.len() as int),
            r.1 matches Some(z) ==> z < self@.zombies.len(),
    {
        let mut count: usize = 0;
        let mut first: Option<usize> = None;
        let mut i: usize = 0;
        while i < self.zombies.len()
            invariant
                i <= self.zombies.len(),
                count <= i,
                count == self@.hunters(h as int, i as int),
                first == self@.first_hunter(h as int, i as int),
                first matches Some(z) ==> z < i,
            decreases self.zombies.len() - i,
        {
            if self.zombies[i].target == Target::Human(h) {
                count = count + 1;
                if first.is_none() {
                    first = Some(i);
                }
            }
            i = i + 1;
        }
        (count, first)
    }

    /// The zombie nearest to the player; of several equally near, the
    /// first.
    pub fn nearest_zombie(&self, rules: &Rules) -> (best: Option<usize>)
        requires
            self@.placed(*rules),
        ensures
            best == self@.nearest_zombie(self@.zombies.len() as int),
            best matches Some(z) ==> z < self@.zombies.len(),
    {
        let mut best: Option<usize> = None;
        let mut least: i64 = 0;
        let mut i: usize = 0;
        while i < self.zombies.len()
            invariant
                i <= self.zombies.len(),
                self@.placed(*rules),
                best == self@.nearest_zombie(i as int),
                best matches Some(z) ==> z < i && least == dist_sq(
                    self@.zombies[z as int].pos,
                    self@.player.pos,
                ),
            decreases self.zombies.len() - i,
        {
            proof {
                lemma_on_map_fits(*rules, self@.zombies[i as int].pos, self@.player.pos);
            }
            let d: i64 = dist_squared(self.zombies[i].pos, self.player.pos);
            if best.is_none() || d < least {
                best = Some(i);
                least = d;
            }
            i = i + 1;
        }
        best
    }
}

impl Strategy {
    /// What `go_kill` plans.
    ///
    /// Against a single zombie: go to it. Where every zombie hunts the
    /// player: go to their centroid. Otherwise take the savable human in the
    /// most pressing danger: go to its hunter if it has but one, and close in
    /// on its hunters if it has several. With no savable human: go to the
    /// zombie nearest to the player.
    pub open spec fn hunt(state: StateView, rules: Rules) -> KillPlan {
        let count = state.zombies.len() as int;
        if count == 1 {
            KillPlan::Go(state.zombies[0].pos)
        } else if state.all_hunt_player() {
            KillPlan::Go(state.centroid())
        } else {
            match state.most_pressing(Tier::Savable, rules, state.humans.len() as int) {
                Some(h) => match state.first_hunter(h as int, count) {
                    Some(z) if state.hunters(h as int, count) == 1 => KillPlan::Go(
                        state.zombies[z as int].pos,
                    ),
                    _ => KillPlan::Encircle(h),
                },
                None => match state.nearest_zombie(count) {
                    Some(z) => KillPlan::Go(state.zombies[z as int].pos),
                    None => KillPlan::Go(state.player.pos),
                },
            }
        }
    }

    /// Plans a hunt: picks the place to go to, or the human whose hunters
    /// to close in on.
    pub fn go_kill(state: &GameState, rules: &Rules) -> (plan: KillPlan)
        requires
            rules.wf(),
            state.wf(*rules),
        ensures
            plan == Self::hunt(state@, *rules),
            plan matches KillPlan::Go(p) ==> rules.on_map(p),
            plan matches KillPlan::Encircle(h) ==> h < state@.humans.len() && state@.hunters(
                h as int,
                state@.zombies.len() as int,
            ) >= 2,
    {
        if state.zombies.len() == 1 {
            return KillPlan::Go(state.zombies[0].pos);
        }
        if state.all_hunt_player() {
            return KillPlan::Go(state.centroid(rules));
        }
        match state.most_pressing(Tier::Savable, rules) {
            Some(h) => {
                proof {
                    lemma_most_pressing(
                        state@,
                        Tier::Savable,
                        *rules,
                        state@.humans.len() as int,
                    );
                    let z = state@.humans[h as int].targeted_by->0;
                    lemma_hunted(state@, h as int, z as int, state@.zombies.len() as int);
                }
                let (count, first) = state.hunters(h);
                match first {
                    Some(z) => {
                        if count == 1 {
                            return KillPlan::Go(state.zombies[z].pos);
                        }
                        KillPlan::Encircle(h)
                    },
                    None => {
                        proof {
                            lemma_first_hunter(state@, h as int, state@.zombies.len() as int);
                        }
                        KillPlan::Encircle(h)
                    },
                }
            },
            None => match state.nearest_zombie(rules) {
                Some(z) => KillPlan::Go(state.zombies[z].pos),
                None => KillPlan::Go(state.player.pos),
            },
        }
    }
}

impl Policy for Strategy {
    open spec fn choice(&self, state: StateView, rules: Rules) -> PlayerView {
        match self {
            Strategy::Hold => Self::held_position(state),
            Strategy::SaveHumans => Self::rescue(state, rules),
        }
    }

    fn decide(&self, state: &GameState, rules: &Rules) -> (p: Player) {
        match self {
            Strategy::Hold => Self::hold_position(state),
            Strategy::SaveHumans => Self::save_humans(state, rules),
        }
    }
}

} // verus!
