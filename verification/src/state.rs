//! A snapshot of the game and the steps that make up a turn.

use vstd::prelude::*;
use crate::arith::square;
use crate::entity::{hunter, Human, Player, PlayerView, Target, Zombie};
use crate::rules::Rules;
use crate::scoring::reward;
use crate::vector::{dist_sq, move_toward, Vec2};

verus! {

/// A snapshot of the game: where everyone stands and what has been scored.
#[derive(Debug)]
pub struct GameState {
    pub player: Player,
    pub humans: Vec<Human>,
    pub zombies: Vec<Zombie>,
    pub score: i128,
}

/// What a `GameState` holds, as mathematical values.
pub struct StateView {
    pub player: PlayerView,
    pub humans: Seq<Human>,
    pub zombies: Seq<Zombie>,
    pub score: int,
}

impl View for GameState {
    type V = StateView;

    open spec fn view(&self) -> StateView {
        StateView {
            player: self.player@,
            humans: self.humans@,
            zombies: self.zombies@,
            score: self.score as int,
        }
    }
}

/// The zombies that the player's weapon does not reach: those farther than
/// `range` from `player`.
pub open spec fn out_of_range(player: Vec2, range: int) -> spec_fn(Zombie) -> bool {
    |z: Zombie| dist_sq(z.pos, player) > square(range)
}

/// A zombie stands where the human stands.
pub open spec fn is_caught(h: Human, zombies: Seq<Zombie>) -> bool {
    exists|i: int| 0 <= i < zombies.len() && zombies[i].pos == h.pos
}

/// The humans on whose place no zombie stands.
pub open spec fn not_caught(zombies: Seq<Zombie>) -> spec_fn(Human) -> bool {
    |h: Human| !is_caught(h, zombies)
}

impl StateView {
    /// The state with all targeting forgotten.
    pub open spec fn cleared(self) -> StateView {
        StateView {
            humans: Seq::new(self.humans.len(), |i: int| self.humans[i].unclaimed()),
            zombies: Seq::new(self.zombies.len(), |i: int| self.zombies[i].untargeted()),
            ..self
        }
    }

    /// The state with targeting worked out afresh: every zombie hunts the
    /// nearest of the player and the humans, and every human hunted is held
    /// by the zombie that is nearest to its target among its hunters.
    pub open spec fn resolved(self) -> StateView {
        let zombies = Seq::new(
            self.zombies.len(),
            |i: int| self.zombies[i].retargeted(self.player.pos, self.humans),
        );
        StateView {
            humans: Seq::new(
                self.humans.len(),
                |h: int| self.humans[h].held(hunter(zombies, h, zombies.len() as int)),
            ),
            zombies,
            ..self
        }
    }

    /// The state after the player has taken one step toward `choice.pos`
    /// and put on the label of `choice`.
    pub open spec fn led(self, choice: PlayerView, rules: Rules) -> StateView {
        StateView {
            player: PlayerView {
                pos: move_toward(self.player.pos, choice.pos, rules.player_step as int),
                msg: choice.msg,
            },
            ..self
        }
    }

    /// The state after every zombie has arrived where it was going.
    pub open spec fn moved(self) -> StateView {
        StateView {
            zombies: Seq::new(self.zombies.len(), |i: int| self.zombies[i].arrived()),
            ..self
        }
    }

    /// The state after the player's weapon has fired: the zombies within
    /// range are gone and their worth is added to the score.
    pub open spec fn struck(self, rules: Rules) -> StateView {
        let left = self.zombies.filter(
            out_of_range(self.player.pos, rules.player_range as int),
        );
        StateView {
            zombies: left,
            score: self.score + reward(
                rules.zombie_points as nat,
                (self.zombies.len() - left.len()) as nat,
                self.humans.len(),
            ),
            ..self
        }
    }

    /// The state after the zombies have fed: the humans on whose place a
    /// zombie stands are gone.
    pub open spec fn caught(self) -> StateView {
        StateView { humans: self.humans.filter(not_caught(self.zombies)), ..self }
    }

    /// The state after the zombies have planned their next move: each has a
    /// fresh target and a next position one step toward it, and the humans
    /// know their hunters.
    pub open spec fn replanned(self, rules: Rules) -> StateView {
        let zombies = Seq::new(
            self.zombies.len(),
            |i: int|
                self.zombies[i].replanned(
                    self.player.pos,
                    self.humans,
                    rules.zombie_step as int,
                ),
        );
        StateView {
            humans: Seq::new(
                self.humans.len(),
                |h: int| self.humans[h].held(hunter(zombies, h, zombies.len() as int)),
            ),
            zombies,
            ..self
        }
    }

    /// One turn of a state whose targeting is fresh, the player heading for
    /// `choice.pos`: the player moves, the zombies arrive, the player's
    /// weapon fires, the zombies feed, and the zombies plan their next move.
    pub open spec fn advanced(self, choice: PlayerView, rules: Rules) -> StateView {
        self.led(choice, rules).moved().struck(rules).caught().replanned(rules)
    }

    /// The game is over: nobody is left to save, or nobody is left to fight.
    pub open spec fn ended(self) -> bool {
        self.humans.len() == 0 || self.zombies.len() == 0
    }

    /// Everyone stands on the map, and no zombie plans to move farther than
    /// a zombie's step.
    pub open spec fn placed(self, rules: Rules) -> bool {
        &&& self.humans.len() <= usize::MAX
        &&& self.zombies.len() <= usize::MAX
        &&& rules.on_map(self.player.pos)
        &&& forall|i: int| 0 <= i < self.humans.len() ==> rules.on_map(#[trigger] self.humans[i].pos)
        &&& forall|i: int|
            0 <= i < self.zombies.len() ==> {
                &&& rules.on_map((#[trigger] self.zombies[i]).pos)
                &&& rules.on_map(self.zombies[i].next_pos)
                &&& dist_sq(self.zombies[i].pos, self.zombies[i].next_pos) <= square(
                    rules.zombie_step as int,
                )
            }
    }

    /// Every squared distance from where a zombie will stand next, to the
    /// player and to each human, fits the machine's integers.
    pub open spec fn surveyable(self) -> bool {
        forall|i: int|
            0 <= i < self.zombies.len() ==> (#[trigger] self.zombies[i]).in_sight(
                self.player.pos,
                self.humans,
            )
    }

    /// The score is not negative, and with everything that the zombies still
    /// alive can be worth it fits the machine's integers.
    pub open spec fn funded(self, rules: Rules) -> bool {
        &&& 0 <= self.score
        &&& self.score + reward(
            rules.zombie_points as nat,
            self.zombies.len(),
            self.humans.len(),
        ) <= i128::MAX
    }

    /// Targets and hunters point at each other: a zombie's human exists, and
    /// a human's hunter exists and hunts that human.
    pub open spec fn linked(self) -> bool {
        &&& forall|i: int|
            0 <= i < self.zombies.len() ==> (#[trigger] self.zombies[i].target matches Target::Human(k)
                ==> k < self.humans.len())
        &&& forall|h: int|
            0 <= h < self.humans.len() ==> (#[trigger] self.humans[h].targeted_by matches Some(p) ==> {
                &&& p < self.zombies.len()
                &&& self.zombies[p as int].target == Target::Human(h as usize)
            })
    }

    /// The state is one that the engine works on.
    pub open spec fn wf(self, rules: Rules) -> bool {
        self.placed(rules) && self.funded(rules) && self.linked()
    }
}

} // verus!
