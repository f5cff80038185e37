//! When two entities, and two states, count as the same: a player by its
//! place, a human by its number and place, a zombie by its number, its place
//! and where it goes. Labels and targeting do not count.

use vstd::prelude::*;
use crate::entity::{Human, Player, Zombie};
use crate::state::GameState;

verus! {

/// The two players stand on the same place.
pub open spec fn same_player(a: Player, b: Player) -> bool {
    a.pos == b.pos
}

/// The two humans have the same number and stand on the same place.
pub open spec fn same_human(a: Human, b: Human) -> bool {
    a.id == b.id && a.pos == b.pos
}

/// The two zombies have the same number, stand on the same place and go to
/// the same place.
pub open spec fn same_zombie(a: Zombie, b: Zombie) -> bool {
    a.id == b.id && a.pos == b.pos && a.next_pos == b.next_pos
}

impl PartialEq for Player {
    fn eq(&self, other: &Self) -> (r: bool) {
        self.pos == other.pos
    }
}

impl vstd::std_specs::cmp::PartialEqSpecImpl for Player {
    open spec fn obeys_eq_spec() -> bool {
        true
    }

    open spec fn eq_spec(&self, other: &Self) -> bool {
        same_player(*self, *other)
    }
}

impl PartialEq for Human {
    fn eq(&self, other: &Self) -> (r: bool) {
        self.id == other.id && self.pos == other.pos
    }
}

impl vstd::std_specs::cmp::PartialEqSpecImpl for Human {
    open spec fn obeys_eq_spec() -> bool {
        true
    }

    open spec fn eq_spec(&self, other: &Self) -> bool {
        same_human(*self, *other)
    }
}

impl PartialEq for Zombie {
    fn eq(&self, other: &Self) -> (r: bool) {
        self.id == other.id && self.pos == other.pos && self.next_pos == other.next_pos
    }
}

impl vstd::std_specs::cmp::PartialEqSpecImpl for Zombie {
    open spec fn obeys_eq_spec() -> bool {
        true
    }

    open spec fn eq_spec(&self, other: &Self) -> bool {
        same_zombie(*self, *other)
    }
}

/// The two rows of humans are of one length and the same human by human.
pub open spec fn same_humans(a: Seq<Human>, b: Seq<Human>) -> bool {
    a.len() == b.len() && forall|i: int| 0 <= i < a.len() ==> same_human(#[trigger] a[i], b[i])
}

/// The two rows of zombies are of one length and the same zombie by zombie.
pub open spec fn same_zombies(a: Seq<Zombie>, b: Seq<Zombie>) -> bool {
    a.len() == b.len() && forall|i: int| 0 <= i < a.len() ==> same_zombie(#[trigger] a[i], b[i])
}

/// Tells whether the two rows of humans are the same.
pub fn humans_match(a: &[Human], b: &[Human]) -> (r: bool)
    ensures
        r == same_humans(a@, b@),
{
    if a.len() != b.len() {
        return false;
    }
    let mut i: usize = 0;
    while i < a.len()
        invariant
            i <= a@.len(),
            a@.len() == b@.len(),
            forall|j: int| 0 <= j < i ==> same_human(#[trigger] a@[j], b@[j]),
        decreases a@.len() - i,
    {
        if a[i] != b[i] {
            return false;
        }
        i = i + 1;
    }
    true
}

/// Tells whether the two rows of zombies are the same.
pub fn zombies_match(a: &[Zombie], b: &[Zombie]) -> (r: bool)
    ensures
        r == same_zombies(a@, b@),
{
    if a.len() != b.len() {
        return false;
    }
    let mut i: usize = 0;
    while i < a.len()
        invariant
            i <= a@.len(),
            a@.len() == b@.len(),
            forall|j: int| 0 <= j < i ==> same_zombie(#[trigger] a@[j], b@[j]),
        decreases a@.len() - i,
    {
        if a[i] != b[i] {
            return false;
        }
        i = i + 1;
    }
    true
}

impl PartialEq for GameState {
    fn eq(&self, other: &Self) -> (r: bool) {
        self.player == other.player && humans_match(
            self.humans.as_slice(),
            other.humans.as_slice(),
        ) && zombies_match(self.zombies.as_slice(), other.zombies.as_slice()) && self.score
            == other.score
    }
}

impl vstd::std_specs::cmp::PartialEqSpecImpl for GameState {
    open spec fn obeys_eq_spec() -> bool {
        true
    }

    open spec fn eq_spec(&self, other: &Self) -> bool {
        &&& same_player(self.player, other.player)
        &&& same_humans(self.humans@, other.humans@)
        &&& same_zombies(self.zombies@, other.zombies@)
        &&& self.score == other.score
    }
}

} // verus!
