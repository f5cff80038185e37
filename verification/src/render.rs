//! Writing things out as text: a destination as the line `x y` or
//! `x y label`, and a zombie and a whole state in a form for a log.

use vstd::prelude::*;
use vstd::string::StringSliceAdditionalSpecFns;
use crate::entity::{Player, PlayerView, Zombie};
use crate::parse::{
    all_digits, atoi_of, digits_value, ink_end, ink_start, is_digit, number, space_at,
    space_before,
};
use crate::state::{GameState, StateView};
use crate::vector::Vec2;

verus! {

/// The digits of a number, without leading zeros.
pub open spec fn digits_of(n: nat) -> Seq<u8>
    decreases n,
{
    if n < 10 {
        seq![(48 + n) as u8]
    } else {
        digits_of(n / 10).push((48 + n % 10) as u8)
    }
}

/// A whole number in decimal, with `-` before it if it is negative.
pub open spec fn decimal(v: int) -> Seq<u8> {
    if v < 0 {
        seq![45u8] + digits_of((-v) as nat)
    } else {
        digits_of(v as nat)
    }
}

/// A point as text: its `x`, a blank, its `y`.
pub open spec fn point_text(p: Vec2) -> Seq<u8> {
    decimal(p.x as int) + seq![32u8] + decimal(p.y as int)
}

impl PlayerView {
    /// The player as a line of text: the position, and after a blank the
    /// label if there is one.
    pub open spec fn text(self) -> Seq<u8> {
        if self.msg.len() == 0 {
            point_text(self.pos)
        } else {
            point_text(self.pos) + seq![32u8] + vstd::utf8::encode_utf8(self.msg)
        }
    }
}

/// The bytes of a text.
pub open spec fn bytes_of(text: &str) -> Seq<u8> {
    text.spec_bytes()
}

/// A zombie as text: `{id: 7, pos: (1 2), next: (3 4)}`.
pub open spec fn zombie_text(z: Zombie) -> Seq<u8> {
    bytes_of("{id: ") + decimal(z.id as int) + bytes_of(", pos: (") + point_text(z.pos) + bytes_of(
        "), next: (",
    ) + point_text(z.next_pos) + bytes_of(")}")
}

/// The first `n` zombies as text, a blank after each.
pub open spec fn zombies_text(zombies: Seq<Zombie>, n: int) -> Seq<u8>
    decreases n,
{
    if n <= 0 {
        Seq::empty()
    } else {
        zombies_text(zombies, n - 1) + zombie_text(zombies[n - 1]) + seq![32u8]
    }
}

impl StateView {
    /// The state as text: the score, the player's place, the numbers of
    /// humans and zombies, and the zombies:
    /// `S: 10, P: (1 2), 3H, 1Z: {id: 7, pos: (1 2), next: (3 4)} `.
    pub open spec fn text(self) -> Seq<u8> {
        bytes_of("S: ") + decimal(self.score) + bytes_of(", P: (") + point_text(self.player.pos)
            + bytes_of("), ") + decimal(self.humans.len() as int) + bytes_of("H, ") + decimal(
            self.zombies.len() as int,
        ) + bytes_of("Z: ") + zombies_text(self.zombies, self.zombies.len() as int)
    }
}

/// The digits of a number are digits, at least one, and spell the number.
pub proof fn lemma_digits_of(n: nat)
    ensures
        digits_of(n).len() > 0,
        all_digits(digits_of(n)),
        digits_value(digits_of(n)) == n,
    decreases n,
{
    if n < 10 {
        let s = digits_of(n);
        assert(s.drop_last() =~= Seq::<u8>::empty());
        assert(digits_value(s.drop_last()) == 0);
    } else {
        lemma_digits_of(n / 10);
        let s = digits_of(n);
        assert(s.drop_last() =~= digits_of(n / 10));
        assert forall|i: int| 0 <= i < s.len() implies is_digit(#[trigger] s[i]) by {
            if i < s.len() - 1 {
                assert(is_digit(digits_of(n / 10)[i]));
            }
        }
    }
}

/// A number written in decimal reads back as itself.
pub proof fn lemma_decimal_reads_back(v: int)
    requires
        i32::MIN <= v <= i32::MAX,
    ensures
        atoi_of(decimal(v)) == v,
{
    let s = decimal(v);
    let n = (if v < 0 {
        -v
    } else {
        v
    }) as nat;
    lemma_digits_of(n);
    let d = digits_of(n);
    assert(is_digit(d[0]));
    assert(is_digit(d[d.len() - 1]));
    let len = s.len() as int;
    assert(s[len - 1] == d[d.len() - 1]);
    assert(space_at(s, 0, len) == 0);
    assert(space_before(s, 0, len) == 0);
    assert(ink_start(s, 0, len) == 0);
    assert(ink_end(s, 0, len) == len);
    assert(s.subrange(0, len) =~= s);
    if v < 0 {
        assert(s.skip(1) =~= d);
    }
    assert(number(s) == Some(v));
}

/// Appends the digits of `n` to `out`.
pub fn push_digits(out: &mut Vec<u8>, n: u128)
    ensures
        final(out)@ == old(out)@ + digits_of(n as nat),
    decreases n,
{
    if n >= 10 {
        push_digits(out, n / 10);
    }
    out.push(48 + (n % 10) as u8);
    assert(out@ =~= old(out)@ + digits_of(n as nat));
}

/// Appends `v` in decimal to `out`.
pub fn push_decimal(out: &mut Vec<u8>, v: i128)
    ensures
        final(out)@ == old(out)@ + decimal(v as int),
{
    if v < 0 {
        out.push(45);
        let n: u128 = if v == i128::MIN {
            0x8000_0000_0000_0000_0000_0000_0000_0000
        } else {
            (-v) as u128
        };
        push_digits(out, n);
        assert(out@ =~= old(out)@ + decimal(v as int));
    } else {
        push_digits(out, v as u128);
    }
}

/// Appends a point to `out`: its `x`, a blank, its `y`.
pub fn push_point(out: &mut Vec<u8>, p: Vec2)
    ensures
        final(out)@ == old(out)@ + point_text(p),
{
    push_decimal(out, p.x as i128);
    out.push(32);
    push_decimal(out, p.y as i128);
    assert(out@ =~= old(out)@ + point_text(p));
}

/// Appends the bytes of `text` to `out`.
pub fn push_text(out: &mut Vec<u8>, text: &str)
    ensures
        final(out)@ == old(out)@ + bytes_of(text),
{
    let bytes = text.as_bytes();
    let mut i: usize = 0;
    while i < bytes.len()
        invariant
            i <= bytes@.len(),
            out@ == old(out)@ + bytes@.take(i as int),
        decreases bytes@.len() - i,
    {
        out.push(bytes[i]);
        assert(bytes@.take(i + 1) =~= bytes@.take(i as int).push(bytes@[i as int]));
        assert(out@ =~= old(out)@ + bytes@.take(i + 1));
        i = i + 1;
    }
    assert(bytes@.take(i as int) =~= bytes@);
}

impl Player {
    /// The player as a line of text: `x y`, or `x y label` if the label is
    /// not empty.
    pub fn to_bytes(&self) -> (r: Vec<u8>)
        ensures
            r@ == self@.text(),
    {
        let mut out: Vec<u8> = Vec::new();
        push_point(&mut out, self.pos);
        let label: &str = self.msg.as_str();
        if !label.is_empty() {
            out.push(32);
            push_text(&mut out, label);
        }
        assert(out@ =~= self@.text());
        out
    }
}

impl Zombie {
    /// Appends the zombie as text to `out`.
    pub fn push_to(&self, out: &mut Vec<u8>)
        ensures
            final(out)@ == old(out)@ + zombie_text(*self),
    {
        push_text(out, "{id: ");
        push_decimal(out, self.id as i128);
        push_text(out, ", pos: (");
        push_point(out, self.pos);
        push_text(out, "), next: (");
        push_point(out, self.next_pos);
        push_text(out, ")}");
        assert(out@ =~= old(out)@ + zombie_text(*self));
    }

    /// The zombie as text: `{id: 7, pos: (1 2), next: (3 4)}`.
    pub fn to_bytes(&self) -> (r: Vec<u8>)
        ensures
            r@ == zombie_text(*self),
    {
        let mut out: Vec<u8> = Vec::new();
        self.push_to(&mut out);
        assert(out@ =~= zombie_text(*self));
        out
    }
}

impl GameState {
    /// The state as text: the score, the player's place, the numbers of
    /// humans and zombies, and the zombies with a blank after each.
    pub fn to_bytes(&self) -> (r: Vec<u8>)
        ensures
            r@ == self@.text(),
    {
        let mut out: Vec<u8> = Vec::new();
        push_text(&mut out, "S: ");
        push_decimal(&mut out, self.score);
        push_text(&mut out, ", P: (");
        push_point(&mut out, self.player.pos);
        push_text(&mut out, "), ");
        push_decimal(&mut out, self.humans.len() as i128);
        push_text(&mut out, "H, ");
        push_decimal(&mut out, self.zombies.len() as i128);
        push_text(&mut out, "Z: ");
        let ghost head = out@;
        assert(head =~= bytes_of("S: ") + decimal(self.score as int) + bytes_of(", P: (")
            + point_text(self.player.pos) + bytes_of("), ") + decimal(self.humans@.len() as int)
            + bytes_of("H, ") + decimal(self.zombies@.len() as int) + bytes_of("Z: "));
        let mut i: usize = 0;
        while i < self.zombies.len()
            invariant
                i <= self.zombies.len(),
                out@ == head + zombies_text(self.zombies@, i as int),
            decreases self.zombies.len() - i,
        {
            self.zombies[i].push_to(&mut out);
            out.push(32);
            assert(out@ =~= head + zombies_text(self.zombies@, i + 1));
            i = i + 1;
        }
        out
    }
}

} // verus!
