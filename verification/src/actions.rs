//! The actions a controlled wizard can take in one turn.

use vstd::prelude::*;
use crate::vec2::Vec2;
use crate::spells::SpellType;
use crate::draw::{dec_digit, digit_char};

verus! {

/// One wizard's order for the turn: move toward a point with a thrust
/// magnitude, throw the held snaffle toward a point with a power, or cast
/// a spell at a target entity.
#[derive(Clone, Copy, Debug)]
pub enum Action {
    Move(Vec2, i64),
    Throw(Vec2, i64),
    Spell(SpellType, usize),
}

impl Action {
    /// The action's parameters stay inside the ranges the engine computes
    /// with: target points on the engine's coordinate grid and thrust
    /// magnitudes within a million units.
    pub open spec fn wf(self) -> bool {
        match self {
            Action::Move(tg, thrust) => tg.bounded(0x2000_0000) && -0x10_0000 <= thrust
                <= 0x10_0000,
            Action::Throw(tg, thrust) => tg.bounded(0x2000_0000) && -0x10_0000 <= thrust
                <= 0x10_0000,
            Action::Spell(_, _) => true,
        }
    }
}


/// The decimal notation of a non-negative number.
pub open spec fn nat_dec(n: nat) -> Seq<char>
    decreases n,
{
    if n < 10 {
        seq![dec_digit(n as int)]
    } else {
        nat_dec((n / 10) as nat) + seq![dec_digit((n % 10) as int)]
    }
}

/// The decimal notation of a signed number.
pub open spec fn i64_dec(n: int) -> Seq<char> {
    if n < 0 {
        seq!['-'] + nat_dec((-n) as nat)
    } else {
        nat_dec(n as nat)
    }
}

/// The protocol line that serializes an action: `MOVE x y thrust`,
/// `THROW x y power`, or the spell name followed by the target id.
pub open spec fn action_text(a: Action) -> Seq<char> {
    match a {
        Action::Move(tg, thrust) => seq!['M', 'O', 'V', 'E', ' '] + i64_dec(tg.x as int)
            + seq![' '] + i64_dec(tg.y as int) + seq![' '] + i64_dec(thrust as int),
        Action::Throw(tg, thrust) => seq!['T', 'H', 'R', 'O', 'W', ' '] + i64_dec(tg.x as int)
            + seq![' '] + i64_dec(tg.y as int) + seq![' '] + i64_dec(thrust as int),
        Action::Spell(kind, id) => (match kind {
            SpellType::Flipendo => seq!['F', 'L', 'I', 'P', 'E', 'N', 'D', 'O'],
            SpellType::Accio => seq!['A', 'C', 'C', 'I', 'O'],
            SpellType::Obliviate => seq!['O', 'B', 'L', 'I', 'V', 'I', 'A', 'T', 'E'],
            SpellType::Petrificus => seq!['P', 'E', 'T', 'R', 'I', 'F', 'I', 'C', 'U', 'S'],
        }) + seq![' '] + nat_dec(id as nat),
    }
}

/// Appends the decimal notation of a non-negative number.
fn push_nat_dec(out: &mut Vec<char>, m: u64)
    ensures
        final(out)@ == old(out)@ + nat_dec(m as nat),
    decreases m,
{
    if m >= 10 {
        push_nat_dec(out, m / 10);
    }
    out.push(digit_char((m % 10) as u8));
    proof {
        assert(final(out)@ =~= old(out)@ + nat_dec(m as nat));
    }
}

/// Appends the decimal notation of a signed number.
fn push_i64_dec(out: &mut Vec<char>, n: i64)
    ensures
        final(out)@ == old(out)@ + i64_dec(n as int),
{
    if n < 0 {
        out.push('-');
        let m: u64 = (-(n as i128)) as u64;
        push_nat_dec(out, m);
        proof {
            assert(final(out)@ =~= old(out)@ + i64_dec(n as int));
        }
    } else {
        push_nat_dec(out, n as u64);
    }
}

impl Action {
    /// Serializes the action as its protocol command line.
    pub fn to_string(&self) -> (r: Vec<char>)
        ensures
            r@ == action_text(*self),
    {
        let mut out: Vec<char> = Vec::new();
        match *self {
            Action::Move(tg, thrust) => {
                out.push('M');
                out.push('O');
                out.push('V');
                out.push('E');
                out.push(' ');
                push_i64_dec(&mut out, tg.x);
                out.push(' ');
                push_i64_dec(&mut out, tg.y);
                out.push(' ');
                push_i64_dec(&mut out, thrust);
            },
            Action::Throw(tg, thrust) => {
                out.push('T');
                out.push('H');
                out.push('R');
                out.push('O');
                out.push('W');
                out.push(' ');
                push_i64_dec(&mut out, tg.x);
                out.push(' ');
                push_i64_dec(&mut out, tg.y);
                out.push(' ');
                push_i64_dec(&mut out, thrust);
            },
            Action::Spell(kind, id) => {
                match kind {
                    SpellType::Flipendo => {
                        out.push('F');
                        out.push('L');
                        out.push('I');
                        out.push('P');
                        out.push('E');
                        out.push('N');
                        out.push('D');
                        out.push('O');
                    },
                    SpellType::Accio => {
                        out.push('A');
                        out.push('C');
                        out.push('C');
                        out.push('I');
                        out.push('O');
                    },
                    SpellType::Obliviate => {
                        out.push('O');
                        out.push('B');
                        out.push('L');
                        out.push('I');
                        out.push('V');
                        out.push('I');
                        out.push('A');
                        out.push('T');
                        out.push('E');
                    },
                    SpellType::Petrificus => {
                        out.push('P');
                        out.push('E');
                        out.push('T');
                        out.push('R');
                        out.push('I');
                        out.push('F');
                        out.push('I');
                        out.push('C');
                        out.push('U');
                        out.push('S');
                    },
                }
                out.push(' ');
                let id64: u64 = id as u64;
                push_nat_dec(&mut out, id64);
            },
        }
        proof {
            assert(out@ =~= action_text(*self));
        }
        out
    }
}

} // verus!
