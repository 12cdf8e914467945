//! The drawing command lines of the observational draw pass: the library
//! computes each protocol line as a character sequence with an exact
//! contract, and the surrounding program writes it out.

use vstd::prelude::*;

verus! {

/// The decimal digit character for `d`.
pub open spec fn dec_digit(d: int) -> char {
    if d == 0 {
        '0'
    } else if d == 1 {
        '1'
    } else if d == 2 {
        '2'
    } else if d == 3 {
        '3'
    } else if d == 4 {
        '4'
    } else if d == 5 {
        '5'
    } else if d == 6 {
        '6'
    } else if d == 7 {
        '7'
    } else if d == 8 {
        '8'
    } else {
        '9'
    }
}

/// The decimal notation of a byte value, without leading zeros.
pub open spec fn u8_dec(n: int) -> Seq<char> {
    if n < 10 {
        seq![dec_digit(n)]
    } else if n < 100 {
        seq![dec_digit(n / 10), dec_digit(n % 10)]
    } else {
        seq![dec_digit(n / 100), dec_digit((n / 10) % 10), dec_digit(n % 10)]
    }
}

/// The decimal notation of four byte values separated by single spaces.
pub open spec fn four_u8_dec(r: int, g: int, b: int, a: int) -> Seq<char> {
    u8_dec(r) + seq![' '] + u8_dec(g) + seq![' '] + u8_dec(b) + seq![' '] + u8_dec(a)
}

pub fn digit_char(d: u8) -> (c: char)
    requires
        d < 10,
    ensures
        c == dec_digit(d as int),
{
    match d {
        0 => '0',
        1 => '1',
        2 => '2',
        3 => '3',
        4 => '4',
        5 => '5',
        6 => '6',
        7 => '7',
        8 => '8',
        _ => '9',
    }
}

/// Appends the decimal notation of a byte to the line being built.
fn push_u8_dec(out: &mut Vec<char>, n: u8)
    ensures
        final(out)@ == old(out)@ + u8_dec(n as int),
{
    if n >= 100 {
        out.push(digit_char(n / 100));
        out.push(digit_char((n / 10) % 10));
        out.push(digit_char(n % 10));
    } else if n >= 10 {
        out.push(digit_char(n / 10));
        out.push(digit_char(n % 10));
    } else {
        out.push(digit_char(n));
    }
    proof {
        assert(out@ =~= old(out)@ + u8_dec(n as int));
    }
}

/// The fill-colour command with the four colour channels in decimal.
pub fn set_fill_color(r: u8, g: u8, b: u8, a: u8) -> (line: Vec<char>)
    ensures
        line@ == seq!['#', 'F', 'I', 'L', 'L', '_', 'C', 'O', 'L', 'O', 'R', ' ']
            + four_u8_dec(r as int, g as int, b as int, a as int),
{
    let mut out: Vec<char> = Vec::new();
    out.push('#');
    out.push('F');
    out.push('I');
    out.push('L');
    out.push('L');
    out.push('_');
    out.push('C');
    out.push('O');
    out.push('L');
    out.push('O');
    out.push('R');
    out.push(' ');
    push_u8_dec(&mut out, r);
    out.push(' ');
    push_u8_dec(&mut out, g);
    out.push(' ');
    push_u8_dec(&mut out, b);
    out.push(' ');
    push_u8_dec(&mut out, a);
    proof {
        assert(out@ =~= seq!['#', 'F', 'I', 'L', 'L', '_', 'C', 'O', 'L', 'O', 'R', ' ']
            + four_u8_dec(r as int, g as int, b as int, a as int));
    }
    out
}

/// The stroke-colour command with the four colour channels in decimal.
pub fn set_stroke_color(r: u8, g: u8, b: u8, a: u8) -> (line: Vec<char>)
    ensures
        line@ == seq!['#', 'S', 'T', 'R', 'O', 'K', 'E', '_', 'C', 'O', 'L', 'O', 'R', ' ']
            + four_u8_dec(r as int, g as int, b as int, a as int),
{
    let mut out: Vec<char> = Vec::new();
    out.push('#');
    out.push('S');
    out.push('T');
    out.push('R');
    out.push('O');
    out.push('K');
    out.push('E');
    out.push('_');
    out.push('C');
    out.push('O');
    out.push('L');
    out.push('O');
    out.push('R');
    out.push(' ');
    push_u8_dec(&mut out, r);
    out.push(' ');
    push_u8_dec(&mut out, g);
    out.push(' ');
    push_u8_dec(&mut out, b);
    out.push(' ');
    push_u8_dec(&mut out, a);
    proof {
        assert(out@ =~= seq!['#', 'S', 'T', 'R', 'O', 'K', 'E', '_', 'C', 'O', 'L', 'O', 'R', ' ']
            + four_u8_dec(r as int, g as int, b as int, a as int));
    }
    out
}

/// The command that disables filling.
pub fn no_fill() -> (line: Vec<char>)
    ensures
        line@ == seq!['#', 'N', 'O', 'F', 'I', 'L', 'L'],
{
    let mut out: Vec<char> = Vec::new();
    out.push('#');
    out.push('N');
    out.push('O');
    out.push('F');
    out.push('I');
    out.push('L');
    out.push('L');
    proof {
        assert(out@ =~= seq!['#', 'N', 'O', 'F', 'I', 'L', 'L']);
    }
    out
}

/// The command that disables stroking.
pub fn no_stroke() -> (line: Vec<char>)
    ensures
        line@ == seq!['#', 'N', 'O', 'S', 'T', 'R', 'O', 'K', 'E'],
{
    let mut out: Vec<char> = Vec::new();
    out.push('#');
    out.push('N');
    out.push('O');
    out.push('S');
    out.push('T');
    out.push('R');
    out.push('O');
    out.push('K');
    out.push('E');
    proof {
        assert(out@ =~= seq!['#', 'N', 'O', 'S', 'T', 'R', 'O', 'K', 'E']);
    }
    out
}

/// The command that begins a new frame.
pub fn start_frame() -> (line: Vec<char>)
    ensures
        line@ == seq!['#', 'F', 'R', 'A', 'M', 'E', '_', 'S', 'T', 'A', 'R', 'T'],
{
    let mut out: Vec<char> = Vec::new();
    out.push('#');
    out.push('F');
    out.push('R');
    out.push('A');
    out.push('M');
    out.push('E');
    out.push('_');
    out.push('S');
    out.push('T');
    out.push('A');
    out.push('R');
    out.push('T');
    proof {
        assert(out@ =~= seq!['#', 'F', 'R', 'A', 'M', 'E', '_', 'S', 'T', 'A', 'R', 'T']);
    }
    out
}

} // verus!
