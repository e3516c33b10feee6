//! The terminal-facing types: a color that knows its ASCII-art glyph and its
//! ANSI escape, the rotation axis selector, and plain fixed-point points.

use vstd::prelude::*;

verus! {

/// The axis a rotation turns about.
#[derive(Clone, Copy, PartialEq, Eq, Structural, Debug)]
pub enum Axis {
    X,
    Y,
    Z,
}

/// The brightness ramp a terminal cell can show, darkest to brightest.
pub open spec fn gradient_char(i: int) -> char {
    if i == 0 {
        ' '
    } else if i == 1 {
        '.'
    } else if i == 2 {
        ':'
    } else if i == 3 {
        '-'
    } else if i == 4 {
        '='
    } else if i == 5 {
        '+'
    } else if i == 6 {
        '*'
    } else if i == 7 {
        '#'
    } else if i == 8 {
        '%'
    } else {
        '@'
    }
}

/// The color's luma, scaled by 1000: the standard 0.299/0.587/0.114 weights.
pub open spec fn luma_milli(c: Color) -> int {
    299 * c.r + 587 * c.g + 114 * c.b
}

/// Which of the ten ramp steps the color's brightness rounds to.
pub open spec fn gradient_index(c: Color) -> int {
    (luma_milli(c) * 9 * 2 + 255000) / 510000
}

/// The decimal digits of a nonnegative number, as characters.
pub open spec fn dec_chars(n: int) -> Seq<char>
    decreases n,
{
    if n < 10 {
        seq![digit_char(n)]
    } else {
        dec_chars(n / 10) + seq![digit_char(n % 10)]
    }
}

pub open spec fn digit_char(d: int) -> char {
    if d == 0 {
        '0'
    } else if d == 1 {
        '1'
    } else if d == 2 {
        '2'
    } else if d == 3 {
        '3'
    } else if d == 4 {
        '4'
    } else if d == 5 {
        '5'
    } else if d == 6 {
        '6'
    } else if d == 7 {
        '7'
    } else if d == 8 {
        '8'
    } else {
        '9'
    }
}

/// The ANSI truecolor escape the color displays as: foreground color set to
/// the channels, the ramp glyph, then the reset.
pub open spec fn ansi_chars(c: Color) -> Seq<char> {
    seq!['\u{1b}', '[', '3', '8', ';', '2', ';'] + dec_chars(c.r as int) + seq![';'] + dec_chars(
        c.g as int,
    ) + seq![';'] + dec_chars(c.b as int) + seq!['m'] + seq![gradient_char(gradient_index(c))]
        + seq!['\u{1b}', '[', '0', 'm']
}

/// An RGBA color as the terminal renderer carries it.
#[derive(Clone, Copy, PartialEq, Eq, Structural, Debug)]
pub struct Color {
    pub r: u8,
    pub g: u8,
    pub b: u8,
    pub a: u8,
}

impl Color {
    pub fn new(r: u8, g: u8, b: u8, a: u8) -> (c: Color)
        ensures
            c.r == r && c.g == g && c.b == b && c.a == a,
    {
        Color { r, g, b, a }
    }

    /// The ASCII-art glyph for the color's brightness: its luma, scaled onto
    /// the ten-step ramp and rounded to the nearest step.
    pub fn as_char(&self) -> (ch: char)
        ensures
            ch == gradient_char(gradient_index(*self)),
    {
        let luma: u64 = 299 * (self.r as u64) + 587 * (self.g as u64) + 114 * (self.b as u64);
        let idx = (luma * 18 + 255000) / 510000;
        proof {
            assert(idx == gradient_index(*self));
            assert(luma <= 255000);
            vstd::arithmetic::div_mod::lemma_div_is_ordered(
                luma as int * 18 + 255000,
                255000int * 18 + 255000,
                510000,
            );
            assert((255000int * 18 + 255000) / 510000 == 9);
        }
        if idx == 0 {
            ' '
        } else if idx == 1 {
            '.'
        } else if idx == 2 {
            ':'
        } else if idx == 3 {
            '-'
        } else if idx == 4 {
            '='
        } else if idx == 5 {
            '+'
        } else if idx == 6 {
            '*'
        } else if idx == 7 {
            '#'
        } else if idx == 8 {
            '%'
        } else {
            '@'
        }
    }
}


/// The one-character string of a decimal digit.
fn digit_str(d: u8) -> (r: &'static str)
    requires
        d < 10,
    ensures
        r@ == seq![digit_char(d as int)],
{
    proof {
        reveal_strlit("0");
        reveal_strlit("1");
        reveal_strlit("2");
        reveal_strlit("3");
        reveal_strlit("4");
        reveal_strlit("5");
        reveal_strlit("6");
        reveal_strlit("7");
        reveal_strlit("8");
        reveal_strlit("9");
    }
    let r = if d == 0 {
        "0"
    } else if d == 1 {
        "1"
    } else if d == 2 {
        "2"
    } else if d == 3 {
        "3"
    } else if d == 4 {
        "4"
    } else if d == 5 {
        "5"
    } else if d == 6 {
        "6"
    } else if d == 7 {
        "7"
    } else if d == 8 {
        "8"
    } else {
        "9"
    };
    proof {
        assert(r@ =~= seq![digit_char(d as int)]);
    }
    r
}

/// Appends a byte's decimal digits, most significant first, no leading zeros.
fn push_dec(s: &mut String, v: u8)
    ensures
        final(s)@ == old(s)@ + dec_chars(v as int),
{
    proof {
        vstd::arithmetic::div_mod::lemma_div_denominator(v as int, 10, 10);
    }
    if v >= 100 {
        s.append(digit_str(v / 100));
        s.append(digit_str((v / 10) % 10));
        s.append(digit_str(v % 10));
        proof {
            assert(v as int / 100 < 10);
            assert(dec_chars(v as int / 100) == seq![digit_char(v as int / 100)]);
            assert(dec_chars(v as int / 10) == dec_chars(v as int / 100) + seq![
                digit_char(v as int / 10 % 10),
            ]);
            assert(dec_chars(v as int) == dec_chars(v as int / 10) + seq![
                digit_char(v as int % 10),
            ]);
            assert(final(s)@ =~= old(s)@ + dec_chars(v as int));
        }
    } else if v >= 10 {
        s.append(digit_str(v / 10));
        s.append(digit_str(v % 10));
        proof {
            assert(v as int / 10 < 10);
            assert(dec_chars(v as int / 10) == seq![digit_char(v as int / 10)]);
            assert(dec_chars(v as int) == dec_chars(v as int / 10) + seq![
                digit_char(v as int % 10),
            ]);
            assert(final(s)@ =~= old(s)@ + dec_chars(v as int));
        }
    } else {
        s.append(digit_str(v));
        proof {
            assert(dec_chars(v as int) == seq![digit_char(v as int)]);
            assert(final(s)@ =~= old(s)@ + dec_chars(v as int));
        }
    }
}

impl Color {
    /// The terminal form of the color: the ANSI truecolor escape selecting the
    /// channels, the brightness glyph, and the reset sequence.
    pub fn display(&self) -> (r: String)
        ensures
            r@ == ansi_chars(*self),
    {
        proof {
            reveal_strlit("\u{1b}[38;2;");
            reveal_strlit(";");
            reveal_strlit("m");
            reveal_strlit("\u{1b}[0m");
            reveal_strlit("");
        }
        let mut s = String::new();
        s.append("\u{1b}[38;2;");
        push_dec(&mut s, self.r);
        s.append(";");
        push_dec(&mut s, self.g);
        s.append(";");
        push_dec(&mut s, self.b);
        s.append("m");
        let glyph = self.as_char();
        let gs = glyph_str(glyph);
        s.append(gs);
        s.append("\u{1b}[0m");
        proof {
            assert(s@ =~= ansi_chars(*self));
        }
        s
    }
}

/// The one-character string of a ramp glyph.
fn glyph_str(g: char) -> (r: &'static str)
    requires
        g == ' ' || g == '.' || g == ':' || g == '-' || g == '=' || g == '+' || g == '*' || g == '#'
            || g == '%' || g == '@',
    ensures
        r@ == seq![g],
{
    proof {
        reveal_strlit(" ");
        reveal_strlit(".");
        reveal_strlit(":");
        reveal_strlit("-");
        reveal_strlit("=");
        reveal_strlit("+");
        reveal_strlit("*");
        reveal_strlit("#");
        reveal_strlit("%");
        reveal_strlit("@");
    }
    let r = if g == ' ' {
        " "
    } else if g == '.' {
        "."
    } else if g == ':' {
        ":"
    } else if g == '-' {
        "-"
    } else if g == '=' {
        "="
    } else if g == '+' {
        "+"
    } else if g == '*' {
        "*"
    } else if g == '#' {
        "#"
    } else if g == '%' {
        "%"
    } else {
        "@"
    };
    proof {
        assert(r@ =~= seq![g]);
    }
    r
}

/// A screen-plane point, fixed point.
#[derive(Clone, Copy, PartialEq, Eq, Structural, Debug)]
pub struct Point2D {
    pub x: i64,
    pub y: i64,
}

impl Point2D {
    pub fn new(x: i64, y: i64) -> (p: Point2D)
        ensures
            p.x == x && p.y == y,
    {
        Point2D { x, y }
    }
}

/// A space point, fixed point.
#[derive(Clone, Copy, PartialEq, Eq, Structural, Debug)]
pub struct Point3D {
    pub x: i64,
    pub y: i64,
    pub z: i64,
}

impl Point3D {
    pub fn new(x: i64, y: i64, z: i64) -> (p: Point3D)
        ensures
            p.x == x && p.y == y && p.z == z,
    {
        Point3D { x, y, z }
    }
}

} // verus!
