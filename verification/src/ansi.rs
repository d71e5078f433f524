//! ANSI escape sequences for the console output, and the console session's
//! display switches.

use vstd::prelude::*;
use crate::numeral::{dec_render, push_int};
use crate::numeral::dec_digit;
use crate::chars::chars_to_string;

verus! {

/// A color with a foreground escape sequence.
pub trait ToAnsiForegroundColorSequence {
    /// The characters of the escape sequence.
    spec fn ansi_seq(&self) -> Seq<char>;

    fn to_foreground_color_ansi_sequence(&self) -> (r: String)
        ensures
            r@ == self.ansi_seq(),
    ;
}

/// A 24-bit color.
#[derive(Copy, Clone, PartialEq, Eq, Structural, Debug)]
pub struct Rgb {
    pub r: u8,
    pub g: u8,
    pub b: u8,
}

impl ToAnsiForegroundColorSequence for Rgb {
    open spec fn ansi_seq(&self) -> Seq<char> {
        seq!['\u{1b}', '[', '3', '8', ';', '2', ';']
            + dec_render(self.r as int) + seq![';']
            + dec_render(self.g as int) + seq![';']
            + dec_render(self.b as int) + seq!['m']
    }

    fn to_foreground_color_ansi_sequence(&self) -> (r: String)
    {
        let mut out: Vec<char> = Vec::new();
        out.push('\u{1b}');
        out.push('[');
        out.push('3');
        out.push('8');
        out.push(';');
        out.push('2');
        out.push(';');
        push_int(&mut out, self.r as u32);
        out.push(';');
        push_int(&mut out, self.g as u32);
        out.push(';');
        push_int(&mut out, self.b as u32);
        out.push('m');
        proof {
            assert(out@ =~= self.ansi_seq());
        }
        chars_to_string(&out)
    }
}

/// One of the eight basic terminal colors.
#[derive(Copy, Clone, PartialEq, Eq, Structural, Debug)]
pub enum BasicColor {
    Black,
    Red,
    Green,
    Yellow,
    Blue,
    Magenta,
    Cyan,
    White,
}

impl BasicColor {
    /// The color's place in the basic palette.
    pub open spec fn spec_code(self) -> int {
        match self {
            BasicColor::Black => 0,
            BasicColor::Red => 1,
            BasicColor::Green => 2,
            BasicColor::Yellow => 3,
            BasicColor::Blue => 4,
            BasicColor::Magenta => 5,
            BasicColor::Cyan => 6,
            BasicColor::White => 7,
        }
    }

    pub fn code(&self) -> (r: u32)
        ensures
            r == self.spec_code(),
    {
        match self {
            BasicColor::Black => 0,
            BasicColor::Red => 1,
            BasicColor::Green => 2,
            BasicColor::Yellow => 3,
            BasicColor::Blue => 4,
            BasicColor::Magenta => 5,
            BasicColor::Cyan => 6,
            BasicColor::White => 7,
        }
    }
}

impl ToAnsiForegroundColorSequence for BasicColor {
    open spec fn ansi_seq(&self) -> Seq<char> {
        seq!['\u{1b}', '[', '3', dec_digit(self.spec_code()), 'm']
    }

    fn to_foreground_color_ansi_sequence(&self) -> (r: String)
    {
        let mut out: Vec<char> = Vec::new();
        out.push('\u{1b}');
        out.push('[');
        out.push('3');
        out.push(crate::numeral::dec_digit_exec(self.code()));
        out.push('m');
        proof {
            assert(out@ =~= self.ansi_seq());
        }
        chars_to_string(&out)
    }
}

/// The sequence that puts the terminal's colors back.
pub open spec fn spec_reset_sequence() -> Seq<char> {
    seq!['\u{1b}', '[', '0', 'm']
}

pub fn reset_sequence() -> (r: &'static str)
    ensures
        r@ == spec_reset_sequence(),
{
    proof {
        reveal_strlit("\u{1b}[0m");
        assert("\u{1b}[0m"@ =~= spec_reset_sequence());
    }
    "\u{1b}[0m"
}

/// The color of the decorative bar in the console greeting.
pub fn bar_color() -> (r: Rgb)
    ensures
        r == (Rgb { r: 160, g: 160, b: 160 }),
{
    Rgb { r: 160, g: 160, b: 160 }
}

/// `s` wrapped in the color's sequence and the reset.
pub fn generate_temporary_foreground_color<T: ToAnsiForegroundColorSequence>(x: &T, s: &str)
    -> (r: String)
    ensures
        r@ == x.ansi_seq() + s@ + spec_reset_sequence(),
{
    let mut out = x.to_foreground_color_ansi_sequence();
    vstd::string::StringExecFns::append(&mut out, s);
    vstd::string::StringExecFns::append(&mut out, reset_sequence());
    proof {
        assert(out@ =~= x.ansi_seq() + s@ + spec_reset_sequence());
    }
    out
}

/// Display switches of one console session.
#[derive(Copy, Clone, PartialEq, Eq, Structural, Debug)]
pub struct TemporaryStatus {
    pub prompt: bool,
    pub colored: bool,
}

impl Default for TemporaryStatus {
    fn default() -> (r: Self)
        ensures
            r == (TemporaryStatus { prompt: false, colored: false }),
    {
        TemporaryStatus { prompt: false, colored: false }
    }
}

} // verus!
