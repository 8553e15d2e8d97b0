//! Display-ready colours: three 8-bit channels.

use vstd::prelude::*;
use crate::text::{decimal, push_decimal};

verus! {

/// A quantised RGB colour.
#[derive(Debug, PartialEq, Eq, Clone, Copy, Structural)]
pub struct Color {
    pub r: u8,
    pub g: u8,
    pub b: u8,
}

/// The line of a plain-text image that shows `c`: the three channels in
/// decimal, separated by single spaces and closed by a line feed.
pub open spec fn color_line(c: Color) -> Seq<char> {
    decimal(c.r as nat) + seq![' '] + decimal(c.g as nat) + seq![' '] + decimal(c.b as nat)
        + seq!['\n']
}

impl Default for Color {
    /// Black.
    fn default() -> (c: Self)
        ensures
            c == (Color { r: 0, g: 0, b: 0 }),
    {
        Color { r: 0, g: 0, b: 0 }
    }
}

impl Color {
    pub fn new(r: u8, g: u8, b: u8) -> (c: Self)
        ensures
            c == (Color { r, g, b }),
    {
        Color { r, g, b }
    }

    pub fn r(&self) -> (v: u8)
        ensures
            v == self.r,
    {
        self.r
    }

    pub fn g(&self) -> (v: u8)
        ensures
            v == self.g,
    {
        self.g
    }

    pub fn b(&self) -> (v: u8)
        ensures
            v == self.b,
    {
        self.b
    }

    /// Appends this colour's line to `out`.
    pub fn write_line(&self, out: &mut String)
        ensures
            final(out)@ == old(out)@ + color_line(*self),
    {
        push_decimal(out, self.r as u64);
        out.push(' ');
        push_decimal(out, self.g as u64);
        out.push(' ');
        push_decimal(out, self.b as u64);
        out.push('\n');
    }

    /// This colour as one line of a plain-text image.
    pub fn display_color(&self) -> (line: String)
        ensures
            line@ == color_line(*self),
    {
        let mut line = String::new();
        self.write_line(&mut line);
        line
    }
}

} // verus!
