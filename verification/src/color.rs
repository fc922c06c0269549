//! A finished pixel, and the line of text that carries it.

use vstd::prelude::*;
use crate::numeral::{decimal, numeral};

verus! {

/// ASCII space, which parts the numbers of a line.
pub const SPACE: u8 = 32;

/// ASCII line feed, which ends every line.
pub const NEWLINE: u8 = 10;

/// The largest value of a channel, as the header announces it.
pub const MAX_CHANNEL: u8 = 255;

/// A pixel after averaging, gamma correction and quantisation: one byte
/// for each of red, green and blue.
#[derive(Debug, Clone, Copy, PartialEq, Eq, Structural)]
pub struct Triplet {
    pub r: u8,
    pub g: u8,
    pub b: u8,
}

impl Triplet {
    /// The text of the pixel's line: the three channels in decimal, red
    /// first, parted by single spaces and closed by a line feed.
    pub open spec fn line_text(&self) -> Seq<u8> {
        numeral(self.r as nat) + seq![SPACE] + numeral(self.g as nat) + seq![SPACE] + numeral(self.b as nat)
            + seq![NEWLINE]
    }

    /// Writes the pixel's line.
    pub fn line(&self) -> (text: Vec<u8>)
        ensures
            text@ == self.line_text(),
    {
        let mut text: Vec<u8> = decimal(self.r as usize);
        text.push(SPACE);
        let mut green: Vec<u8> = decimal(self.g as usize);
        text.append(&mut green);
        text.push(SPACE);
        let mut blue: Vec<u8> = decimal(self.b as usize);
        text.append(&mut blue);
        text.push(NEWLINE);
        assert(text@ =~= self.line_text());
        text
    }
}

} // verus!
