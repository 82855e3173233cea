use vstd::prelude::*;
use vstd::string::StringSliceAdditionalSpecFns;

use crate::random::{random_below, random_byte};
use crate::wire::{hex_upper, push_hex_upper};

verus! {

/// A colour as sent by a client.
#[derive(Debug, Clone, Copy, PartialEq, Eq, Structural)]
pub enum Color {
    RGB24(u8, u8, u8),
    RGBA32(u8, u8, u8, u8),
    W8(u8),
}

/// Packs four channel bytes into a cell, red in the most significant byte.
pub open spec fn pack(r: u8, g: u8, b: u8, a: u8) -> u32 {
    (r as int * 0x1000000 + g as int * 0x10000 + b as int * 0x100 + a as int) as u32
}

/// The red, green and blue bytes of a cell.
pub open spec fn cell_rgb(v: u32) -> Seq<u8> {
    seq![(v / 0x1000000) as u8, ((v / 0x10000) % 0x100) as u8, ((v / 0x100) % 0x100) as u8]
}

proof fn lemma_pack(r: u8, g: u8, b: u8, a: u8)
    ensures
        pack(r, g, b, a) as int == r as int * 0x1000000 + g as int * 0x10000 + b as int * 0x100
            + a as int,
        cell_rgb(pack(r, g, b, a)) == seq![r, g, b],
{
    let v = r as int * 0x1000000 + g as int * 0x10000 + b as int * 0x100 + a as int;
    assert(0 <= v < 0x100000000);
    let w = v as u32;
    assert(w / 0x1000000 == r) by (nonlinear_arith)
        requires
            w == r as int * 0x1000000 + g as int * 0x10000 + b as int * 0x100 + a as int,
            r < 256,
            g < 256,
            b < 256,
            a < 256,
    ;
    assert((w / 0x10000) % 0x100 == g) by (nonlinear_arith)
        requires
            w == r as int * 0x1000000 + g as int * 0x10000 + b as int * 0x100 + a as int,
            r < 256,
            g < 256,
            b < 256,
            a < 256,
    ;
    assert((w / 0x100) % 0x100 == b) by (nonlinear_arith)
        requires
            w == r as int * 0x1000000 + g as int * 0x10000 + b as int * 0x100 + a as int,
            r < 256,
            g < 256,
            b < 256,
            a < 256,
    ;
    assert(cell_rgb(w) =~= seq![r, g, b]);
}

impl Color {
    /// The canonical four bytes (red, green, blue, alpha) of the colour.
    pub open spec fn rgba(self) -> Seq<u8> {
        match self {
            Color::W8(w) => seq![w, w, w, 255u8],
            Color::RGB24(r, g, b) => seq![r, g, b, 255u8],
            Color::RGBA32(r, g, b, a) => seq![r, g, b, a],
        }
    }

    /// The cell that stores the colour.
    pub open spec fn cell(self) -> u32 {
        let c = self.rgba();
        pack(c[0], c[1], c[2], c[3])
    }

    /// The canonical four bytes: grey and RGB colours are opaque.
    pub fn to_bytes(&self) -> (r: [u8; 4])
        ensures
            r@ == self.rgba(),
    {
        let r = match *self {
            Color::W8(w) => [w, w, w, 255u8],
            Color::RGB24(r, g, b) => [r, g, b, 255u8],
            Color::RGBA32(r, g, b, a) => [r, g, b, a],
        };
        assert(r@ =~= self.rgba());
        r
    }

    /// The cell value that a write of this colour stores.
    pub fn to_cell(&self) -> (r: u32)
        ensures
            r == self.cell(),
            cell_rgb(r) == self.rgba().subrange(0, 3),
    {
        let c = self.to_bytes();
        proof {
            lemma_pack(c[0], c[1], c[2], c[3]);
            assert(self.rgba().subrange(0, 3) =~= seq![c[0], c[1], c[2]]);
        }
        let r = c[0] as u32 * 0x1000000 + c[1] as u32 * 0x10000 + c[2] as u32 * 0x100 + c[3] as u32;
        r
    }

    /// `#RRGGBBAA` in upper-case hex, over the canonical bytes.
    pub fn to_hex_string(&self) -> (r: Vec<u8>)
        ensures
            r@ == seq![35u8] + hex_upper(self.rgba()),
    {
        let mut out: Vec<u8> = Vec::new();
        out.push(35u8);
        let c = self.to_bytes();
        push_hex_upper(&mut out, &c);
        out
    }

    /// A colour of a random kind with random channels.
    pub fn random() -> Color {
        let kind = random_below(3);
        if kind == 0 {
            Color::W8(random_byte())
        } else if kind == 1 {
            Color::RGB24(random_byte(), random_byte(), random_byte())
        } else {
            Color::RGBA32(random_byte(), random_byte(), random_byte(), random_byte())
        }
    }
}

} // verus!
