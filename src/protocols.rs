//! The wire codecs and what they share.
use vstd::prelude::*;

pub mod binary_protocol;
pub mod palette_protocol;
pub mod stateful;
pub mod text_protocol;

pub use binary_protocol::BinaryParser;
pub use palette_protocol::PaletteParser;
pub use stateful::StateParser;
pub use text_protocol::TextParser;


verus! {

/// Why a codec produced no command.
#[derive(Debug, Clone, Copy, PartialEq, Eq, Structural)]
pub enum ProtocolError {
    /// The input is malformed.
    InvalidInput,
    /// The stream ended cleanly before a whole command.
    UnexpectedEof,
    /// More bytes are needed before a command can be decoded.
    Incomplete,
    /// The codec does not support the request.
    Unsupported,
}

/// The error for input that stops short of a whole frame.
pub open spec fn short_input(eof: bool) -> ProtocolError {
    if eof {
        ProtocolError::UnexpectedEof
    } else {
        ProtocolError::Incomplete
    }
}

pub fn short_input_error(eof: bool) -> (r: ProtocolError)
    ensures
        r == short_input(eof),
{
    if eof {
        ProtocolError::UnexpectedEof
    } else {
        ProtocolError::Incomplete
    }
}

/// A little-endian 16-bit value.
pub open spec fn u16_le(lo: u8, hi: u8) -> u16 {
    (lo as int + 256 * hi as int) as u16
}

/// A big-endian 16-bit value.
pub open spec fn u16_be(hi: u8, lo: u8) -> u16 {
    (lo as int + 256 * hi as int) as u16
}

/// The two bytes of `v`, least significant first.
pub open spec fn le_bytes(v: u16) -> Seq<u8> {
    seq![(v % 256) as u8, (v / 256) as u8]
}

/// The two bytes of `v`, most significant first.
pub open spec fn be_bytes(v: u16) -> Seq<u8> {
    seq![(v / 256) as u8, (v % 256) as u8]
}

pub fn read_u16_le(s: &[u8], at: usize) -> (r: u16)
    requires
        at + 1 < s@.len(),
    ensures
        r == u16_le(s@[at as int], s@[at + 1]),
{
    let lo = s[at] as u16;
    let hi = s[at + 1] as u16;
    assert(lo < 256 && hi < 256);
    lo + hi * 256
}

pub fn read_u16_be(s: &[u8], at: usize) -> (r: u16)
    requires
        at + 1 < s@.len(),
    ensures
        r == u16_be(s@[at as int], s@[at + 1]),
{
    let hi = s[at] as u16;
    let lo = s[at + 1] as u16;
    assert(lo < 256 && hi < 256);
    lo + hi * 256
}

pub fn push_u16_le(out: &mut Vec<u8>, v: u16)
    ensures
        final(out)@ == old(out)@ + le_bytes(v),
{
    out.push((v % 256) as u8);
    out.push((v / 256) as u8);
}

pub fn push_u16_be(out: &mut Vec<u8>, v: u16)
    ensures
        final(out)@ == old(out)@ + be_bytes(v),
{
    out.push((v / 256) as u8);
    out.push((v % 256) as u8);
}

} // verus!
