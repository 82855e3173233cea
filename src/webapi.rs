//! Payloads of the HTTP side.
use vstd::prelude::*;
use vstd::string::StringSliceAdditionalSpecFns;

use crate::protocols::text_protocol::{parse_dec, parse_decimal};
use crate::wire::{bytes_at, dec_digits, has_at, padded, push_decimal, push_padded, push_str};

verus! {

/// `{"c":<clients>,"p":<pixels>}`.
pub open spec fn stats_json(clients: u64, pixels: u64) -> Seq<u8> {
    "{\"c\":".spec_bytes() + dec_digits(clients as nat) + ",\"p\":".spec_bytes() + dec_digits(
        pixels as nat,
    ) + "}".spec_bytes()
}

/// The stats message for `clients` live connections and `pixels` pixel writes.
pub fn make_stats(clients: u64, pixels: u64) -> (r: Vec<u8>)
    ensures
        r@ == stats_json(clients, pixels),
{
    let mut out: Vec<u8> = Vec::new();
    push_str(&mut out, "{\"c\":");
    push_decimal(&mut out, clients);
    push_str(&mut out, ",\"p\":");
    push_decimal(&mut out, pixels);
    push_str(&mut out, "}");
    assert(out@ =~= stats_json(clients, pixels));
    out
}


/// A local calendar date and time of day.
#[derive(Debug, Clone, Copy, PartialEq, Eq, Structural)]
pub struct Timestamp {
    pub year: u32,
    pub month: u8,
    pub day: u8,
    pub hour: u8,
    pub minute: u8,
    pub second: u8,
}

/// `./recordings/YYYY-MM-DD_HH-MM-SS.jpg` for `t`.
pub open spec fn recording_path_spec(t: Timestamp) -> Seq<u8> {
    "./recordings/".spec_bytes() + padded(t.year as nat, 4) + seq![45u8] + padded(t.month as nat, 2)
        + seq![45u8] + padded(t.day as nat, 2) + seq![95u8] + padded(t.hour as nat, 2) + seq![45u8]
        + padded(t.minute as nat, 2) + seq![45u8] + padded(t.second as nat, 2) + ".jpg".spec_bytes()
}

/// Where the snapshot taken at `t` is written.
pub fn recording_path(t: &Timestamp) -> (r: Vec<u8>)
    ensures
        r@ == recording_path_spec(*t),
{
    let mut out: Vec<u8> = Vec::new();
    push_str(&mut out, "./recordings/");
    push_padded(&mut out, t.year as u64, 4);
    out.push(45u8);
    push_padded(&mut out, t.month as u64, 2);
    out.push(45u8);
    push_padded(&mut out, t.day as u64, 2);
    out.push(95u8);
    push_padded(&mut out, t.hour as u64, 2);
    out.push(45u8);
    push_padded(&mut out, t.minute as u64, 2);
    out.push(45u8);
    push_padded(&mut out, t.second as u64, 2);
    push_str(&mut out, ".jpg");
    assert(out@ =~= recording_path_spec(*t));
    out
}


/// The canvas that a query string `canvas=N` names.
pub open spec fn canvas_query_spec(q: Seq<u8>) -> Option<u8> {
    let key = "canvas=".spec_bytes();
    if has_at(q, 0, key) {
        match parse_dec(q.subrange(key.len() as int, q.len() as int), 255) {
            Some(n) => Some(n as u8),
            None => None,
        }
    } else {
        None
    }
}

/// Reads the canvas out of the query string of an image stream request.
pub fn canvas_query(q: &[u8]) -> (r: Option<u8>)
    ensures
        r == canvas_query_spec(q@),
{
    if !bytes_at(q, 0, "canvas=") {
        return None;
    }
    let start = "canvas=".len();
    match parse_decimal(q, start, q.len(), 255) {
        Some(n) => Some(n as u8),
        None => None,
    }
}

} // verus!
