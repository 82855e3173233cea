//! Framing of the `multipart/x-mixed-replace` image stream.
use vstd::prelude::*;
use vstd::string::StringSliceAdditionalSpecFns;

use crate::random::random_below;
use crate::wire::{push_slice, push_str};

verus! {

/// Bytes that may stand in a boundary: printable ASCII and all high bytes.
pub open spec fn is_boundary_byte(b: u8) -> bool {
    (32 <= b && b < 127) || b >= 128
}

/// The number of bytes that may stand in a boundary.
pub const BOUNDARY_ALPHABET: u8 = 223;

/// The `i`-th byte that may stand in a boundary, in increasing order.
pub open spec fn boundary_byte(i: u8) -> u8 {
    if i < 95 {
        (32 + i) as u8
    } else {
        (33 + i) as u8
    }
}

pub fn nth_boundary_byte(i: u8) -> (r: u8)
    requires
        i < BOUNDARY_ALPHABET,
    ensures
        r == boundary_byte(i),
        is_boundary_byte(r),
{
    if i < 95 {
        32 + i
    } else {
        33 + i
    }
}

pub open spec fn crlf() -> Seq<u8> {
    seq![13u8, 10]
}

pub open spec fn dashes() -> Seq<u8> {
    seq![45u8, 45]
}

/// The header lines of a part.
pub open spec fn header_lines(h: Seq<(Seq<u8>, Seq<u8>)>) -> Seq<u8>
    decreases h.len(),
{
    if h.len() == 0 {
        Seq::empty()
    } else {
        header_lines(h.drop_last()) + h.last().0 + seq![58u8, 32] + h.last().1 + crlf()
    }
}

/// One part of the stream: the delimiter (preceded by CRLF unless it is the
/// first part), the header lines, an empty line, and the body.
pub open spec fn multipart_frame(
    first: bool,
    boundary: Seq<u8>,
    headers: Seq<(Seq<u8>, Seq<u8>)>,
    body: Seq<u8>,
) -> Seq<u8> {
    (if first {
        dashes()
    } else {
        crlf() + dashes()
    }) + boundary + crlf() + header_lines(headers) + crlf() + body
}

/// The views of a list of header name and value pairs.
pub open spec fn header_views(h: Seq<(Vec<u8>, Vec<u8>)>) -> Seq<(Seq<u8>, Seq<u8>)> {
    h.map_values(|p: (Vec<u8>, Vec<u8>)| (p.0@, p.1@))
}

/// The framing of one image stream.
pub struct Multipart {
    first: bool,
    boundary: Vec<u8>,
    headers: Vec<(Vec<u8>, Vec<u8>)>,
}

impl Multipart {
    pub closed spec fn is_first(&self) -> bool {
        self.first
    }

    pub closed spec fn boundary_bytes(&self) -> Seq<u8> {
        self.boundary@
    }

    pub closed spec fn part_headers(&self) -> Seq<(Seq<u8>, Seq<u8>)> {
        header_views(self.headers@)
    }

    /// A framing with a random boundary of `boundary_length` bytes, each drawn
    /// evenly from the bytes that may stand in a boundary.
    pub fn new(boundary_length: usize, headers: Vec<(Vec<u8>, Vec<u8>)>) -> (r: Multipart)
        ensures
            r.boundary_bytes().len() == boundary_length,
            forall|i: int|
                0 <= i < boundary_length ==> is_boundary_byte(#[trigger] r.boundary_bytes()[i]),
            r.part_headers() == header_views(headers@),
            !r.is_first(),
    {
        let mut boundary: Vec<u8> = Vec::new();
        let mut i: usize = 0;
        while i < boundary_length
            invariant
                0 <= i <= boundary_length,
                boundary@.len() == i,
                forall|k: int| 0 <= k < i ==> is_boundary_byte(#[trigger] boundary@[k]),
            decreases boundary_length - i,
        {
            let b = nth_boundary_byte(random_below(BOUNDARY_ALPHABET));
            boundary.push(b);
            i += 1;
        }
        Multipart { first: false, boundary, headers }
    }

    /// A framing with the given boundary.
    pub fn with_boundary(boundary: Vec<u8>, headers: Vec<(Vec<u8>, Vec<u8>)>, first: bool) -> (r:
        Multipart)
        ensures
            r.boundary_bytes() == boundary@,
            r.part_headers() == header_views(headers@),
            r.is_first() == first,
    {
        Multipart { first, boundary, headers }
    }

    /// The boundary.
    pub fn boundary(&self) -> (r: &Vec<u8>)
        ensures
            r@ == self.boundary_bytes(),
    {
        &self.boundary
    }

    /// The content type of the whole response.
    pub fn content_type(&self) -> (r: Vec<u8>)
        ensures
            r@ == "multipart/x-mixed-replace; boundary=".spec_bytes() + self.boundary_bytes(),
    {
        let mut out: Vec<u8> = Vec::new();
        push_str(&mut out, "multipart/x-mixed-replace; boundary=");
        push_slice(&mut out, self.boundary.as_slice());
        out
    }

    /// One part of the stream that carries `body`.
    pub fn frame(&self, body: &[u8]) -> (r: Vec<u8>)
        ensures
            r@ == multipart_frame(self.is_first(), self.boundary_bytes(), self.part_headers(), body@),
    {
        let mut out: Vec<u8> = Vec::new();
        if !self.first {
            out.push(13u8);
            out.push(10u8);
        }
        out.push(45u8);
        out.push(45u8);
        push_slice(&mut out, self.boundary.as_slice());
        out.push(13u8);
        out.push(10u8);
        let ghost before = out@;
        let mut i: usize = 0;
        while i < self.headers.len()
            invariant
                0 <= i <= self.headers@.len(),
                out@ == before + header_lines(header_views(self.headers@).subrange(0, i as int)),
            decreases self.headers@.len() - i,
        {
            let (name, value) = &self.headers[i];
            push_slice(&mut out, name.as_slice());
            out.push(58u8);
            out.push(32u8);
            push_slice(&mut out, value.as_slice());
            out.push(13u8);
            out.push(10u8);
            i += 1;
            proof {
                let hv = header_views(self.headers@).subrange(0, i as int);
                assert(hv.drop_last() =~= header_views(self.headers@).subrange(0, i - 1));
                assert(out@ =~= before + header_lines(hv));
            }
        }
        assert(header_views(self.headers@).subrange(0, self.headers@.len() as int) =~= header_views(
            self.headers@,
        ));
        out.push(13u8);
        out.push(10u8);
        push_slice(&mut out, body);
        assert(out@ =~= multipart_frame(
            self.first,
            self.boundary@,
            header_views(self.headers@),
            body@,
        ));
        out
    }
}

} // verus!
