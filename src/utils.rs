//! A source that repeats a byte pattern and a sink that swallows everything,
//! for exercising sessions without a network.
use vstd::prelude::*;

verus! {

/// `n` copies of `b` back to back.
pub open spec fn repeat(b: Seq<u8>, n: nat) -> Seq<u8>
    decreases n,
{
    if n == 0 {
        Seq::empty()
    } else {
        repeat(b, (n - 1) as nat) + b
    }
}

/// How many whole copies of a pattern of length `len` a read into room for
/// `remaining` bytes puts: copies are added while more than one pattern of
/// room is left.
pub open spec fn copies(remaining: nat, len: nat) -> nat {
    if len == 0 || remaining == 0 {
        0
    } else {
        ((remaining - 1) / len as int) as nat
    }
}

/// A source that repeats `bytes`.
pub struct RepeatSome {
    bytes: &'static [u8],
    len: usize,
}

impl RepeatSome {
    pub closed spec fn pattern(&self) -> Seq<u8> {
        self.bytes@
    }

    pub closed spec fn wf(&self) -> bool {
        self.len == self.bytes@.len()
    }

    pub fn new(bytes: &'static [u8]) -> (r: RepeatSome)
        ensures
            r.wf(),
            r.pattern() == bytes@,
    {
        RepeatSome { bytes, len: bytes.len() }
    }

    /// The bytes that one read into room for `remaining` bytes yields.
    pub fn fill(&self, remaining: usize) -> (r: Vec<u8>)
        requires
            self.wf(),
        ensures
            r@ == repeat(self.pattern(), copies(remaining as nat, self.pattern().len())),
            r@.len() <= remaining,
    {
        let mut out: Vec<u8> = Vec::new();
        if self.len == 0 {
            return out;
        }
        let mut room = remaining;
        let ghost mut n: nat = 0;
        while room > self.len
            invariant
                self.len == self.bytes@.len(),
                self.len > 0,
                room <= remaining,
                out@ == repeat(self.bytes@, n),
                out@.len() + room == remaining,
                remaining == 0 || (remaining - 1) as int == n * self.len + (room - 1) as int,
                room > 0 || remaining == 0,
            decreases room,
        {
            let mut i: usize = 0;
            let ghost start = out@;
            while i < self.len
                invariant
                    self.len == self.bytes@.len(),
                    0 <= i <= self.len,
                    out@ == start + self.bytes@.subrange(0, i as int),
                decreases self.len - i,
            {
                out.push(self.bytes[i]);
                i += 1;
                proof {
                    assert(self.bytes@.subrange(0, i as int) =~= self.bytes@.subrange(0, i - 1).push(
                        self.bytes@[i - 1],
                    ));
                }
            }
            assert(self.bytes@.subrange(0, self.len as int) =~= self.bytes@);
            room = room - self.len;
            proof {
                let l = self.len as int;
                assert((n + 1) * l == n * l + l) by (nonlinear_arith);
                n = n + 1;
            }
        }
        proof {
            if remaining > 0 {
                assert((remaining - 1) as int == n * self.len + (room - 1) as int);
                assert(0 <= room - 1 < self.len);
                vstd::arithmetic::div_mod::lemma_fundamental_div_mod_converse(
                    (remaining - 1) as int,
                    self.len as int,
                    n as int,
                    (room - 1) as int,
                );
            }
        }
        out
    }
}

/// A sink that accepts every write whole.
#[derive(Default)]
pub struct Drain {}

impl Drain {
    /// Accepts `buf` and reports all of it written.
    pub fn write(&self, buf: &[u8]) -> (r: usize)
        ensures
            r == buf@.len(),
    {
        buf.len()
    }
}

} // verus!
