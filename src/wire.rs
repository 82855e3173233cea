//! Byte-buffer helpers shared by the codecs and formatters.
use vstd::prelude::*;
use vstd::string::StringSliceAdditionalSpecFns;

verus! {

/// The bytes of an ASCII character sequence.
pub open spec fn ascii(s: Seq<char>) -> Seq<u8> {
    s.map_values(|c: char| c as u8)
}

/// Appends `b` to `out`.
pub fn push_slice(out: &mut Vec<u8>, b: &[u8])
    ensures
        final(out)@ == old(out)@ + b@,
{
    let ghost start = out@;
    let mut i: usize = 0;
    while i < b.len()
        invariant
            0 <= i <= b@.len(),
            out@ == start + b@.subrange(0, i as int),
        decreases b@.len() - i,
    {
        out.push(b[i]);
        i += 1;
        proof {
            assert(b@.subrange(0, i as int) == b@.subrange(0, i - 1) + seq![b@[i - 1]]);
        }
    }
    proof {
        assert(b@.subrange(0, b@.len() as int) == b@);
    }
}

/// Appends the UTF-8 bytes of `s` to `out`.
pub fn push_str(out: &mut Vec<u8>, s: &str)
    ensures
        final(out)@ == old(out)@ + s.spec_bytes(),
{
    push_slice(out, s.as_bytes());
}

/// For an ASCII string, its bytes are its characters.
pub proof fn lemma_ascii_bytes(s: &str)
    requires
        s.is_ascii(),
    ensures
        s.spec_bytes() == ascii(s@),
{
    vstd::string::is_ascii_spec_bytes(s);
    assert(s.spec_bytes() =~= ascii(s@));
}

/// Whether `s` holds `lit` at position `at`.
pub open spec fn has_at(s: Seq<u8>, at: int, lit: Seq<u8>) -> bool {
    0 <= at && at + lit.len() <= s.len() && s.subrange(at, at + lit.len()) == lit
}

/// Tests whether `s` holds `lit` at position `at`.
pub fn slice_at(s: &[u8], at: usize, lit: &[u8]) -> (r: bool)
    ensures
        r == has_at(s@, at as int, lit@),
{
    let n = s.len();
    if at > n || lit.len() > n - at {
        return false;
    }
    let mut i: usize = 0;
    while i < lit.len()
        invariant
            at + lit@.len() <= s@.len(),
            n == s@.len(),
            0 <= i <= lit@.len(),
            forall|k: int| 0 <= k < i ==> s@[at + k] == lit@[k],
        decreases lit@.len() - i,
    {
        if s[at + i] != lit[i] {
            assert(s@.subrange(at as int, at + lit@.len())[i as int] != lit@[i as int]);
            return false;
        }
        i += 1;
    }
    assert(s@.subrange(at as int, at + lit@.len()) =~= lit@);
    true
}

/// Tests whether `s` holds the bytes of `lit` at position `at`.
pub fn bytes_at(s: &[u8], at: usize, lit: &str) -> (r: bool)
    ensures
        r == has_at(s@, at as int, lit.spec_bytes()),
{
    slice_at(s, at, lit.as_bytes())
}


/// The upper-case hex digit for a value below sixteen.
pub open spec fn hex_digit_upper(n: u8) -> u8 {
    if n < 10 {
        (48 + n) as u8
    } else {
        (55 + n) as u8
    }
}

/// Two upper-case hex digits per byte, high nibble first.
pub open spec fn hex_upper(b: Seq<u8>) -> Seq<u8>
    decreases b.len(),
{
    if b.len() == 0 {
        Seq::empty()
    } else {
        hex_upper(b.drop_last()) + seq![
            hex_digit_upper(b.last() / 16),
            hex_digit_upper(b.last() % 16),
        ]
    }
}

/// Relies on `hex::encode_upper`: each byte becomes two characters of
/// "0123456789ABCDEF", high nibble first.
#[verifier::external_body]
fn encode_upper(b: &[u8]) -> (r: String)
    ensures
        r.is_ascii(),
        ascii(r@) == hex_upper(b@),
{
    hex::encode_upper(b)
}

/// Appends the upper-case hex digits of `b` to `out`.
pub fn push_hex_upper(out: &mut Vec<u8>, b: &[u8])
    ensures
        final(out)@ == old(out)@ + hex_upper(b@),
{
    let s = encode_upper(b);
    let st = s.as_str();
    proof {
        lemma_ascii_bytes(st);
    }
    push_str(out, st);
}


/// Tests whether `s` is exactly the bytes of `lit`.
pub fn bytes_eq(s: &[u8], lit: &str) -> (r: bool)
    ensures
        r == (s@ == lit.spec_bytes()),
{
    let r = s.len() == lit.len() && bytes_at(s, 0, lit);
    proof {
        if s@.len() == lit.spec_bytes().len() {
            assert(s@.subrange(0, s@.len() as int) =~= s@);
        }
    }
    r
}

/// The decimal digits of `n`, without leading zeros.
pub open spec fn dec_digits(n: nat) -> Seq<u8>
    decreases n,
{
    if n < 10 {
        seq![(48 + n) as u8]
    } else {
        dec_digits(n / 10).push((48 + n % 10) as u8)
    }
}

/// Appends the decimal digits of `n` to `out`.
pub fn push_decimal(out: &mut Vec<u8>, n: u64)
    ensures
        final(out)@ == old(out)@ + dec_digits(n as nat),
    decreases n,
{
    if n >= 10 {
        push_decimal(out, n / 10);
    }
    out.push((48 + n % 10) as u8);
    assert(final(out)@ =~= old(out)@ + dec_digits(n as nat));
}


/// The decimal digits of `n`, with leading zeros up to `width` digits.
pub open spec fn padded(n: nat, width: nat) -> Seq<u8> {
    let d = dec_digits(n);
    if d.len() < width {
        Seq::new((width - d.len()) as nat, |i: int| 48u8) + d
    } else {
        d
    }
}

/// Appends the decimal digits of `n`, zero-padded to `width`, to `out`.
pub fn push_padded(out: &mut Vec<u8>, n: u64, width: usize)
    ensures
        final(out)@ == old(out)@ + padded(n as nat, width as nat),
{
    let mut digits: Vec<u8> = Vec::new();
    push_decimal(&mut digits, n);
    assert(digits@ =~= dec_digits(n as nat));
    let ghost start = out@;
    if digits.len() < width {
        let zeros = width - digits.len();
        let mut i: usize = 0;
        while i < zeros
            invariant
                0 <= i <= zeros,
                out@ == start + Seq::new(i as nat, |k: int| 48u8),
            decreases zeros - i,
        {
            out.push(48u8);
            i += 1;
            assert(out@ =~= start + Seq::new(i as nat, |k: int| 48u8));
        }
    }
    push_slice(out, digits.as_slice());
    assert(out@ =~= start + padded(n as nat, width as nat));
}

} // verus!
