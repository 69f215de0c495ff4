//! Fixed-width fields: little-endian integers, zero padding and NUL-padded text.
use crate::error::PatchError;
use vstd::prelude::*;
use vstd::string::StringSliceAdditionalSpecFns;

verus! {

/// `n` zero bytes.
pub open spec fn zeros(n: nat) -> Seq<u8> {
    Seq::new(n, |i: int| 0u8)
}

/// The four little-endian bytes of `x`.
pub open spec fn le32(x: u32) -> Seq<u8> {
    seq![(x % 256) as u8, ((x / 256) % 256) as u8, ((x / 65536) % 256) as u8, (x / 16777216) as u8]
}

/// The integer that four little-endian bytes starting at `at` stand for.
pub open spec fn from_le32(b: Seq<u8>, at: int) -> int {
    b[at] as int + 256 * b[at + 1] as int + 65536 * b[at + 2] as int + 16777216 * b[at + 3] as int
}

/// `s` padded with zero bytes to `n` bytes.
pub open spec fn padded(s: Seq<u8>, n: nat) -> Seq<u8> {
    s + zeros((n - s.len()) as nat)
}

/// The index of the first NUL byte of `s` at or after `i`, or `s.len()` if there is none.
pub open spec fn nul_index(s: Seq<u8>, i: int) -> int
    decreases s.len() - i,
{
    if i >= s.len() {
        s.len() as int
    } else if s[i] == 0 {
        i
    } else {
        nul_index(s, i + 1)
    }
}

/// The text of a NUL-terminated field: its bytes before the first NUL.
pub open spec fn until_nul(s: Seq<u8>) -> Seq<u8> {
    s.subrange(0, nul_index(s, 0))
}

pub open spec fn nul_free(s: Seq<u8>) -> bool {
    forall|i: int| 0 <= i < s.len() ==> s[i] != 0
}

/// Decoding four little-endian bytes gives back the integer encoded.
pub proof fn lemma_le32_round_trip(x: u32)
    ensures
        le32(x).len() == 4,
        from_le32(le32(x), 0) == x as int,
{
    let b = le32(x);
    assert(b[0] as int == x as int % 256);
    assert(b[1] as int == (x as int / 256) % 256);
    assert(b[2] as int == (x as int / 65536) % 256);
    assert(b[3] as int == x as int / 16777216);
    let xi = x as int;
    assert(xi == xi % 256 + 256 * ((xi / 256) % 256) + 65536 * ((xi / 65536) % 256) + 16777216 * (xi / 16777216)) by (nonlinear_arith)
        requires 0 <= xi < 0x1_0000_0000;
}

/// Scanning a NUL-free text followed by a NUL from any of its positions stops at its end.
proof fn lemma_nul_index_at_end(p: Seq<u8>, s: Seq<u8>, i: int)
    requires
        nul_free(s),
        s.len() < p.len(),
        p.subrange(0, s.len() as int) == s,
        p[s.len() as int] == 0,
        0 <= i <= s.len(),
    ensures
        nul_index(p, i) == s.len(),
    decreases s.len() - i,
{
    if i < s.len() {
        assert(p[i] == s[i]);
        lemma_nul_index_at_end(p, s, i + 1);
    }
}

/// The first NUL of a text padded with at least one zero byte ends the text.
pub proof fn lemma_until_nul_padded(s: Seq<u8>, n: nat)
    requires
        nul_free(s),
        s.len() < n,
    ensures
        until_nul(padded(s, n)) == s,
        padded(s, n).len() == n,
{
    let p = padded(s, n);
    assert(p.subrange(0, s.len() as int) =~= s);
    assert(p[s.len() as int] == 0);
    lemma_nul_index_at_end(p, s, 0);
}

/// Appends the four little-endian bytes of `x`.
pub fn write_u32_le(f: &mut Vec<u8>, x: u32)
    ensures
        final(f)@ == old(f)@ + le32(x),
{
    f.push((x % 256) as u8);
    f.push(((x / 256) % 256) as u8);
    f.push(((x / 65536) % 256) as u8);
    f.push((x / 16777216) as u8);
    assert(final(f)@ =~= old(f)@ + le32(x));
}

/// Reads the little-endian integer in the four bytes starting at `at`.
pub fn read_u32_le(b: &[u8], at: usize) -> (r: u32)
    requires
        at + 4 <= b@.len(),
    ensures
        r as int == from_le32(b@, at as int),
{
    let v: u64 = b[at] as u64 + 256 * b[at + 1] as u64 + 65536 * b[at + 2] as u64
        + 16777216 * b[at + 3] as u64;
    v as u32
}

/// Appends `n` zero bytes.
pub fn write_zeroes(f: &mut Vec<u8>, n: usize)
    ensures
        final(f)@ == old(f)@ + zeros(n as nat),
{
    let ghost start = f@;
    let mut i: usize = 0;
    while i < n
        invariant
            i <= n,
            f@ == start + zeros(i as nat),
        decreases n - i,
    {
        f.push(0u8);
        i = i + 1;
        assert(f@ =~= start + zeros(i as nat));
    }
}

/// Appends `s` as a text field of `n` bytes: its bytes, then zero padding.
/// Fails with `NameTooLong`, appending nothing, when `s` takes more than `n` bytes.
pub fn write_string(f: &mut Vec<u8>, s: &str, n: usize) -> (r: Result<(), PatchError>)
    ensures
        r is Ok <==> s.spec_bytes().len() <= n,
        r is Ok ==> final(f)@ == old(f)@ + padded(s.spec_bytes(), n as nat),
        r is Err ==> r == Err::<(), PatchError>(PatchError::NameTooLong) && final(f)@ == old(f)@,
{
    let b = s.as_bytes();
    if b.len() > n {
        return Err(PatchError::NameTooLong);
    }
    let ghost start = f@;
    let mut i: usize = 0;
    while i < b.len()
        invariant
            i <= b@.len(),
            b@ == s.spec_bytes(),
            f@ == start + b@.subrange(0, i as int),
        decreases b@.len() - i,
    {
        f.push(b[i]);
        i = i + 1;
        assert(f@ =~= start + b@.subrange(0, i as int));
    }
    assert(b@.subrange(0, b@.len() as int) =~= b@);
    write_zeroes(f, n - b.len());
    assert(f@ =~= start + padded(s.spec_bytes(), n as nat));
    Ok(())
}

/// The length of the text in the first `n` bytes of `b`: the bytes before
/// the first NUL among them, or all `n`.
pub fn text_len(b: &[u8], n: usize) -> (r: usize)
    requires
        n <= b@.len(),
    ensures
        r <= n,
        r as int == nul_index(b@.subrange(0, n as int), 0),
{
    let ghost s = b@.subrange(0, n as int);
    let mut i: usize = 0;
    while i < n && b[i] != 0
        invariant
            i <= n <= b@.len(),
            s == b@.subrange(0, n as int),
            nul_index(s, 0) == nul_index(s, i as int),
        decreases n - i,
    {
        assert(s[i as int] == b@[i as int]);
        i = i + 1;
    }
    if i < n {
        assert(s[i as int] == b@[i as int]);
    }
    i
}

} // verus!
