//! The hashing sink that the archive is written through, and the
//! content-addressed name of the finished archive.
use crate::text::utf8_to_string;
use vstd::prelude::*;
use vstd::utf8::{decode_utf8, encode_utf8, encode_utf8_decode_utf8, encode_utf8_valid_utf8, is_ascii_chars, is_ascii_chars_encode_utf8};

verus! {

#[verifier::external_type_specification]
#[verifier::external_body]
pub struct ExMd5(md5::Md5);

/// The bytes that an MD5 hasher has been given so far, in order.
pub uninterp spec fn md5_input(h: md5::Md5) -> Seq<u8>;

/// The MD5 digest of `data`.
pub uninterp spec fn md5_digest(data: Seq<u8>) -> Seq<u8>;

/// Relies on md5::Md5's Digest::new: a hasher that has been given nothing.
#[verifier::external_body]
fn md5_new() -> (r: md5::Md5)
    ensures
        md5_input(r) == Seq::<u8>::empty(),
{
    <md5::Md5 as md5::Digest>::new()
}

/// Relies on md5::Md5's Digest::input: the hasher takes in `data` after
/// what it was given before.
#[verifier::external_body]
fn md5_update(h: &mut md5::Md5, data: &[u8])
    ensures
        md5_input(*final(h)) == md5_input(*old(h)) + data@,
{
    md5::Digest::input(h, data)
}

/// Relies on md5::Md5's Digest::result: the 16-byte digest of all the
/// bytes the hasher was given.
#[verifier::external_body]
fn md5_result(h: md5::Md5) -> (r: Vec<u8>)
    ensures
        r@ == md5_digest(md5_input(h)),
        r@.len() == 16,
{
    md5::Digest::result(h).to_vec()
}

/// A sink that feeds every byte written through it to an MD5 hasher before
/// the bytes go on, unchanged, to the underlying writer.
pub struct HashingWriter<W> {
    pub underlying_writer: W,
    pub hash: md5::Md5,
}

impl<W> HashingWriter<W> {
    /// All the bytes written through the sink so far.
    pub open spec fn hashed(&self) -> Seq<u8> {
        md5_input(self.hash)
    }

    /// A sink over `wtr` through which nothing has been written yet.
    pub fn new(wtr: W) -> (r: HashingWriter<W>)
        ensures
            r.underlying_writer == wtr,
            r.hashed() == Seq::<u8>::empty(),
    {
        HashingWriter { underlying_writer: wtr, hash: md5_new() }
    }

    /// Records that `buf` has been written through the sink.
    pub fn hash_input(&mut self, buf: &[u8])
        ensures
            final(self).hashed() == old(self).hashed() + buf@,
            final(self).underlying_writer == old(self).underlying_writer,
    {
        md5_update(&mut self.hash, buf);
    }

    /// Ends the sink: the digest of everything written, and the underlying writer.
    pub fn finish(self) -> (r: (Vec<u8>, W))
        ensures
            r.0@ == md5_digest(self.hashed()),
            r.0@.len() == 16,
            r.1 == self.underlying_writer,
    {
        let HashingWriter { underlying_writer, hash } = self;
        (md5_result(hash), underlying_writer)
    }
}

/// The lowercase hexadecimal digit for `n` < 16: `0`-`9`, then `a`-`f`.
pub open spec fn hex_digit(n: int) -> char {
    (if n < 10 { 48 + n } else { 87 + n }) as u8 as char
}

/// `d` in lowercase hexadecimal, two digits per byte, high digit first.
pub open spec fn hex_text(d: Seq<u8>) -> Seq<char> {
    Seq::new(
        2 * d.len(),
        |i: int| if i % 2 == 0 { hex_digit(d[i / 2] as int / 16) } else { hex_digit(d[i / 2] as int % 16) },
    )
}

/// The suffix of an archive's file name.
pub open spec fn patch_suffix() -> Seq<char> {
    seq!['.', 'p', 'a', 't', 'c', 'h']
}

/// The text whose bytes `b` are, when each byte is an ASCII character of `c`.
fn ascii_to_string(b: &Vec<u8>, Ghost(c): Ghost<Seq<char>>) -> (r: String)
    requires
        is_ascii_chars(c),
        b@ == Seq::new(c.len(), |i: int| c[i] as u8),
    ensures
        r@ == c,
{
    proof {
        is_ascii_chars_encode_utf8(c);
        assert(b@ =~= encode_utf8(c));
        encode_utf8_valid_utf8(c);
        encode_utf8_decode_utf8(c);
    }
    match utf8_to_string(b.as_slice()) {
        Some(s) => s,
        None => {
            assert(false);
            String::new()
        },
    }
}

/// The ASCII byte of the hexadecimal digit for `n` < 16.
fn hex_byte(n: u8) -> (r: u8)
    requires
        n < 16,
    ensures
        r == hex_digit(n as int) as u8,
        r < 128,
{
    if n < 10 {
        48 + n
    } else {
        87 + n
    }
}

/// Appends the ASCII bytes of `d` in lowercase hexadecimal.
fn push_hex(out: &mut Vec<u8>, d: &[u8])
    ensures
        final(out)@ == old(out)@ + Seq::new(2 * d@.len(), |i: int| hex_text(d@)[i] as u8),
{
    let ghost start = out@;
    let mut i: usize = 0;
    while i < d.len()
        invariant
            i <= d@.len(),
            out@ == start + Seq::new(2 * i as nat, |j: int| hex_text(d@)[j] as u8),
        decreases d@.len() - i,
    {
        out.push(hex_byte(d[i] / 16));
        out.push(hex_byte(d[i] % 16));
        proof {
            assert((2 * i) / 2 == i && (2 * i) % 2 == 0) by (nonlinear_arith);
            assert((2 * i + 1) / 2 == i && (2 * i + 1) % 2 == 1) by (nonlinear_arith);
        }
        i = i + 1;
        assert(out@ =~= start + Seq::new(2 * i as nat, |j: int| hex_text(d@)[j] as u8));
    }
}

/// `digest` in lowercase hexadecimal, as shown to the user.
pub fn hex_lower(digest: &[u8]) -> (r: String)
    ensures
        r@ == hex_text(digest@),
{
    let mut b: Vec<u8> = Vec::new();
    push_hex(&mut b, digest);
    proof {
        lemma_hex_ascii(digest@);
    }
    assert(b@ =~= Seq::new(hex_text(digest@).len(), |i: int| hex_text(digest@)[i] as u8));
    ascii_to_string(&b, Ghost(hex_text(digest@)))
}

proof fn lemma_hex_ascii(d: Seq<u8>)
    ensures
        is_ascii_chars(hex_text(d)),
        is_ascii_chars(patch_suffix()),
{
    assert forall|i: int| 0 <= i < hex_text(d).len() implies '\0' <= #[trigger] hex_text(d)[i] <= '\u{7f}' by {
        let n: int = if i % 2 == 0 { d[i / 2] as int / 16 } else { d[i / 2] as int % 16 };
        let b: u8 = (if n < 10 { 48 + n } else { 87 + n }) as u8;
        assert(b < 128);
        assert('\0' <= (b as char));
        assert((b as char) <= '\u{7f}');
    }
}

/// The file name of an archive with this digest: `<hex digest>.patch`.
pub fn patch_file_name(digest: &[u8]) -> (r: String)
    ensures
        r@ == hex_text(digest@) + patch_suffix(),
{
    let mut b: Vec<u8> = Vec::new();
    push_hex(&mut b, digest);
    b.push(46);
    b.push(112);
    b.push(97);
    b.push(116);
    b.push(99);
    b.push(104);
    let ghost c = hex_text(digest@) + patch_suffix();
    proof {
        lemma_hex_ascii(digest@);
        assert(seq![46u8, 112, 97, 116, 99, 104] =~= Seq::new(6, |i: int| patch_suffix()[i] as u8));
    }
    assert(b@ =~= Seq::new(c.len(), |i: int| c[i] as u8));
    ascii_to_string(&b, Ghost(c))
}

} // verus!
