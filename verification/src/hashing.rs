//! MD5 digests and their lowercase hexadecimal text.
use vstd::prelude::*;
use crate::numbers::hex_char;

verus! {

/// The MD5 digest (16 bytes) of `data`.
pub uninterp spec fn md5_of(data: Seq<u8>) -> Seq<u8>;

/// Trusted: `md5::Md5::digest` (RustCrypto `md-5`), the 16-byte MD5 of
/// the input; named `md5_of` of the bytes, which MD5 determines alone.
#[verifier::external_body]
pub fn md5_digest(data: &[u8]) -> (r: Vec<u8>)
    ensures
        r@ == md5_of(data@),
        r@.len() == 16,
{
    <md5::Md5 as md5::Digest>::digest(data).to_vec()
}

/// Two lowercase hexadecimal digits per byte (`format!("{:x}")` of a
/// digest).
pub open spec fn hex_of_bytes(s: Seq<u8>) -> Seq<char>
    decreases s.len(),
{
    if s.len() == 0 {
        Seq::empty()
    } else {
        hex_of_bytes(s.drop_last()) + seq![hex_char((s.last() / 16) as int), hex_char((s.last() % 16) as int)]
    }
}

fn hex_char_exec(d: u8) -> (c: char)
    requires
        d < 16,
    ensures
        c == hex_char(d as int),
{
    if d < 10 {
        ((0x30u8 + d) as char)
    } else {
        ((0x61u8 + (d - 10)) as char)
    }
}

/// Appends the hexadecimal text of `s[start..end]`.
pub fn push_hex_bytes(out: &mut Vec<char>, s: &[u8], start: usize, end: usize)
    requires
        start <= end <= s@.len(),
    ensures
        final(out)@ == old(out)@ + hex_of_bytes(s@.subrange(start as int, end as int)),
{
    let ghost base = out@;
    let mut i = start;
    assert(s@.subrange(start as int, start as int) =~= Seq::<u8>::empty());
    while i < end
        invariant
            start <= i <= end <= s@.len(),
            out@ == base + hex_of_bytes(s@.subrange(start as int, i as int)),
        decreases end - i,
    {
        assert(s@.subrange(start as int, i + 1).drop_last() =~= s@.subrange(start as int, i as int));
        let b = s[i];
        out.push(hex_char_exec(b / 16));
        out.push(hex_char_exec(b % 16));
        i += 1;
        assert(out@ =~= base + hex_of_bytes(s@.subrange(start as int, i as int)));
    }
}

/// The lowercase hexadecimal MD5 of `data`: 32 characters.
pub open spec fn md5_hex(data: Seq<u8>) -> Seq<char> {
    hex_of_bytes(md5_of(data))
}

/// Two hexadecimal digits per byte.
pub proof fn lemma_hex_of_bytes_len(s: Seq<u8>)
    ensures
        hex_of_bytes(s).len() == 2 * s.len(),
    decreases s.len(),
{
    if s.len() > 0 {
        lemma_hex_of_bytes_len(s.drop_last());
    }
}

pub fn md5_hex_of(data: &[u8]) -> (r: String)
    ensures
        r@ == md5_hex(data@),
        r@.len() == 32,
{
    let d = md5_digest(data);
    let mut out: Vec<char> = Vec::new();
    push_hex_bytes(&mut out, d.as_slice(), 0, 16);
    assert(d@.subrange(0, 16) =~= d@);
    proof {
        lemma_hex_of_bytes_len(d@);
    }
    crate::chars::string_from_chars(out.as_slice())
}

} // verus!
