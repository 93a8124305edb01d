//! SHA-256 digests, computed by the `sha2` crate.
use vstd::prelude::*;

verus! {

/// The SHA-256 digest of a byte sequence.
pub uninterp spec fn sha256_of(data: Seq<u8>) -> Seq<u8>;

/// The SHA-256 digest of `data`, from `sha2::Sha256::digest`.
///
/// Trusted: the digest is a function of the bytes alone, named by [`sha256_of`];
/// nothing else about it is stated.
#[verifier::external_body]
pub fn sha256(data: &[u8]) -> (digest: [u8; 32])
    ensures
        digest@ == sha256_of(data@),
{
    <sha2::Sha256 as sha2::Digest>::digest(data).into()
}

/// The lowercase hexadecimal text of bytes.
pub open spec fn hex_text(bytes: Seq<u8>) -> Seq<char>
    decreases bytes.len(),
{
    if bytes.len() == 0 {
        Seq::empty()
    } else {
        hex_text(bytes.drop_last()) + seq![
            crate::text::hex_char((bytes.last() / 16) as int),
            crate::text::hex_char((bytes.last() % 16) as int),
        ]
    }
}

/// Append the lowercase hexadecimal text of `bytes`.
pub fn push_hex(out: &mut String, bytes: &[u8])
    ensures
        final(out)@ == old(out)@ + hex_text(bytes@),
{
    let mut i: usize = 0;
    while i < bytes.len()
        invariant
            i <= bytes@.len(),
            out@ == old(out)@ + hex_text(bytes@.subrange(0, i as int)),
        decreases bytes@.len() - i,
    {
        let b = bytes[i];
        let high = match crate::text::hex_digit_char((b / 16) as u32) {
            Some(c) => c,
            None => '0',
        };
        let low = match crate::text::hex_digit_char((b % 16) as u32) {
            Some(c) => c,
            None => '0',
        };
        let ghost before = out@;
        crate::text::push_char(out, high);
        crate::text::push_char(out, low);
        proof {
            let pre = bytes@.subrange(0, i + 1);
            assert(pre.drop_last() =~= bytes@.subrange(0, i as int));
            assert(pre.last() == b);
            assert(out@ =~= old(out)@ + hex_text(pre));
        }
        i = i + 1;
    }
    assert(bytes@.subrange(0, bytes@.len() as int) =~= bytes@);
}

} // verus!
