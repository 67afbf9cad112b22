//! Keyed hex digests: the signature primitive for URLs and RPC calls.
//!
//! Every signature in the protocol is the lowercase-hex SHA-1 of a
//! `-`-joined template. Hashing itself is delegated to the TLS stack's
//! library; the hex rendering and all comparisons are verified here.
use vstd::prelude::*;
use crate::bytesutil::{all_hex_digits, is_hex_digit};

verus! {

/// The SHA-1 of a byte string: a function of the bytes alone.
pub uninterp spec fn sha1_of(data: Seq<u8>) -> Seq<u8>;

/// Relies on openssl::sha::sha1: the 20-byte SHA-1 of the input,
/// depending on the input alone.
#[verifier::external_body]
fn sha1_bytes(data: &[u8]) -> (r: Vec<u8>)
    ensures
        r@ == sha1_of(data@),
        r@.len() == 20,
{
    openssl::sha::sha1(data).to_vec()
}

/// The lowercase hex digit for a value below 16.
pub open spec fn hex_digit(n: u8) -> u8 {
    if n < 10 {
        (0x30 + n) as u8
    } else {
        (0x61 + (n - 10)) as u8
    }
}

/// Lowercase hex rendering of a byte string, two digits per byte.
pub open spec fn hex_of(data: Seq<u8>) -> Seq<u8>
    decreases data.len(),
{
    if data.len() == 0 {
        Seq::empty()
    } else {
        hex_of(data.drop_last()) + seq![
            hex_digit(data.last() / 16),
            hex_digit(data.last() % 16),
        ]
    }
}

/// Hex strings are twice as long as their bytes, and all hex digits.
pub proof fn lemma_hex_of_shape(data: Seq<u8>)
    ensures
        hex_of(data).len() == 2 * data.len(),
        all_hex_digits(hex_of(data)),
    decreases data.len(),
{
    if data.len() > 0 {
        lemma_hex_of_shape(data.drop_last());
        let h = hex_of(data);
        let p = hex_of(data.drop_last());
        assert forall|i: int| 0 <= i < h.len() implies is_hex_digit(h[i]) by {
            if i < p.len() {
                assert(is_hex_digit(p[i]));
            } else {
                assert(data.last() / 16 < 16 && data.last() % 16 < 16);
            }
        }
    }
}

/// Renders bytes as lowercase hex.
pub fn hex_encode(data: &[u8]) -> (r: Vec<u8>)
    ensures
        r@ == hex_of(data@),
{
    let mut out: Vec<u8> = Vec::new();
    let mut i: usize = 0;
    while i < data.len()
        invariant
            i <= data@.len(),
            out@ =~= hex_of(data@.subrange(0, i as int)),
        decreases data@.len() - i,
    {
        let b = data[i];
        let hi = b / 16;
        let lo = b % 16;
        let c1: u8 = if hi < 10 {
            0x30 + hi
        } else {
            0x61 + (hi - 10)
        };
        let c2: u8 = if lo < 10 {
            0x30 + lo
        } else {
            0x61 + (lo - 10)
        };
        proof {
            let pre = data@.subrange(0, i as int + 1);
            assert(pre.drop_last() =~= data@.subrange(0, i as int));
            assert(pre.last() == b);
            assert(hex_of(pre) =~= out@.push(c1).push(c2));
        }
        out.push(c1);
        out.push(c2);
        i = i + 1;
    }
    proof {
        assert(data@.subrange(0, data@.len() as int) =~= data@);
    }
    out
}

/// The 40-hex-digit digest of a byte string: `hex(sha1(data))`.
pub open spec fn digest_of(data: Seq<u8>) -> Seq<u8> {
    hex_of(sha1_of(data))
}

/// Computes the digest used by every URL and RPC signature.
pub fn digest(data: &[u8]) -> (r: Vec<u8>)
    ensures
        r@ == digest_of(data@),
        r@.len() == 40,
        all_hex_digits(r@),
{
    let h = sha1_bytes(data);
    let r = hex_encode(h.as_slice());
    proof {
        lemma_hex_of_shape(h@);
    }
    r
}

} // verus!
