//! The access log's request prefix: a running number and the peer.
//!
//! Each logged request line starts with `{n/peer}`, the peer field
//! padded to sixteen characters; `n` counts requests from one.
use vstd::prelude::*;
use crate::bytesutil::{append_bytes, dec_of, u64_to_dec};

verus! {

/// The running request counter behind the log prefix.
pub struct RequestCounter {
    pub next: u64,
}

/// Sets the logger up: the first request gets number one.
pub fn init_logger() -> (r: RequestCounter)
    ensures
        r.next == 1,
{
    RequestCounter { next: 1 }
}

/// `s` padded with spaces on the right to at least sixteen bytes.
pub open spec fn pad16(s: Seq<u8>) -> Seq<u8>
    decreases 16 - s.len(),
{
    if s.len() >= 16 {
        s
    } else {
        pad16(s.push(0x20))
    }
}

/// The log prefix of request `n` from `peer`: `{n/peer}` padded.
pub open spec fn prefix_of(n: u64, peer: Seq<u8>) -> Seq<u8> {
    seq![0x7bu8] + dec_of(n as nat) + seq![0x2fu8] + pad16(peer.push(0x7d))
}

/// Renders the log prefix of the next request and advances the counter.
pub fn next_request_prefix(c: &mut RequestCounter, peer: &[u8]) -> (r: Vec<u8>)
    ensures
        r@ == prefix_of(old(c).next, peer@),
        final(c).next == (if old(c).next == 0xffff_ffff_ffff_ffff {
            0u64
        } else {
            (old(c).next + 1) as u64
        }),
{
    let mut v: Vec<u8> = Vec::new();
    v.push(0x7b);
    let d = u64_to_dec(c.next);
    append_bytes(&mut v, d.as_slice());
    v.push(0x2f);
    let mut field: Vec<u8> = vstd::slice::slice_to_vec(peer);
    field.push(0x7d);
    while field.len() < 16
        invariant
            pad16(field@) == pad16(peer@.push(0x7d)),
        decreases 16 - field@.len(),
    {
        field.push(0x20);
    }
    proof {
        assert(pad16(field@) == field@);
    }
    append_bytes(&mut v, field.as_slice());
    if c.next == 0xffff_ffff_ffff_ffff {
        c.next = 0;
    } else {
        c.next = c.next + 1;
    }
    proof {
        assert(v@ =~= prefix_of(old(c).next, peer@));
    }
    v
}

} // verus!
