//! Reading coordinator responses: status classification, purge lists,
//! server whitelist membership.
use vstd::prelude::*;
use crate::fileid::{parse_fileid, FileId};
use crate::split::{first_idx, lemma_first_idx, split_by, split_spec, pieces_view};

verus! {

/// How a coordinator response is to be handled.
#[derive(Clone, Copy, PartialEq, Eq, Structural, Debug)]
pub enum RpcClass {
    /// First line `OK`: the call succeeded.
    Success,
    /// Body begins `KEY_EXPIRED`: fatal, the node must exit.
    KeyExpired,
    /// Body begins `FAIL_CONNECT_TEST`: fatal, the node must exit.
    FailConnectTest,
    /// Anything else: a transient failure, retry within budget.
    Transient,
}

/// `OK`
pub open spec fn lit_ok() -> Seq<u8> {
    seq![0x4fu8, 0x4bu8]
}

/// `KEY_EXPIRED`
pub open spec fn lit_key_expired() -> Seq<u8> {
    seq![0x4bu8, 0x45u8, 0x59u8, 0x5fu8, 0x45u8, 0x58u8, 0x50u8, 0x49u8, 0x52u8, 0x45u8, 0x44u8]
}

/// `FAIL_CONNECT_TEST`
pub open spec fn lit_fail_connect_test() -> Seq<u8> {
    seq![0x46u8, 0x41u8, 0x49u8, 0x4cu8, 0x5fu8, 0x43u8, 0x4fu8, 0x4eu8, 0x4eu8, 0x45u8, 0x43u8,
        0x54u8, 0x5fu8, 0x54u8, 0x45u8, 0x53u8, 0x54u8]
}

/// Does `s` begin with `p`?
pub open spec fn starts_with(s: Seq<u8>, p: Seq<u8>) -> bool {
    s.len() >= p.len() && s.take(p.len() as int) == p
}

/// The first line of a response body.
pub open spec fn first_line(s: Seq<u8>) -> Seq<u8> {
    if first_idx(s, 0x0a) < s.len() {
        s.take(first_idx(s, 0x0a))
    } else {
        s
    }
}

/// The handling class of a response body.
pub open spec fn classify_spec(s: Seq<u8>) -> RpcClass {
    if first_line(s) == lit_ok() {
        RpcClass::Success
    } else if starts_with(s, lit_key_expired()) {
        RpcClass::KeyExpired
    } else if starts_with(s, lit_fail_connect_test()) {
        RpcClass::FailConnectTest
    } else {
        RpcClass::Transient
    }
}

fn check_starts_with(s: &[u8], p: &[u8]) -> (r: bool)
    ensures
        r == starts_with(s@, p@),
{
    if s.len() < p.len() {
        return false;
    }
    let head = vstd::slice::slice_subrange(s, 0, p.len());
    crate::bytesutil::bytes_eq(head, p)
}

/// Classifies a coordinator response body.
pub fn classify_response(s: &[u8]) -> (r: RpcClass)
    ensures
        r == classify_spec(s@),
{
    proof {
        lemma_first_idx(s@, 0x0a);
    }
    let line_end = match crate::bytesutil::find_byte(s, 0, 0x0a) {
        Some(i) => {
            proof {
                crate::split::lemma_first_idx_at(s@, 0x0a, i as int);
            }
            i
        }
        None => {
            proof {
                crate::split::lemma_first_idx_none(s@, 0x0a);
                assert(s@.take(s@.len() as int) =~= s@);
            }
            s.len()
        }
    };
    let line = vstd::slice::slice_subrange(s, 0, line_end);
    if crate::bytesutil::bytes_eq(line, &[0x4f, 0x4b]) {
        proof {
            assert(seq![0x4fu8, 0x4bu8] =~= lit_ok());
        }
        return RpcClass::Success;
    }
    if check_starts_with(
        s,
        &[0x4b, 0x45, 0x59, 0x5f, 0x45, 0x58, 0x50, 0x49, 0x52, 0x45, 0x44],
    ) {
        proof {
            assert(seq![0x4bu8, 0x45u8, 0x59u8, 0x5fu8, 0x45u8, 0x58u8, 0x50u8, 0x49u8, 0x52u8,
                0x45u8, 0x44u8] =~= lit_key_expired());
        }
        return RpcClass::KeyExpired;
    }
    if check_starts_with(
        s,
        &[0x46, 0x41, 0x49, 0x4c, 0x5f, 0x43, 0x4f, 0x4e, 0x4e, 0x45, 0x43, 0x54, 0x5f, 0x54,
            0x45, 0x53, 0x54],
    ) {
        proof {
            assert(seq![0x46u8, 0x41u8, 0x49u8, 0x4cu8, 0x5fu8, 0x43u8, 0x4fu8, 0x4eu8, 0x4eu8,
                0x45u8, 0x43u8, 0x54u8, 0x5fu8, 0x54u8, 0x45u8, 0x53u8, 0x54u8]
                =~= lit_fail_connect_test());
        }
        return RpcClass::FailConnectTest;
    }
    RpcClass::Transient
}

/// Is this coordinator address on the whitelist?
pub fn is_valid_rpc_server(whitelist: &Vec<u32>, ip: u32) -> (r: bool)
    ensures
        r == whitelist@.contains(ip),
{
    let n = whitelist.len();
    let mut i: usize = 0;
    while i < n
        invariant
            i <= n,
            n == whitelist@.len(),
            forall|j: int| 0 <= j < i ==> whitelist@[j] != ip,
        decreases n - i,
    {
        if whitelist[i] == ip {
            return true;
        }
        i = i + 1;
    }
    proof {
        assert(!whitelist@.contains(ip));
    }
    false
}

/// Is some well-formed descriptor serialized on this line?
pub open spec fn parseable(l: Seq<u8>) -> bool {
    exists|f: FileId| f.wf() && l == f.render_of()
}

/// The parseable lines among `lines`, in order.
pub open spec fn keep_parseable(lines: Seq<Seq<u8>>) -> Seq<Seq<u8>>
    decreases lines.len(),
{
    if lines.len() == 0 {
        Seq::empty()
    } else {
        keep_parseable(lines.drop_last()) + (if parseable(lines.last()) {
            seq![lines.last()]
        } else {
            Seq::<Seq<u8>>::empty()
        })
    }
}

/// Parses a purge list: one serialized descriptor per line.
///
/// Returns the descriptors of exactly the well-formed lines, in order;
/// malformed lines are skipped.
pub fn parse_purge_list(body: &[u8]) -> (r: Vec<FileId>)
    ensures
        forall|i: int| 0 <= i < r@.len() ==> (#[trigger] r@[i]).wf(),
        r@.map_values(|f: FileId| f.render_of()) == keep_parseable(split_spec(body@, 0x0a)),
{
    let lines = split_by(body, 0x0a);
    let mut out: Vec<FileId> = Vec::new();
    let n = lines.len();
    let mut i: usize = 0;
    proof {
        assert(split_spec(body@, 0x0a).take(0) =~= Seq::<Seq<u8>>::empty());
        assert(out@.map_values(|f: FileId| f.render_of()) =~= keep_parseable(
            split_spec(body@, 0x0a).take(0),
        ));
    }
    while i < n
        invariant
            i <= n,
            n == lines@.len(),
            pieces_view(lines@) == split_spec(body@, 0x0a),
            forall|k: int| 0 <= k < out@.len() ==> (#[trigger] out@[k]).wf(),
            out@.map_values(|f: FileId| f.render_of()) == keep_parseable(
                split_spec(body@, 0x0a).take(i as int),
            ),
        decreases n - i,
    {
        let ghost sl = split_spec(body@, 0x0a);
        proof {
            assert(sl.take(i as int + 1).drop_last() =~= sl.take(i as int));
            assert(sl.take(i as int + 1).last() == sl[i as int]);
            assert(pieces_view(lines@)[i as int] == lines@[i as int]@);
        }
        let ghost prev = out@;
        match parse_fileid(lines[i].as_slice()) {
            Some(f) => {
                proof {
                    assert(parseable(sl[i as int])) by {
                        assert(f.wf() && lines@[i as int]@ == f.render_of());
                    }
                }
                out.push(f);
                proof {
                    assert(out@.map_values(|g: FileId| g.render_of()) =~= prev.map_values(
                        |g: FileId| g.render_of(),
                    ) + seq![f.render_of()]);
                    assert(keep_parseable(sl.take(i as int + 1)) == keep_parseable(
                        sl.take(i as int),
                    ) + seq![sl[i as int]]);
                }
            }
            None => {
                proof {
                    assert(!parseable(sl[i as int])) by {
                        if parseable(sl[i as int]) {
                            let f = choose|f: FileId| f.wf() && sl[i as int] == f.render_of();
                            assert(lines@[i as int]@ != f.render_of());
                            assert(false);
                        }
                    }
                    assert(keep_parseable(sl.take(i as int + 1)) =~= keep_parseable(
                        sl.take(i as int),
                    ));
                }
            }
        }
        i = i + 1;
    }
    proof {
        assert(split_spec(body@, 0x0a).take(n as int) =~= split_spec(body@, 0x0a));
    }
    out
}

} // verus!
