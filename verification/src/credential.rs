//! The node's credential line: `id-key`.
//!
//! The id is a positive 32-bit integer in canonical decimal; the key is
//! exactly twenty alphanumerics. The parser accepts exactly such lines.
use vstd::prelude::*;
use crate::bytesutil::{dec_of, find_byte, lemma_dec_of_canon, parse_u64_dec};
use crate::fileid::{lemma_seg, sep_found};

verus! {

/// Letters and digits, the alphabet of client keys.
pub open spec fn is_alnum(b: u8) -> bool {
    (0x30 <= b <= 0x39) || (0x41 <= b <= 0x5a) || (0x61 <= b <= 0x7a)
}

/// A valid credential: positive id, twenty-alphanumeric key.
pub open spec fn cred_wf(id: i32, key: Seq<u8>) -> bool {
    &&& id >= 1
    &&& key.len() == 20
    &&& forall|i: int| 0 <= i < key.len() ==> is_alnum(key[i])
}

/// The credential line of a valid credential.
pub open spec fn cred_render(id: i32, key: Seq<u8>) -> Seq<u8> {
    dec_of(id as nat) + seq![0x2du8] + key
}

/// Parses a credential line.
///
/// Returns the id and key exactly when the line is the rendering of a
/// valid credential; rejects everything else.
pub fn parse_credential(line: &[u8]) -> (r: Option<(i32, Vec<u8>)>)
    ensures
        r matches Some(c) ==> cred_wf(c.0, c.1@) && line@ == cred_render(c.0, c.1@),
        r is None ==> forall|id: i32, key: Seq<u8>|
            cred_wf(id, key) ==> line@ != cred_render(id, key),
{
    let ln = line.len();
    proof {
        assert(line@.len() == ln);
    }
    let q_opt = find_byte(line, 0, 0x2d);
    proof {
        assert forall|id: i32, key: Seq<u8>| #![trigger cred_render(id, key)]
            cred_wf(id, key) && line@ == cred_render(id, key) implies (q_opt matches Some(i)
            && i == dec_of(id as nat).len() && line@.subrange(0, i as int) == dec_of(id as nat)
            && line@.subrange(i + 1, line@.len() as int) == key) by {
            assert(line@.subrange(0, line@.len() as int) =~= line@);
            lemma_seg(line@, 0, id as nat, key, q_opt);
        }
    }
    let q = match q_opt {
        Some(i) => i,
        None => {
            proof {
                assert forall|id: i32, key: Seq<u8>|
                    cred_wf(id, key) implies line@ != cred_render(id, key) by {
                    if line@ == cred_render(id, key) {
                        assert(false);
                    }
                }
            }
            return None;
        }
    };
    let idb = vstd::slice::slice_subrange(line, 0, q);
    let n = match parse_u64_dec(idb) {
        Some(n) => n,
        None => {
            proof {
                assert forall|id: i32, key: Seq<u8>|
                    cred_wf(id, key) implies line@ != cred_render(id, key) by {
                    if line@ == cred_render(id, key) {
                        lemma_dec_of_canon(id as nat);
                        assert(idb@ == dec_of(id as nat));
                        assert(false);
                    }
                }
            }
            return None;
        }
    };
    if n < 1 || n > 0x7fff_ffff {
        proof {
            assert forall|id: i32, key: Seq<u8>|
                cred_wf(id, key) implies line@ != cred_render(id, key) by {
                if line@ == cred_render(id, key) {
                    lemma_dec_of_canon(id as nat);
                    assert(idb@ == dec_of(id as nat));
                    assert(n == id);
                    assert(false);
                }
            }
        }
        return None;
    }
    let keyb = vstd::slice::slice_subrange(line, q + 1, line.len());
    let ok = check_alnum_20(keyb);
    if !ok {
        proof {
            assert forall|id: i32, key: Seq<u8>|
                cred_wf(id, key) implies line@ != cred_render(id, key) by {
                if line@ == cred_render(id, key) {
                    assert(keyb@ == key);
                    assert(false);
                }
            }
        }
        return None;
    }
    let key = vstd::slice::slice_to_vec(keyb);
    proof {
        assert(line@ =~= cred_render(n as i32, key@)) by {
            assert(idb@ == dec_of(n as nat));
            assert(line@[q as int] == 0x2d);
            assert(line@ =~= line@.subrange(0, q as int) + line@.subrange(q as int, q + 1)
                + line@.subrange(q + 1, line@.len() as int));
        }
    }
    Some((n as i32, key))
}

/// Is `s` exactly twenty alphanumerics?
fn check_alnum_20(s: &[u8]) -> (r: bool)
    ensures
        r == (s@.len() == 20 && forall|i: int| 0 <= i < s@.len() ==> is_alnum(s@[i])),
{
    if s.len() != 20 {
        return false;
    }
    let mut i: usize = 0;
    while i < 20
        invariant
            i <= 20,
            s@.len() == 20,
            forall|j: int| 0 <= j < i ==> is_alnum(s@[j]),
        decreases 20 - i,
    {
        let b = s[i];
        if !((0x30 <= b && b <= 0x39) || (0x41 <= b && b <= 0x5a) || (0x61 <= b && b <= 0x7a)) {
            proof {
                assert(!is_alnum(s@[i as int]));
            }
            return false;
        }
        i = i + 1;
    }
    true
}

} // verus!
