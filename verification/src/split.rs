//! Splitting byte strings on a separator, as the URL and RPC grammars need.
use vstd::prelude::*;
use crate::bytesutil::find_byte;

verus! {

/// Index of the first `sep` in `s`, or the length when absent.
pub open spec fn first_idx(s: Seq<u8>, sep: u8) -> int
    decreases s.len(),
{
    if s.len() == 0 {
        0
    } else if s[0] == sep {
        0
    } else {
        1 + first_idx(s.drop_first(), sep)
    }
}

/// Basic facts: the prefix holds no separator, the index is in range.
pub proof fn lemma_first_idx(s: Seq<u8>, sep: u8)
    ensures
        0 <= first_idx(s, sep) <= s.len(),
        forall|j: int| 0 <= j < first_idx(s, sep) ==> s[j] != sep,
        first_idx(s, sep) < s.len() ==> s[first_idx(s, sep)] == sep,
    decreases s.len(),
{
    if s.len() > 0 && s[0] != sep {
        lemma_first_idx(s.drop_first(), sep);
        assert forall|j: int| 0 <= j < first_idx(s, sep) implies s[j] != sep by {
            if j > 0 {
                assert(s.drop_first()[j - 1] != sep);
            }
        }
    }
}

/// The first separator is determined by any witness of minimality.
pub proof fn lemma_first_idx_at(s: Seq<u8>, sep: u8, i: int)
    requires
        0 <= i < s.len(),
        s[i] == sep,
        forall|j: int| 0 <= j < i ==> s[j] != sep,
    ensures
        first_idx(s, sep) == i,
    decreases s.len(),
{
    if i > 0 {
        assert forall|j: int| 0 <= j < i - 1 implies s.drop_first()[j] != sep by {
            assert(s[j + 1] != sep);
        }
        lemma_first_idx_at(s.drop_first(), sep, i - 1);
    }
}

/// Absence of the separator puts the first index at the end.
pub proof fn lemma_first_idx_none(s: Seq<u8>, sep: u8)
    requires
        forall|j: int| 0 <= j < s.len() ==> s[j] != sep,
    ensures
        first_idx(s, sep) == s.len(),
    decreases s.len(),
{
    if s.len() > 0 {
        assert forall|j: int| 0 <= j < s.drop_first().len() implies s.drop_first()[j] != sep by {
            assert(s[j + 1] != sep);
        }
        lemma_first_idx_none(s.drop_first(), sep);
    }
}

/// The pieces of `s` between separators, in order; `n` separators give
/// `n + 1` pieces.
pub open spec fn split_spec(s: Seq<u8>, sep: u8) -> Seq<Seq<u8>>
    decreases s.len(),
{
    let i = first_idx(s, sep);
    if i < 0 || i >= s.len() {
        seq![s]
    } else {
        seq![s.take(i)] + split_spec(s.skip(i + 1), sep)
    }
}

/// The views of a vector of byte vectors.
pub open spec fn pieces_view(v: Seq<Vec<u8>>) -> Seq<Seq<u8>> {
    v.map_values(|x: Vec<u8>| x@)
}

/// Splits `s` on `sep`.
pub fn split_by(s: &[u8], sep: u8) -> (r: Vec<Vec<u8>>)
    ensures
        pieces_view(r@) == split_spec(s@, sep),
        r@.len() >= 1,
    decreases s@.len(),
{
    let n = s.len();
    proof {
        assert(s@.len() == n);
        lemma_first_idx(s@, sep);
    }
    match find_byte(s, 0, sep) {
        None => {
            proof {
                lemma_first_idx_none(s@, sep);
            }
            let mut v: Vec<Vec<u8>> = Vec::new();
            v.push(vstd::slice::slice_to_vec(s));
            proof {
                assert(pieces_view(v@) =~= split_spec(s@, sep));
            }
            v
        }
        Some(i) => {
            proof {
                lemma_first_idx_at(s@, sep, i as int);
            }
            proof {
                assert(i < s@.len());
            }
            let head = vstd::slice::slice_to_vec(vstd::slice::slice_subrange(s, 0, i));
            let tail = vstd::slice::slice_subrange(s, i + 1, s.len());
            let mut rest = split_by(tail, sep);
            rest.insert(0, head);
            proof {
                assert(head@ == s@.take(i as int));
                assert(tail@ == s@.skip(i as int + 1));
                assert(pieces_view(rest@) =~= seq![s@.take(i as int)] + split_spec(
                    s@.skip(i as int + 1),
                    sep,
                )) by {
                    assert forall|x: int| 0 <= x < rest@.len() implies #[trigger] pieces_view(
                        rest@,
                    )[x] == (seq![s@.take(i as int)] + split_spec(s@.skip(i as int + 1), sep))[x]
                        by {
                        if x > 0 {
                            assert(pieces_view(rest@)[x] == rest@[x]@);
                            assert(pieces_view(rest@.skip(1))[x - 1] == rest@[x]@);
                        }
                    }
                }
            }
            rest
        }
    }
}

} // verus!
