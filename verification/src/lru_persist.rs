//! The on-disk form of the LRU index.
//!
//! Layout: a 32-bit version (always 1), a 64-bit entry count, then one
//! record per entry: a length byte, the serialized descriptor, and the
//! 64-bit last-access time. Multi-byte integers are little-endian. The
//! loader accepts exactly the byte strings this writer produces.
use vstd::prelude::*;
use crate::bytesutil::{append_bytes, dec_of, lemma_dec_of_canon, pow10};
use crate::cache::CacheEntry;
use crate::fileid::{parse_fileid, FileId};

verus! {

/// 256 to the `k`.
pub open spec fn pow256(k: nat) -> nat
    decreases k,
{
    if k == 0 {
        1
    } else {
        256 * pow256((k - 1) as nat)
    }
}

/// `k` little-endian bytes of `n`.
pub open spec fn le_bytes(n: nat, k: nat) -> Seq<u8>
    decreases k,
{
    if k == 0 {
        Seq::empty()
    } else {
        seq![(n % 256) as u8] + le_bytes(n / 256, (k - 1) as nat)
    }
}

/// Value of a little-endian byte string.
pub open spec fn le_val(s: Seq<u8>) -> nat
    decreases s.len(),
{
    if s.len() == 0 {
        0
    } else {
        (s[0] + 256 * le_val(s.drop_first())) as nat
    }
}

/// Writing then reading recovers the value.
pub proof fn lemma_le_round_trip(n: nat, k: nat)
    requires
        n < pow256(k),
    ensures
        le_bytes(n, k).len() == k,
        le_val(le_bytes(n, k)) == n,
    decreases k,
{
    if k > 0 {
        assert(n / 256 < pow256((k - 1) as nat)) by (nonlinear_arith)
            requires
                n < 256 * pow256((k - 1) as nat),
        ;
        lemma_le_round_trip(n / 256, (k - 1) as nat);
        let s = le_bytes(n, k);
        assert(s.drop_first() =~= le_bytes(n / 256, (k - 1) as nat));
        assert(n % 256 + 256 * (n / 256) == n);
    }
}

/// Values below 2^64 fit in eight bytes, entry counts in eight, the
/// version in four.
proof fn lemma_pow256_sizes()
    ensures
        pow256(8) == 0x1_0000_0000_0000_0000,
        pow256(4) == 0x1_0000_0000,
{
    reveal_with_fuel(pow256, 9);
}

/// Bound on a little-endian value from its length.
proof fn lemma_le_val_bound(s: Seq<u8>)
    ensures
        le_val(s) < pow256(s.len()),
    decreases s.len(),
{
    if s.len() == 0 {
    } else {
        lemma_le_val_bound(s.drop_first());
        assert(le_val(s) == s[0] + 256 * le_val(s.drop_first()));
        assert(s[0] < 256);
        assert(256 * le_val(s.drop_first()) + 256 <= 256 * pow256((s.len() - 1) as nat))
            by (nonlinear_arith)
            requires
                le_val(s.drop_first()) < pow256((s.len() - 1) as nat),
        ;
    }
}

/// Writes `k` little-endian bytes of `n`.
pub fn u64_to_le(n: u64, k: usize) -> (r: Vec<u8>)
    ensures
        r@ == le_bytes(n as nat, k as nat),
        r@.len() == k,
    decreases k,
{
    proof {
        lemma_le_len(n as nat, k as nat);
    }
    if k == 0 {
        Vec::new()
    } else {
        let mut v: Vec<u8> = Vec::new();
        v.push((n % 256) as u8);
        let rest = u64_to_le(n / 256, k - 1);
        append_bytes(&mut v, rest.as_slice());
        proof {
            assert(v@ =~= le_bytes(n as nat, k as nat));
        }
        v
    }
}

proof fn lemma_le_len(n: nat, k: nat)
    ensures
        le_bytes(n, k).len() == k,
    decreases k,
{
    if k > 0 {
        lemma_le_len(n / 256, (k - 1) as nat);
    }
}

/// Reads a little-endian value of at most eight bytes.
pub fn le_to_u64(s: &[u8]) -> (r: u64)
    requires
        s@.len() <= 8,
    ensures
        r as nat == le_val(s@),
    decreases s@.len(),
{
    proof {
        lemma_le_val_bound(s@);
        lemma_pow256_sizes();
        assert(pow256(s@.len()) <= pow256(8)) by {
            lemma_pow256_mono(s@.len(), 8);
        }
    }
    if s.len() == 0 {
        0
    } else {
        let rest = vstd::slice::slice_subrange(s, 1, s.len());
        let hi = le_to_u64(rest);
        proof {
            assert(s@.drop_first() =~= rest@);
            lemma_le_val_bound(rest@);
            lemma_pow256_mono(rest@.len(), 7);
            assert(pow256(7) * 256 == pow256(8)) by {
                lemma_pow256_unfold();
            }
            assert(256 * le_val(rest@) + 256 <= 256 * pow256(7)) by (nonlinear_arith)
                requires
                    le_val(rest@) < pow256(7),
            ;
        }
        s[0] as u64 + 256 * hi
    }
}

proof fn lemma_pow256_mono(a: nat, b: nat)
    requires
        a <= b,
    ensures
        pow256(a) <= pow256(b),
    decreases b,
{
    if a < b {
        lemma_pow256_mono(a, (b - 1) as nat);
        assert(pow256(b) == 256 * pow256((b - 1) as nat));
        assert(pow256((b - 1) as nat) <= 256 * pow256((b - 1) as nat)) by (nonlinear_arith)
            requires
                pow256((b - 1) as nat) >= 0,
        ;
    }
}

proof fn lemma_pow256_unfold()
    ensures
        pow256(8) == 256 * pow256(7),
{
}

/// A rendered descriptor is always shorter than a length byte allows.
pub proof fn lemma_render_len_bound(f: FileId)
    requires
        f.wf(),
    ensures
        47 <= f.render_of().len() <= 127,
{
    lemma_dec_len(f.size as nat);
    lemma_dec_len(f.width as nat);
    lemma_dec_len(f.height as nat);
    lemma_dec_of_canon(f.size as nat);
    lemma_dec_of_canon(f.width as nat);
    lemma_dec_of_canon(f.height as nat);
}

/// A `u64` has at most twenty decimal digits.
proof fn lemma_dec_len(n: nat)
    requires
        n <= 0xffff_ffff_ffff_ffff,
    ensures
        dec_of(n).len() <= 20,
{
    reveal_with_fuel(pow10, 21);
    assert(pow10(20) == 0x56bc75e2d6310_0000);
    lemma_dec_len_pow(n, 20);
}

/// Fewer than `pow10(d)` means at most `d` digits.
proof fn lemma_dec_len_pow(n: nat, d: nat)
    requires
        n < pow10(d),
        d >= 1,
    ensures
        dec_of(n).len() <= d,
    decreases d,
{
    if n < 10 {
    } else {
        assert(n / 10 < pow10((d - 1) as nat)) by (nonlinear_arith)
            requires
                n < 10 * pow10((d - 1) as nat),
        ;
        lemma_dec_len_pow(n / 10, (d - 1) as nat);
    }
}

/// One record: length byte, descriptor, time.
pub open spec fn ser_entry(e: CacheEntry) -> Seq<u8> {
    seq![e.id.render_of().len() as u8] + e.id.render_of() + le_bytes(e.last_access as nat, 8)
}

/// The records of all entries, in index order.
pub open spec fn ser_entries(s: Seq<CacheEntry>) -> Seq<u8>
    decreases s.len(),
{
    if s.len() == 0 {
        Seq::empty()
    } else {
        ser_entry(s.first()) + ser_entries(s.drop_first())
    }
}

/// The whole file: version 1, count, records.
pub open spec fn ser_index(s: Seq<CacheEntry>) -> Seq<u8> {
    le_bytes(1, 4) + le_bytes(s.len() as nat, 8) + ser_entries(s)
}

/// Do all entries hold well-formed descriptors?
pub open spec fn entries_wf(s: Seq<CacheEntry>) -> bool {
    forall|i: int| 0 <= i < s.len() ==> (#[trigger] s[i]).id.wf()
}

/// Entry-wise equality: same descriptors (by value) and same times.
pub open spec fn entries_eqv(a: Seq<CacheEntry>, b: Seq<CacheEntry>) -> bool {
    a.len() == b.len() && forall|i: int|
        0 <= i < a.len() ==> (#[trigger] a[i]).id.eqv(b[i].id) && a[i].last_access
            == b[i].last_access
}

/// Serializes the index for persistence.
pub fn serialize_index(entries: &Vec<CacheEntry>) -> (r: Vec<u8>)
    requires
        entries_wf(entries@),
    ensures
        r@ == ser_index(entries@),
{
    let mut v = u64_to_le(1, 4);
    let count = u64_to_le(entries.len() as u64, 8);
    append_bytes(&mut v, count.as_slice());
    let n = entries.len();
    let mut i: usize = 0;
    while i < n
        invariant
            entries_wf(entries@),
            i <= n,
            n == entries@.len(),
            v@ =~= le_bytes(1, 4) + le_bytes(entries@.len() as nat, 8) + ser_entries(
                entries@.take(i as int),
            ),
        decreases n - i,
    {
        proof {
            lemma_render_len_bound(entries@[i as int].id);
        }
        let rid = entries[i].id.render();
        v.push(rid.len() as u8);
        append_bytes(&mut v, rid.as_slice());
        let t = u64_to_le(entries[i].last_access, 8);
        append_bytes(&mut v, t.as_slice());
        proof {
            lemma_ser_entries_snoc(entries@.take(i as int + 1));
            assert(entries@.take(i as int + 1).drop_last() =~= entries@.take(i as int));
            assert(v@ =~= le_bytes(1, 4) + le_bytes(entries@.len() as nat, 8) + ser_entries(
                entries@.take(i as int + 1),
            ));
        }
        i = i + 1;
    }
    proof {
        assert(entries@.take(n as int) =~= entries@);
    }
    v
}

/// Records concatenate from either end.
proof fn lemma_ser_entries_snoc(s: Seq<CacheEntry>)
    requires
        s.len() > 0,
    ensures
        ser_entries(s) == ser_entries(s.drop_last()) + ser_entry(s.last()),
    decreases s.len(),
{
    if s.len() == 1 {
        assert(s.drop_first() =~= Seq::<CacheEntry>::empty());
        assert(s.drop_last() =~= Seq::<CacheEntry>::empty());
        assert(s.first() == s.last());
        assert(ser_entries(s) =~= ser_entry(s.first()) + ser_entries(s.drop_first()));
        assert(ser_entries(s) =~= ser_entries(s.drop_last()) + ser_entry(s.last()));
    } else {
        lemma_ser_entries_snoc(s.drop_first());
        assert(s.drop_first().drop_last() =~= s.drop_last().drop_first());
        assert(s.drop_first().last() == s.last());
        assert(s.drop_last().first() == s.first());
        assert(ser_entries(s.drop_last()) == ser_entry(s.first()) + ser_entries(
            s.drop_last().drop_first(),
        ));
        assert(ser_entries(s) =~= ser_entries(s.drop_last()) + ser_entry(s.last()));
    }
}

/// Reading a fixed-width field back gives the very bytes written.
proof fn lemma_le_bytes_of_val(x: Seq<u8>, k: nat)
    requires
        x.len() == k,
    ensures
        le_bytes(le_val(x), k) == x,
    decreases k,
{
    if k > 0 {
        lemma_le_bytes_of_val(x.drop_first(), (k - 1) as nat);
        let n = le_val(x);
        assert(n == x[0] + 256 * le_val(x.drop_first()));
        assert(n % 256 == x[0] && n / 256 == le_val(x.drop_first())) by (nonlinear_arith)
            requires
                n == x[0] + 256 * le_val(x.drop_first()),
                0 <= x[0] < 256,
        ;
        assert(le_bytes(n, k) =~= x);
    }
}

/// Every record takes at least 56 bytes.
proof fn lemma_ser_entries_min_len(s: Seq<CacheEntry>)
    requires
        entries_wf(s),
    ensures
        ser_entries(s).len() >= 56 * s.len(),
    decreases s.len(),
{
    if s.len() > 0 {
        assert(s[0].id.wf());
        lemma_render_len_bound(s.first().id);
        lemma_le_len(s.first().last_access as nat, 8);
        assert(ser_entry(s.first()).len() >= 56);
        assert(entries_wf(s.drop_first())) by {
            assert forall|i: int| 0 <= i < s.drop_first().len() implies (#[trigger] s.drop_first()[i]).id.wf() by {
                assert(s.drop_first()[i] == s[i + 1]);
            }
        }
        lemma_ser_entries_min_len(s.drop_first());
    }
}

/// The header bytes of any index file.
proof fn lemma_header_bytes()
    ensures
        le_bytes(1, 4) =~= seq![1u8, 0u8, 0u8, 0u8],
{
    reveal_with_fuel(le_bytes, 5);
    assert(le_bytes(1, 4) =~= seq![1u8] + le_bytes(0, 3));
    assert(le_bytes(0, 3) =~= seq![0u8] + le_bytes(0, 2));
    assert(le_bytes(0, 2) =~= seq![0u8] + le_bytes(0, 1));
    assert(le_bytes(0, 1) =~= seq![0u8] + le_bytes(0, 0));
}

/// Serialization respects entry-wise equality.
pub proof fn lemma_ser_respects_eqv(a: Seq<CacheEntry>, b: Seq<CacheEntry>)
    requires
        entries_eqv(a, b),
    ensures
        ser_index(a) == ser_index(b),
{
    lemma_ser_entries_respects_eqv(a, b);
}

proof fn lemma_ser_entries_respects_eqv(a: Seq<CacheEntry>, b: Seq<CacheEntry>)
    requires
        entries_eqv(a, b),
    ensures
        ser_entries(a) == ser_entries(b),
    decreases a.len(),
{
    if a.len() == 0 {
        assert(ser_entries(a) =~= ser_entries(b));
    } else {
        assert(entries_eqv(a.drop_first(), b.drop_first())) by {
            assert forall|i: int|
                0 <= i < a.drop_first().len() implies (#[trigger] a.drop_first()[i]).id.eqv(
                b.drop_first()[i].id,
            ) && a.drop_first()[i].last_access == b.drop_first()[i].last_access by {
                assert(a.drop_first()[i] == a[i + 1]);
                assert(b.drop_first()[i] == b[i + 1]);
                assert(a[i + 1].id.eqv(b[i + 1].id) && a[i + 1].last_access == b[i
                    + 1].last_access);
            }
        }
        lemma_ser_entries_respects_eqv(a.drop_first(), b.drop_first());
        assert(a[0].id.eqv(b[0].id) && a[0].last_access == b[0].last_access);
        assert(a.first().id.render_of() == b.first().id.render_of());
        assert(ser_entry(a.first()) == ser_entry(b.first()));
        assert(ser_entries(a) == ser_entries(b));
    }
}

/// Loads a persisted index.
///
/// Accepts exactly the output of `serialize_index`: on success the bytes
/// are the serialization of the result, and any index whose
/// serialization equals the input is entry-equal to the result.
#[verifier::rlimit(100)]
pub fn deserialize_index(b: &[u8]) -> (r: Option<Vec<CacheEntry>>)
    ensures
        r matches Some(v) ==> entries_wf(v@) && b@ == ser_index(v@),
        forall|s: Seq<CacheEntry>|
            entries_wf(s) && b@ == ser_index(s) ==> (r matches Some(v) && entries_eqv(v@, s)),
{
    let blen = b.len();
    proof {
        assert(b@.len() == blen);
        lemma_header_bytes();
        assert forall|s: Seq<CacheEntry>|
            entries_wf(s) && b@ == ser_index(s) implies #[trigger] ser_index(s).len() >= 12
            && s.len() * 56 <= b@.len() - 12 && s.len() < 0x1_0000_0000_0000_0000
            && b@.subrange(0, 4) == le_bytes(1, 4) && b@.subrange(4, 12) == le_bytes(
            s.len() as nat,
            8,
        ) && b@.subrange(12, b@.len() as int) == ser_entries(s) by {
            lemma_le_len(1, 4);
            lemma_le_len(s.len() as nat, 8);
            lemma_ser_entries_min_len(s);
            assert(b@ =~= (le_bytes(1, 4) + le_bytes(s.len() as nat, 8)) + ser_entries(s));
            assert(b@.len() == 12 + ser_entries(s).len());
            assert(b@.len() >= 12 + 56 * s.len());
            assert(s.len() * 56 == 56 * s.len()) by (nonlinear_arith);
            assert(b@.subrange(0, 4) =~= le_bytes(1, 4));
            assert(b@.subrange(4, 12) =~= le_bytes(s.len() as nat, 8));
            assert(b@.subrange(12, b@.len() as int) =~= ser_entries(s));
        }
    }
    if b.len() < 12 {
        return None;
    }
    if !(b[0] == 1 && b[1] == 0 && b[2] == 0 && b[3] == 0) {
        proof {
            assert forall|s: Seq<CacheEntry>|
                entries_wf(s) implies b@ != ser_index(s) by {
                if b@ == ser_index(s) {
                    assert(b@.subrange(0, 4)[0] == b@[0] && b@.subrange(0, 4)[1] == b@[1]
                        && b@.subrange(0, 4)[2] == b@[2] && b@.subrange(0, 4)[3] == b@[3]);
                    assert(false);
                }
            }
        }
        return None;
    }
    let cnt_b = vstd::slice::slice_subrange(b, 4, 12);
    let cnt64 = le_to_u64(cnt_b);
    let lim = ((b.len() - 12) / 56) as u64;
    proof {
        assert forall|s: Seq<CacheEntry>|
            entries_wf(s) && b@ == ser_index(s) implies cnt64 as nat == s.len() && cnt64
            <= lim by {
            lemma_pow256_sizes();
            lemma_le_round_trip(s.len() as nat, 8);
            assert(cnt_b@ == le_bytes(s.len() as nat, 8));
            assert(s.len() * 56 <= b@.len() - 12);
            assert(s.len() <= (b@.len() - 12) / 56) by (nonlinear_arith)
                requires
                    s.len() * 56 <= b@.len() - 12,
            ;
        }
    }
    if cnt64 > lim {
        proof {
            assert forall|s: Seq<CacheEntry>|
                entries_wf(s) implies b@ != ser_index(s) by {
                if b@ == ser_index(s) {
                    assert(false);
                }
            }
        }
        return None;
    }
    let count: usize = cnt64 as usize;
    let mut out: Vec<CacheEntry> = Vec::new();
    let mut pos: usize = 12;
    proof {
        lemma_le_bytes_of_val(cnt_b@, 8);
        assert(cnt_b@ == le_bytes(cnt64 as nat, 8));
        lemma_header_bytes();
        assert(b@.subrange(0, 4) =~= le_bytes(1, 4));
        assert(b@.subrange(0, 12) =~= b@.subrange(0, 4) + b@.subrange(4, 12));
        assert(ser_entries(out@) =~= Seq::<u8>::empty());
        assert(b@.subrange(0, 12) =~= le_bytes(1, 4) + le_bytes(cnt64 as nat, 8)
            + ser_entries(out@));
        assert forall|s: Seq<CacheEntry>|
            entries_wf(s) && b@ == ser_index(s) implies #[trigger] s.len() == count
            && entries_eqv(out@, s.take(out@.len() as int)) && b@.subrange(
            12,
            b@.len() as int,
        ) == ser_entries(s.skip(out@.len() as int)) by {
            assert(s.take(0) =~= Seq::<CacheEntry>::empty());
            assert(s.skip(0) =~= s);
        }
    }
    while out.len() < count
        invariant
            12 <= pos <= b@.len(),
            b@.len() >= 12,
            out@.len() <= count,
            count == cnt64 as nat,
            entries_wf(out@),
            b@.subrange(0, pos as int) == le_bytes(1, 4) + le_bytes(cnt64 as nat, 8)
                + ser_entries(out@),
            forall|s: Seq<CacheEntry>|
                entries_wf(s) && b@ == ser_index(s) ==> #[trigger] s.len() == count
                    && entries_eqv(out@, s.take(out@.len() as int)) && b@.subrange(
                    pos as int,
                    b@.len() as int,
                ) == ser_entries(s.skip(out@.len() as int)),
        decreases count - out@.len(),
    {
        let ghost k = out@.len() as int;
        proof {
            assert forall|s: Seq<CacheEntry>|
                entries_wf(s) && b@ == ser_index(s) implies #[trigger] ser_index(s).len() > 0
                && b@.len() - pos >= 1 + s[k].id.render_of().len() + 8 && b@[pos as int]
                == s[k].id.render_of().len() && b@.subrange(
                pos + 1,
                pos + 1 + s[k].id.render_of().len(),
            ) == s[k].id.render_of() && b@.subrange(
                pos + 1 + s[k].id.render_of().len(),
                pos + 1 + s[k].id.render_of().len() + 8,
            ) == le_bytes(s[k].last_access as nat, 8) && b@.subrange(
                pos + 1 + s[k].id.render_of().len() + 8,
                b@.len() as int,
            ) == ser_entries(s.skip(k + 1)) by {
                let rest = s.skip(k);
                assert(rest.len() == s.len() - k > 0);
                assert(rest.first() == s[k]);
                assert(rest.drop_first() =~= s.skip(k + 1));
                assert(ser_entries(rest) == ser_entry(s[k]) + ser_entries(s.skip(k + 1)));
                assert(s[k].id.wf());
                lemma_render_len_bound(s[k].id);
                lemma_le_len(s[k].last_access as nat, 8);
                let rl = s[k].id.render_of().len() as int;
                let tail = b@.subrange(pos as int, b@.len() as int);
                assert(tail == ser_entries(rest));
                assert(tail[0] == ser_entry(s[k])[0]);
                assert(ser_entry(s[k])[0] == rl);
                assert(b@[pos as int] == tail[0]);
                assert(b@.subrange(pos + 1, pos + 1 + rl) =~= s[k].id.render_of()) by {
                    assert forall|x: int| 0 <= x < rl implies b@.subrange(pos + 1, pos + 1 + rl)[x]
                        == s[k].id.render_of()[x] by {
                        assert(b@[pos + 1 + x] == tail[1 + x]);
                        assert(tail[1 + x] == ser_entry(s[k])[1 + x]);
                        assert(ser_entry(s[k])[1 + x] == s[k].id.render_of()[x]);
                    }
                }
                assert(b@.subrange(pos + 1 + rl, pos + 1 + rl + 8) =~= le_bytes(
                    s[k].last_access as nat,
                    8,
                )) by {
                    assert forall|x: int| 0 <= x < 8 implies b@.subrange(
                        pos + 1 + rl,
                        pos + 1 + rl + 8,
                    )[x] == le_bytes(s[k].last_access as nat, 8)[x] by {
                        assert(b@[pos + 1 + rl + x] == tail[1 + rl + x]);
                        assert(tail[1 + rl + x] == ser_entry(s[k])[1 + rl + x]);
                        assert(ser_entry(s[k])[1 + rl + x] == le_bytes(
                            s[k].last_access as nat,
                            8,
                        )[x]);
                    }
                }
                assert(b@.subrange(pos + 1 + rl + 8, b@.len() as int) =~= ser_entries(
                    s.skip(k + 1),
                )) by {
                    assert forall|x: int|
                        0 <= x < b@.len() - (pos + 1 + rl + 8) implies #[trigger] ser_entries(
                        s.skip(k + 1),
                    )[x] == b@.subrange(pos + 1 + rl + 8, b@.len() as int)[x] by {
                        assert(b@[pos + 1 + rl + 8 + x] == tail[1 + rl + 8 + x]);
                        assert(tail[1 + rl + 8 + x] == ser_entries(s.skip(k + 1))[x]);
                    }
                }
            }
        }
        if pos >= b.len() {
            proof {
                assert forall|s: Seq<CacheEntry>|
                    entries_wf(s) implies b@ != ser_index(s) by {
                    if b@ == ser_index(s) {
                        assert(false);
                    }
                }
            }
            return None;
        }
        let l = b[pos] as usize;
        if b.len() - pos < 1 + l + 8 {
            proof {
                assert forall|s: Seq<CacheEntry>|
                    entries_wf(s) implies b@ != ser_index(s) by {
                    if b@ == ser_index(s) {
                        assert(false);
                    }
                }
            }
            return None;
        }
        let idb = vstd::slice::slice_subrange(b, pos + 1, pos + 1 + l);
        let f = match parse_fileid(idb) {
            Some(f) => f,
            None => {
                proof {
                    assert forall|s: Seq<CacheEntry>|
                        entries_wf(s) implies b@ != ser_index(s) by {
                        if b@ == ser_index(s) {
                            assert(idb@ == s[k].id.render_of());
                            assert(false);
                        }
                    }
                }
                return None;
            }
        };
        let tb = vstd::slice::slice_subrange(b, pos + 1 + l, pos + 1 + l + 8);
        let tm = le_to_u64(tb);
        let e = CacheEntry { id: f, last_access: tm };
        proof {
            lemma_le_bytes_of_val(tb@, 8);
        }
        let ghost prev = out@;
        out.push(e);
        pos = pos + 1 + l + 8;
        proof {
            assert(out@.drop_last() =~= prev);
            lemma_ser_entries_snoc(out@);
            assert(idb@ == f.render_of());
            assert(ser_entry(e) =~= seq![l as u8] + idb@ + tb@);
            assert(b@.subrange(0, pos as int) =~= b@.subrange(0, (pos - 1 - l - 8) as int)
                + b@.subrange((pos - 1 - l - 8) as int, pos as int));
            assert(b@.subrange((pos - 1 - l - 8) as int, pos as int) =~= seq![l as u8] + idb@
                + tb@);
            assert(b@.subrange(0, pos as int) == le_bytes(1, 4) + le_bytes(cnt64 as nat, 8)
                + ser_entries(out@)) by {
                assert((le_bytes(1, 4) + le_bytes(cnt64 as nat, 8) + ser_entries(prev))
                    + ser_entry(e) =~= le_bytes(1, 4) + le_bytes(cnt64 as nat, 8) + (
                ser_entries(prev) + ser_entry(e)));
            }
            assert forall|s: Seq<CacheEntry>|
                entries_wf(s) && b@ == ser_index(s) implies #[trigger] s.len() == count
                && entries_eqv(out@, s.take(out@.len() as int)) && b@.subrange(
                pos as int,
                b@.len() as int,
            ) == ser_entries(s.skip(out@.len() as int)) by {
                assert(idb@ == s[k].id.render_of());
                crate::fileid::lemma_render_injective(f, s[k].id);
                assert(tb@ == le_bytes(s[k].last_access as nat, 8));
                lemma_pow256_sizes();
                lemma_le_round_trip(s[k].last_access as nat, 8);
                assert(tm == s[k].last_access);
                assert(entries_eqv(prev, s.take(k)));
                assert(entries_eqv(out@, s.take(k + 1))) by {
                    assert forall|i: int|
                        0 <= i < out@.len() implies (#[trigger] out@[i]).id.eqv(
                        s.take(k + 1)[i].id,
                    ) && out@[i].last_access == s.take(k + 1)[i].last_access by {
                        if i < k {
                            assert(out@[i] == prev[i]);
                            assert(prev[i].id.eqv(s.take(k)[i].id));
                            assert(s.take(k)[i] == s[i] && s.take(k + 1)[i] == s[i]);
                        } else {
                            assert(out@[i] == e);
                            assert(s.take(k + 1)[i] == s[k]);
                        }
                    }
                }
            }
        }
    }
    if pos != b.len() {
        proof {
            assert forall|s: Seq<CacheEntry>|
                entries_wf(s) implies b@ != ser_index(s) by {
                if b@ == ser_index(s) {
                    assert(s.len() == count);
                    assert(s.skip(out@.len() as int) =~= Seq::<CacheEntry>::empty());
                    assert(ser_entries(s.skip(out@.len() as int)).len() == 0);
                    assert(b@.subrange(pos as int, b@.len() as int).len() == 0);
                    assert(false);
                }
            }
        }
        return None;
    }
    proof {
        assert(b@.subrange(0, pos as int) =~= b@);
        assert(out@.len() == count);
        assert(b@ == ser_index(out@));
        assert forall|s: Seq<CacheEntry>|
            entries_wf(s) && b@ == ser_index(s) implies entries_eqv(out@, s) by {
            assert(s.take(out@.len() as int) =~= s);
        }
    }
    Some(out)
}

} // verus!
