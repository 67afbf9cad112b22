//! Byte-level building blocks: decimal rendering and parsing, hex digits.
//!
//! All serialized forms in this node (file descriptors, URL signatures,
//! persisted indexes) are ASCII byte strings, so the library works on
//! `Vec<u8>` throughout.
use vstd::prelude::*;

verus! {

/// Is `b` an ASCII decimal digit?
pub open spec fn is_dec_digit(b: u8) -> bool {
    0x30 <= b <= 0x39
}

/// Is `b` a lowercase hex digit (`0-9a-f`)?
pub open spec fn is_hex_digit(b: u8) -> bool {
    (0x30 <= b <= 0x39) || (0x61 <= b <= 0x66)
}

/// Every byte of `s` is a decimal digit.
pub open spec fn all_dec_digits(s: Seq<u8>) -> bool {
    forall|i: int| 0 <= i < s.len() ==> is_dec_digit(s[i])
}

/// Every byte of `s` is a lowercase hex digit.
pub open spec fn all_hex_digits(s: Seq<u8>) -> bool {
    forall|i: int| 0 <= i < s.len() ==> is_hex_digit(s[i])
}

/// Numeric value of a digit string, most significant first.
pub open spec fn dec_val(s: Seq<u8>) -> nat
    decreases s.len(),
{
    if s.len() == 0 {
        0
    } else {
        (dec_val(s.drop_last()) * 10 + (s.last() - 0x30)) as nat
    }
}

/// The canonical decimal rendering of a number: nonempty, all digits,
/// no leading zero (except for the single digit `0`).
pub open spec fn is_canon_dec(s: Seq<u8>) -> bool {
    &&& s.len() > 0
    &&& all_dec_digits(s)
    &&& (s[0] == 0x30 ==> s.len() == 1)
}

/// Appending one digit multiplies the value by ten and adds the digit.
proof fn lemma_dec_val_push(s: Seq<u8>, d: u8)
    requires
        is_dec_digit(d),
    ensures
        dec_val(s.push(d)) == dec_val(s) * 10 + (d - 0x30),
{
    assert(s.push(d).drop_last() =~= s);
}

/// The value of a digit string grows with its length: a prefix with one
/// more nonzero leading digit dominates.
proof fn lemma_dec_val_bound(s: Seq<u8>)
    requires
        all_dec_digits(s),
        s.len() > 0,
        s[0] != 0x30,
    ensures
        dec_val(s) >= pow10((s.len() - 1) as nat),
    decreases s.len(),
{
    if s.len() == 1 {
        assert(dec_val(s.drop_last()) == 0);
    } else {
        lemma_dec_val_bound(s.drop_last());
    }
}

/// Ten to the `n`.
pub open spec fn pow10(n: nat) -> nat
    decreases n,
{
    if n == 0 {
        1
    } else {
        10 * pow10((n - 1) as nat)
    }
}

/// Renders `n` in decimal, most significant digit first.
pub open spec fn dec_of(n: nat) -> Seq<u8>
    decreases n,
{
    if n < 10 {
        seq![(0x30 + n) as u8]
    } else {
        dec_of(n / 10).push((0x30 + n % 10) as u8)
    }
}

/// The canonical rendering really is canonical and evaluates back to `n`.
pub proof fn lemma_dec_of_canon(n: nat)
    ensures
        is_canon_dec(dec_of(n)),
        dec_val(dec_of(n)) == n,
    decreases n,
{
    if n < 10 {
        let s = dec_of(n);
        assert(s.drop_last() =~= Seq::<u8>::empty());
        assert(dec_val(s) == dec_val(Seq::<u8>::empty()) * 10 + (s.last() - 0x30));
    } else {
        lemma_dec_of_canon(n / 10);
        lemma_dec_val_push(dec_of(n / 10), (0x30 + n % 10) as u8);
        let p = dec_of(n / 10);
        let s = dec_of(n);
        assert(s[0] == p[0]);
        if p[0] == 0x30 {
            assert(p.drop_last() =~= Seq::<u8>::empty());
            assert(dec_val(Seq::<u8>::empty()) == 0);
            assert(p.last() == p[0]);
            assert(dec_val(p) == (dec_val(p.drop_last()) * 10 + (p.last() - 0x30)) as nat);
            assert(dec_val(p) == 0);
        }
        assert forall|i: int| 0 <= i < s.len() implies is_dec_digit(s[i]) by {
            if i < p.len() {
                assert(is_dec_digit(p[i]));
            }
        }
    }
}

/// Renders `n` as its canonical decimal digit string.
pub fn u64_to_dec(n: u64) -> (r: Vec<u8>)
    ensures
        r@ == dec_of(n as nat),
    decreases n,
{
    if n < 10 {
        let mut v: Vec<u8> = Vec::new();
        v.push(0x30 + n as u8);
        proof {
            assert(v@ =~= dec_of(n as nat));
        }
        v
    } else {
        let mut v = u64_to_dec(n / 10);
        v.push(0x30 + (n % 10) as u8);
        proof {
            assert(v@ =~= dec_of(n as nat));
        }
        v
    }
}

/// Parses a canonical decimal digit string.
///
/// Returns the value when `s` is the canonical rendering of some `u64`,
/// and `None` on anything else: empty input, a non-digit, a leading
/// zero, or a value above `u64::MAX`.
pub fn parse_u64_dec(s: &[u8]) -> (r: Option<u64>)
    ensures
        r matches Some(n) ==> s@ == dec_of(n as nat),
        (is_canon_dec(s@) && dec_val(s@) <= u64::MAX) ==> r == Some((dec_val(s@)) as u64),
        r is None ==> !(is_canon_dec(s@) && dec_val(s@) <= u64::MAX),
{
    if s.len() == 0 {
        return None;
    }
    if s[0] == 0x30 && s.len() > 1 {
        return None;
    }
    let mut acc: u64 = 0;
    let mut i: usize = 0;
    while i < s.len()
        invariant
            i <= s@.len(),
            s@.len() > 0,
            s@[0] == 0x30 ==> s@.len() == 1,
            all_dec_digits(s@.subrange(0, i as int)),
            acc as nat == dec_val(s@.subrange(0, i as int)),
        decreases s@.len() - i,
    {
        let b = s[i];
        if b < 0x30 || b > 0x39 {
            proof {
                assert(!all_dec_digits(s@)) by {
                    assert(!is_dec_digit(s@[i as int]));
                }
            }
            return None;
        }
        let d: u64 = (b - 0x30) as u64;
        let lim: u64 = (u64::MAX - d) / 10;
        proof {
            assert((u64::MAX - d) / 10 * 10 + (u64::MAX - d) % 10 == u64::MAX - d);
            let pre = s@.subrange(0, i as int + 1);
            assert(pre.drop_last() =~= s@.subrange(0, i as int));
            assert(dec_val(pre) == (acc * 10 + d) as nat);
        }
        if acc > lim {
            proof {
                if is_canon_dec(s@) && dec_val(s@) <= u64::MAX {
                    lemma_prefix_val_le(s@, i as int + 1);
                    assert(acc * 10 >= lim * 10 + 10);
                    assert(false);
                }
            }
            return None;
        }
        proof {
            assert(acc * 10 <= lim * 10);
        }
        acc = acc * 10 + d;
        i = i + 1;
    }
    proof {
        assert(s@.subrange(0, s@.len() as int) =~= s@);
        lemma_dec_canon_unique(s@, acc as nat);
    }
    Some(acc)
}

/// The value of a digit string is at least the value of any of its prefixes.
proof fn lemma_prefix_val_le(s: Seq<u8>, i: int)
    requires
        0 <= i <= s.len(),
        all_dec_digits(s.subrange(0, s.len() as int)),
    ensures
        dec_val(s.subrange(0, i)) <= dec_val(s),
    decreases s.len() - i,
{
    assert(s.subrange(0, s.len() as int) =~= s);
    if i < s.len() {
        let p = s.subrange(0, i + 1);
        assert(p.drop_last() =~= s.subrange(0, i));
        assert(dec_val(s.subrange(0, i)) <= dec_val(p));
        lemma_prefix_val_le(s, i + 1);
    }
}

/// A canonical digit string is the canonical rendering of its value.
pub proof fn lemma_dec_canon_unique(s: Seq<u8>, n: nat)
    requires
        is_canon_dec(s),
        dec_val(s) == n,
    ensures
        dec_of(n) == s,
    decreases s.len(),
{
    if s.len() == 1 {
        assert(dec_val(s.drop_last()) == 0);
        assert(n < 10);
        assert(dec_of(n) =~= s);
    } else {
        let p = s.drop_last();
        assert(n == dec_val(p) * 10 + (s.last() - 0x30));
        assert(n % 10 == s.last() - 0x30 && n / 10 == dec_val(p)) by {
            assert(0 <= s.last() - 0x30 < 10);
        }
        assert(p[0] != 0x30);
        lemma_dec_val_bound(p);
        assert(pow10((p.len() - 1) as nat) >= 1) by {
            lemma_pow10_pos((p.len() - 1) as nat);
        }
        assert(n >= 10);
        lemma_dec_canon_unique(p, dec_val(p));
        assert(dec_of(n) =~= dec_of(n / 10).push((0x30 + n % 10) as u8));
        assert(dec_of(n) =~= s);
    }
}

proof fn lemma_pow10_pos(n: nat)
    ensures
        pow10(n) >= 1,
    decreases n,
{
    if n > 0 {
        lemma_pow10_pos((n - 1) as nat);
    }
}

/// Decimal rendering of a possibly negative number: a `-` sign, then digits.
pub open spec fn sdec_of(n: int) -> Seq<u8> {
    if n < 0 {
        seq![0x2du8] + dec_of((-n) as nat)
    } else {
        dec_of(n as nat)
    }
}

/// Renders a signed number in decimal.
pub fn i64_to_dec(n: i64) -> (r: Vec<u8>)
    ensures
        r@ == sdec_of(n as int),
{
    if n >= 0 {
        u64_to_dec(n as u64)
    } else {
        let m: u64 = (-(n as i128)) as u64;
        let mut v: Vec<u8> = Vec::new();
        v.push(0x2d);
        let d = u64_to_dec(m);
        append_bytes(&mut v, d.as_slice());
        proof {
            assert(v@ =~= sdec_of(n as int));
        }
        v
    }
}

/// Appends `s` to `v`.
pub fn append_bytes(v: &mut Vec<u8>, s: &[u8])
    ensures
        final(v)@ == old(v)@ + s@,
{
    let mut i: usize = 0;
    while i < s.len()
        invariant
            i <= s@.len(),
            v@ =~= old(v)@ + s@.subrange(0, i as int),
        decreases s@.len() - i,
    {
        v.push(s[i]);
        i = i + 1;
    }
    proof {
        assert(s@.subrange(0, s@.len() as int) =~= s@);
    }
}

/// Byte-for-byte equality of two slices.
pub fn bytes_eq(a: &[u8], b: &[u8]) -> (r: bool)
    ensures
        r == (a@ == b@),
{
    if a.len() != b.len() {
        return false;
    }
    let mut i: usize = 0;
    while i < a.len()
        invariant
            i <= a@.len(),
            a@.len() == b@.len(),
            forall|j: int| 0 <= j < i ==> a@[j] == b@[j],
        decreases a@.len() - i,
    {
        if a[i] != b[i] {
            return false;
        }
        i = i + 1;
    }
    proof {
        assert(a@ =~= b@);
    }
    true
}

/// Are all bytes lowercase hex digits?
pub fn all_hex(s: &[u8]) -> (r: bool)
    ensures
        r == all_hex_digits(s@),
{
    let mut i: usize = 0;
    while i < s.len()
        invariant
            i <= s@.len(),
            forall|j: int| 0 <= j < i ==> is_hex_digit(s@[j]),
        decreases s@.len() - i,
    {
        let b = s[i];
        if !((0x30 <= b && b <= 0x39) || (0x61 <= b && b <= 0x66)) {
            proof {
                assert(!is_hex_digit(s@[i as int]));
            }
            return false;
        }
        i = i + 1;
    }
    true
}

/// Index of the first occurrence of `b` in `s` at or after `from`.
pub fn find_byte(s: &[u8], from: usize, b: u8) -> (r: Option<usize>)
    requires
        from <= s@.len(),
    ensures
        r matches Some(i) ==> from <= i < s@.len() && s@[i as int] == b && (forall|j: int|
            from <= j < i ==> s@[j] != b),
        r is None ==> forall|j: int| from <= j < s@.len() ==> s@[j] != b,
{
    let mut i: usize = from;
    while i < s.len()
        invariant
            from <= i <= s@.len(),
            forall|j: int| from <= j < i ==> s@[j] != b,
        decreases s@.len() - i,
    {
        if s[i] == b {
            return Some(i);
        }
        i = i + 1;
    }
    None
}

} // verus!
