//! File descriptors: the primary key of every cached object.
//!
//! A descriptor holds a 40-hex-digit content hash, the byte size, the
//! pixel dimensions, and a format tag. Its serialized form is
//! `hash-size-width-height-format`, and the parser accepts exactly the
//! strings that some well-formed descriptor renders to.
use vstd::prelude::*;
use crate::bytesutil::{
    all_hex, all_hex_digits, append_bytes, bytes_eq, dec_of, dec_val, find_byte, is_dec_digit,
    lemma_dec_of_canon, parse_u64_dec, u64_to_dec,
};

verus! {

/// The image formats this node serves; anything else is rejected.
#[derive(Clone, Copy, PartialEq, Eq, Structural, Debug)]
pub enum ImageFormat {
    Jpg,
    Png,
    Gif,
    Wbm,
}

/// The ASCII tag of a format, as it appears in serialized descriptors.
pub open spec fn tag_of(f: ImageFormat) -> Seq<u8> {
    match f {
        ImageFormat::Jpg => seq![0x6au8, 0x70u8, 0x67u8],
        ImageFormat::Png => seq![0x70u8, 0x6eu8, 0x67u8],
        ImageFormat::Gif => seq![0x67u8, 0x69u8, 0x66u8],
        ImageFormat::Wbm => seq![0x77u8, 0x62u8, 0x6du8],
    }
}

/// Renders the format tag.
pub fn format_tag(f: ImageFormat) -> (r: Vec<u8>)
    ensures
        r@ == tag_of(f),
{
    let mut v: Vec<u8> = Vec::new();
    match f {
        ImageFormat::Jpg => {
            v.push(0x6a);
            v.push(0x70);
            v.push(0x67);
        }
        ImageFormat::Png => {
            v.push(0x70);
            v.push(0x6e);
            v.push(0x67);
        }
        ImageFormat::Gif => {
            v.push(0x67);
            v.push(0x69);
            v.push(0x66);
        }
        ImageFormat::Wbm => {
            v.push(0x77);
            v.push(0x62);
            v.push(0x6d);
        }
    }
    proof {
        assert(v@ =~= tag_of(f));
    }
    v
}

/// Parses a format tag: returns the format iff `s` is exactly one tag.
pub fn parse_format(s: &[u8]) -> (r: Option<ImageFormat>)
    ensures
        r matches Some(f) ==> s@ == tag_of(f),
        r is None ==> forall|f: ImageFormat| s@ != tag_of(f),
{
    if s.len() != 3 {
        proof {
            assert forall|f: ImageFormat| s@ != tag_of(f) by {
                assert(tag_of(f).len() == 3);
            }
        }
        return None;
    }
    let b0 = s[0];
    let b1 = s[1];
    let b2 = s[2];
    let r = if b0 == 0x6a && b1 == 0x70 && b2 == 0x67 {
        Some(ImageFormat::Jpg)
    } else if b0 == 0x70 && b1 == 0x6e && b2 == 0x67 {
        Some(ImageFormat::Png)
    } else if b0 == 0x67 && b1 == 0x69 && b2 == 0x66 {
        Some(ImageFormat::Gif)
    } else if b0 == 0x77 && b1 == 0x62 && b2 == 0x6d {
        Some(ImageFormat::Wbm)
    } else {
        None
    };
    proof {
        if r is Some {
            assert(s@ =~= tag_of(r->0));
        } else {
            assert forall|f: ImageFormat| s@ != tag_of(f) by {
                assert(s@[0] == b0 && s@[1] == b1 && s@[2] == b2);
            }
        }
    }
    r
}

/// A content-addressed file descriptor.
pub struct FileId {
    /// 40 lowercase hex digits: the SHA-1 of the file's contents.
    pub hash: Vec<u8>,
    /// Exact length of the file in bytes.
    pub size: u64,
    pub width: u64,
    pub height: u64,
    pub format: ImageFormat,
}

impl FileId {
    /// Field-wise equality: same hash bytes, dimensions, size and format.
    pub open spec fn eqv(self, other: FileId) -> bool {
        &&& self.hash@ == other.hash@
        &&& self.size == other.size
        &&& self.width == other.width
        &&& self.height == other.height
        &&& self.format == other.format
    }

    /// Well-formedness: the hash is exactly 40 lowercase hex digits.
    pub open spec fn wf(&self) -> bool {
        &&& self.hash@.len() == 40
        &&& all_hex_digits(self.hash@)
    }

    /// The serialized form `hash-size-width-height-format`.
    pub open spec fn render_of(&self) -> Seq<u8> {
        self.hash@ + seq![0x2du8] + dec_of(self.size as nat) + seq![0x2du8] + dec_of(
            self.width as nat,
        ) + seq![0x2du8] + dec_of(self.height as nat) + seq![0x2du8] + tag_of(self.format)
    }

    /// Renders the descriptor to its serialized form.
    pub fn render(&self) -> (r: Vec<u8>)
        ensures
            r@ == self.render_of(),
    {
        let mut v: Vec<u8> = Vec::new();
        append_bytes(&mut v, self.hash.as_slice());
        v.push(0x2d);
        let d = u64_to_dec(self.size);
        append_bytes(&mut v, d.as_slice());
        v.push(0x2d);
        let d = u64_to_dec(self.width);
        append_bytes(&mut v, d.as_slice());
        v.push(0x2d);
        let d = u64_to_dec(self.height);
        append_bytes(&mut v, d.as_slice());
        v.push(0x2d);
        let t = format_tag(self.format);
        append_bytes(&mut v, t.as_slice());
        proof {
            assert(v@ =~= self.render_of());
        }
        v
    }

    /// Structural equality.
    pub fn same(&self, other: &FileId) -> (r: bool)
        ensures
            r == (self.hash@ == other.hash@ && self.size == other.size && self.width
                == other.width && self.height == other.height && self.format == other.format),
    {
        bytes_eq(self.hash.as_slice(), other.hash.as_slice()) && self.size == other.size
            && self.width == other.width && self.height == other.height && self.format
            == other.format
    }

    pub fn clone_id(&self) -> (r: FileId)
        ensures
            r.eqv(*self),
            r.wf() == self.wf(),
    {
        FileId {
            hash: vstd::slice::slice_to_vec(self.hash.as_slice()),
            size: self.size,
            width: self.width,
            height: self.height,
            format: self.format,
        }
    }
}

/// The rendering, regrouped around its first separator.
proof fn lemma_render_decomp(f: FileId)
    ensures
        f.render_of() == f.hash@ + seq![0x2du8] + (dec_of(f.size as nat) + seq![0x2du8]
            + tail1_of(f)),
{
    assert(f.render_of() =~= f.hash@ + seq![0x2du8] + (dec_of(f.size as nat) + seq![0x2du8]
        + tail1_of(f)));
}

/// Two well-formed descriptors with the same serialized form are equal.
///
/// Together with the parser's contract this gives the round trip: parse,
/// render, reparse yields the descriptor unchanged.
pub proof fn lemma_render_injective(a: FileId, b: FileId)
    requires
        a.wf(),
        b.wf(),
        a.render_of() == b.render_of(),
    ensures
        a.eqv(b),
{
    lemma_render_decomp(a);
    lemma_render_decomp(b);
    lemma_dec_of_canon(a.size as nat);
    lemma_dec_of_canon(b.size as nat);
    lemma_dec_of_canon(a.width as nat);
    lemma_dec_of_canon(b.width as nat);
    lemma_dec_of_canon(a.height as nat);
    lemma_dec_of_canon(b.height as nat);
    lemma_sep_unique(
        a.hash@,
        dec_of(a.size as nat) + seq![0x2du8] + tail1_of(a),
        b.hash@,
        dec_of(b.size as nat) + seq![0x2du8] + tail1_of(b),
    );
    lemma_sep_unique(dec_of(a.size as nat), tail1_of(a), dec_of(b.size as nat), tail1_of(b));
    assert(a.size == b.size) by {
        assert(dec_val(dec_of(a.size as nat)) == dec_val(dec_of(b.size as nat)));
    }
    lemma_sep_unique(dec_of(a.width as nat), tail2_of(a), dec_of(b.width as nat), tail2_of(b));
    assert(a.width == b.width) by {
        assert(dec_val(dec_of(a.width as nat)) == dec_val(dec_of(b.width as nat)));
    }
    lemma_sep_unique(
        dec_of(a.height as nat),
        tag_of(a.format),
        dec_of(b.height as nat),
        tag_of(b.format),
    );
    assert(a.height == b.height) by {
        assert(dec_val(dec_of(a.height as nat)) == dec_val(dec_of(b.height as nat)));
    }
    assert(a.format == b.format) by {
        if a.format != b.format {
            assert(tag_of(a.format)[0] != tag_of(b.format)[0] || tag_of(a.format)[1] != tag_of(
                b.format,
            )[1] || tag_of(a.format)[2] != tag_of(b.format)[2]);
        }
    }
}

/// No decimal digit and no format-tag byte is the separator `-`.
proof fn lemma_tag_no_sep(f: ImageFormat)
    ensures
        forall|i: int| 0 <= i < tag_of(f).len() ==> tag_of(f)[i] != 0x2d,
        tag_of(f).len() == 3,
{
}

/// A `-`-separated pair splits uniquely when the left part holds no `-`.
#[verifier::rlimit(50)]
proof fn lemma_sep_unique(a1: Seq<u8>, r1: Seq<u8>, a2: Seq<u8>, r2: Seq<u8>)
    requires
        forall|i: int| 0 <= i < a1.len() ==> a1[i] != 0x2d,
        forall|i: int| 0 <= i < a2.len() ==> a2[i] != 0x2d,
        a1 + seq![0x2du8] + r1 == a2 + seq![0x2du8] + r2,
    ensures
        a1 == a2,
        r1 == r2,
{
    let s = a1 + seq![0x2du8] + r1;
    let t = a2 + seq![0x2du8] + r2;
    assert(s[a1.len() as int] == 0x2d);
    assert(t[a2.len() as int] == 0x2d);
    if a1.len() < a2.len() {
        assert(t[a1.len() as int] == a2[a1.len() as int]);
        assert(s[a1.len() as int] == t[a1.len() as int]);
        assert(false);
    }
    if a2.len() < a1.len() {
        assert(s[a2.len() as int] == a1[a2.len() as int]);
        assert(s[a2.len() as int] == t[a2.len() as int]);
        assert(false);
    }
    assert(a1 =~= s.subrange(0, a1.len() as int));
    assert(a2 =~= t.subrange(0, a2.len() as int));
    assert(r1 =~= s.subrange(a1.len() as int + 1, s.len() as int));
    assert(r2 =~= t.subrange(a2.len() as int + 1, t.len() as int));
}

/// Does `q` satisfy the contract of `find_byte(s, from, 0x2d)`?
pub(crate) open spec fn sep_found(s: Seq<u8>, from: int, q: Option<usize>) -> bool {
    match q {
        Some(i) => from <= i < s.len() && s[i as int] == 0x2d && (forall|j: int|
            from <= j < i ==> s[j] != 0x2d),
        None => forall|j: int| from <= j < s.len() ==> s[j] != 0x2d,
    }
}

/// Where the tail at `start` is a decimal field, a separator, and a rest,
/// the first separator at or after `start` closes exactly the field.
#[verifier::rlimit(50)]
pub(crate) proof fn lemma_seg(s: Seq<u8>, start: int, n: nat, rest: Seq<u8>, q: Option<usize>)
    requires
        0 <= start <= s.len(),
        s.subrange(start, s.len() as int) == dec_of(n) + seq![0x2du8] + rest,
        sep_found(s, start, q),
    ensures
        q matches Some(i) && i == start + dec_of(n).len(),
        s.subrange(start, start + dec_of(n).len() as int) == dec_of(n),
        s.subrange(start + dec_of(n).len() + 1, s.len() as int) == rest,
{
    lemma_dec_of_canon(n);
    let d = dec_of(n);
    let tail = s.subrange(start, s.len() as int);
    let li = start + d.len() as int;
    assert(tail.len() == d.len() + 1 + rest.len()) by {
        assert(tail == d + seq![0x2du8] + rest);
    }
    assert(tail =~= (d + seq![0x2du8]) + rest);
    assert(tail[d.len() as int] == (d + seq![0x2du8])[d.len() as int]);
    assert((d + seq![0x2du8])[d.len() as int] == seq![0x2du8][0]);
    assert(s[li] == tail[d.len() as int]);
    assert(tail[d.len() as int] == 0x2d);
    assert forall|j: int| start <= j < li implies s[j] != 0x2d by {
        assert(s[j] == tail[j - start]);
        assert(tail[j - start] == d[j - start]);
        assert(is_dec_digit(d[j - start]));
    }
    if q is None {
        assert(s[li] == 0x2d);
        assert(false);
    }
    let i = q->0;
    if i < li {
        assert(s[i as int] != 0x2d);
        assert(false);
    }
    if i > li {
        assert(s[li] != 0x2d);
        assert(false);
    }
    assert(s.subrange(start, li) =~= d) by {
        assert forall|j: int| 0 <= j < d.len() implies s.subrange(start, li)[j] == d[j] by {
            assert(s[start + j] == tail[j]);
        }
    }
    assert(s.subrange(li + 1, s.len() as int) =~= rest) by {
        assert forall|j: int| 0 <= j < rest.len() implies s.subrange(li + 1, s.len() as int)[j]
            == rest[j] by {
            assert(s[li + 1 + j] == tail[d.len() + 1 + j]);
        }
    }
}

/// The tail of `f`'s rendering after the size field: width, height, tag.
spec fn tail1_of(f: FileId) -> Seq<u8> {
    dec_of(f.width as nat) + seq![0x2du8] + tail2_of(f)
}

/// The tail after the width field: height and tag.
spec fn tail2_of(f: FileId) -> Seq<u8> {
    dec_of(f.height as nat) + seq![0x2du8] + tag_of(f.format)
}

/// Parses a serialized descriptor.
///
/// Returns `Some(f)` iff the input is the serialized form of a (unique)
/// well-formed descriptor `f`; rejects everything else.
#[verifier::rlimit(100)]
pub fn parse_fileid(s: &[u8]) -> (r: Option<FileId>)
    ensures
        r matches Some(f) ==> f.wf() && s@ == f.render_of(),
        r is None ==> forall|f: FileId| f.wf() ==> s@ != f.render_of(),
{
    if s.len() < 47 {
        proof {
            assert forall|f: FileId| f.wf() implies s@ != f.render_of() by {
                lemma_dec_of_canon(f.size as nat);
                lemma_dec_of_canon(f.width as nat);
                lemma_dec_of_canon(f.height as nat);
                assert(f.render_of().len() >= 47);
            }
        }
        return None;
    }
    let hash_part = vstd::slice::slice_subrange(s, 0, 40);
    if !all_hex(hash_part) {
        proof {
            assert forall|f: FileId| f.wf() implies s@ != f.render_of() by {
                if s@ == f.render_of() {
                    assert(f.hash@ =~= s@.subrange(0, 40));
                    assert(false);
                }
            }
        }
        return None;
    }
    if s[40] != 0x2d {
        proof {
            assert forall|f: FileId| f.wf() implies s@ != f.render_of() by {
                if s@ == f.render_of() {
                    assert(s@[40] == f.hash@.len() as int == 40);
                    assert(f.render_of()[40] == 0x2d);
                    assert(false);
                }
            }
        }
        return None;
    }
    let q1_opt = find_byte(s, 41, 0x2d);
    proof {
        assert forall|f: FileId| #![trigger f.render_of()]
            f.wf() && s@ == f.render_of() implies (q1_opt matches Some(i) && i == 41 + dec_of(
            f.size as nat,
        ).len() && s@.subrange(41, i as int) == dec_of(f.size as nat) && s@.subrange(
            i + 1,
            s@.len() as int,
        ) == tail1_of(f)) by {
            assert(s@.subrange(41, s@.len() as int) =~= dec_of(f.size as nat) + seq![0x2du8]
                + tail1_of(f));
            lemma_seg(s@, 41, f.size as nat, tail1_of(f), q1_opt);
        }
    }
    let q1 = match q1_opt {
        Some(i) => i,
        None => {
            proof {
                assert forall|f: FileId| f.wf() implies s@ != f.render_of() by {
                    if s@ == f.render_of() {
                        assert(false);
                    }
                }
            }
            return None;
        }
    };
    let seg1 = vstd::slice::slice_subrange(s, 41, q1);
    let size = match parse_u64_dec(seg1) {
        Some(n) => n,
        None => {
            proof {
                assert forall|f: FileId| f.wf() implies s@ != f.render_of() by {
                    if s@ == f.render_of() {
                        lemma_dec_of_canon(f.size as nat);
                        assert(seg1@ == dec_of(f.size as nat));
                        assert(false);
                    }
                }
            }
            return None;
        }
    };
    let q2_opt = find_byte(s, q1 + 1, 0x2d);
    proof {
        assert forall|f: FileId| #![trigger f.render_of()]
            f.wf() && s@ == f.render_of() implies (q2_opt matches Some(i) && i == q1 + 1
            + dec_of(f.width as nat).len() && s@.subrange(q1 + 1, i as int) == dec_of(
            f.width as nat,
        ) && s@.subrange(i + 1, s@.len() as int) == tail2_of(f)) by {
            assert(s@.subrange(q1 + 1, s@.len() as int) =~= dec_of(f.width as nat)
                + seq![0x2du8] + tail2_of(f)) by {
                assert(s@.subrange(q1 + 1, s@.len() as int) == tail1_of(f));
                assert(tail1_of(f) =~= dec_of(f.width as nat) + seq![0x2du8] + tail2_of(f));
            }
            lemma_seg(s@, q1 + 1, f.width as nat, tail2_of(f), q2_opt);
        }
    }
    let q2 = match q2_opt {
        Some(i) => i,
        None => {
            proof {
                assert forall|f: FileId| f.wf() implies s@ != f.render_of() by {
                    if s@ == f.render_of() {
                        assert(false);
                    }
                }
            }
            return None;
        }
    };
    let seg2 = vstd::slice::slice_subrange(s, q1 + 1, q2);
    let width = match parse_u64_dec(seg2) {
        Some(n) => n,
        None => {
            proof {
                assert forall|f: FileId| f.wf() implies s@ != f.render_of() by {
                    if s@ == f.render_of() {
                        lemma_dec_of_canon(f.width as nat);
                        assert(seg2@ == dec_of(f.width as nat));
                        assert(false);
                    }
                }
            }
            return None;
        }
    };
    let q3_opt = find_byte(s, q2 + 1, 0x2d);
    proof {
        assert forall|f: FileId| #![trigger f.render_of()]
            f.wf() && s@ == f.render_of() implies (q3_opt matches Some(i) && i == q2 + 1
            + dec_of(f.height as nat).len() && s@.subrange(q2 + 1, i as int) == dec_of(
            f.height as nat,
        ) && s@.subrange(i + 1, s@.len() as int) == tag_of(f.format)) by {
            assert(s@.subrange(q2 + 1, s@.len() as int) =~= dec_of(f.height as nat)
                + seq![0x2du8] + tag_of(f.format)) by {
                assert(s@.subrange(q2 + 1, s@.len() as int) == tail2_of(f));
                assert(tail2_of(f) =~= dec_of(f.height as nat) + seq![0x2du8] + tag_of(
                    f.format,
                ));
            }
            lemma_seg(s@, q2 + 1, f.height as nat, tag_of(f.format), q3_opt);
        }
    }
    let q3 = match q3_opt {
        Some(i) => i,
        None => {
            proof {
                assert forall|f: FileId| f.wf() implies s@ != f.render_of() by {
                    if s@ == f.render_of() {
                        assert(false);
                    }
                }
            }
            return None;
        }
    };
    let seg3 = vstd::slice::slice_subrange(s, q2 + 1, q3);
    let height = match parse_u64_dec(seg3) {
        Some(n) => n,
        None => {
            proof {
                assert forall|f: FileId| f.wf() implies s@ != f.render_of() by {
                    if s@ == f.render_of() {
                        lemma_dec_of_canon(f.height as nat);
                        assert(seg3@ == dec_of(f.height as nat));
                        assert(false);
                    }
                }
            }
            return None;
        }
    };
    let tail = vstd::slice::slice_subrange(s, q3 + 1, s.len());
    let format = match parse_format(tail) {
        Some(fm) => fm,
        None => {
            proof {
                assert forall|f: FileId| f.wf() implies s@ != f.render_of() by {
                    if s@ == f.render_of() {
                        assert(tail@ == tag_of(f.format));
                        assert(false);
                    }
                }
            }
            return None;
        }
    };
    let f = FileId { hash: vstd::slice::slice_to_vec(hash_part), size, width, height, format };
    proof {
        assert(f.wf());
        assert(s@ =~= f.render_of()) by {
            assert(f.hash@ == s@.subrange(0, 40));
            assert(s@.subrange(41, q1 as int) == dec_of(size as nat));
            assert(s@.subrange(q1 + 1, q2 as int) == dec_of(width as nat));
            assert(s@.subrange(q2 + 1, q3 as int) == dec_of(height as nat));
            assert(s@.subrange(q3 + 1, s@.len() as int) == tag_of(format));
            assert(s@[40] == 0x2d && s@[q1 as int] == 0x2d && s@[q2 as int] == 0x2d && s@[
                q3 as int
            ] == 0x2d);
        }
    }
    Some(f)
}

} // verus!
