use cachenode::fileid::{parse_fileid, ImageFormat};

fn sample_bytes() -> Vec<u8> {
    let mut s = Vec::new();
    s.extend_from_slice(b"aaaaaaaaaaaaaaaaaaaaaaaaaaaaaaaaaaaaaaaa");
    s.extend_from_slice(b"-1024-100-100-jpg");
    s
}

#[test]
fn parse_then_render_then_reparse_is_identity() {
    let s = sample_bytes();
    let f = parse_fileid(&s).expect("valid descriptor");
    assert_eq!(f.size, 1024);
    assert_eq!(f.width, 100);
    assert_eq!(f.height, 100);
    assert!(matches!(f.format, ImageFormat::Jpg));
    let rendered = f.render();
    assert_eq!(rendered, s);
    let g = parse_fileid(&rendered).expect("reparse");
    assert!(g.same(&f));
}

#[test]
fn parse_rejects_bad_format_tag() {
    let mut s = Vec::new();
    s.extend_from_slice(b"aaaaaaaaaaaaaaaaaaaaaaaaaaaaaaaaaaaaaaaa");
    s.extend_from_slice(b"-1024-100-100-bmp");
    assert!(parse_fileid(&s).is_none());
}

#[test]
fn parse_rejects_uppercase_hash() {
    let mut s = Vec::new();
    s.extend_from_slice(b"AAAAAAAAAAAAAAAAAAAAAAAAAAAAAAAAAAAAAAAA");
    s.extend_from_slice(b"-1024-100-100-jpg");
    assert!(parse_fileid(&s).is_none());
}

#[test]
fn parse_rejects_short_hash() {
    assert!(parse_fileid(b"abc-1024-100-100-jpg").is_none());
}

#[test]
fn parse_rejects_leading_zero_size() {
    let mut s = Vec::new();
    s.extend_from_slice(b"aaaaaaaaaaaaaaaaaaaaaaaaaaaaaaaaaaaaaaaa");
    s.extend_from_slice(b"-01024-100-100-jpg");
    assert!(parse_fileid(&s).is_none());
}

#[test]
fn parse_rejects_trailing_garbage() {
    let mut s = sample_bytes();
    s.extend_from_slice(b"x");
    assert!(parse_fileid(&s).is_none());
}

#[test]
fn all_four_formats_round_trip() {
    for tag in [b"jpg".as_slice(), b"png", b"gif", b"wbm"] {
        let mut s = Vec::new();
        s.extend_from_slice(b"0123456789abcdef0123456789abcdef01234567");
        s.extend_from_slice(b"-7-2-3-");
        s.extend_from_slice(tag);
        let f = parse_fileid(&s).expect("valid");
        assert_eq!(f.render(), s);
    }
}

#[test]
fn descriptor_equality_is_structural() {
    let a = parse_fileid(&sample_bytes()).unwrap();
    let b = parse_fileid(&sample_bytes()).unwrap();
    assert!(a.same(&b));
    let mut other = sample_bytes();
    other[41] = b'2'; // size 2024 instead of 1024
    let c = parse_fileid(&other).unwrap();
    assert!(!a.same(&c));
}
