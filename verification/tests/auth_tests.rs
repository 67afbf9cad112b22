use cachenode::auth::{
    build_keystamp_input, build_servercmd_key_input, check_drift, check_keystamp,
    check_servercmd_key, rpc_act_key,
};
use cachenode::digest::digest;
use cachenode::fileid::parse_fileid;

#[test]
fn digest_of_known_vectors() {
    // SHA-1 test vectors, rendered in lowercase hex.
    assert_eq!(
        digest(b""),
        b"da39a3ee5e6b4b0d3255bfef95601890afd80709".to_vec()
    );
    assert_eq!(
        digest(b"abc"),
        b"a9993e364706816aba3e25717850c26c9cd0d89d".to_vec()
    );
}

#[test]
fn drift_window_is_inclusive_300() {
    assert!(check_drift(1700000000, 1700000000));
    assert!(check_drift(1700000300, 1700000000));
    assert!(check_drift(1699999700, 1700000000));
    assert!(!check_drift(1700000301, 1700000000));
    assert!(!check_drift(1699999699, 1700000000));
}

#[test]
fn keystamp_template_shape() {
    let id = parse_fileid(b"aaaaaaaaaaaaaaaaaaaaaaaaaaaaaaaaaaaaaaaa-1024-100-100-jpg").unwrap();
    let t = build_keystamp_input(1700000000, &id, b"clientkey");
    assert_eq!(
        t,
        b"1700000000-aaaaaaaaaaaaaaaaaaaaaaaaaaaaaaaaaaaaaaaa-1024-100-100-jpg-clientkey-hotlinkthis"
            .to_vec()
    );
}

#[test]
fn keystamp_accepts_within_window_and_rejects_outside() {
    let id = parse_fileid(b"aaaaaaaaaaaaaaaaaaaaaaaaaaaaaaaaaaaaaaaa-1024-100-100-jpg").unwrap();
    let key = b"clientkey";
    let epoch: i64 = 1700000000;
    let input = build_keystamp_input(epoch, &id, key);
    let good = digest(&input);
    // Accepted anywhere inside the window of the declared time.
    assert!(check_keystamp(epoch, epoch, &id, key, &good));
    assert!(check_keystamp(epoch + 300, epoch, &id, key, &good));
    assert!(check_keystamp(epoch - 300, epoch, &id, key, &good));
    // Rejected outside it, and with a tampered digest.
    assert!(!check_keystamp(epoch + 301, epoch, &id, key, &good));
    let mut bad = good.clone();
    bad[0] = if bad[0] == b'0' { b'1' } else { b'0' };
    assert!(!check_keystamp(epoch, epoch, &id, key, &bad));
}

#[test]
fn servercmd_template_shape() {
    let t = build_servercmd_key_input(b"still_alive", b"-", 123, 1700000000, b"k");
    assert_eq!(
        t,
        b"hentai@home-servercmd-still_alive---123-1700000000-k".to_vec()
    );
}

#[test]
fn servercmd_key_checks_digest_and_window() {
    let input = build_servercmd_key_input(b"still_alive", b"-", 123, 1700000000, b"k");
    let good = digest(&input);
    assert!(check_servercmd_key(1700000100, b"still_alive", b"-", 123, 1700000000, b"k", &good));
    assert!(!check_servercmd_key(1700000400, b"still_alive", b"-", 123, 1700000000, b"k", &good));
    assert!(!check_servercmd_key(
        1700000100,
        b"still_alive",
        b"x",
        123,
        1700000000,
        b"k",
        &good
    ));
}

#[test]
fn rpc_act_key_is_digest_of_template() {
    let k = rpc_act_key(b"still_alive", b"", 7, 1700000000, b"secret");
    let expect = digest(b"hentai@home-still_alive--7-1700000000-secret");
    assert_eq!(k, expect);
    assert_eq!(k.len(), 40);
}
