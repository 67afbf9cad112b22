use cachenode::cache::CacheEntry;
use cachenode::control::{shutdown_plan, tick_work, ShutdownStep};
use cachenode::credential::parse_credential;
use cachenode::digest::digest;
use cachenode::fileid::{parse_fileid, FileId, ImageFormat};
use cachenode::logger::{init_logger, next_request_prefix};
use cachenode::lru_persist::{deserialize_index, serialize_index};
use cachenode::rpc::{classify_response, is_valid_rpc_server, parse_purge_list, RpcClass};
use cachenode::singleflight::{BeginFetch, FlightTable};

fn entry(content: &[u8], t: u64) -> CacheEntry {
    CacheEntry {
        id: FileId {
            hash: digest(content),
            size: content.len() as u64,
            width: 640,
            height: 480,
            format: ImageFormat::Png,
        },
        last_access: t,
    }
}

#[test]
fn lru_index_round_trips_byte_identical_and_entry_equal() {
    let entries = vec![entry(b"one", 11), entry(b"two", 22), entry(b"three", 33)];
    let bytes = serialize_index(&entries);
    let reloaded = deserialize_index(&bytes).expect("reload");
    assert_eq!(reloaded.len(), entries.len());
    for (a, b) in reloaded.iter().zip(entries.iter()) {
        assert!(a.id.same(&b.id));
        assert_eq!(a.last_access, b.last_access);
    }
    let rewritten = serialize_index(&reloaded);
    assert_eq!(rewritten, bytes);
}

#[test]
fn empty_lru_index_round_trips() {
    let entries: Vec<CacheEntry> = Vec::new();
    let bytes = serialize_index(&entries);
    assert_eq!(bytes.len(), 12);
    let reloaded = deserialize_index(&bytes).expect("reload");
    assert!(reloaded.is_empty());
}

#[test]
fn loader_rejects_corrupt_files() {
    let entries = vec![entry(b"one", 11)];
    let mut bytes = serialize_index(&entries);
    assert!(deserialize_index(&bytes[..bytes.len() - 1]).is_none()); // truncated
    bytes[0] = 2; // wrong version
    assert!(deserialize_index(&bytes).is_none());
    assert!(deserialize_index(b"").is_none());
}

#[test]
fn credential_line_parses_exactly() {
    let line = b"123-abcdeABCDE0123456789";
    let (id, key) = parse_credential(line).expect("valid");
    assert_eq!(id, 123);
    assert_eq!(key, b"abcdeABCDE0123456789".to_vec());
    assert!(parse_credential(b"0-abcdeABCDE0123456789").is_none()); // id not positive
    assert!(parse_credential(b"123-shortkey").is_none()); // key not 20 chars
    assert!(parse_credential(b"123-abcde_BCDE0123456789").is_none()); // non-alnum
    assert!(parse_credential(b"nine-abcdeABCDE0123456789").is_none());
    assert!(parse_credential(b"123abcdeABCDE0123456789").is_none()); // no separator
}

#[test]
fn ticker_schedule() {
    let t0 = tick_work(0);
    assert!(t0.keepalive && !t0.purge);
    let t11 = tick_work(11);
    assert!(t11.keepalive);
    let t5 = tick_work(5);
    assert!(!t5.keepalive && !t5.purge);
    let t2159 = tick_work(2159);
    assert!(t2159.purge && !t2159.keepalive);
    let t2160 = tick_work(2160);
    assert!(!t2160.purge);
}

#[test]
fn shutdown_runs_in_order() {
    let plan = shutdown_plan();
    assert_eq!(
        plan,
        vec![
            ShutdownStep::StopAccepting,
            ShutdownStep::DrainRequests,
            ShutdownStep::PersistIndex,
            ShutdownStep::NotifyCoordinator,
        ]
    );
}

#[test]
fn single_flight_admits_one_leader_per_descriptor() {
    let mut t = FlightTable::new();
    let id = parse_fileid(b"aaaaaaaaaaaaaaaaaaaaaaaaaaaaaaaaaaaaaaaa-1024-100-100-jpg").unwrap();
    let id2 = parse_fileid(b"aaaaaaaaaaaaaaaaaaaaaaaaaaaaaaaaaaaaaaaa-1024-100-100-jpg").unwrap();
    assert_eq!(t.begin(&id), BeginFetch::Lead);
    assert_eq!(t.begin(&id2), BeginFetch::Attach); // same descriptor, other allocation
    assert_eq!(t.begin(&id), BeginFetch::Attach);
    t.complete(&id);
    assert_eq!(t.begin(&id), BeginFetch::Lead); // a later miss fetches anew
    // A different descriptor is unaffected.
    let other = parse_fileid(b"bbbbbbbbbbbbbbbbbbbbbbbbbbbbbbbbbbbbbbbb-1024-100-100-jpg").unwrap();
    assert_eq!(t.begin(&other), BeginFetch::Lead);
}

#[test]
fn responses_classify_by_first_line_and_fatal_prefixes() {
    assert_eq!(classify_response(b"OK\nsettings follow"), RpcClass::Success);
    assert_eq!(classify_response(b"OK"), RpcClass::Success);
    assert_eq!(classify_response(b"KEY_EXPIRED"), RpcClass::KeyExpired);
    assert_eq!(classify_response(b"FAIL_CONNECT_TEST"), RpcClass::FailConnectTest);
    assert_eq!(classify_response(b"ERROR\nOK"), RpcClass::Transient);
    assert_eq!(classify_response(b"OKAY"), RpcClass::Transient);
}

#[test]
fn purge_list_keeps_the_well_formed_lines() {
    let mut body = Vec::new();
    body.extend_from_slice(b"aaaaaaaaaaaaaaaaaaaaaaaaaaaaaaaaaaaaaaaa-1024-100-100-jpg\n");
    body.extend_from_slice(b"not a descriptor\n");
    body.extend_from_slice(b"bbbbbbbbbbbbbbbbbbbbbbbbbbbbbbbbbbbbbbbb-7-2-3-png");
    let list = parse_purge_list(&body);
    assert_eq!(list.len(), 2);
    assert_eq!(list[0].size, 1024);
    assert_eq!(list[1].size, 7);
}

#[test]
fn whitelist_membership() {
    let wl = vec![0x01020304u32, 0x7f000001u32];
    assert!(is_valid_rpc_server(&wl, 0x7f000001));
    assert!(!is_valid_rpc_server(&wl, 0x7f000002));
}

#[test]
fn request_log_prefix_counts_from_one_and_pads_the_peer() {
    let mut c = init_logger();
    assert_eq!(c.next, 1);
    let p1 = next_request_prefix(&mut c, b"1.2.3.4");
    assert_eq!(p1, b"{1/1.2.3.4}        ".to_vec());
    let p2 = next_request_prefix(&mut c, b"10.20.30.40:65535");
    assert_eq!(p2, b"{2/10.20.30.40:65535}".to_vec());
    assert_eq!(c.next, 3);
}
