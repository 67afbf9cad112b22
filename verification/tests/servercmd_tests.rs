use cachenode::auth::build_servercmd_key_input;
use cachenode::digest::digest;
use cachenode::servercmd::{
    aggregate_probes, invalid_command_body, parse_additional, parse_proxy_params,
    proxy_test_reply, servercmd_decide, still_alive_body, to_ascii_lower, ServerCmdAction,
};

fn signed_key(command: &[u8], additional: &[u8], id: i32, time: i64, key: &[u8]) -> Vec<u8> {
    digest(&build_servercmd_key_input(command, additional, id, time, key))
}

#[test]
fn still_alive_replies_with_liveness_body() {
    let k = signed_key(b"still_alive", b"-", 123, 1700000000, b"ckey");
    let r = servercmd_decide(true, 1700000000, b"still_alive", b"-", 123, 1700000000, b"ckey", &k);
    assert!(matches!(r, ServerCmdAction::StillAlive));
    assert_eq!(still_alive_body(), b"I feel FANTASTIC and I'm still alive".to_vec());
}

#[test]
fn non_whitelisted_peer_is_forbidden() {
    let k = signed_key(b"still_alive", b"-", 123, 1700000000, b"ckey");
    let r = servercmd_decide(false, 1700000000, b"still_alive", b"-", 123, 1700000000, b"ckey", &k);
    assert!(matches!(r, ServerCmdAction::Forbidden));
}

#[test]
fn stale_time_is_forbidden() {
    let k = signed_key(b"still_alive", b"-", 123, 1700000000, b"ckey");
    let r = servercmd_decide(true, 1700000400, b"still_alive", b"-", 123, 1700000000, b"ckey", &k);
    assert!(matches!(r, ServerCmdAction::Forbidden));
}

#[test]
fn wrong_key_is_forbidden() {
    let r = servercmd_decide(
        true,
        1700000000,
        b"still_alive",
        b"-",
        123,
        1700000000,
        b"ckey",
        b"0000000000000000000000000000000000000000",
    );
    assert!(matches!(r, ServerCmdAction::Forbidden));
}

#[test]
fn unknown_command_is_invalid() {
    let k = signed_key(b"dance", b"-", 123, 1700000000, b"ckey");
    let r = servercmd_decide(true, 1700000000, b"dance", b"-", 123, 1700000000, b"ckey", &k);
    assert!(matches!(r, ServerCmdAction::InvalidCommand));
    assert_eq!(invalid_command_body(), b"INVALID_COMMAND".to_vec());
}

#[test]
fn command_word_is_case_folded() {
    let k = signed_key(b"Still_Alive", b"-", 123, 1700000000, b"ckey");
    let r = servercmd_decide(true, 1700000000, b"Still_Alive", b"-", 123, 1700000000, b"ckey", &k);
    assert!(matches!(r, ServerCmdAction::StillAlive));
    assert_eq!(to_ascii_lower(b"ReFrEsH_CeRtS"), b"refresh_certs".to_vec());
}

#[test]
fn control_commands_map_to_actions() {
    for (cmd, want_refresh, want_down, want_cert) in [
        (b"refresh_settings".as_slice(), true, false, false),
        (b"start_downloader", false, true, false),
        (b"refresh_certs", false, false, true),
    ] {
        let k = signed_key(cmd, b"-", 123, 1700000000, b"ckey");
        let r = servercmd_decide(true, 1700000000, cmd, b"-", 123, 1700000000, b"ckey", &k);
        assert_eq!(matches!(r, ServerCmdAction::RefreshSettings), want_refresh);
        assert_eq!(matches!(r, ServerCmdAction::StartDownloader), want_down);
        assert_eq!(matches!(r, ServerCmdAction::ReloadCert), want_cert);
    }
}

#[test]
fn speed_test_takes_declared_size_and_defaults_to_a_million() {
    let add = b"testsize=4096";
    let k = signed_key(b"speed_test", add, 123, 1700000000, b"ckey");
    let r = servercmd_decide(true, 1700000000, b"speed_test", add, 123, 1700000000, b"ckey", &k);
    assert!(matches!(r, ServerCmdAction::SpeedTest(4096)));
    let k2 = signed_key(b"speed_test", b"-", 123, 1700000000, b"ckey");
    let r2 = servercmd_decide(true, 1700000000, b"speed_test", b"-", 123, 1700000000, b"ckey", &k2);
    assert!(matches!(r2, ServerCmdAction::SpeedTest(1000000)));
}

#[test]
fn additional_pairs_parse() {
    let pairs = parse_additional(b"hostname=example.com;port=443;flag");
    assert_eq!(pairs.len(), 3);
    assert_eq!(pairs[0].0, b"hostname".to_vec());
    assert_eq!(pairs[0].1, b"example.com".to_vec());
    assert_eq!(pairs[1].0, b"port".to_vec());
    assert_eq!(pairs[1].1, b"443".to_vec());
    assert_eq!(pairs[2].0, b"flag".to_vec());
    assert_eq!(pairs[2].1, b"".to_vec());
}

#[test]
fn proxy_params_extract_and_validate() {
    let add = b"hostname=h.example;port=8080;testsize=65536;testcount=4;testtime=1700000000;testkey=tok";
    let p = parse_proxy_params(add).expect("complete parameters");
    assert_eq!(p.host, b"h.example".to_vec());
    assert_eq!(p.protocol, b"http".to_vec());
    assert_eq!(p.port, 8080);
    assert_eq!(p.size, 65536);
    assert_eq!(p.count, 4);
    assert_eq!(p.time, 1700000000);
    assert_eq!(p.token, b"tok".to_vec());
}

#[test]
fn proxy_params_missing_field_is_rejected() {
    assert!(parse_proxy_params(b"hostname=h;port=8080;testsize=65536;testcount=4;testtime=1700000000").is_none());
    assert!(parse_proxy_params(b"hostname=h;port=0;testsize=1;testcount=1;testtime=1;testkey=t").is_none());
    let k = signed_key(b"threaded_proxy_test", b"-", 123, 1700000000, b"ckey");
    let r = servercmd_decide(
        true,
        1700000000,
        b"threaded_proxy_test",
        b"-",
        123,
        1700000000,
        b"ckey",
        &k,
    );
    assert!(matches!(r, ServerCmdAction::BadRequest));
}

#[test]
fn probe_aggregation_and_reply_body() {
    let outcomes = vec![Some(120u64), None, Some(130u64), Some(0u64)];
    let (success, total) = aggregate_probes(&outcomes);
    assert_eq!(success, 3);
    assert_eq!(total, 250);
    assert_eq!(proxy_test_reply(success, total), b"OK:3-250".to_vec());
}

#[test]
fn probe_url_shape() {
    let p = parse_proxy_params(
        b"hostname=h.example;port=8080;testsize=65536;testcount=4;testtime=1700000000;testkey=tok",
    )
    .unwrap();
    let url = cachenode::servercmd::build_probe_url(&p, 42);
    assert_eq!(url, b"http://h.example:8080/t/65536/1700000000/tok/42".to_vec());
}
