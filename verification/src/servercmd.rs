//! The coordinator command pipeline: authorization, dispatch, replies.
//!
//! A command request carries the command word, an `k=v;k=v` additional
//! string, a declared time and a signature key. The peer must be a
//! whitelisted coordinator address and the key must verify within the
//! drift window; then the command word selects the action. Everything
//! here is a pure decision: the surrounding server performs the chosen
//! action and writes the chosen reply.
use vstd::prelude::*;
use crate::auth::{check_servercmd_key, servercmd_key_ok};
use crate::bytesutil::{append_bytes, bytes_eq, dec_of, dec_val, is_canon_dec, parse_u64_dec,
    u64_to_dec};
use crate::split::{pieces_view, split_by, split_spec, first_idx};

verus! {

/// The key/value pairs of an additional string: pieces split on `;`,
/// each divided at its first `=` (no `=` means an empty value).
pub open spec fn pairs_of(s: Seq<u8>) -> Seq<(Seq<u8>, Seq<u8>)> {
    split_spec(s, 0x3b).map_values(
        |p: Seq<u8>|
            if first_idx(p, 0x3d) < p.len() {
                (p.take(first_idx(p, 0x3d)), p.skip(first_idx(p, 0x3d) + 1))
            } else {
                (p, Seq::<u8>::empty())
            },
    )
}

/// The value of the first pair named `key`, if any.
pub open spec fn lookup_pair(pairs: Seq<(Seq<u8>, Seq<u8>)>, key: Seq<u8>) -> Option<Seq<u8>>
    decreases pairs.len(),
{
    if pairs.len() == 0 {
        Option::None
    } else if pairs[0].0 == key {
        Option::Some(pairs[0].1)
    } else {
        lookup_pair(pairs.drop_first(), key)
    }
}

/// The value named `key` in an additional string.
pub open spec fn additional_value(s: Seq<u8>, key: Seq<u8>) -> Option<Seq<u8>> {
    lookup_pair(pairs_of(s), key)
}

/// Parses an additional string into its key/value pairs.
pub fn parse_additional(s: &[u8]) -> (r: Vec<(Vec<u8>, Vec<u8>)>)
    ensures
        r@.len() == pairs_of(s@).len(),
        forall|i: int|
            0 <= i < r@.len() ==> (#[trigger] r@[i]).0@ == pairs_of(s@)[i].0 && r@[i].1@
                == pairs_of(s@)[i].1,
{
    let pieces = split_by(s, 0x3b);
    let mut out: Vec<(Vec<u8>, Vec<u8>)> = Vec::new();
    let n = pieces.len();
    let mut i: usize = 0;
    while i < n
        invariant
            i <= n,
            n == pieces@.len(),
            pieces_view(pieces@) == split_spec(s@, 0x3b),
            out@.len() == i,
            forall|j: int|
                0 <= j < i ==> (#[trigger] out@[j]).0@ == pairs_of(s@)[j].0 && out@[j].1@
                    == pairs_of(s@)[j].1,
        decreases n - i,
    {
        let p: &Vec<u8> = &pieces[i];
        proof {
            assert(pieces_view(pieces@)[i as int] == p@);
            crate::split::lemma_first_idx(p@, 0x3d);
        }
        let pair = match crate::bytesutil::find_byte(p.as_slice(), 0, 0x3d) {
            Some(e) => {
                proof {
                    crate::split::lemma_first_idx_at(p@, 0x3d, e as int);
                }
                let k = vstd::slice::slice_to_vec(
                    vstd::slice::slice_subrange(p.as_slice(), 0, e),
                );
                let v = vstd::slice::slice_to_vec(
                    vstd::slice::slice_subrange(p.as_slice(), e + 1, p.len()),
                );
                (k, v)
            }
            None => {
                proof {
                    crate::split::lemma_first_idx_none(p@, 0x3d);
                }
                let k = vstd::slice::slice_to_vec(p.as_slice());
                let v: Vec<u8> = Vec::new();
                (k, v)
            }
        };
        out.push(pair);
        i = i + 1;
    }
    out
}

/// Looks a key up among parsed pairs, first match wins.
pub fn get_value(pairs: &Vec<(Vec<u8>, Vec<u8>)>, key: &[u8], ghost_src: Ghost<Seq<u8>>) -> (r:
    Option<Vec<u8>>)
    requires
        pairs@.len() == pairs_of(ghost_src@).len(),
        forall|i: int|
            0 <= i < pairs@.len() ==> (#[trigger] pairs@[i]).0@ == pairs_of(ghost_src@)[i].0
                && pairs@[i].1@ == pairs_of(ghost_src@)[i].1,
    ensures
        r matches Some(v) ==> additional_value(ghost_src@, key@) == Option::Some(v@),
        r is None ==> additional_value(ghost_src@, key@) is None,
{
    let n = pairs.len();
    let mut i: usize = 0;
    proof {
        assert(pairs_of(ghost_src@).skip(0) =~= pairs_of(ghost_src@));
    }
    while i < n
        invariant
            i <= n,
            n == pairs@.len(),
            pairs@.len() == pairs_of(ghost_src@).len(),
            forall|k: int|
                0 <= k < pairs@.len() ==> (#[trigger] pairs@[k]).0@ == pairs_of(ghost_src@)[k].0
                    && pairs@[k].1@ == pairs_of(ghost_src@)[k].1,
            lookup_pair(pairs_of(ghost_src@).skip(i as int), key@) == additional_value(
                ghost_src@,
                key@,
            ),
            forall|j: int| 0 <= j < i ==> (#[trigger] pairs@[j]).0@ != key@,
        decreases n - i,
    {
        proof {
            let rest = pairs_of(ghost_src@).skip(i as int);
            assert(rest.len() > 0);
            assert(rest[0] == pairs_of(ghost_src@)[i as int]);
            assert(rest.drop_first() =~= pairs_of(ghost_src@).skip(i as int + 1));
        }
        if bytes_eq(pairs[i].0.as_slice(), key) {
            let v = vstd::slice::slice_to_vec(pairs[i].1.as_slice());
            return Some(v);
        }
        i = i + 1;
    }
    proof {
        assert(pairs_of(ghost_src@).skip(n as int) =~= Seq::<(Seq<u8>, Seq<u8>)>::empty());
    }
    None
}

/// ASCII lowercase folding, the case rule of command words.
pub open spec fn ascii_lower(s: Seq<u8>) -> Seq<u8> {
    s.map_values(|b: u8| if 0x41 <= b <= 0x5a { (b + 0x20) as u8 } else { b })
}

/// Folds a byte string to ASCII lowercase.
pub fn to_ascii_lower(s: &[u8]) -> (r: Vec<u8>)
    ensures
        r@ == ascii_lower(s@),
{
    let mut out: Vec<u8> = Vec::new();
    let mut i: usize = 0;
    while i < s.len()
        invariant
            i <= s@.len(),
            out@ =~= ascii_lower(s@.take(i as int)),
        decreases s@.len() - i,
    {
        let b = s[i];
        let c: u8 = if 0x41 <= b && b <= 0x5a {
            b + 0x20
        } else {
            b
        };
        out.push(c);
        proof {
            assert(out@ =~= ascii_lower(s@.take(i as int + 1)));
        }
        i = i + 1;
    }
    proof {
        assert(s@.take(s@.len() as int) =~= s@);
    }
    out
}

/// Parameters of a threaded proxy test, already validated.
pub struct ProxyTestParams {
    pub host: Vec<u8>,
    pub protocol: Vec<u8>,
    pub port: u16,
    pub size: u32,
    pub count: u8,
    pub time: u64,
    pub token: Vec<u8>,
}

/// The numeric value of an additional field: a canonical decimal within
/// `max`, anything else (or absence) counting as zero.
pub open spec fn num_value(s: Seq<u8>, key: Seq<u8>, max: nat) -> nat {
    match additional_value(s, key) {
        Option::Some(v) => if is_canon_dec(v) && dec_val(v) <= max {
            dec_val(v)
        } else {
            0
        },
        Option::None => 0,
    }
}

/// The string value of an additional field, absent counting as empty.
pub open spec fn str_value(s: Seq<u8>, key: Seq<u8>) -> Seq<u8> {
    match additional_value(s, key) {
        Option::Some(v) => v,
        Option::None => Seq::empty(),
    }
}

/// The protocol of a proxy test, defaulting to `http`.
pub open spec fn protocol_value(s: Seq<u8>) -> Seq<u8> {
    match additional_value(s, seq![0x70u8, 0x72u8, 0x6fu8, 0x74u8, 0x6fu8, 0x63u8, 0x6fu8,
        0x6cu8]) {
        Option::Some(v) => v,
        Option::None => seq![0x68u8, 0x74u8, 0x74u8, 0x70u8],
    }
}

/// Are the proxy-test parameters complete: host and token nonempty,
/// port, size, count and time nonzero?
pub open spec fn proxy_params_ok(s: Seq<u8>) -> bool {
    &&& str_value(s, spec_key_hostname()).len() > 0
    &&& num_value(s, spec_key_port(), 0xffff) != 0
    &&& num_value(s, spec_key_testsize(), 0xffff_ffff) != 0
    &&& num_value(s, spec_key_testcount(), 0xff) != 0
    &&& num_value(s, spec_key_testtime(), 0xffff_ffff_ffff_ffff) != 0
    &&& str_value(s, spec_key_testkey()).len() > 0
}

pub open spec fn spec_key_hostname() -> Seq<u8> {
    seq![0x68u8, 0x6fu8, 0x73u8, 0x74u8, 0x6eu8, 0x61u8, 0x6du8, 0x65u8]
}

pub open spec fn spec_key_port() -> Seq<u8> {
    seq![0x70u8, 0x6fu8, 0x72u8, 0x74u8]
}

pub open spec fn spec_key_testsize() -> Seq<u8> {
    seq![0x74u8, 0x65u8, 0x73u8, 0x74u8, 0x73u8, 0x69u8, 0x7au8, 0x65u8]
}

pub open spec fn spec_key_testcount() -> Seq<u8> {
    seq![0x74u8, 0x65u8, 0x73u8, 0x74u8, 0x63u8, 0x6fu8, 0x75u8, 0x6eu8, 0x74u8]
}

pub open spec fn spec_key_testtime() -> Seq<u8> {
    seq![0x74u8, 0x65u8, 0x73u8, 0x74u8, 0x74u8, 0x69u8, 0x6du8, 0x65u8]
}

pub open spec fn spec_key_testkey() -> Seq<u8> {
    seq![0x74u8, 0x65u8, 0x73u8, 0x74u8, 0x6bu8, 0x65u8, 0x79u8]
}

fn key_hostname() -> (r: Vec<u8>)
    ensures
        r@ == spec_key_hostname(),
{
    let mut v: Vec<u8> = Vec::new();
    v.push(0x68);
    v.push(0x6f);
    v.push(0x73);
    v.push(0x74);
    v.push(0x6e);
    v.push(0x61);
    v.push(0x6d);
    v.push(0x65);
    proof {
        assert(v@ =~= spec_key_hostname());
    }
    v
}

fn key_port() -> (r: Vec<u8>)
    ensures
        r@ == spec_key_port(),
{
    let mut v: Vec<u8> = Vec::new();
    v.push(0x70);
    v.push(0x6f);
    v.push(0x72);
    v.push(0x74);
    proof {
        assert(v@ =~= spec_key_port());
    }
    v
}

fn key_testsize() -> (r: Vec<u8>)
    ensures
        r@ == spec_key_testsize(),
{
    let mut v: Vec<u8> = Vec::new();
    v.push(0x74);
    v.push(0x65);
    v.push(0x73);
    v.push(0x74);
    v.push(0x73);
    v.push(0x69);
    v.push(0x7a);
    v.push(0x65);
    proof {
        assert(v@ =~= spec_key_testsize());
    }
    v
}

fn key_testcount() -> (r: Vec<u8>)
    ensures
        r@ == spec_key_testcount(),
{
    let mut v: Vec<u8> = Vec::new();
    v.push(0x74);
    v.push(0x65);
    v.push(0x73);
    v.push(0x74);
    v.push(0x63);
    v.push(0x6f);
    v.push(0x75);
    v.push(0x6e);
    v.push(0x74);
    proof {
        assert(v@ =~= spec_key_testcount());
    }
    v
}

fn key_testtime() -> (r: Vec<u8>)
    ensures
        r@ == spec_key_testtime(),
{
    let mut v: Vec<u8> = Vec::new();
    v.push(0x74);
    v.push(0x65);
    v.push(0x73);
    v.push(0x74);
    v.push(0x74);
    v.push(0x69);
    v.push(0x6d);
    v.push(0x65);
    proof {
        assert(v@ =~= spec_key_testtime());
    }
    v
}

fn key_testkey() -> (r: Vec<u8>)
    ensures
        r@ == spec_key_testkey(),
{
    let mut v: Vec<u8> = Vec::new();
    v.push(0x74);
    v.push(0x65);
    v.push(0x73);
    v.push(0x74);
    v.push(0x6b);
    v.push(0x65);
    v.push(0x79);
    proof {
        assert(v@ =~= spec_key_testkey());
    }
    v
}

/// Parses the numeric field named `key`, defaulting to zero.
fn parse_num_value(pairs: &Vec<(Vec<u8>, Vec<u8>)>, key: &[u8], max: u64, ghost_src: Ghost<
    Seq<u8>,
>) -> (r: u64)
    requires
        pairs@.len() == pairs_of(ghost_src@).len(),
        forall|i: int|
            0 <= i < pairs@.len() ==> (#[trigger] pairs@[i]).0@ == pairs_of(ghost_src@)[i].0
                && pairs@[i].1@ == pairs_of(ghost_src@)[i].1,
    ensures
        r as nat == num_value(ghost_src@, key@, max as nat),
{
    match get_value(pairs, key, ghost_src) {
        Some(v) => {
            match parse_u64_dec(v.as_slice()) {
                Some(n) => {
                    proof {
                        crate::bytesutil::lemma_dec_of_canon(n as nat);
                    }
                    if n <= max {
                        n
                    } else {
                        0
                    }
                }
                None => 0,
            }
        }
        None => 0,
    }
}

/// Extracts and validates the proxy-test parameters.
///
/// Returns them exactly when `proxy_params_ok` holds of the additional
/// string; each field is the declared value, the protocol defaulting
/// to `http`.
pub fn parse_proxy_params(additional: &[u8]) -> (r: Option<ProxyTestParams>)
    ensures
        r is Some <==> proxy_params_ok(additional@),
        r matches Some(p) ==> p.host@ == str_value(additional@, spec_key_hostname())
            && p.protocol@ == protocol_value(additional@) && p.port as nat == num_value(
            additional@,
            spec_key_port(),
            0xffff,
        ) && p.size as nat == num_value(additional@, spec_key_testsize(), 0xffff_ffff)
            && p.count as nat == num_value(additional@, spec_key_testcount(), 0xff)
            && p.time as nat == num_value(additional@, spec_key_testtime(),
        0xffff_ffff_ffff_ffff) && p.token@ == str_value(additional@, spec_key_testkey()),
{
    let pairs = parse_additional(additional);
    let ghost_src: Ghost<Seq<u8>> = Ghost(additional@);
    let host = match get_value(&pairs, key_hostname().as_slice(), ghost_src) {
        Some(v) => v,
        None => Vec::new(),
    };
    let protocol = match get_value(
        &pairs,
        &[0x70, 0x72, 0x6f, 0x74, 0x6f, 0x63, 0x6f, 0x6c],
        ghost_src,
    ) {
        Some(v) => v,
        None => {
            let mut d: Vec<u8> = Vec::new();
            d.push(0x68);
            d.push(0x74);
            d.push(0x74);
            d.push(0x70);
            proof {
                assert(d@ =~= seq![0x68u8, 0x74u8, 0x74u8, 0x70u8]);
            }
            d
        }
    };
    let port = parse_num_value(&pairs, key_port().as_slice(), 0xffff, ghost_src);
    let size = parse_num_value(&pairs, key_testsize().as_slice(), 0xffff_ffff, ghost_src);
    let count = parse_num_value(&pairs, key_testcount().as_slice(), 0xff, ghost_src);
    let time = parse_num_value(&pairs, key_testtime().as_slice(), 0xffff_ffff_ffff_ffff,
        ghost_src);
    let token = match get_value(&pairs, key_testkey().as_slice(), ghost_src) {
        Some(v) => v,
        None => Vec::new(),
    };
    if host.len() == 0 || port == 0 || size == 0 || count == 0 || time == 0 || token.len()
        == 0 {
        return None;
    }
    Some(
        ProxyTestParams {
            host,
            protocol,
            port: port as u16,
            size: size as u32,
            count: count as u8,
            time,
            token,
        },
    )
}

/// What the node does with a server command.
pub enum ServerCmdAction {
    /// Unauthorized peer, bad key or stale time: reply 403.
    Forbidden,
    /// Keep-alive probe: reply with the liveness body.
    StillAlive,
    /// Proxy test with incomplete parameters: reply 400.
    BadRequest,
    /// Run outbound probes with these parameters.
    ProxyTest(ProxyTestParams),
    /// Reply with this many deterministic test bytes.
    SpeedTest(u64),
    /// Ask the control loop to re-pull settings.
    RefreshSettings,
    /// Ask the control loop to start the downloader.
    StartDownloader,
    /// Ask the control loop to fetch and swap the certificate.
    ReloadCert,
    /// Unknown command word: reply with the invalid-command body.
    InvalidCommand,
}

/// The speed-test byte count: the declared size, defaulting to one
/// million when absent or malformed.
pub open spec fn speedtest_size(s: Seq<u8>) -> nat {
    match additional_value(s, spec_key_testsize()) {
        Option::Some(v) => if is_canon_dec(v) && dec_val(v) <= 0xffff_ffff_ffff_ffff {
            dec_val(v)
        } else {
            1000000
        },
        Option::None => 1000000,
    }
}

pub open spec fn lit_still_alive() -> Seq<u8> {
    seq![0x73u8, 0x74u8, 0x69u8, 0x6cu8, 0x6cu8, 0x5fu8, 0x61u8, 0x6cu8, 0x69u8, 0x76u8, 0x65u8]
}

pub open spec fn lit_threaded_proxy_test() -> Seq<u8> {
    seq![0x74u8, 0x68u8, 0x72u8, 0x65u8, 0x61u8, 0x64u8, 0x65u8, 0x64u8, 0x5fu8, 0x70u8, 0x72u8,
        0x6fu8, 0x78u8, 0x79u8, 0x5fu8, 0x74u8, 0x65u8, 0x73u8, 0x74u8]
}

pub open spec fn lit_speed_test() -> Seq<u8> {
    seq![0x73u8, 0x70u8, 0x65u8, 0x65u8, 0x64u8, 0x5fu8, 0x74u8, 0x65u8, 0x73u8, 0x74u8]
}

pub open spec fn lit_refresh_settings() -> Seq<u8> {
    seq![0x72u8, 0x65u8, 0x66u8, 0x72u8, 0x65u8, 0x73u8, 0x68u8, 0x5fu8, 0x73u8, 0x65u8, 0x74u8,
        0x74u8, 0x69u8, 0x6eu8, 0x67u8, 0x73u8]
}

pub open spec fn lit_start_downloader() -> Seq<u8> {
    seq![0x73u8, 0x74u8, 0x61u8, 0x72u8, 0x74u8, 0x5fu8, 0x64u8, 0x6fu8, 0x77u8, 0x6eu8, 0x6cu8,
        0x6fu8, 0x61u8, 0x64u8, 0x65u8, 0x72u8]
}

pub open spec fn lit_refresh_certs() -> Seq<u8> {
    seq![0x72u8, 0x65u8, 0x66u8, 0x72u8, 0x65u8, 0x73u8, 0x68u8, 0x5fu8, 0x63u8, 0x65u8, 0x72u8,
        0x74u8, 0x73u8]
}

/// The recognized command words.
pub enum CmdKind {
    StillAlive,
    ProxyTest,
    SpeedTest,
    RefreshSettings,
    StartDownloader,
    ReloadCert,
    Invalid,
}

/// Which command the (case-folded) command word names.
pub open spec fn dispatch_kind(command: Seq<u8>) -> CmdKind {
    let c = ascii_lower(command);
    if c == lit_still_alive() {
        CmdKind::StillAlive
    } else if c == lit_threaded_proxy_test() {
        CmdKind::ProxyTest
    } else if c == lit_speed_test() {
        CmdKind::SpeedTest
    } else if c == lit_refresh_settings() {
        CmdKind::RefreshSettings
    } else if c == lit_start_downloader() {
        CmdKind::StartDownloader
    } else if c == lit_refresh_certs() {
        CmdKind::ReloadCert
    } else {
        CmdKind::Invalid
    }
}

/// Decides a server-command request.
///
/// An unauthorized peer or a bad key is refused outright; otherwise the
/// lowercased command word selects the action, with proxy-test
/// parameters validated and extracted.
pub fn servercmd_decide(
    peer_whitelisted: bool,
    now: i64,
    command: &[u8],
    additional: &[u8],
    id: i32,
    time: i64,
    client_key: &[u8],
    provided_key: &[u8],
) -> (r: ServerCmdAction)
    ensures
        r is Forbidden <==> (!peer_whitelisted || !servercmd_key_ok(
            now,
            command@,
            additional@,
            id,
            time,
            client_key@,
            provided_key@,
        )),
        !(r is Forbidden) ==> match dispatch_kind(command@) {
            CmdKind::StillAlive => r is StillAlive,
            CmdKind::ProxyTest => if proxy_params_ok(additional@) {
                r matches ServerCmdAction::ProxyTest(p) && p.host@ == str_value(
                    additional@,
                    spec_key_hostname(),
                ) && p.protocol@ == protocol_value(additional@) && p.port as nat == num_value(
                    additional@,
                    spec_key_port(),
                    0xffff,
                ) && p.size as nat == num_value(additional@, spec_key_testsize(), 0xffff_ffff)
                    && p.count as nat == num_value(additional@, spec_key_testcount(), 0xff)
                    && p.time as nat == num_value(additional@, spec_key_testtime(),
                0xffff_ffff_ffff_ffff) && p.token@ == str_value(additional@, spec_key_testkey())
            } else {
                r is BadRequest
            },
            CmdKind::SpeedTest => r matches ServerCmdAction::SpeedTest(m) && m as nat
                == speedtest_size(additional@),
            CmdKind::RefreshSettings => r is RefreshSettings,
            CmdKind::StartDownloader => r is StartDownloader,
            CmdKind::ReloadCert => r is ReloadCert,
            CmdKind::Invalid => r is InvalidCommand,
        },
{
    if !peer_whitelisted {
        return ServerCmdAction::Forbidden;
    }
    if !check_servercmd_key(now, command, additional, id, time, client_key, provided_key) {
        return ServerCmdAction::Forbidden;
    }
    let c = to_ascii_lower(command);
    let cs = c.as_slice();
    if bytes_eq(cs, &[0x73, 0x74, 0x69, 0x6c, 0x6c, 0x5f, 0x61, 0x6c, 0x69, 0x76, 0x65]) {
        proof {
            assert(seq![0x73u8, 0x74u8, 0x69u8, 0x6cu8, 0x6cu8, 0x5fu8, 0x61u8, 0x6cu8, 0x69u8,
                0x76u8, 0x65u8] =~= lit_still_alive());
        }
        return ServerCmdAction::StillAlive;
    }
    if bytes_eq(
        cs,
        &[0x74, 0x68, 0x72, 0x65, 0x61, 0x64, 0x65, 0x64, 0x5f, 0x70, 0x72, 0x6f, 0x78, 0x79,
            0x5f, 0x74, 0x65, 0x73, 0x74],
    ) {
        proof {
            assert(seq![0x74u8, 0x68u8, 0x72u8, 0x65u8, 0x61u8, 0x64u8, 0x65u8, 0x64u8, 0x5fu8,
                0x70u8, 0x72u8, 0x6fu8, 0x78u8, 0x79u8, 0x5fu8, 0x74u8, 0x65u8, 0x73u8, 0x74u8]
                =~= lit_threaded_proxy_test());
        }
        return match parse_proxy_params(additional) {
            Some(p) => ServerCmdAction::ProxyTest(p),
            None => ServerCmdAction::BadRequest,
        };
    }
    if bytes_eq(cs, &[0x73, 0x70, 0x65, 0x65, 0x64, 0x5f, 0x74, 0x65, 0x73, 0x74]) {
        proof {
            assert(seq![0x73u8, 0x70u8, 0x65u8, 0x65u8, 0x64u8, 0x5fu8, 0x74u8, 0x65u8, 0x73u8,
                0x74u8] =~= lit_speed_test());
        }
        let pairs = parse_additional(additional);
        let ghost_src: Ghost<Seq<u8>> = Ghost(additional@);
        let n: u64 = match get_value(&pairs, key_testsize().as_slice(), ghost_src) {
            Some(v) => {
                match parse_u64_dec(v.as_slice()) {
                    Some(n) => {
                        proof {
                            crate::bytesutil::lemma_dec_of_canon(n as nat);
                        }
                        n
                    }
                    None => 1000000,
                }
            }
            None => 1000000,
        };
        return ServerCmdAction::SpeedTest(n);
    }
    if bytes_eq(
        cs,
        &[0x72, 0x65, 0x66, 0x72, 0x65, 0x73, 0x68, 0x5f, 0x73, 0x65, 0x74, 0x74, 0x69, 0x6e,
            0x67, 0x73],
    ) {
        proof {
            assert(seq![0x72u8, 0x65u8, 0x66u8, 0x72u8, 0x65u8, 0x73u8, 0x68u8, 0x5fu8, 0x73u8,
                0x65u8, 0x74u8, 0x74u8, 0x69u8, 0x6eu8, 0x67u8, 0x73u8] =~= lit_refresh_settings());
        }
        return ServerCmdAction::RefreshSettings;
    }
    if bytes_eq(
        cs,
        &[0x73, 0x74, 0x61, 0x72, 0x74, 0x5f, 0x64, 0x6f, 0x77, 0x6e, 0x6c, 0x6f, 0x61, 0x64,
            0x65, 0x72],
    ) {
        proof {
            assert(seq![0x73u8, 0x74u8, 0x61u8, 0x72u8, 0x74u8, 0x5fu8, 0x64u8, 0x6fu8, 0x77u8,
                0x6eu8, 0x6cu8, 0x6fu8, 0x61u8, 0x64u8, 0x65u8, 0x72u8] =~= lit_start_downloader());
        }
        return ServerCmdAction::StartDownloader;
    }
    if bytes_eq(
        cs,
        &[0x72, 0x65, 0x66, 0x72, 0x65, 0x73, 0x68, 0x5f, 0x63, 0x65, 0x72, 0x74, 0x73],
    ) {
        proof {
            assert(seq![0x72u8, 0x65u8, 0x66u8, 0x72u8, 0x65u8, 0x73u8, 0x68u8, 0x5fu8, 0x63u8,
                0x65u8, 0x72u8, 0x74u8, 0x73u8] =~= lit_refresh_certs());
        }
        return ServerCmdAction::ReloadCert;
    }
    ServerCmdAction::InvalidCommand
}

/// The liveness reply body.
pub fn still_alive_body() -> (r: Vec<u8>)
    ensures
        r@ == lit_still_alive_body(),
{
    let mut v: Vec<u8> = Vec::new();
    v.push(0x49);
    v.push(0x20);
    v.push(0x66);
    v.push(0x65);
    v.push(0x65);
    v.push(0x6c);
    v.push(0x20);
    v.push(0x46);
    v.push(0x41);
    v.push(0x4e);
    v.push(0x54);
    v.push(0x41);
    v.push(0x53);
    v.push(0x54);
    v.push(0x49);
    v.push(0x43);
    v.push(0x20);
    v.push(0x61);
    v.push(0x6e);
    v.push(0x64);
    v.push(0x20);
    v.push(0x49);
    v.push(0x27);
    v.push(0x6d);
    v.push(0x20);
    v.push(0x73);
    v.push(0x74);
    v.push(0x69);
    v.push(0x6c);
    v.push(0x6c);
    v.push(0x20);
    v.push(0x61);
    v.push(0x6c);
    v.push(0x69);
    v.push(0x76);
    v.push(0x65);
    proof {
        assert(v@ =~= lit_still_alive_body());
    }
    v
}

/// `I feel FANTASTIC and I'm still alive`
pub open spec fn lit_still_alive_body() -> Seq<u8> {
    seq![0x49u8, 0x20u8, 0x66u8, 0x65u8, 0x65u8, 0x6cu8, 0x20u8, 0x46u8, 0x41u8, 0x4eu8, 0x54u8,
        0x41u8, 0x53u8, 0x54u8, 0x49u8, 0x43u8, 0x20u8, 0x61u8, 0x6eu8, 0x64u8, 0x20u8, 0x49u8,
        0x27u8, 0x6du8, 0x20u8, 0x73u8, 0x74u8, 0x69u8, 0x6cu8, 0x6cu8, 0x20u8, 0x61u8, 0x6cu8,
        0x69u8, 0x76u8, 0x65u8]
}

/// The unknown-command reply body: `INVALID_COMMAND`.
pub fn invalid_command_body() -> (r: Vec<u8>)
    ensures
        r@ == seq![0x49u8, 0x4eu8, 0x56u8, 0x41u8, 0x4cu8, 0x49u8, 0x44u8, 0x5fu8, 0x43u8,
            0x4fu8, 0x4du8, 0x4du8, 0x41u8, 0x4eu8, 0x44u8],
{
    let mut v: Vec<u8> = Vec::new();
    v.push(0x49);
    v.push(0x4e);
    v.push(0x56);
    v.push(0x41);
    v.push(0x4c);
    v.push(0x49);
    v.push(0x44);
    v.push(0x5f);
    v.push(0x43);
    v.push(0x4f);
    v.push(0x4d);
    v.push(0x4d);
    v.push(0x41);
    v.push(0x4e);
    v.push(0x44);
    proof {
        assert(v@ =~= seq![0x49u8, 0x4eu8, 0x56u8, 0x41u8, 0x4cu8, 0x49u8, 0x44u8, 0x5fu8,
            0x43u8, 0x4fu8, 0x4du8, 0x4du8, 0x41u8, 0x4eu8, 0x44u8]);
    }
    v
}

/// Sum of the successful probe times and their count.
pub open spec fn probe_totals(outcomes: Seq<Option<u64>>) -> (nat, nat)
    decreases outcomes.len(),
{
    if outcomes.len() == 0 {
        (0, 0)
    } else {
        let rest = probe_totals(outcomes.drop_last());
        match outcomes.last() {
            Option::Some(ms) => ((rest.0 + 1) as nat, (rest.1 + ms) as nat),
            Option::None => rest,
        }
    }
}

/// Aggregates probe outcomes: how many succeeded and their total time.
pub fn aggregate_probes(outcomes: &Vec<Option<u64>>) -> (r: (u64, u128))
    ensures
        r.0 as nat == probe_totals(outcomes@).0,
        r.1 as nat == probe_totals(outcomes@).1,
{
    let mut success: u64 = 0;
    let mut total: u128 = 0;
    let n = outcomes.len();
    let mut i: usize = 0;
    while i < n
        invariant
            i <= n,
            n == outcomes@.len(),
            success as nat == probe_totals(outcomes@.take(i as int)).0,
            total as nat == probe_totals(outcomes@.take(i as int)).1,
            success as nat <= i,
            total as nat <= i * 0xffff_ffff_ffff_ffff,
        decreases n - i,
    {
        proof {
            assert(outcomes@.take(i as int + 1).drop_last() =~= outcomes@.take(i as int));
            assert((i + 1) * 0xffff_ffff_ffff_ffff == i * 0xffff_ffff_ffff_ffff
                + 0xffff_ffff_ffff_ffff) by (nonlinear_arith);
            assert(n * 0xffff_ffff_ffff_ffff < u128::MAX) by (nonlinear_arith)
                requires
                    n < 0x1_0000_0000_0000_0000,
            ;
            assert(i * 0xffff_ffff_ffff_ffff <= n * 0xffff_ffff_ffff_ffff) by (nonlinear_arith)
                requires
                    i <= n,
            ;
        }
        match outcomes[i] {
            Some(ms) => {
                success = success + 1;
                total = total + ms as u128;
            }
            None => {
            }
        }
        i = i + 1;
    }
    proof {
        assert(outcomes@.take(n as int) =~= outcomes@);
    }
    (success, total)
}

/// The proxy-test reply body: `OK:count-milliseconds`.
pub open spec fn proxy_reply_of(success: nat, ms: nat) -> Seq<u8> {
    seq![0x4fu8, 0x4bu8, 0x3au8] + dec_of(success) + seq![0x2du8] + dec_of(ms)
}

/// Renders the proxy-test reply.
pub fn proxy_test_reply(success: u64, ms: u128) -> (r: Vec<u8>)
    ensures
        r@ == proxy_reply_of(success as nat, ms as nat),
{
    let mut v: Vec<u8> = Vec::new();
    v.push(0x4f);
    v.push(0x4b);
    v.push(0x3a);
    let d = u64_to_dec(success);
    append_bytes(&mut v, d.as_slice());
    v.push(0x2d);
    let d2 = u128_to_dec(ms);
    append_bytes(&mut v, d2.as_slice());
    proof {
        assert(v@ =~= proxy_reply_of(success as nat, ms as nat));
    }
    v
}

/// Renders a 128-bit number in decimal.
pub fn u128_to_dec(n: u128) -> (r: Vec<u8>)
    ensures
        r@ == dec_of(n as nat),
    decreases n,
{
    if n < 10 {
        let mut v: Vec<u8> = Vec::new();
        v.push(0x30 + n as u8);
        proof {
            assert(v@ =~= dec_of(n as nat));
        }
        v
    } else {
        let mut v = u128_to_dec(n / 10);
        v.push(0x30 + (n % 10) as u8);
        proof {
            assert(v@ =~= dec_of(n as nat));
        }
        v
    }
}

/// The URL of one outbound speed-test probe:
/// `protocol://host:port/t/size/time/token/rand`.
pub open spec fn probe_url_of(
    protocol: Seq<u8>,
    host: Seq<u8>,
    port: u16,
    size: u32,
    time: u64,
    token: Seq<u8>,
    rand: u32,
) -> Seq<u8> {
    protocol + seq![0x3au8, 0x2fu8, 0x2fu8] + host + seq![0x3au8] + dec_of(port as nat) + seq![
        0x2fu8,
        0x74u8,
        0x2fu8,
    ] + dec_of(size as nat) + seq![0x2fu8] + dec_of(time as nat) + seq![0x2fu8] + token + seq![
        0x2fu8,
    ] + dec_of(rand as nat)
}

/// Builds one probe URL from validated parameters and a fresh nonce.
///
/// The nonce is drawn by the caller: it is the one probe ingredient
/// that is not a function of the request.
pub fn build_probe_url(p: &ProxyTestParams, rand: u32) -> (r: Vec<u8>)
    ensures
        r@ == probe_url_of(p.protocol@, p.host@, p.port, p.size, p.time, p.token@, rand),
{
    let mut v: Vec<u8> = Vec::new();
    append_bytes(&mut v, p.protocol.as_slice());
    v.push(0x3a);
    v.push(0x2f);
    v.push(0x2f);
    append_bytes(&mut v, p.host.as_slice());
    v.push(0x3a);
    let d = u64_to_dec(p.port as u64);
    append_bytes(&mut v, d.as_slice());
    v.push(0x2f);
    v.push(0x74);
    v.push(0x2f);
    let d = u64_to_dec(p.size as u64);
    append_bytes(&mut v, d.as_slice());
    v.push(0x2f);
    let d = u64_to_dec(p.time);
    append_bytes(&mut v, d.as_slice());
    v.push(0x2f);
    append_bytes(&mut v, p.token.as_slice());
    v.push(0x2f);
    let d = u64_to_dec(rand as u64);
    append_bytes(&mut v, d.as_slice());
    proof {
        assert(v@ =~= probe_url_of(p.protocol@, p.host@, p.port, p.size, p.time, p.token@,
            rand));
    }
    v
}

} // verus!
