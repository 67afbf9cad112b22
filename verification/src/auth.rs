//! Request and RPC authentication: signature templates and time windows.
//!
//! A user-facing image URL carries a keystamp `epoch-digest`; a server
//! command and an outbound RPC carry an action key. Each digest is the
//! keyed hash of a `-`-joined template, and each is accepted only while
//! the declared time lies within 300 seconds of the node's clock.
use vstd::prelude::*;
use crate::bytesutil::{append_bytes, bytes_eq, i64_to_dec, sdec_of};
use crate::digest::{digest, digest_of};
use crate::fileid::FileId;

verus! {

/// Largest allowed absolute clock drift, in seconds.
pub open spec fn spec_max_drift() -> int {
    300
}

/// Is the declared time within the accepted window around `now`?
pub open spec fn drift_ok(now: i64, time: i64) -> bool {
    -spec_max_drift() <= now - time <= spec_max_drift()
}

/// Checks the drift window.
pub fn check_drift(now: i64, time: i64) -> (r: bool)
    ensures
        r == drift_ok(now, time),
{
    let d: i128 = now as i128 - time as i128;
    -300 <= d && d <= 300
}

/// The fixed suffix of a keystamp template.
pub open spec fn hotlink_suffix() -> Seq<u8> {
    seq![0x68u8, 0x6fu8, 0x74u8, 0x6cu8, 0x69u8, 0x6eu8, 0x6bu8, 0x74u8, 0x68u8, 0x69u8, 0x73u8]
}

/// The fixed prefix of a server-command or RPC template.
pub open spec fn rpc_prefix() -> Seq<u8> {
    seq![0x68u8, 0x65u8, 0x6eu8, 0x74u8, 0x61u8, 0x69u8, 0x40u8, 0x68u8, 0x6fu8, 0x6du8, 0x65u8]
}

fn push_hotlink_suffix(v: &mut Vec<u8>)
    ensures
        final(v)@ == old(v)@ + hotlink_suffix(),
{
    v.push(0x68);
    v.push(0x6f);
    v.push(0x74);
    v.push(0x6c);
    v.push(0x69);
    v.push(0x6e);
    v.push(0x6b);
    v.push(0x74);
    v.push(0x68);
    v.push(0x69);
    v.push(0x73);
    proof {
        assert(v@ =~= old(v)@ + hotlink_suffix());
    }
}

fn push_rpc_prefix(v: &mut Vec<u8>)
    ensures
        final(v)@ == old(v)@ + rpc_prefix(),
{
    v.push(0x68);
    v.push(0x65);
    v.push(0x6e);
    v.push(0x74);
    v.push(0x61);
    v.push(0x69);
    v.push(0x40);
    v.push(0x68);
    v.push(0x6f);
    v.push(0x6d);
    v.push(0x65);
    proof {
        assert(v@ =~= old(v)@ + rpc_prefix());
    }
}

/// The keystamp template: `epoch-fileid-key-hotlinkthis`.
pub open spec fn keystamp_input(epoch: i64, id: FileId, key: Seq<u8>) -> Seq<u8> {
    sdec_of(epoch as int) + seq![0x2du8] + id.render_of() + seq![0x2du8] + key + seq![0x2du8]
        + hotlink_suffix()
}

/// Builds the keystamp template for a file request.
pub fn build_keystamp_input(epoch: i64, id: &FileId, key: &[u8]) -> (r: Vec<u8>)
    ensures
        r@ == keystamp_input(epoch, *id, key@),
{
    let mut v = i64_to_dec(epoch);
    v.push(0x2d);
    let rid = id.render();
    append_bytes(&mut v, rid.as_slice());
    v.push(0x2d);
    append_bytes(&mut v, key);
    v.push(0x2d);
    push_hotlink_suffix(&mut v);
    proof {
        assert(v@ =~= keystamp_input(epoch, *id, key@));
    }
    v
}

/// A keystamp is accepted iff the declared epoch is within the drift
/// window and the digest is the keyed digest of the template.
pub open spec fn keystamp_ok(
    now: i64,
    epoch: i64,
    id: FileId,
    key: Seq<u8>,
    provided: Seq<u8>,
) -> bool {
    drift_ok(now, epoch) && provided == digest_of(keystamp_input(epoch, id, key))
}

/// Validates the keystamp of an image request.
pub fn check_keystamp(now: i64, epoch: i64, id: &FileId, key: &[u8], provided: &[u8]) -> (r:
    bool)
    ensures
        r == keystamp_ok(now, epoch, *id, key@, provided@),
{
    if !check_drift(now, epoch) {
        return false;
    }
    let input = build_keystamp_input(epoch, id, key);
    let expect = digest(input.as_slice());
    bytes_eq(provided, expect.as_slice())
}

/// Within the window, only the clock matters: a request/time/key triple
/// accepted once is accepted at any clock within 300 seconds of the
/// declared time, and rejected at any clock outside it.
pub proof fn lemma_reissue_window(
    now1: i64,
    now2: i64,
    epoch: i64,
    id: FileId,
    key: Seq<u8>,
    provided: Seq<u8>,
)
    requires
        keystamp_ok(now1, epoch, id, key, provided),
    ensures
        keystamp_ok(now2, epoch, id, key, provided) == drift_ok(now2, epoch),
{
}

/// The server-command template:
/// `hentai@home-servercmd-command-additional-id-time-key`.
pub open spec fn servercmd_key_input(
    command: Seq<u8>,
    additional: Seq<u8>,
    id: i32,
    time: i64,
    key: Seq<u8>,
) -> Seq<u8> {
    rpc_prefix() + seq![0x2du8] + seq![
        0x73u8,
        0x65u8,
        0x72u8,
        0x76u8,
        0x65u8,
        0x72u8,
        0x63u8,
        0x6du8,
        0x64u8,
    ] + seq![0x2du8] + command + seq![0x2du8] + additional + seq![0x2du8] + sdec_of(id as int)
        + seq![0x2du8] + sdec_of(time as int) + seq![0x2du8] + key
}

/// Builds the server-command signature template.
pub fn build_servercmd_key_input(
    command: &[u8],
    additional: &[u8],
    id: i32,
    time: i64,
    key: &[u8],
) -> (r: Vec<u8>)
    ensures
        r@ == servercmd_key_input(command@, additional@, id, time, key@),
{
    let mut v: Vec<u8> = Vec::new();
    push_rpc_prefix(&mut v);
    v.push(0x2d);
    v.push(0x73);
    v.push(0x65);
    v.push(0x72);
    v.push(0x76);
    v.push(0x65);
    v.push(0x72);
    v.push(0x63);
    v.push(0x6d);
    v.push(0x64);
    v.push(0x2d);
    append_bytes(&mut v, command);
    v.push(0x2d);
    append_bytes(&mut v, additional);
    v.push(0x2d);
    let d = i64_to_dec(id as i64);
    append_bytes(&mut v, d.as_slice());
    v.push(0x2d);
    let d = i64_to_dec(time);
    append_bytes(&mut v, d.as_slice());
    v.push(0x2d);
    append_bytes(&mut v, key);
    proof {
        assert(v@ =~= servercmd_key_input(command@, additional@, id, time, key@));
    }
    v
}

/// A server command is accepted iff its declared time is in the window
/// and its key is the keyed digest of the template.
pub open spec fn servercmd_key_ok(
    now: i64,
    command: Seq<u8>,
    additional: Seq<u8>,
    id: i32,
    time: i64,
    key: Seq<u8>,
    provided: Seq<u8>,
) -> bool {
    drift_ok(now, time) && provided == digest_of(
        servercmd_key_input(command, additional, id, time, key),
    )
}

/// Validates a server-command key.
pub fn check_servercmd_key(
    now: i64,
    command: &[u8],
    additional: &[u8],
    id: i32,
    time: i64,
    key: &[u8],
    provided: &[u8],
) -> (r: bool)
    ensures
        r == servercmd_key_ok(now, command@, additional@, id, time, key@, provided@),
{
    if !check_drift(now, time) {
        return false;
    }
    let input = build_servercmd_key_input(command, additional, id, time, key);
    let expect = digest(input.as_slice());
    bytes_eq(provided, expect.as_slice())
}

/// The RPC action-key template: `hentai@home-action-add-id-time-key`.
pub open spec fn rpc_key_input(
    action: Seq<u8>,
    add: Seq<u8>,
    id: i32,
    time: i64,
    key: Seq<u8>,
) -> Seq<u8> {
    rpc_prefix() + seq![0x2du8] + action + seq![0x2du8] + add + seq![0x2du8] + sdec_of(id as int)
        + seq![0x2du8] + sdec_of(time as int) + seq![0x2du8] + key
}

/// Builds the action key template of an outbound RPC.
pub fn build_rpc_key_input(action: &[u8], add: &[u8], id: i32, time: i64, key: &[u8]) -> (r:
    Vec<u8>)
    ensures
        r@ == rpc_key_input(action@, add@, id, time, key@),
{
    let mut v: Vec<u8> = Vec::new();
    push_rpc_prefix(&mut v);
    v.push(0x2d);
    append_bytes(&mut v, action);
    v.push(0x2d);
    append_bytes(&mut v, add);
    v.push(0x2d);
    let d = i64_to_dec(id as i64);
    append_bytes(&mut v, d.as_slice());
    v.push(0x2d);
    let d = i64_to_dec(time);
    append_bytes(&mut v, d.as_slice());
    v.push(0x2d);
    append_bytes(&mut v, key);
    proof {
        assert(v@ =~= rpc_key_input(action@, add@, id, time, key@));
    }
    v
}

/// The signed action key of an outbound RPC.
pub fn rpc_act_key(action: &[u8], add: &[u8], id: i32, time: i64, key: &[u8]) -> (r: Vec<u8>)
    ensures
        r@ == digest_of(rpc_key_input(action@, add@, id, time, key@)),
        r@.len() == 40,
{
    let input = build_rpc_key_input(action, add, id, time, key);
    digest(input.as_slice())
}

} // verus!
