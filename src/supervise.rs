//! The decisions that the supervisors of a session take between their outside steps.

use crate::protocol::{be16, PacketResponse};
use crate::states::ExceptionType;
use vstd::prelude::*;

verus! {

/// Failed game-port probes in a row after which a session is given up.
pub const MAX_PROBE_FAILURES: u8 = 3;

/// The byte a game server answers a legacy ping with.
pub const PING_REPLY: u8 = 0xFF;

/// The byte of a legacy ping.
pub const PING_REQUEST: u8 = 0xFE;

/// The sixteen bytes a guest sends in `c:ping` to recognise a host.
pub open spec fn fingerprint() -> Seq<u8> {
    seq![
        0x41u8, 0x57, 0x48, 0x44, 0x86, 0x37, 0x40, 0x59, 0x57, 0x44, 0x92, 0x43, 0x96, 0x99, 0x85,
        0x01,
    ]
}

/// The sixteen bytes a guest sends in `c:ping` to recognise a host.
pub fn fingerprint_bytes() -> (r: Vec<u8>)
    ensures
        r@ == fingerprint(),
{
    let r = vec![
        0x41u8, 0x57, 0x48, 0x44, 0x86, 0x37, 0x40, 0x59, 0x57, 0x44, 0x92, 0x43, 0x96, 0x99, 0x85,
        0x01,
    ];
    assert(r@ =~= fingerprint());
    r
}

/// Whether a host echoed the fingerprint exactly, byte for byte and in length.
pub fn fingerprint_matches(data: &Vec<u8>) -> (r: bool)
    ensures
        r == (data@ == fingerprint()),
{
    let f = fingerprint_bytes();
    if data.len() != f.len() {
        return false;
    }
    let mut i: usize = 0;
    while i < data.len()
        invariant
            f@ == fingerprint(),
            data@.len() == f@.len(),
            i <= data@.len(),
            forall|k: int| 0 <= k < i ==> data@[k] == f@[k],
        decreases data@.len() - i,
    {
        if data[i] != f[i] {
            return false;
        }
        i += 1;
    }
    assert(data@ =~= f@);
    true
}

/// The game's port in a reply to `c:server_port`: two bytes, most significant first.
pub fn game_port_of(response: &PacketResponse) -> (r: Option<u16>)
    ensures
        match response {
            PacketResponse::Success { data } => if data@.len() == 2 {
                r matches Some(p) && be16(p as nat) == data@
            } else {
                r is None
            },
            _ => r is None,
        },
{
    match response {
        PacketResponse::Success { data } => {
            if data.len() == 2 {
                let p = data[0] as u16 * 256 + data[1] as u16;
                assert(be16(p as nat) =~= data@);
                Some(p)
            } else {
                None
            }
        },
        _ => None,
    }
}

/// Whether a game server answered a legacy ping: one byte came back, and it is `0xFF`.
pub fn probe_succeeded(reply: Option<u8>) -> (r: bool)
    ensures
        r == (reply == Some(PING_REPLY)),
{
    match reply {
        Some(b) => b == PING_REPLY,
        None => false,
    }
}

/// Failed probes in a row after one more probe: none after a success, one more after a
/// failure.
pub fn next_failures(count: u8, ok: bool) -> (r: u8)
    requires
        count < MAX_PROBE_FAILURES,
    ensures
        r == if ok {
            0
        } else {
            count + 1
        },
{
    if ok {
        0
    } else {
        count + 1
    }
}

/// Whether that many failed probes in a row give the session up.
pub fn gave_up(count: u8) -> (r: bool)
    ensures
        r == (count >= MAX_PROBE_FAILURES),
{
    count >= MAX_PROBE_FAILURES
}

} // verus!

verus! {

/// Attempts at a batch of port-forwards before it is given up.
pub const FORWARD_ATTEMPTS: u64 = 3;

/// The wait, in milliseconds, after attempt `attempt` (from 0) at a batch of port-forwards:
/// 500, 1500, 2500.
pub fn forward_backoff_ms(attempt: u64) -> (r: u64)
    requires
        attempt < FORWARD_ATTEMPTS,
    ensures
        r == attempt * 1000 + 500,
{
    attempt * 1000 + 500
}

/// The rules of a batch still to add after an attempt: those of `pending` whose attempt
/// did not succeed, in order.
pub fn still_pending(pending: &Vec<usize>, succeeded: &Vec<bool>) -> (r: Vec<usize>)
    requires
        pending@.len() == succeeded@.len(),
    ensures
        r@ == failed_of(pending@, succeeded@),
{
    let mut out: Vec<usize> = Vec::new();
    let mut k: usize = 0;
    while k < pending.len()
        invariant
            pending@.len() == succeeded@.len(),
            k <= pending@.len(),
            out@ == failed_of(pending@.subrange(0, k as int), succeeded@.subrange(0, k as int)),
        decreases pending@.len() - k,
    {
        assert(pending@.subrange(0, k + 1).drop_last() =~= pending@.subrange(0, k as int));
        assert(succeeded@.subrange(0, k + 1).drop_last() =~= succeeded@.subrange(0, k as int));
        if !succeeded[k] {
            out.push(pending[k]);
        }
        k += 1;
    }
    assert(pending@.subrange(0, k as int) =~= pending@);
    assert(succeeded@.subrange(0, k as int) =~= succeeded@);
    out
}

/// The rules of `pending` whose attempt did not succeed, in order.
pub open spec fn failed_of(pending: Seq<usize>, succeeded: Seq<bool>) -> Seq<usize>
    decreases pending.len(),
{
    if pending.len() == 0 || succeeded.len() != pending.len() {
        Seq::empty()
    } else if succeeded.last() {
        failed_of(pending.drop_last(), succeeded.drop_last())
    } else {
        failed_of(pending.drop_last(), succeeded.drop_last()).push(pending.last())
    }
}

} // verus!

verus! {

/// The bounded waits of a guest joining a room.
#[derive(Clone, Copy, Debug, PartialEq, Eq, Structural)]
pub enum Stage {
    /// Polling the overlay's peers for a host name that announces a side-band port.
    PeerDiscovery,
    /// Opening a session and checking the host's echo of the fingerprint.
    Handshake,
    /// Waiting for the forwarded game port to answer, before going on regardless.
    GameReach,
    /// Waiting for the game of a room without profile exchange to answer.
    LegacyReach,
}

/// How many attempts a stage makes: 5 peer polls, 60 handshakes, 8 and 5 game probes.
pub open spec fn stage_limit(stage: Stage) -> u32 {
    match stage {
        Stage::PeerDiscovery => 5,
        Stage::Handshake => 60,
        Stage::GameReach => 8,
        Stage::LegacyReach => 5,
    }
}

/// The pause, in milliseconds, before each attempt of a stage: 3 s between peer polls,
/// 4 s between handshakes; a game probe paces itself.
pub open spec fn stage_pause(stage: Stage) -> u64 {
    match stage {
        Stage::PeerDiscovery => 3000,
        Stage::Handshake => 4000,
        Stage::GameReach => 0,
        Stage::LegacyReach => 0,
    }
}

/// What a supervisor does after an attempt of a stage.
#[derive(Clone, Copy, Debug, PartialEq, Eq, Structural)]
pub enum StageStep {
    /// Go on to what follows the stage.
    Proceed,
    /// Make another attempt.
    Retry,
    /// End the session for `kind`.
    GiveUp { kind: ExceptionType },
}

/// After the `tried`-th attempt of `stage`, which `succeeded` or not: a success goes on; a
/// failure tries again while attempts are left; once they are spent, the wait for the game
/// goes on regardless and every other stage ends the session as a failed ping.
pub open spec fn stage_outcome(stage: Stage, tried: u32, succeeded: bool) -> StageStep {
    if succeeded {
        StageStep::Proceed
    } else if tried < stage_limit(stage) {
        StageStep::Retry
    } else if stage == Stage::GameReach {
        StageStep::Proceed
    } else {
        StageStep::GiveUp { kind: ExceptionType::PingHostFail }
    }
}

impl Stage {
    /// How many attempts this stage makes.
    pub fn limit(self) -> (r: u32)
        ensures
            r == stage_limit(self),
    {
        match self {
            Stage::PeerDiscovery => 5,
            Stage::Handshake => 60,
            Stage::GameReach => 8,
            Stage::LegacyReach => 5,
        }
    }

    /// The pause, in milliseconds, before each attempt of this stage.
    pub fn pause_ms(self) -> (r: u64)
        ensures
            r == stage_pause(self),
    {
        match self {
            Stage::PeerDiscovery => 3000,
            Stage::Handshake => 4000,
            Stage::GameReach => 0,
            Stage::LegacyReach => 0,
        }
    }
}

/// What to do after the `tried`-th attempt of `stage`.
pub fn stage_step(stage: Stage, tried: u32, succeeded: bool) -> (r: StageStep)
    ensures
        r == stage_outcome(stage, tried, succeeded),
{
    if succeeded {
        StageStep::Proceed
    } else if tried < stage.limit() {
        StageStep::Retry
    } else if stage == Stage::GameReach {
        StageStep::Proceed
    } else {
        StageStep::GiveUp { kind: ExceptionType::PingHostFail }
    }
}

/// A stage gives up only after its last attempt failed: never sooner, and never after a
/// success.
pub proof fn lemma_stage_bounded(stage: Stage, tried: u32, succeeded: bool)
    ensures
        stage_outcome(stage, tried, succeeded) is GiveUp ==> !succeeded && tried >= stage_limit(
            stage,
        ) && stage != Stage::GameReach,
        stage_outcome(stage, tried, succeeded) is Retry ==> !succeeded && tried < stage_limit(
            stage,
        ),
{
}

} // verus!
