//! The decisions of the receive loop. The caller receives datagrams and
//! hands each outcome here: a datagram is decoded and applied to the
//! directory, and too many receive failures in a row end the loop.
use vstd::prelude::*;
use crate::config::{AppConfig, encoding_named};
use crate::directory::{Directory, PeerAddr, apply_spec};
use crate::protocol::{IpMsgPacket, DecodeError, decode_spec};

verus! {

/// Consecutive receive failures at which the loop gives up.
pub const MAX_CONSECUTIVE_ERRORS: u8 = 5;

/// What the loop does after a receive failure.
#[derive(Clone, Copy, Debug, PartialEq, Eq, Structural)]
pub enum ReceiveOutcome {
    /// Keep receiving.
    Continue,
    /// Stop and report the failure to the caller.
    Fatal,
}

/// One step of the failure counter: a received datagram resets it; a failure
/// raises it (it stays at the limit once there) and is fatal at the limit.
/// Gives the new count and whether the loop stops.
pub open spec fn receive_step(errors: u8, received: bool) -> (u8, bool) {
    if received {
        (0, false)
    } else {
        let m: u8 = if errors < MAX_CONSECUTIVE_ERRORS {
            (errors + 1) as u8
        } else {
            MAX_CONSECUTIVE_ERRORS
        };
        (m, m >= MAX_CONSECUTIVE_ERRORS)
    }
}

/// The counter after a run of receive outcomes (`true` for a datagram,
/// `false` for a failure), and whether the loop stopped on the way.
pub open spec fn run_events(errors: u8, events: Seq<bool>) -> (u8, bool)
    decreases events.len(),
{
    if events.len() == 0 {
        (errors, false)
    } else {
        let (m, fatal) = receive_step(errors, events[0]);
        if fatal {
            (m, true)
        } else {
            run_events(m, events.drop_first())
        }
    }
}

/// `k` receive failures in a row.
pub open spec fn failures(k: nat) -> Seq<bool> {
    Seq::new(k, |i: int| false)
}

/// A received datagram resets the failure count, whatever it was, and never
/// stops the loop.
pub proof fn lemma_success_resets(errors: u8)
    ensures
        receive_step(errors, true) == (0u8, false),
{
}

/// From a reset counter, fewer than five failures in a row keep the loop
/// running with the counter at their number, and a datagram after them
/// resets it.
pub proof fn lemma_below_threshold(k: nat)
    requires
        k < MAX_CONSECUTIVE_ERRORS,
    ensures
        run_events(0, failures(k)) == (k as u8, false),
        run_events(0, failures(k).push(true)) == (0u8, false),
    decreases k,
{
    lemma_failures_then(0, k, seq![true]);
    assert(seq![true].drop_first() =~= Seq::<bool>::empty());
    assert(seq![true][0]);
    assert(run_events(0u8, Seq::<bool>::empty()) == (0u8, false));
    assert(run_events(k as u8, seq![true]) == run_events(0u8, seq![true].drop_first()));
    assert(failures(k) + seq![true] =~= failures(k).push(true));
    lemma_failures_then(0, k, Seq::empty());
    assert(failures(k) + Seq::<bool>::empty() =~= failures(k));
}

proof fn lemma_failures_then(start: u8, k: nat, rest: Seq<bool>)
    requires
        start + k < MAX_CONSECUTIVE_ERRORS,
    ensures
        run_events(start, failures(k) + rest) == run_events((start + k) as u8, rest),
    decreases k,
{
    if k > 0 {
        assert((failures(k) + rest).drop_first() =~= failures((k - 1) as nat) + rest);
        assert((failures(k) + rest)[0] == false);
        lemma_failures_then((start + 1) as u8, (k - 1) as nat, rest);
    } else {
        assert(failures(k) + rest =~= rest);
    }
}

/// Five failures in a row stop the loop, from any state of the counter,
/// and at the fifth failure at the latest.
pub proof fn lemma_threshold_stops(errors: u8, rest: Seq<bool>)
    requires
        errors <= MAX_CONSECUTIVE_ERRORS,
    ensures
        run_events(errors, failures(MAX_CONSECUTIVE_ERRORS as nat) + rest) == (
            MAX_CONSECUTIVE_ERRORS,
            true,
        ),
{
    lemma_stops_within(errors, MAX_CONSECUTIVE_ERRORS as nat, rest);
}

proof fn lemma_stops_within(errors: u8, k: nat, rest: Seq<bool>)
    requires
        errors <= MAX_CONSECUTIVE_ERRORS,
        errors + k >= MAX_CONSECUTIVE_ERRORS,
        k > 0,
    ensures
        run_events(errors, failures(k) + rest) == (MAX_CONSECUTIVE_ERRORS, true),
    decreases k,
{
    let s = failures(k) + rest;
    assert(s[0] == false);
    let m = receive_step(errors, false).0;
    if !receive_step(errors, false).1 {
        assert(s.drop_first() =~= failures((k - 1) as nat) + rest);
        lemma_stops_within(m, (k - 1) as nat, rest);
    }
}

/// The state of the receive loop: how many receive failures came in a row.
pub struct ReceiveState {
    consecutive_errors: u8,
}

impl View for ReceiveState {
    type V = u8;

    closed spec fn view(&self) -> u8 {
        self.consecutive_errors
    }
}

impl ReceiveState {
    /// The counter never passes the limit.
    pub closed spec fn wf(&self) -> bool {
        self.consecutive_errors <= MAX_CONSECUTIVE_ERRORS
    }

    /// A loop that has seen no failure.
    pub fn new() -> (r: ReceiveState)
        ensures
            r.wf(),
            r@ == 0,
    {
        ReceiveState { consecutive_errors: 0 }
    }

    /// The number of failures in a row so far.
    pub fn consecutive_errors(&self) -> (r: u8)
        ensures
            r == self@,
    {
        self.consecutive_errors
    }

    /// Records a receive failure and says whether the loop must stop.
    pub fn on_receive_error(&mut self) -> (r: ReceiveOutcome)
        requires
            old(self).wf(),
        ensures
            final(self).wf(),
            final(self)@ == receive_step(old(self)@, false).0,
            r == (if receive_step(old(self)@, false).1 {
                ReceiveOutcome::Fatal
            } else {
                ReceiveOutcome::Continue
            }),
    {
        if self.consecutive_errors < MAX_CONSECUTIVE_ERRORS {
            self.consecutive_errors = self.consecutive_errors + 1;
        }
        if self.consecutive_errors >= MAX_CONSECUTIVE_ERRORS {
            ReceiveOutcome::Fatal
        } else {
            ReceiveOutcome::Continue
        }
    }

    /// Handles a received datagram from `addr`: the failure count is reset,
    /// the datagram decoded under the configured encoding, and a decoded
    /// packet applied to the directory and handed back for delivery. A
    /// datagram that does not decode leaves the directory as it was.
    pub fn on_datagram(
        &mut self,
        directory: &mut Directory,
        data: &[u8],
        addr: &PeerAddr,
        config: &AppConfig,
    ) -> (r: Result<IpMsgPacket, DecodeError>)
        requires
            old(directory).wf(),
        ensures
            final(self).wf(),
            final(self)@ == receive_step(old(self)@, true).0,
            final(directory).wf(),
            match r {
                Ok(p) => decode_spec(data@, encoding_named(config.encoding.protocol@)) == Some(p@)
                    && final(directory)@ == apply_spec(old(directory)@, p@, addr@),
                Err(_) => decode_spec(data@, encoding_named(config.encoding.protocol@)) is None
                    && final(directory)@ == old(directory)@,
            },
    {
        self.consecutive_errors = 0;
        let r = IpMsgPacket::decode_with_config(data, config);
        match &r {
            Ok(packet) => directory.handle_packet(packet, addr),
            Err(_) => {},
        }
        r
    }
}

} // verus!
