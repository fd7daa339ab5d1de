//! Whether the peer behind a freshly activated tunnel answered.
//!
//! That a connection came up says only that the interface exists, not that the
//! handshake completed. The receive counter of the interface moves only for
//! authenticated traffic, so a counter that is not zero shows that the peer
//! answered. It is a latch, no rate: an established idle tunnel may never
//! receive another packet.

use vstd::prelude::*;

use crate::nm::network_info::{interface_receive_bytes_in, parse_interface_receive_bytes};
use crate::record::{grown, lemma_since, lemma_since_none, lemma_since_one, since, Recorder};

verus! {

/// Delay between two samples, in milliseconds.
pub const PROBE_INTERVAL_MS: u64 = 500;

/// How long to wait for the peer to answer, in milliseconds: three of the
/// intervals at which a handshake is retried.
pub const PROBE_WINDOW_MS: u64 = 15_000;

/// The number of samples that are taken within the window.
pub const PROBE_ATTEMPTS: u32 = 30;

/// What the samples of a receive counter show.
#[derive(Debug, Clone, Copy, PartialEq, Eq, Structural)]
pub enum TunnelHealth {
    /// The peer answered: authenticated traffic arrived on the interface.
    Handshaken,
    /// Nothing authenticated arrived within the probe window.
    NoHandshake,
}

impl TunnelHealth {
    /// Whether the peer answered.
    pub fn is_healthy(self) -> (r: bool)
        ensures
            r == (self == TunnelHealth::Handshaken),
    {
        match self {
            TunnelHealth::Handshaken => true,
            TunnelHealth::NoHandshake => false,
        }
    }
}

/// The attempts take up the whole window.
pub proof fn law_attempts_fill_the_window()
    ensures
        PROBE_ATTEMPTS * PROBE_INTERVAL_MS == PROBE_WINDOW_MS,
        PROBE_WINDOW_MS >= 3 * 5_000,
{
}

/// What one sample decides while `left` further samples may be taken.
#[derive(Debug, Clone, Copy, PartialEq, Eq, Structural)]
pub enum ProbeStep {
    /// Take another sample.
    Again,
    /// The probe is over.
    Done(TunnelHealth),
}

/// What one sample decides while `left` further samples may be taken: a counter
/// that is not zero ends the probe at once, and so does the last sample.
pub fn probe_step(sample: u64, left: u32) -> (r: ProbeStep)
    ensures
        r == (if sample > 0 {
            ProbeStep::Done(TunnelHealth::Handshaken)
        } else if left == 0 {
            ProbeStep::Done(TunnelHealth::NoHandshake)
        } else {
            ProbeStep::Again
        }),
{
    if sample > 0 {
        ProbeStep::Done(TunnelHealth::Handshaken)
    } else if left == 0 {
        ProbeStep::Done(TunnelHealth::NoHandshake)
    } else {
        ProbeStep::Again
    }
}

/// Whether `samples` are those of a probe with up to `attempts` of them: none
/// but the last is other than zero, and fewer are taken only where that one is.
pub open spec fn are_probe_samples(samples: Seq<u64>, attempts: nat) -> bool {
    &&& samples.len() <= attempts
    &&& forall|i: int| 0 <= i < samples.len() - 1 ==> #[trigger] samples[i] == 0
    &&& samples.len() < attempts ==> samples.len() > 0 && samples.last() > 0
}

/// What samples show: the peer answered where one is not zero.
pub open spec fn health_of(samples: Seq<u64>) -> TunnelHealth {
    if samples.len() > 0 && samples.last() > 0 {
        TunnelHealth::Handshaken
    } else {
        TunnelHealth::NoHandshake
    }
}

/// The samples that were taken, from the calls that took them.
pub open spec fn samples_of(calls: Seq<((), u64)>) -> Seq<u64> {
    calls.map_values(|c: ((), u64)| c.1)
}

/// What up to `attempts` samples of a receive counter show. No further sample is
/// taken once one is not zero, and the probe gives up only after the last.
pub fn probe_with<R: Fn(&()) -> u64>(attempts: u32, rx_bytes: &mut Recorder<(), u64, R>) -> (r:
    TunnelHealth)
    ensures
        final(rx_bytes).follows(*old(rx_bytes)),
        ({
            let samples = samples_of(since(old(rx_bytes).calls(), final(rx_bytes).calls()));
            are_probe_samples(samples, attempts as nat) && r == health_of(samples)
        }),
{
    let ghost start = rx_bytes.calls();
    let mut left: u32 = attempts;
    proof {
        lemma_since_none(start);
    }
    while left > 0
        invariant
            left <= attempts,
            start == old(rx_bytes).calls(),
            grown(start, rx_bytes.calls()),
            rx_bytes.follows(*old(rx_bytes)),
            since(start, rx_bytes.calls()).len() == attempts - left,
            forall|i: int|
                0 <= i < attempts - left ==> (#[trigger] since(start, rx_bytes.calls())[i]).1 == 0,
        decreases left,
    {
        let ghost before = rx_bytes.calls();
        let sample = rx_bytes.ask(&());
        left -= 1;
        proof {
            lemma_since_one(before, ((), sample));
            lemma_since(start, before, rx_bytes.calls());
        }
        match probe_step(sample, left) {
            ProbeStep::Done(health) => {
                return health;
            },
            ProbeStep::Again => {},
        }
    }
    TunnelHealth::NoHandshake
}

/// A probe finds the peer alive exactly where one of its samples is not zero, and
/// takes all the samples where none is.
pub proof fn law_probe(samples: Seq<u64>, attempts: nat)
    requires
        are_probe_samples(samples, attempts),
    ensures
        health_of(samples) == TunnelHealth::Handshaken <==> exists|i: int|
            0 <= i < samples.len() && #[trigger] samples[i] > 0,
        health_of(samples) == TunnelHealth::NoHandshake ==> samples.len() == attempts,
        forall|i: int| 0 <= i < samples.len() && #[trigger] samples[i] > 0 ==> i == samples.len() - 1,
{
    if samples.len() > 0 && samples.last() > 0 {
        assert(samples[samples.len() - 1] > 0);
    }
}

/// Whether `interface` is present in the interface statistics `content`.
pub fn interface_exists(content: &str, interface: &str) -> (r: bool)
    ensures
        r == interface_receive_bytes_in(content@, interface@) is Some,
{
    parse_interface_receive_bytes(content, interface).is_some()
}

} // verus!
