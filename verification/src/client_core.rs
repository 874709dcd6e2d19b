//! The viewer-side decision logic, factored out of the network loops:
//! interpreting server datagrams (odometry versus pong), computing the clock
//! offset from a pong, and recording per-message statistics while a session
//! is being measured.

use vstd::prelude::*;
use crate::clock::{estimate_offset, latency_ns, s_latency, s_offset, TIME_LIMIT_NS};
use crate::wire::{decode_udp_server, s_dec_udp_server, OdometryMessage, Stats, UdpServerMessage};

verus! {

/// What one server datagram means for the client.
#[derive(Clone, Copy, Debug, PartialEq, Eq, Structural)]
pub enum UdpServerEvent {
    /// Malformed, or a pong with inconsistent times: dropped.
    Ignored,
    /// A pong: store this server-clock offset (nanoseconds).
    OffsetUpdate(i64),
    /// An odometry sample to hand to the renderer.
    Odometry(OdometryMessage),
}

/// What a datagram received at client time `now_ns` decides: odometry is
/// passed on; a pong whose times are consistent (sent no later than received,
/// all within range) yields a new clock offset; everything else is ignored.
pub open spec fn s_udp_server_event(data: Seq<u8>, now_ns: u64) -> UdpServerEvent {
    match s_dec_udp_server(data) {
        Option::None => UdpServerEvent::Ignored,
        Option::Some(m) => match m {
            UdpServerMessage::Odometry(o) => UdpServerEvent::Odometry(o),
            UdpServerMessage::Pong(p) => if p.client_time <= now_ns && now_ns <= TIME_LIMIT_NS
                && p.server_time <= TIME_LIMIT_NS {
                UdpServerEvent::OffsetUpdate(
                    s_offset(p.client_time as int, now_ns as int, p.server_time as int) as i64,
                )
            } else {
                UdpServerEvent::Ignored
            },
        },
    }
}

/// Interpret one server datagram.
pub fn handle_udp_datagram(data: &[u8], now_ns: u64) -> (r: UdpServerEvent)
    ensures
        r == s_udp_server_event(data@, now_ns),
{
    match decode_udp_server(data) {
        Option::None => UdpServerEvent::Ignored,
        Option::Some(m) => match m {
            UdpServerMessage::Odometry(o) => UdpServerEvent::Odometry(o),
            UdpServerMessage::Pong(p) => {
                if p.client_time <= now_ns && now_ns <= TIME_LIMIT_NS as u64 && p.server_time
                    <= TIME_LIMIT_NS as u64 {
                    let off = estimate_offset(
                        p.client_time as i64,
                        now_ns as i64,
                        p.server_time as i64,
                    );
                    UdpServerEvent::OffsetUpdate(off)
                } else {
                    UdpServerEvent::Ignored
                }
            },
        },
    }
}

/// Session statistics under construction: appends are kept only while
/// recording, and ending a session hands the records over and starts afresh.
pub struct StatsState {
    stats: Stats,
    recording: bool,
}

impl StatsState {
    pub closed spec fn spec_recording(&self) -> bool {
        self.recording
    }

    pub closed spec fn images(&self) -> (Seq<u64>, Seq<u64>, Seq<i64>) {
        (self.stats.images_stamps@, self.stats.images_original_sizes@, self.stats.images_latencies@)
    }

    pub closed spec fn odometry(&self) -> (Seq<u64>, Seq<u64>, Seq<i64>) {
        (
            self.stats.odometry_stamps@,
            self.stats.odometry_original_sizes@,
            self.stats.odometry_latencies@,
        )
    }

    pub open spec fn is_empty(&self) -> bool {
        &&& self.images() == (Seq::<u64>::empty(), Seq::<u64>::empty(), Seq::<i64>::empty())
        &&& self.odometry() == (Seq::<u64>::empty(), Seq::<u64>::empty(), Seq::<i64>::empty())
    }

    pub fn new() -> (r: Self)
        ensures
            !r.spec_recording(),
            r.is_empty(),
    {
        StatsState {
            stats: Stats {
                images_stamps: Vec::new(),
                images_original_sizes: Vec::new(),
                images_latencies: Vec::new(),
                odometry_stamps: Vec::new(),
                odometry_original_sizes: Vec::new(),
                odometry_latencies: Vec::new(),
            },
            recording: false,
        }
    }

    pub fn start_recording(&mut self)
        ensures
            final(self).spec_recording(),
            final(self).images() == old(self).images(),
            final(self).odometry() == old(self).odometry(),
    {
        self.recording = true;
    }

    pub fn is_recording(&self) -> (r: bool)
        ensures
            r == self.spec_recording(),
    {
        self.recording
    }

    /// One images message arrived: append its stamp, wire size and observed
    /// latency — only while recording.
    pub fn record_images(&mut self, stamp_ns: u64, wire_size: u64, latency: i64)
        ensures
            final(self).spec_recording() == old(self).spec_recording(),
            final(self).odometry() == old(self).odometry(),
            final(self).images() == if old(self).spec_recording() {
                (
                    old(self).images().0.push(stamp_ns),
                    old(self).images().1.push(wire_size),
                    old(self).images().2.push(latency),
                )
            } else {
                old(self).images()
            },
    {
        if self.recording {
            self.stats.images_stamps.push(stamp_ns);
            self.stats.images_original_sizes.push(wire_size);
            self.stats.images_latencies.push(latency);
        }
    }

    /// One odometry message arrived: append its records — only while
    /// recording.
    pub fn record_odometry(&mut self, stamp_ns: u64, wire_size: u64, latency: i64)
        ensures
            final(self).spec_recording() == old(self).spec_recording(),
            final(self).images() == old(self).images(),
            final(self).odometry() == if old(self).spec_recording() {
                (
                    old(self).odometry().0.push(stamp_ns),
                    old(self).odometry().1.push(wire_size),
                    old(self).odometry().2.push(latency),
                )
            } else {
                old(self).odometry()
            },
    {
        if self.recording {
            self.stats.odometry_stamps.push(stamp_ns);
            self.stats.odometry_original_sizes.push(wire_size);
            self.stats.odometry_latencies.push(latency);
        }
    }

    /// Stop recording and hand the gathered records over for a save-stats
    /// command; the recorder starts over empty.
    pub fn end_recording(&mut self) -> (r: Stats)
        ensures
            !final(self).spec_recording(),
            final(self).is_empty(),
            (r.images_stamps@, r.images_original_sizes@, r.images_latencies@) == old(self).images(),
            (r.odometry_stamps@, r.odometry_original_sizes@, r.odometry_latencies@) == old(
                self,
            ).odometry(),
    {
        self.recording = false;
        let mut taken = Stats {
            images_stamps: Vec::new(),
            images_original_sizes: Vec::new(),
            images_latencies: Vec::new(),
            odometry_stamps: Vec::new(),
            odometry_original_sizes: Vec::new(),
            odometry_latencies: Vec::new(),
        };
        core::mem::swap(&mut taken, &mut self.stats);
        taken
    }
}

/// Latency of a server-stamped message under the current offset estimate,
/// saturating at the representable time range.
pub fn message_latency(now_ns: u64, offset_ns: i64, stamp_ns: u64) -> (r: Option<i64>)
    ensures
        now_ns <= TIME_LIMIT_NS && stamp_ns <= TIME_LIMIT_NS && -TIME_LIMIT_NS <= offset_ns
            <= TIME_LIMIT_NS ==> r == Some(
            s_latency(now_ns as int, offset_ns as int, stamp_ns as int) as i64,
        ),
        (now_ns > TIME_LIMIT_NS || stamp_ns > TIME_LIMIT_NS || offset_ns > TIME_LIMIT_NS
            || offset_ns < -TIME_LIMIT_NS) ==> r is None,
{
    if now_ns <= TIME_LIMIT_NS as u64 && stamp_ns <= TIME_LIMIT_NS as u64 && -TIME_LIMIT_NS
        <= offset_ns && offset_ns <= TIME_LIMIT_NS {
        Some(latency_ns(now_ns as i64, offset_ns, stamp_ns as i64))
    } else {
        None
    }
}

} // verus!
