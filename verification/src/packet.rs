//! The header of a compressed packet: the fields that routing reads and
//! rewrites. The payload never leaves the codec engine.

use crate::timebase::lemma_rescale_monotonic;
use crate::timebase::rescale;
use crate::timebase::rescale_spec;
use crate::timebase::TimeBase;
use vstd::prelude::*;

verus! {

/// The position of a packet whose byte offset in its source is not known.
pub const NO_POSITION: i64 = -1;

/// Stream index, timestamps and byte-offset hint of one packet. An absent
/// timestamp is `None`; `position` is `-1` where the packet's offset in its
/// source is unknown or no longer meaningful.
#[derive(Clone, Copy, Debug, PartialEq, Eq, Structural)]
pub struct Packet {
    pub stream: usize,
    pub pts: Option<i64>,
    pub dts: Option<i64>,
    pub duration: i64,
    pub position: i64,
}

/// An optional timestamp in another base: absent stays absent, and a value
/// that cannot be represented in the new base becomes absent.
pub open spec fn rescale_opt_spec(t: Option<i64>, from: TimeBase, to: TimeBase) -> Option<i64> {
    match t {
        Some(v) => rescale_spec(v, from, to),
        None => None,
    }
}

/// A duration in another base. Only a positive duration is converted; one
/// that cannot be represented becomes 0, "unknown".
pub open spec fn rescale_duration_spec(d: i64, from: TimeBase, to: TimeBase) -> i64 {
    if d > 0 {
        match rescale_spec(d, from, to) {
            Some(v) => v,
            None => 0,
        }
    } else {
        d
    }
}

impl Packet {
    /// The packet with its three time fields converted from `from` to `to`;
    /// stream index and position are kept.
    pub open spec fn rescaled_ts(self, from: TimeBase, to: TimeBase) -> Packet {
        Packet {
            stream: self.stream,
            pts: rescale_opt_spec(self.pts, from, to),
            dts: rescale_opt_spec(self.dts, from, to),
            duration: rescale_duration_spec(self.duration, from, to),
            position: self.position,
        }
    }

    /// Converts the times of the packet from `from` to `to`.
    pub fn rescale_ts(self, from: TimeBase, to: TimeBase) -> (p: Packet)
        ensures
            p == self.rescaled_ts(from, to),
    {
        let pts = match self.pts {
            Some(v) => rescale(v, from, to),
            None => None,
        };
        let dts = match self.dts {
            Some(v) => rescale(v, from, to),
            None => None,
        };
        let duration: i64 = if self.duration > 0 {
            match rescale(self.duration, from, to) {
                Some(v) => v,
                None => 0,
            }
        } else {
            self.duration
        };
        Packet { stream: self.stream, pts, dts, duration, position: self.position }
    }

    /// The packet as it is handed to the muxer for output stream `stream`.
    pub open spec fn stamped(self, stream: usize) -> Packet {
        Packet { stream, ..self }
    }

    /// Sets the stream that the packet is written to.
    pub fn stamp(self, stream: usize) -> (p: Packet)
        ensures
            p == self.stamped(stream),
    {
        Packet { stream, ..self }
    }
}

/// Conversion keeps packets in order: of two packets with presentation
/// times in one valid base, the one that is not later is not later after
/// conversion to another valid base, where both times can be represented;
/// the same holds of their decoding times.
pub proof fn lemma_rescale_ts_keeps_order(first: Packet, second: Packet, from: TimeBase, to: TimeBase)
    requires
        from.valid(),
        to.valid(),
    ensures
        ({
            let a = first.rescaled_ts(from, to);
            let b = second.rescaled_ts(from, to);
            &&& first.pts is Some && second.pts is Some && first.pts->Some_0 <= second.pts->Some_0 && a.pts
                is Some && b.pts is Some ==> a.pts->Some_0 <= b.pts->Some_0
            &&& first.dts is Some && second.dts is Some && first.dts->Some_0 <= second.dts->Some_0 && a.dts
                is Some && b.dts is Some ==> a.dts->Some_0 <= b.dts->Some_0
            &&& a.pts is Some ==> first.pts is Some
            &&& a.dts is Some ==> first.dts is Some
        }),
{
    if first.pts is Some && second.pts is Some && first.pts->Some_0 <= second.pts->Some_0 {
        lemma_rescale_monotonic(first.pts->Some_0 as int, second.pts->Some_0 as int, from, to);
    }
    if first.dts is Some && second.dts is Some && first.dts->Some_0 <= second.dts->Some_0 {
        lemma_rescale_monotonic(first.dts->Some_0 as int, second.dts->Some_0 as int, from, to);
    }
}

} // verus!
