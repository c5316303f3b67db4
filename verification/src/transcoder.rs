//! One transcoded stream: the settings its encoder is opened with, and the
//! state machine that moves packets through its decoder and frames through its
//! encoder.
//!
//! The machine never touches the engine. Each step takes the outcome of the
//! engine call that was asked for last and answers with the next call to make.
//!
//! A packet is fed with the event `Packet`; the unit then has it sent to the
//! decoder and pulls frames until the decoder has none. Each frame is counted,
//! shown to the progress throttle and sent to the encoder at once, and after
//! each frame packets are pulled from the encoder until it has none; each
//! packet is stamped, rescaled and written at once. The flush begins with the
//! event `EndOfInput`: the decoder is told the end and drained as before, then
//! the encoder is told the end and drained, and the unit is closed.

use crate::codec::codec_id_of;
use crate::codec::AtoolCodecType;
use crate::codec::CodecId;
use crate::packet::Packet;
use crate::progress::ProgressLog;
use crate::progress::ProgressReport;
use crate::timebase::Rational;
use crate::timebase::TimeBase;
use vstd::prelude::*;

verus! {

/// The picture type of a frame; `Unspecified` leaves the choice to the encoder.
#[derive(Clone, Copy, Debug, PartialEq, Eq, Structural)]
pub enum PictureType {
    Unspecified,
    I,
    P,
    B,
    S,
    SI,
    SP,
    BI,
}

/// What an opened video decoder tells about its stream.
#[derive(Clone, Copy, Debug, PartialEq, Eq, Structural)]
pub struct DecoderInfo {
    pub width: u32,
    pub height: u32,
    pub aspect_ratio: Rational,
    pub format: i32,
    pub time_base: TimeBase,
}

/// What an encoder is configured with before it is opened.
#[derive(Clone, Copy, Debug, PartialEq, Eq, Structural)]
pub struct EncoderSettings {
    pub codec: CodecId,
    pub width: u32,
    pub height: u32,
    pub aspect_ratio: Rational,
    pub format: i32,
    pub frame_rate: Option<Rational>,
    pub time_base: TimeBase,
    pub global_header: bool,
}

impl EncoderSettings {
    /// The settings that match a decoder: its resolution, pixel format and
    /// aspect ratio, the input stream's frame rate and the duration of one
    /// frame as time base, the target codec, and the global-header flag of the
    /// output container.
    pub open spec fn matching(
        decoder: DecoderInfo,
        frame_rate: Rational,
        global_header: bool,
        codec: AtoolCodecType,
    ) -> EncoderSettings {
        EncoderSettings {
            codec: codec_id_of(codec),
            width: decoder.width,
            height: decoder.height,
            aspect_ratio: decoder.aspect_ratio,
            format: decoder.format,
            frame_rate: Some(frame_rate),
            time_base: Rational { num: frame_rate.den, den: frame_rate.num },
            global_header,
        }
    }

    /// Derives the settings of the encoder from its decoder.
    pub fn for_decoder(
        decoder: &DecoderInfo,
        frame_rate: Rational,
        global_header: bool,
        codec: AtoolCodecType,
    ) -> (settings: EncoderSettings)
        ensures
            settings == Self::matching(*decoder, frame_rate, global_header, codec),
    {
        EncoderSettings {
            codec: CodecId::from(codec),
            width: decoder.width,
            height: decoder.height,
            aspect_ratio: decoder.aspect_ratio,
            format: decoder.format,
            frame_rate: Some(frame_rate),
            time_base: frame_rate.invert(),
            global_header,
        }
    }
}

/// The header of a decoded frame.
#[derive(Clone, Copy, Debug, PartialEq, Eq, Structural)]
pub struct FrameInfo {
    pub timestamp: Option<i64>,
    pub picture_type: PictureType,
}

/// Where a unit stands between two engine calls.
#[derive(Clone, Copy, Debug, PartialEq, Eq, Structural)]
pub enum UnitState {
    /// Set up; nothing was fed yet.
    Idle,
    /// Waiting for the next packet or the end of the input.
    Ready,
    /// A packet is being submitted to the decoder.
    Feeding,
    /// The decoder was asked for a frame.
    PullingFrame,
    /// A frame is being submitted to the encoder.
    PushingFrame,
    /// The encoder was asked for a packet.
    PullingPacket,
    /// An encoded packet is being written to the muxer.
    Writing,
    /// The end of the stream is being signalled to the decoder.
    EndingDecoder,
    /// The end of the stream is being signalled to the encoder.
    EndingEncoder,
    /// Flushed: nothing is left in decoder or encoder.
    Closed,
    /// An engine call failed or an outcome came out of turn.
    Failed,
}

/// The coarse life cycle of a unit.
#[derive(Clone, Copy, Debug, PartialEq, Eq, Structural)]
pub enum Stage {
    Idle,
    Decoding,
    Encoding,
    Flushing,
    Closed,
    Failed,
}

/// The outcome of the engine call that a unit asked for, or new input for it.
#[derive(Clone, Copy, Debug, PartialEq, Eq, Structural)]
pub enum UnitEvent {
    /// A compressed packet of the unit's input stream, in that stream's base.
    Packet(Packet),
    /// The input is exhausted.
    EndOfInput,
    /// The call returned.
    Done,
    /// The decoder handed out a frame; `now` is the clock at that moment.
    Decoded { frame: FrameInfo, now: u64 },
    /// The decoder has no frame to hand out.
    NoFrame,
    /// The encoder handed out a packet, in the decoder's base.
    Encoded(Packet),
    /// The encoder has no packet to hand out.
    NoPacket,
    /// The call failed.
    Failed,
}

/// The engine call that a unit asks for next.
#[derive(Clone, Copy, Debug, PartialEq, Eq, Structural)]
pub enum UnitAction {
    /// Submit this packet to the decoder.
    SendPacket(Packet),
    /// Ask the decoder for a frame.
    ReceiveFrame,
    /// Submit the frame just decoded to the encoder, with this header; print
    /// `line` if there is one.
    SendFrame { frame: FrameInfo, line: Option<ProgressReport> },
    /// Ask the encoder for a packet.
    ReceivePacket,
    /// Write the packet just encoded to the muxer, interleaved, with this header.
    WritePacket(Packet),
    SendEofToDecoder,
    SendEofToEncoder,
    /// Nothing to do for this unit until there is more input.
    Yield,
    /// The unit is closed.
    Finished,
    /// The session must end with an error.
    Abort,
}

/// One decoder/encoder pair, bound to one input stream and one output stream.
#[derive(Clone, Copy, Debug, PartialEq, Eq, Structural)]
pub struct TranscoderUnit {
    pub ist_index: usize,
    pub ost_index: usize,
    pub ist_time_base: TimeBase,
    pub decoder_time_base: TimeBase,
    pub state: UnitState,
    pub decoder_ended: bool,
    pub encoder_ended: bool,
    pub frame_count: u64,
    pub progress: ProgressLog,
}

impl TranscoderUnit {
    /// The unit right after set-up at time `now`.
    pub open spec fn fresh(
        ist_index: usize,
        ost_index: usize,
        ist_time_base: TimeBase,
        decoder_time_base: TimeBase,
        logging: bool,
        now: u64,
    ) -> TranscoderUnit {
        TranscoderUnit {
            ist_index,
            ost_index,
            ist_time_base,
            decoder_time_base,
            state: UnitState::Idle,
            decoder_ended: false,
            encoder_ended: false,
            frame_count: 0,
            progress: ProgressLog {
                enabled: logging,
                last_log_frame_count: 0,
                start_time: now,
                last_log_time: now,
            },
        }
    }

    /// Sets up a unit at time `now`.
    pub fn new(
        ist_index: usize,
        ost_index: usize,
        ist_time_base: TimeBase,
        decoder_time_base: TimeBase,
        logging: bool,
        now: u64,
    ) -> (unit: TranscoderUnit)
        ensures
            unit == Self::fresh(ist_index, ost_index, ist_time_base, decoder_time_base, logging, now),
            unit.wf(),
    {
        TranscoderUnit {
            ist_index,
            ost_index,
            ist_time_base,
            decoder_time_base,
            state: UnitState::Idle,
            decoder_ended: false,
            encoder_ended: false,
            frame_count: 0,
            progress: ProgressLog::new(logging, now),
        }
    }

    /// What holds of every unit that was set up and then only stepped.
    pub open spec fn wf(self) -> bool {
        &&& self.encoder_ended ==> self.decoder_ended
        &&& self.progress.last_log_frame_count <= self.frame_count
        &&& match self.state {
            UnitState::Idle => !self.decoder_ended && self.frame_count == 0,
            UnitState::Ready => !self.decoder_ended,
            UnitState::Feeding => !self.decoder_ended,
            UnitState::PullingFrame => !self.encoder_ended,
            UnitState::PushingFrame => !self.encoder_ended,
            UnitState::PullingPacket => true,
            UnitState::Writing => true,
            UnitState::EndingDecoder => self.decoder_ended && !self.encoder_ended,
            UnitState::EndingEncoder => self.encoder_ended,
            UnitState::Closed => self.encoder_ended,
            UnitState::Failed => true,
        }
    }

    /// Where the unit stands in its life cycle.
    pub open spec fn stage(self) -> Stage {
        match self.state {
            UnitState::Idle => Stage::Idle,
            UnitState::Closed => Stage::Closed,
            UnitState::Failed => Stage::Failed,
            UnitState::Ready | UnitState::Feeding | UnitState::PullingFrame => if self.decoder_ended {
                Stage::Flushing
            } else {
                Stage::Decoding
            },
            _ => if self.decoder_ended {
                Stage::Flushing
            } else {
                Stage::Encoding
            },
        }
    }

    /// Where the unit stands in its life cycle.
    pub fn current_stage(&self) -> (s: Stage)
        ensures
            s == self.stage(),
    {
        match self.state {
            UnitState::Idle => Stage::Idle,
            UnitState::Closed => Stage::Closed,
            UnitState::Failed => Stage::Failed,
            UnitState::Ready | UnitState::Feeding | UnitState::PullingFrame => if self.decoder_ended {
                Stage::Flushing
            } else {
                Stage::Decoding
            },
            _ => if self.decoder_ended {
                Stage::Flushing
            } else {
                Stage::Encoding
            },
        }
    }

    /// The unit is flushed.
    pub open spec fn is_closed(self) -> bool {
        self.state == UnitState::Closed
    }

    /// The same unit in another state.
    pub open spec fn with_state(self, state: UnitState) -> TranscoderUnit {
        TranscoderUnit { state, ..self }
    }

    /// The header a decoded frame is submitted to the encoder with: its
    /// timestamp as presentation time, and no picture type.
    pub open spec fn forwarded(frame: FrameInfo) -> FrameInfo {
        FrameInfo { timestamp: frame.timestamp, picture_type: PictureType::Unspecified }
    }

    /// The header an encoded packet is written with: the unit's output stream,
    /// and its times converted from the decoder's base to the output stream's.
    pub open spec fn outgoing(self, packet: Packet, ost_time_base: TimeBase) -> Packet {
        packet.stamped(self.ost_index).rescaled_ts(self.decoder_time_base, ost_time_base)
    }

    /// The transition function: the unit and its answer after `event`, where
    /// `ost_time_base` is the time base of the unit's output stream as the
    /// muxer fixed it when it wrote the header.
    pub open spec fn step_spec(self, event: UnitEvent, ost_time_base: TimeBase) -> (
        TranscoderUnit,
        UnitAction,
    ) {
        match (self.state, event) {
            (UnitState::Closed, _) => (self, UnitAction::Finished),
            (UnitState::Failed, _) => (self, UnitAction::Abort),
            (_, UnitEvent::Failed) => (self.with_state(UnitState::Failed), UnitAction::Abort),
            (UnitState::Idle, UnitEvent::Packet(p)) | (UnitState::Ready, UnitEvent::Packet(p)) => (
                self.with_state(UnitState::Feeding),
                UnitAction::SendPacket(p.rescaled_ts(self.ist_time_base, self.decoder_time_base)),
            ),
            (UnitState::Idle, UnitEvent::EndOfInput) | (UnitState::Ready, UnitEvent::EndOfInput) => (
                TranscoderUnit { state: UnitState::EndingDecoder, decoder_ended: true, ..self },
                UnitAction::SendEofToDecoder,
            ),
            (UnitState::Feeding, UnitEvent::Done) | (UnitState::EndingDecoder, UnitEvent::Done) => (
                self.with_state(UnitState::PullingFrame),
                UnitAction::ReceiveFrame,
            ),
            (UnitState::PullingFrame, UnitEvent::Decoded { frame, now }) => if self.frame_count
                < u64::MAX {
                let count = (self.frame_count + 1) as u64;
                (
                    TranscoderUnit {
                        state: UnitState::PushingFrame,
                        frame_count: count,
                        progress: self.progress.observed(count, now),
                        ..self
                    },
                    UnitAction::SendFrame {
                        frame: Self::forwarded(frame),
                        line: self.progress.report(
                            count,
                            now,
                            frame.timestamp,
                            self.decoder_time_base,
                        ),
                    },
                )
            } else {
                (self.with_state(UnitState::Failed), UnitAction::Abort)
            },
            (UnitState::PullingFrame, UnitEvent::NoFrame) => if self.decoder_ended {
                (
                    TranscoderUnit { state: UnitState::EndingEncoder, encoder_ended: true, ..self },
                    UnitAction::SendEofToEncoder,
                )
            } else {
                (self.with_state(UnitState::Ready), UnitAction::Yield)
            },
            (UnitState::PushingFrame, UnitEvent::Done) | (UnitState::EndingEncoder, UnitEvent::Done)
            | (UnitState::Writing, UnitEvent::Done) => (
                self.with_state(UnitState::PullingPacket),
                UnitAction::ReceivePacket,
            ),
            (UnitState::PullingPacket, UnitEvent::Encoded(p)) => (
                self.with_state(UnitState::Writing),
                UnitAction::WritePacket(self.outgoing(p, ost_time_base)),
            ),
            (UnitState::PullingPacket, UnitEvent::NoPacket) => if self.encoder_ended {
                (self.with_state(UnitState::Closed), UnitAction::Finished)
            } else {
                (self.with_state(UnitState::PullingFrame), UnitAction::ReceiveFrame)
            },
            _ => (self.with_state(UnitState::Failed), UnitAction::Abort),
        }
    }

    /// Feeds one packet of the input stream, with its times in that stream's
    /// base: `step` with the event `Packet`.
    pub fn feed(&mut self, packet: Packet, ost_time_base: TimeBase) -> (action: UnitAction)
        ensures
            (*final(self), action) == old(self).step_spec(UnitEvent::Packet(packet), ost_time_base),
            old(self).wf() ==> final(self).wf(),
    {
        self.step(UnitEvent::Packet(packet), ost_time_base)
    }

    /// Begins the flush at the end of the input: `step` with the event
    /// `EndOfInput`.
    pub fn flush(&mut self, ost_time_base: TimeBase) -> (action: UnitAction)
        ensures
            (*final(self), action) == old(self).step_spec(UnitEvent::EndOfInput, ost_time_base),
            old(self).wf() ==> final(self).wf(),
    {
        self.step(UnitEvent::EndOfInput, ost_time_base)
    }

    /// Takes the outcome of the last call, or new input, and answers with the
    /// next call.
    pub fn step(&mut self, event: UnitEvent, ost_time_base: TimeBase) -> (action: UnitAction)
        ensures
            (*final(self), action) == old(self).step_spec(event, ost_time_base),
            old(self).wf() ==> final(self).wf(),
    {
        match self.state {
            UnitState::Closed => {
                return UnitAction::Finished;
            },
            UnitState::Failed => {
                return UnitAction::Abort;
            },
            _ => {},
        }
        match event {
            UnitEvent::Failed => {
                self.state = UnitState::Failed;
                return UnitAction::Abort;
            },
            _ => {},
        }
        match (self.state, event) {
            (UnitState::Idle, UnitEvent::Packet(p)) | (UnitState::Ready, UnitEvent::Packet(p)) => {
                self.state = UnitState::Feeding;
                UnitAction::SendPacket(p.rescale_ts(self.ist_time_base, self.decoder_time_base))
            },
            (UnitState::Idle, UnitEvent::EndOfInput) | (UnitState::Ready, UnitEvent::EndOfInput) => {
                self.state = UnitState::EndingDecoder;
                self.decoder_ended = true;
                UnitAction::SendEofToDecoder
            },
            (UnitState::Feeding, UnitEvent::Done) | (UnitState::EndingDecoder, UnitEvent::Done) => {
                self.state = UnitState::PullingFrame;
                UnitAction::ReceiveFrame
            },
            (UnitState::PullingFrame, UnitEvent::Decoded { frame, now }) => {
                if self.frame_count < u64::MAX {
                    self.frame_count = self.frame_count + 1;
                    self.state = UnitState::PushingFrame;
                    let line = self.progress.observe(
                        self.frame_count,
                        now,
                        frame.timestamp,
                        self.decoder_time_base,
                    );
                    UnitAction::SendFrame {
                        frame: FrameInfo {
                            timestamp: frame.timestamp,
                            picture_type: PictureType::Unspecified,
                        },
                        line,
                    }
                } else {
                    self.state = UnitState::Failed;
                    UnitAction::Abort
                }
            },
            (UnitState::PullingFrame, UnitEvent::NoFrame) => {
                if self.decoder_ended {
                    self.state = UnitState::EndingEncoder;
                    self.encoder_ended = true;
                    UnitAction::SendEofToEncoder
                } else {
                    self.state = UnitState::Ready;
                    UnitAction::Yield
                }
            },
            (UnitState::PushingFrame, UnitEvent::Done) | (UnitState::EndingEncoder, UnitEvent::Done)
            | (UnitState::Writing, UnitEvent::Done) => {
                self.state = UnitState::PullingPacket;
                UnitAction::ReceivePacket
            },
            (UnitState::PullingPacket, UnitEvent::Encoded(p)) => {
                self.state = UnitState::Writing;
                UnitAction::WritePacket(
                    p.stamp(self.ost_index).rescale_ts(self.decoder_time_base, ost_time_base),
                )
            },
            (UnitState::PullingPacket, UnitEvent::NoPacket) => {
                if self.encoder_ended {
                    self.state = UnitState::Closed;
                    UnitAction::Finished
                } else {
                    self.state = UnitState::PullingFrame;
                    UnitAction::ReceiveFrame
                }
            },
            _ => {
                self.state = UnitState::Failed;
                UnitAction::Abort
            },
        }
    }
}

/// The unit after a sequence of events, and its answers, one per event.
pub open spec fn run(unit: TranscoderUnit, events: Seq<UnitEvent>, ost_time_base: TimeBase) -> (
    TranscoderUnit,
    Seq<UnitAction>,
)
    decreases events.len(),
{
    if events.len() == 0 {
        (unit, Seq::empty())
    } else {
        let (before, actions) = run(unit, events.drop_last(), ost_time_base);
        let (after, action) = before.step_spec(events.last(), ost_time_base);
        (after, actions.push(action))
    }
}

/// How many of the answers submit a frame to the encoder.
pub open spec fn frames_sent(actions: Seq<UnitAction>) -> nat
    decreases actions.len(),
{
    if actions.len() == 0 {
        0
    } else {
        frames_sent(actions.drop_last()) + if actions.last() is SendFrame {
            1nat
        } else {
            0nat
        }
    }
}

/// How many of the answers write a packet to the muxer.
pub open spec fn packets_written(actions: Seq<UnitAction>) -> nat
    decreases actions.len(),
{
    if actions.len() == 0 {
        0
    } else {
        packets_written(actions.drop_last()) + if actions.last() is WritePacket {
            1nat
        } else {
            0nat
        }
    }
}

/// A unit that was just set up is well formed and idle.
pub proof fn lemma_fresh_unit(
    ist_index: usize,
    ost_index: usize,
    ist_time_base: TimeBase,
    decoder_time_base: TimeBase,
    logging: bool,
    now: u64,
)
    ensures
        TranscoderUnit::fresh(
            ist_index,
            ost_index,
            ist_time_base,
            decoder_time_base,
            logging,
            now,
        ).wf(),
        TranscoderUnit::fresh(
            ist_index,
            ost_index,
            ist_time_base,
            decoder_time_base,
            logging,
            now,
        ).stage() == Stage::Idle,
{
}

/// Every step keeps a unit well formed and bound to its two streams and bases.
pub proof fn lemma_step_keeps_wf(unit: TranscoderUnit, event: UnitEvent, ost_time_base: TimeBase)
    requires
        unit.wf(),
    ensures
        unit.step_spec(event, ost_time_base).0.wf(),
        unit.step_spec(event, ost_time_base).0.ist_index == unit.ist_index,
        unit.step_spec(event, ost_time_base).0.ost_index == unit.ost_index,
        unit.step_spec(event, ost_time_base).0.ist_time_base == unit.ist_time_base,
        unit.step_spec(event, ost_time_base).0.decoder_time_base == unit.decoder_time_base,
        unit.step_spec(event, ost_time_base).0.progress.enabled == unit.progress.enabled,
{
}

/// The life cycle only moves forward: Idle, then Decoding and Encoding in
/// turns, then Flushing, then Closed; a failure can end it anywhere.
pub proof fn lemma_stage_order(unit: TranscoderUnit, event: UnitEvent, ost_time_base: TimeBase)
    requires
        unit.wf(),
    ensures
        ({
            let next = unit.step_spec(event, ost_time_base).0.stage();
            match unit.stage() {
                Stage::Idle => next == Stage::Decoding || next == Stage::Flushing || next
                    == Stage::Failed,
                Stage::Decoding => next == Stage::Decoding || next == Stage::Encoding || next
                    == Stage::Flushing || next == Stage::Failed,
                Stage::Encoding => next == Stage::Encoding || next == Stage::Decoding || next
                    == Stage::Failed,
                Stage::Flushing => next == Stage::Flushing || next == Stage::Closed || next
                    == Stage::Failed,
                Stage::Closed => next == Stage::Closed,
                Stage::Failed => next == Stage::Failed,
            }
        }),
{
}

/// A closed unit stays closed and asks for no further engine call, whatever
/// it is told: after the flush no frame and no packet comes out of it.
pub proof fn lemma_closed_is_silent(unit: TranscoderUnit, event: UnitEvent, ost_time_base: TimeBase)
    requires
        unit.is_closed(),
    ensures
        unit.step_spec(event, ost_time_base) == (unit, UnitAction::Finished),
{
}

/// The same over any number of events.
pub proof fn lemma_nothing_after_close(
    unit: TranscoderUnit,
    events: Seq<UnitEvent>,
    ost_time_base: TimeBase,
)
    requires
        unit.is_closed(),
    ensures
        run(unit, events, ost_time_base).0 == unit,
        run(unit, events, ost_time_base).1.len() == events.len(),
        forall|i: int|
            0 <= i < events.len() ==> run(unit, events, ost_time_base).1[i]
                == UnitAction::Finished,
        frames_sent(run(unit, events, ost_time_base).1) == 0,
        packets_written(run(unit, events, ost_time_base).1) == 0,
    decreases events.len(),
{
    if events.len() > 0 {
        lemma_nothing_after_close(unit, events.drop_last(), ost_time_base);
        let actions = run(unit, events, ost_time_base).1;
        assert(actions.drop_last() == run(unit, events.drop_last(), ost_time_base).1);
    }
}

/// A frame is submitted to the encoder exactly when the decoder hands one
/// out to a unit that asked for it, at once, with the frame's own timestamp
/// and no picture type, and it is counted then and only then.
pub proof fn lemma_frame_forwarded_once(
    unit: TranscoderUnit,
    event: UnitEvent,
    ost_time_base: TimeBase,
)
    ensures
        ({
            let (next, action) = unit.step_spec(event, ost_time_base);
            &&& action is SendFrame <==> unit.state == UnitState::PullingFrame && event is Decoded
                && unit.frame_count < u64::MAX
            &&& action is SendFrame ==> {
                &&& action->SendFrame_frame.timestamp == event->Decoded_frame.timestamp
                &&& action->SendFrame_frame.picture_type == PictureType::Unspecified
                &&& next.frame_count == unit.frame_count + 1
                &&& next.state == UnitState::PushingFrame
            }
            &&& !(action is SendFrame) ==> next.frame_count == unit.frame_count
            &&& event is Decoded && !(action is SendFrame) ==> action == UnitAction::Abort || action
                == UnitAction::Finished
        }),
{
}

/// A packet is written exactly when the encoder hands one out to a unit that
/// asked for it, at once, stamped with the unit's output stream and converted
/// from the decoder's base to the output stream's.
pub proof fn lemma_packet_written_once(
    unit: TranscoderUnit,
    event: UnitEvent,
    ost_time_base: TimeBase,
)
    ensures
        ({
            let (next, action) = unit.step_spec(event, ost_time_base);
            &&& action is WritePacket <==> unit.state == UnitState::PullingPacket && event is Encoded
            &&& action is WritePacket ==> {
                &&& action->WritePacket_0 == unit.outgoing(event->Encoded_0, ost_time_base)
                &&& action->WritePacket_0.stream == unit.ost_index
                &&& action->WritePacket_0.position == event->Encoded_0.position
            }
            &&& event is Encoded && !(action is WritePacket) ==> action == UnitAction::Abort
                || action == UnitAction::Finished
        }),
{
}

/// The flush runs in order. The decoder is told the end only between packets;
/// the encoder is told the end only once the decoder, told before, has run
/// dry; and the unit closes only once the encoder, told the end, has run dry.
/// After the decoder was told the end no packet is fed, and after the encoder
/// was told no frame is submitted.
pub proof fn lemma_flush_order(unit: TranscoderUnit, event: UnitEvent, ost_time_base: TimeBase)
    requires
        unit.wf(),
    ensures
        ({
            let (next, action) = unit.step_spec(event, ost_time_base);
            &&& action == UnitAction::SendEofToDecoder <==> (unit.state == UnitState::Idle
                || unit.state == UnitState::Ready) && event == UnitEvent::EndOfInput
            &&& action == UnitAction::SendEofToEncoder <==> unit.state == UnitState::PullingFrame
                && event == UnitEvent::NoFrame && unit.decoder_ended
            &&& next.is_closed() && !unit.is_closed() ==> unit.state == UnitState::PullingPacket
                && event == UnitEvent::NoPacket && unit.encoder_ended
            &&& action is SendPacket ==> !unit.decoder_ended
            &&& action is SendFrame ==> !unit.encoder_ended
            &&& unit.decoder_ended ==> next.decoder_ended
            &&& unit.encoder_ended ==> next.encoder_ended
        }),
{
}

/// Over any run, the frames submitted to the encoder are as many as the frame
/// counter has advanced: none is counted without being submitted, none is
/// submitted twice.
pub proof fn lemma_frame_count_is_frames_sent(
    unit: TranscoderUnit,
    events: Seq<UnitEvent>,
    ost_time_base: TimeBase,
)
    ensures
        run(unit, events, ost_time_base).1.len() == events.len(),
        run(unit, events, ost_time_base).0.frame_count == unit.frame_count + frames_sent(
            run(unit, events, ost_time_base).1,
        ),
    decreases events.len(),
{
    if events.len() > 0 {
        lemma_frame_count_is_frames_sent(unit, events.drop_last(), ost_time_base);
        let (before, actions) = run(unit, events.drop_last(), ost_time_base);
        lemma_frame_forwarded_once(before, events.last(), ost_time_base);
        let all = run(unit, events, ost_time_base).1;
        assert(all.drop_last() == actions);
    }
}

/// Encoded packets leave in the order of their timestamps: of two packets
/// of one unit, the second with a presentation time that is not earlier, the
/// second is written with a presentation time that is not earlier, where both
/// bases are valid and both times can be represented in the output base.
pub proof fn lemma_outgoing_keeps_order(
    unit: TranscoderUnit,
    first: Packet,
    second: Packet,
    ost_time_base: TimeBase,
)
    requires
        unit.decoder_time_base.valid(),
        ost_time_base.valid(),
        first.pts is Some,
        second.pts is Some,
        first.pts->Some_0 <= second.pts->Some_0,
    ensures
        ({
            let a = unit.outgoing(first, ost_time_base);
            let b = unit.outgoing(second, ost_time_base);
            &&& a.stream == b.stream
            &&& a.pts is Some && b.pts is Some ==> a.pts->Some_0 <= b.pts->Some_0
        }),
{
    crate::packet::lemma_rescale_ts_keeps_order(
        first.stamped(unit.ost_index),
        second.stamped(unit.ost_index),
        unit.decoder_time_base,
        ost_time_base,
    );
}

/// `event` is what a driver can report after `action` when the call did not
/// fail: the outcome of that call, or new input where the unit yielded.
pub open spec fn answers(action: UnitAction, event: UnitEvent) -> bool {
    match action {
        UnitAction::SendPacket(_) => event == UnitEvent::Done,
        UnitAction::SendFrame { .. } => event == UnitEvent::Done,
        UnitAction::WritePacket(_) => event == UnitEvent::Done,
        UnitAction::SendEofToDecoder => event == UnitEvent::Done,
        UnitAction::SendEofToEncoder => event == UnitEvent::Done,
        UnitAction::ReceiveFrame => event is Decoded || event == UnitEvent::NoFrame,
        UnitAction::ReceivePacket => event is Encoded || event == UnitEvent::NoPacket,
        UnitAction::Yield => event is Packet || event == UnitEvent::EndOfInput,
        UnitAction::Finished => false,
        UnitAction::Abort => false,
    }
}

/// The events of a run in which a unit that waits for input gets input
/// first, and every later event answers the call before it.
pub open spec fn in_turn(unit: TranscoderUnit, events: Seq<UnitEvent>, ost_time_base: TimeBase) -> bool
    decreases events.len(),
{
    if events.len() == 0 {
        true
    } else if events.len() == 1 {
        events[0] is Packet || events[0] == UnitEvent::EndOfInput
    } else {
        &&& in_turn(unit, events.drop_last(), ost_time_base)
        &&& answers(run(unit, events.drop_last(), ost_time_base).1.last(), events.last())
    }
}

/// How many of the events are frames from the decoder.
pub open spec fn frames_decoded(events: Seq<UnitEvent>) -> nat
    decreases events.len(),
{
    if events.len() == 0 {
        0
    } else {
        frames_decoded(events.drop_last()) + if events.last() is Decoded {
            1nat
        } else {
            0nat
        }
    }
}

/// How many of the events are packets from the encoder.
pub open spec fn packets_encoded(events: Seq<UnitEvent>) -> nat
    decreases events.len(),
{
    if events.len() == 0 {
        0
    } else {
        packets_encoded(events.drop_last()) + if events.last() is Encoded {
            1nat
        } else {
            0nat
        }
    }
}

/// The state a unit is in after it gave an answer.
pub open spec fn state_after(action: UnitAction) -> UnitState {
    match action {
        UnitAction::SendPacket(_) => UnitState::Feeding,
        UnitAction::ReceiveFrame => UnitState::PullingFrame,
        UnitAction::SendFrame { .. } => UnitState::PushingFrame,
        UnitAction::ReceivePacket => UnitState::PullingPacket,
        UnitAction::WritePacket(_) => UnitState::Writing,
        UnitAction::SendEofToDecoder => UnitState::EndingDecoder,
        UnitAction::SendEofToEncoder => UnitState::EndingEncoder,
        UnitAction::Yield => UnitState::Ready,
        UnitAction::Finished => UnitState::Closed,
        UnitAction::Abort => UnitState::Failed,
    }
}

/// Nothing is lost and nothing is doubled, before the flush, across it and
/// after it. In a run where the unit is given input when it waits for it,
/// every call's outcome is reported in turn, no call fails and the frame
/// counter does not run over, the unit never aborts; the frames submitted to
/// the encoder are exactly as many as the decoder handed out, the packets
/// written exactly as many as the encoder handed out; and once the unit has
/// answered that it is finished it is closed, with its decoder and its
/// encoder both told the end and both run dry.
pub proof fn lemma_flush_complete(
    unit: TranscoderUnit,
    events: Seq<UnitEvent>,
    ost_time_base: TimeBase,
)
    requires
        unit.wf(),
        unit.state == UnitState::Idle || unit.state == UnitState::Ready,
        in_turn(unit, events, ost_time_base),
        unit.frame_count + events.len() <= u64::MAX,
    ensures
        ({
            let (after, actions) = run(unit, events, ost_time_base);
            &&& actions.len() == events.len()
            &&& after.wf()
            &&& after.state != UnitState::Failed
            &&& events.len() > 0 ==> after.state == state_after(actions.last())
            &&& frames_decoded(events) <= events.len()
            &&& frames_sent(actions) == frames_decoded(events)
            &&& packets_written(actions) == packets_encoded(events)
            &&& after.frame_count == unit.frame_count + frames_decoded(events)
            &&& events.len() > 0 && actions.last() == UnitAction::Finished ==> after.is_closed()
                && after.decoder_ended && after.encoder_ended
        }),
    decreases events.len(),
{
    if events.len() > 0 {
        let shorter = events.drop_last();
        lemma_flush_complete(unit, shorter, ost_time_base);
        let (before, actions) = run(unit, shorter, ost_time_base);
        lemma_step_keeps_wf(before, events.last(), ost_time_base);
        let all = run(unit, events, ost_time_base).1;
        assert(all.drop_last() == actions);
        if events.len() == 1 {
            assert(shorter.len() == 0);
        }
    }
}

} // verus!
