//! The coordinator of one transcoding session: from opening the containers to
//! the trailer, it decides which engine call comes next.
//!
//! A driver performs each call and hands its outcome back. The order of the
//! protocol lives here: streams are classified once, every kept stream gets
//! its output stream before the header is written, packets are routed only
//! after the muxer has fixed the output time bases, every unit is flushed
//! before the trailer is written, and any failure ends the session.

use crate::codec::AtoolCodecType;
use crate::packet::Packet;
use crate::packet::NO_POSITION;
use crate::progress::ProgressReport;
use crate::streams::classify;
use crate::streams::classify_spec;
use crate::streams::kept_count;
use crate::streams::lemma_outputs_before_mapping;
use crate::streams::mapping_of;
use crate::streams::CodecParameters;
use crate::streams::Slot;
use crate::streams::StreamClass;
use crate::streams::StreamDescriptor;
use crate::streams::StreamMapping;
use crate::timebase::Rational;
use crate::timebase::TimeBase;
use crate::transcoder::DecoderInfo;
use crate::transcoder::EncoderSettings;
use crate::transcoder::FrameInfo;
use crate::transcoder::TranscoderUnit;
use crate::transcoder::UnitAction;
use crate::transcoder::UnitEvent;
use crate::transcoder::UnitState;
use vstd::prelude::*;

verus! {

/// Why a session ended without a valid output.
#[derive(Clone, Copy, Debug, PartialEq, Eq, Structural)]
pub enum ErrorKind {
    /// A container could not be opened, a decoder could not be had, an output
    /// stream could not be added, or the header could not be written.
    Setup,
    /// The encoder rejected its settings or options.
    Negotiation,
    /// Reading, decoding, encoding or writing failed after the header.
    Streaming,
    /// The driver reported an outcome that was not asked for.
    Protocol,
}

/// Which engine call is in flight.
#[derive(Clone, Copy, Debug, PartialEq, Eq, Structural)]
pub enum Phase {
    OpeningInput,
    OpeningOutput,
    /// The decoder of this input stream is being opened.
    OpeningDecoder(usize),
    /// The encoder and the output stream of this input stream are being set up.
    OpeningEncoder(usize),
    /// The output stream that this input stream is copied to is being added.
    AddingCopy(usize),
    CopyingMetadata,
    WritingHeader,
    /// The demuxer was asked for the next packet.
    Reading,
    /// The unit of this input stream is working on a packet.
    Transcoding(usize),
    /// A copied packet is being written.
    Copying,
    /// The unit of this input stream is being flushed.
    Flushing(usize),
    WritingTrailer,
    Done,
    Failed(ErrorKind),
}

/// The outcome of the engine call that the session asked for.
#[derive(Debug)]
pub enum Outcome {
    /// The input is open: its streams in container order, and the index of
    /// the stream that the engine regards as the best video stream.
    InputOpened { streams: Vec<StreamDescriptor>, best_video: Option<usize> },
    /// The output is open; `global_header` says whether its format wants
    /// codec headers in the container header.
    OutputOpened { global_header: bool },
    DecoderOpened(DecoderInfo),
    /// The encoder is open and its output stream carries the parameters that
    /// were negotiated; `now` is the clock at that moment.
    EncoderOpened { now: u64 },
    /// The call returned.
    Done,
    /// The header is written; the time bases of the output streams as the
    /// muxer has fixed them, by output index.
    HeaderWritten { time_bases: Vec<TimeBase> },
    /// The demuxer handed out a packet of input stream `stream`.
    Packet(Packet),
    EndOfInput,
    Decoded { frame: FrameInfo, now: u64 },
    NoFrame,
    Encoded(Packet),
    NoPacket,
    /// The call failed.
    Failed,
}

/// The engine call to make next. `input` names a unit by its input stream.
#[derive(Clone, Copy, Debug, PartialEq, Eq, Structural)]
pub enum Action {
    OpenInput,
    OpenOutput,
    OpenDecoder { input: usize },
    /// Add output stream `output` for the target codec, configure its encoder
    /// with `settings`, open it, and write the parameters it settled on back
    /// to the output stream.
    OpenEncoder { input: usize, output: usize, settings: EncoderSettings },
    /// Add output stream `output` with the parameters of input stream `input`,
    /// but for the codec tag, which is the one given here.
    AddCopyStream { input: usize, output: usize, parameters: CodecParameters },
    CopyMetadata,
    WriteHeader,
    ReadPacket,
    SendPacket { input: usize, packet: Packet },
    ReceiveFrame { input: usize },
    SendFrame { input: usize, frame: FrameInfo, line: Option<ProgressReport> },
    ReceivePacket { input: usize },
    /// Write the packet at hand to the muxer, interleaved, with this header.
    WritePacket(Packet),
    SendEofToDecoder { input: usize },
    SendEofToEncoder { input: usize },
    WriteTrailer,
    /// The session is complete.
    Finish,
    /// The session has failed; whatever was written is not a valid output.
    Abort(ErrorKind),
}

/// The state of a session as the contracts see it.
pub struct SessionModel {
    pub codec: AtoolCodecType,
    pub phase: Phase,
    pub streams: Seq<StreamDescriptor>,
    pub best_video: Option<usize>,
    pub global_header: bool,
    pub mapping: Seq<Slot>,
    pub units: Seq<Option<TranscoderUnit>>,
    pub pending_decoder: Option<DecoderInfo>,
    pub ost_time_bases: Seq<TimeBase>,
}

/// Every stream carries the index of its place in the container.
pub open spec fn indexed(streams: Seq<StreamDescriptor>) -> bool {
    forall|i: int| 0 <= i < streams.len() ==> (#[trigger] streams[i]).index == i
}

/// A stream that is transcoded.
pub open spec fn is_video(s: StreamDescriptor) -> bool {
    classify_spec(s.parameters.kind) == StreamClass::Video
}

/// The first input stream at or after `from` that has an output stream, or
/// the number of streams if there is none.
pub open spec fn next_kept(mapping: Seq<Slot>, from: int) -> int
    decreases mapping.len() - from,
{
    if from >= mapping.len() {
        mapping.len() as int
    } else if mapping[from] is Output {
        from
    } else {
        next_kept(mapping, from + 1)
    }
}

/// The first input stream at or after `from` that has a unit, or the number
/// of streams if there is none.
pub open spec fn next_unit(units: Seq<Option<TranscoderUnit>>, from: int) -> int
    decreases units.len() - from,
{
    if from >= units.len() {
        units.len() as int
    } else if units[from] is Some {
        from
    } else {
        next_unit(units, from + 1)
    }
}

/// The parameters a copied stream is created with: those of the input
/// stream, with the codec tag cleared.
pub open spec fn copied_parameters(p: CodecParameters) -> CodecParameters {
    CodecParameters { codec_tag: 0, ..p }
}

/// The session action that stands for a unit's engine call, if it is one.
pub open spec fn relayed(input: usize, action: UnitAction) -> Option<Action> {
    match action {
        UnitAction::SendPacket(packet) => Some(Action::SendPacket { input, packet }),
        UnitAction::ReceiveFrame => Some(Action::ReceiveFrame { input }),
        UnitAction::SendFrame { frame, line } => Some(Action::SendFrame { input, frame, line }),
        UnitAction::ReceivePacket => Some(Action::ReceivePacket { input }),
        UnitAction::WritePacket(packet) => Some(Action::WritePacket(packet)),
        UnitAction::SendEofToDecoder => Some(Action::SendEofToDecoder { input }),
        UnitAction::SendEofToEncoder => Some(Action::SendEofToEncoder { input }),
        UnitAction::Yield => None,
        UnitAction::Finished => None,
        UnitAction::Abort => None,
    }
}

/// What an outcome means to a unit, if anything.
pub open spec fn unit_event(outcome: Outcome) -> Option<UnitEvent> {
    match outcome {
        Outcome::Done => Some(UnitEvent::Done),
        Outcome::Decoded { frame, now } => Some(UnitEvent::Decoded { frame, now }),
        Outcome::NoFrame => Some(UnitEvent::NoFrame),
        Outcome::Encoded(p) => Some(UnitEvent::Encoded(p)),
        Outcome::NoPacket => Some(UnitEvent::NoPacket),
        Outcome::Failed => Some(UnitEvent::Failed),
        _ => None,
    }
}

impl SessionModel {
    /// A session that has asked for its input to be opened.
    pub open spec fn initial(codec: AtoolCodecType) -> SessionModel {
        SessionModel {
            codec,
            phase: Phase::OpeningInput,
            streams: Seq::empty(),
            best_video: None,
            global_header: false,
            mapping: Seq::empty(),
            units: Seq::empty(),
            pending_decoder: None,
            ost_time_bases: Seq::empty(),
        }
    }

    /// The same session in another phase.
    pub open spec fn with_phase(self, phase: Phase) -> SessionModel {
        SessionModel { phase, ..self }
    }

    /// The session failed, and the abort that tells so.
    pub open spec fn fail(self, kind: ErrorKind) -> (SessionModel, Action) {
        (self.with_phase(Phase::Failed(kind)), Action::Abort(kind))
    }

    /// The output index of a kept input stream.
    pub open spec fn output_of(self, input: int) -> usize {
        match self.mapping[input] {
            Slot::Output(k) => k,
            Slot::Dropped => 0,
        }
    }

    /// The time base of an output stream as captured after the header; a
    /// base that is not valid where none was captured.
    pub open spec fn ost_time_base(self, output: usize) -> TimeBase {
        if output < self.ost_time_bases.len() {
            self.ost_time_bases[output as int]
        } else {
            Rational { num: 0, den: 0 }
        }
    }

    /// Turns to the first kept stream at or after `from` that still needs its
    /// output stream: a video stream gets a unit, any other is copied. When
    /// all have theirs, the metadata is next.
    pub open spec fn begin_setup(self, from: int) -> (SessionModel, Action) {
        let i = next_kept(self.mapping, from);
        if i >= self.streams.len() {
            (self.with_phase(Phase::CopyingMetadata), Action::CopyMetadata)
        } else if is_video(self.streams[i]) {
            (self.with_phase(Phase::OpeningDecoder(i as usize)), Action::OpenDecoder { input: i as usize })
        } else {
            (
                self.with_phase(Phase::AddingCopy(i as usize)),
                Action::AddCopyStream {
                    input: i as usize,
                    output: self.output_of(i),
                    parameters: copied_parameters(self.streams[i].parameters),
                },
            )
        }
    }

    /// Turns to the first unit at or after `from` and tells it that the input
    /// has ended. When no unit is left, the trailer is next.
    pub open spec fn begin_flush(self, from: int) -> (SessionModel, Action) {
        let i = next_unit(self.units, from);
        if i >= self.units.len() {
            (self.with_phase(Phase::WritingTrailer), Action::WriteTrailer)
        } else {
            let unit = self.units[i]->Some_0;
            let (unit2, answer) = unit.step_spec(
                UnitEvent::EndOfInput,
                self.ost_time_base(unit.ost_index),
            );
            let after = SessionModel {
                units: self.units.update(i, Some(unit2)),
                phase: Phase::Flushing(i as usize),
                ..self
            };
            match relayed(i as usize, answer) {
                Some(action) => (after, action),
                None => after.fail(ErrorKind::Streaming),
            }
        }
    }

    /// Hands `event` to the unit of input stream `i` and relays its answer.
    /// A unit that yields gives the turn back to the demuxer; a unit that has
    /// finished its flush gives it to the next unit.
    pub open spec fn drive(self, i: usize, event: UnitEvent) -> (SessionModel, Action) {
        let unit = self.units[i as int]->Some_0;
        let (unit2, answer) = unit.step_spec(event, self.ost_time_base(unit.ost_index));
        let after = SessionModel { units: self.units.update(i as int, Some(unit2)), ..self };
        match relayed(i, answer) {
            Some(action) => (after, action),
            None => match answer {
                UnitAction::Yield => if self.phase is Transcoding {
                    (after.with_phase(Phase::Reading), Action::ReadPacket)
                } else {
                    after.fail(ErrorKind::Protocol)
                },
                UnitAction::Finished => if self.phase is Flushing {
                    after.begin_flush(i + 1)
                } else {
                    after.fail(ErrorKind::Protocol)
                },
                _ => after.fail(ErrorKind::Streaming),
            },
        }
    }

    /// The header a copied packet is written with: its output stream, its
    /// times converted from the input stream's base to the output stream's,
    /// and no byte offset.
    pub open spec fn copied_packet(self, p: Packet) -> Packet {
        let out = self.output_of(p.stream as int);
        Packet {
            position: NO_POSITION,
            ..p.rescaled_ts(self.streams[p.stream as int].time_base, self.ost_time_base(out)).stamped(
                out,
            )
        }
    }

    /// Routes a packet from the demuxer: one of a dropped stream is skipped,
    /// one of a transcoded stream goes to its unit, any other is copied.
    pub open spec fn route(self, p: Packet) -> (SessionModel, Action) {
        let i = p.stream;
        if i >= self.mapping.len() || self.mapping[i as int] is Dropped {
            (self, Action::ReadPacket)
        } else if self.units[i as int] is Some {
            self.with_phase(Phase::Transcoding(i)).drive(i, UnitEvent::Packet(p))
        } else {
            (self.with_phase(Phase::Copying), Action::WritePacket(self.copied_packet(p)))
        }
    }

    /// The session after set-up of the unit for input stream `i` at `now`.
    pub open spec fn with_new_unit(self, i: usize, now: u64) -> SessionModel {
        let decoder = self.pending_decoder->Some_0;
        SessionModel {
            units: self.units.update(
                i as int,
                Some(
                    TranscoderUnit::fresh(
                        i,
                        self.output_of(i as int),
                        self.streams[i as int].time_base,
                        decoder.time_base,
                        self.best_video == Some(i),
                        now,
                    ),
                ),
            ),
            pending_decoder: None,
            ..self
        }
    }

    /// After the input was asked to open: its streams are classified and
    /// mapped, and the output is opened next. Streams that do not come in the
    /// order of their indices are an answer out of turn.
    pub open spec fn opened_input(self, outcome: Outcome) -> (SessionModel, Action) {
        match outcome {
            Outcome::InputOpened { streams, best_video } => if indexed(streams@) {
                (
                    SessionModel {
                        phase: Phase::OpeningOutput,
                        streams: streams@,
                        best_video,
                        mapping: mapping_of(streams@),
                        units: Seq::new(streams@.len(), |i: int| None),
                        ..self
                    },
                    Action::OpenOutput,
                )
            } else {
                self.fail(ErrorKind::Protocol)
            },
            Outcome::Failed => self.fail(ErrorKind::Setup),
            _ => self.fail(ErrorKind::Protocol),
        }
    }

    /// After the output was asked to open: the first kept stream is set up.
    pub open spec fn opened_output(self, outcome: Outcome) -> (SessionModel, Action) {
        match outcome {
            Outcome::OutputOpened { global_header } => (SessionModel {
                global_header,
                ..self
            }).begin_setup(0),
            Outcome::Failed => self.fail(ErrorKind::Setup),
            _ => self.fail(ErrorKind::Protocol),
        }
    }

    /// After the decoder of input stream `i` was asked to open: its encoder
    /// is opened with the settings that match the decoder.
    pub open spec fn opened_decoder(self, i: usize, outcome: Outcome) -> (SessionModel, Action) {
        match outcome {
            Outcome::DecoderOpened(decoder) => (
                SessionModel {
                    phase: Phase::OpeningEncoder(i),
                    pending_decoder: Some(decoder),
                    ..self
                },
                Action::OpenEncoder {
                    input: i,
                    output: self.output_of(i as int),
                    settings: EncoderSettings::matching(
                        decoder,
                        self.streams[i as int].frame_rate,
                        self.global_header,
                        self.codec,
                    ),
                },
            ),
            Outcome::Failed => self.fail(ErrorKind::Setup),
            _ => self.fail(ErrorKind::Protocol),
        }
    }

    /// After the encoder of input stream `i` was asked to open: the unit
    /// exists, and the next kept stream is set up.
    pub open spec fn opened_encoder(self, i: usize, outcome: Outcome) -> (SessionModel, Action) {
        match outcome {
            Outcome::EncoderOpened { now } => self.with_new_unit(i, now).begin_setup(i + 1),
            Outcome::Failed => self.fail(ErrorKind::Negotiation),
            _ => self.fail(ErrorKind::Protocol),
        }
    }

    /// After the output stream for the copy of input stream `i` was asked for.
    pub open spec fn added_copy(self, i: usize, outcome: Outcome) -> (SessionModel, Action) {
        match outcome {
            Outcome::Done => self.begin_setup(i + 1),
            Outcome::Failed => self.fail(ErrorKind::Setup),
            _ => self.fail(ErrorKind::Protocol),
        }
    }

    /// After the metadata was asked to be copied: the header is written.
    pub open spec fn copied_metadata(self, outcome: Outcome) -> (SessionModel, Action) {
        match outcome {
            Outcome::Done => (self.with_phase(Phase::WritingHeader), Action::WriteHeader),
            Outcome::Failed => self.fail(ErrorKind::Setup),
            _ => self.fail(ErrorKind::Protocol),
        }
    }

    /// After the header was asked to be written: the time bases that the
    /// muxer reports, one per output stream, are kept, and reading begins.
    pub open spec fn wrote_header(self, outcome: Outcome) -> (SessionModel, Action) {
        match outcome {
            Outcome::HeaderWritten { time_bases } => if time_bases@.len() == kept_count(
                self.streams,
            ) {
                (
                    SessionModel { phase: Phase::Reading, ost_time_bases: time_bases@, ..self },
                    Action::ReadPacket,
                )
            } else {
                self.fail(ErrorKind::Protocol)
            },
            Outcome::Failed => self.fail(ErrorKind::Setup),
            _ => self.fail(ErrorKind::Protocol),
        }
    }

    /// After the demuxer was asked for a packet: the packet is routed, or,
    /// at the end of the input, the flush begins.
    pub open spec fn read(self, outcome: Outcome) -> (SessionModel, Action) {
        match outcome {
            Outcome::Packet(p) => self.route(p),
            Outcome::EndOfInput => self.begin_flush(0),
            Outcome::Failed => self.fail(ErrorKind::Streaming),
            _ => self.fail(ErrorKind::Protocol),
        }
    }

    /// After a copied packet was asked to be written.
    pub open spec fn copied(self, outcome: Outcome) -> (SessionModel, Action) {
        match outcome {
            Outcome::Done => (self.with_phase(Phase::Reading), Action::ReadPacket),
            Outcome::Failed => self.fail(ErrorKind::Streaming),
            _ => self.fail(ErrorKind::Protocol),
        }
    }

    /// After a call of the unit of input stream `i`.
    pub open spec fn unit_turn(self, i: usize, outcome: Outcome) -> (SessionModel, Action) {
        match unit_event(outcome) {
            Some(event) => self.drive(i, event),
            None => self.fail(ErrorKind::Protocol),
        }
    }

    /// After the trailer was asked to be written.
    pub open spec fn wrote_trailer(self, outcome: Outcome) -> (SessionModel, Action) {
        match outcome {
            Outcome::Done => (self.with_phase(Phase::Done), Action::Finish),
            Outcome::Failed => self.fail(ErrorKind::Streaming),
            _ => self.fail(ErrorKind::Protocol),
        }
    }

    /// The transition function of the session: its state and the next call
    /// after `outcome`. A session that is done or has failed stays so.
    pub open spec fn next(self, outcome: Outcome) -> (SessionModel, Action) {
        match self.phase {
            Phase::Done => (self, Action::Finish),
            Phase::Failed(kind) => (self, Action::Abort(kind)),
            Phase::OpeningInput => self.opened_input(outcome),
            Phase::OpeningOutput => self.opened_output(outcome),
            Phase::OpeningDecoder(i) => self.opened_decoder(i, outcome),
            Phase::OpeningEncoder(i) => self.opened_encoder(i, outcome),
            Phase::AddingCopy(i) => self.added_copy(i, outcome),
            Phase::CopyingMetadata => self.copied_metadata(outcome),
            Phase::WritingHeader => self.wrote_header(outcome),
            Phase::Reading => self.read(outcome),
            Phase::Copying => self.copied(outcome),
            Phase::Transcoding(i) => self.unit_turn(i, outcome),
            Phase::Flushing(i) => self.unit_turn(i, outcome),
            Phase::WritingTrailer => self.wrote_trailer(outcome),
        }
    }
}

/// A unit between packets, or no unit at all.
pub open spec fn resting(unit: Option<TranscoderUnit>) -> bool {
    unit is Some ==> (unit->Some_0.state == UnitState::Idle || unit->Some_0.state
        == UnitState::Ready) && !unit->Some_0.decoder_ended
}

/// A unit that is flushed, or no unit at all.
pub open spec fn flushed(unit: Option<TranscoderUnit>) -> bool {
    unit is Some ==> unit->Some_0.is_closed()
}

/// `i` is the first input stream from `from` on that has an output stream.
pub open spec fn next_kept_is_first(mapping: Seq<Slot>, from: int, i: int) -> bool {
    &&& from <= i <= mapping.len()
    &&& i < mapping.len() ==> mapping[i] is Output
    &&& forall|j: int| from <= j < i ==> (#[trigger] mapping[j]) is Dropped
}

/// `next_kept` finds the first input stream from `from` on that has an output
/// stream.
pub proof fn lemma_next_kept(mapping: Seq<Slot>, from: int)
    requires
        0 <= from <= mapping.len(),
    ensures
        next_kept_is_first(mapping, from, next_kept(mapping, from)),
    decreases mapping.len() - from,
{
    if from < mapping.len() && !(mapping[from] is Output) {
        lemma_next_kept(mapping, from + 1);
    }
}

/// `i` is the first input stream from `from` on that has a unit.
pub open spec fn next_unit_is_first(units: Seq<Option<TranscoderUnit>>, from: int, i: int) -> bool {
    &&& from <= i <= units.len()
    &&& i < units.len() ==> units[i] is Some
    &&& forall|j: int| from <= j < i ==> (#[trigger] units[j]) is None
}

/// `next_unit` finds the first input stream from `from` on that has a unit.
pub proof fn lemma_next_unit(units: Seq<Option<TranscoderUnit>>, from: int)
    requires
        0 <= from <= units.len(),
    ensures
        next_unit_is_first(units, from, next_unit(units, from)),
    decreases units.len() - from,
{
    if from < units.len() && !(units[from] is Some) {
        lemma_next_unit(units, from + 1);
    }
}

impl SessionModel {
    /// The unit of input stream `i`, where there is one, is bound to that
    /// stream and to the output stream that the mapping gives it.
    pub open spec fn unit_bound(self, i: int) -> bool {
        self.units[i] is Some ==> {
            let unit = self.units[i]->Some_0;
            &&& is_video(self.streams[i])
            &&& unit.wf()
            &&& unit.ist_index == i
            &&& self.mapping[i] == Slot::Output(unit.ost_index)
            &&& unit.ist_time_base == self.streams[i].time_base
            &&& unit.progress.enabled == (self.best_video == Some(i as usize))
        }
    }

    /// Every video stream before `n` has its unit.
    pub open spec fn set_up_below(self, n: int) -> bool {
        forall|j: int|
            0 <= j < n && j < self.streams.len() && is_video(self.streams[j]) ==> (
            #[trigger] self.units[j]) is Some
    }

    /// No stream from `n` on has a unit.
    pub open spec fn none_from(self, n: int) -> bool {
        forall|j: int| n <= j < self.units.len() ==> (#[trigger] self.units[j]) is None
    }

    /// Every unit is between packets.
    pub open spec fn all_resting(self) -> bool {
        forall|j: int| 0 <= j < self.units.len() ==> resting(#[trigger] self.units[j])
    }

    /// Every unit is flushed.
    pub open spec fn all_flushed(self) -> bool {
        forall|j: int| 0 <= j < self.units.len() ==> flushed(#[trigger] self.units[j])
    }

    /// The output time bases are captured: one per output stream.
    pub open spec fn header_captured(self) -> bool {
        self.ost_time_bases.len() == kept_count(self.streams)
    }

    /// The mapping is the one of the streams, and every unit is bound to its
    /// stream.
    pub open spec fn bound(self) -> bool {
        &&& self.streams.len() <= usize::MAX
        &&& indexed(self.streams)
        &&& self.mapping == mapping_of(self.streams)
        &&& self.units.len() == self.streams.len()
        &&& forall|i: int| 0 <= i < self.units.len() ==> #[trigger] self.unit_bound(i)
    }

    /// What holds of every session that was begun and then only stepped.
    pub open spec fn wf(self) -> bool {
        &&& self.bound()
        &&& match self.phase {
            Phase::OpeningInput => self.streams.len() == 0,
            Phase::OpeningOutput => self.none_from(0),
            Phase::OpeningDecoder(i) => {
                &&& i < self.streams.len()
                &&& is_video(self.streams[i as int])
                &&& self.set_up_below(i as int)
                &&& self.none_from(i as int)
                &&& self.all_resting()
            },
            Phase::OpeningEncoder(i) => {
                &&& i < self.streams.len()
                &&& is_video(self.streams[i as int])
                &&& self.set_up_below(i as int)
                &&& self.none_from(i as int)
                &&& self.all_resting()
                &&& self.pending_decoder is Some
            },
            Phase::AddingCopy(i) => {
                &&& i < self.streams.len()
                &&& !is_video(self.streams[i as int])
                &&& self.mapping[i as int] is Output
                &&& self.set_up_below(i as int)
                &&& self.none_from(i as int)
                &&& self.all_resting()
            },
            Phase::CopyingMetadata | Phase::WritingHeader => {
                &&& self.set_up_below(self.streams.len() as int)
                &&& self.all_resting()
            },
            Phase::Reading | Phase::Copying => {
                &&& self.set_up_below(self.streams.len() as int)
                &&& self.all_resting()
                &&& self.header_captured()
            },
            Phase::Transcoding(i) => {
                &&& i < self.streams.len()
                &&& self.units[i as int] is Some
                &&& !self.units[i as int]->Some_0.decoder_ended
                &&& self.set_up_below(self.streams.len() as int)
                &&& forall|j: int|
                    0 <= j < self.units.len() && j != i ==> resting(#[trigger] self.units[j])
                &&& self.header_captured()
            },
            Phase::Flushing(i) => {
                &&& i < self.streams.len()
                &&& self.units[i as int] is Some
                &&& self.units[i as int]->Some_0.decoder_ended
                &&& !self.units[i as int]->Some_0.is_closed()
                &&& self.set_up_below(self.streams.len() as int)
                &&& forall|j: int| 0 <= j < i ==> flushed(#[trigger] self.units[j])
                &&& forall|j: int| i < j < self.units.len() ==> resting(#[trigger] self.units[j])
                &&& self.header_captured()
            },
            Phase::WritingTrailer | Phase::Done => {
                &&& self.set_up_below(self.streams.len() as int)
                &&& self.all_flushed()
                &&& self.header_captured()
            },
            Phase::Failed(_) => true,
        }
    }
}

/// The same streams, mapping and units are bound as before.
proof fn lemma_bound_same(m: SessionModel, r: SessionModel)
    requires
        m.bound(),
        r.streams == m.streams,
        r.mapping == m.mapping,
        r.units == m.units,
        r.best_video == m.best_video,
    ensures
        r.bound(),
{
    assert forall|j: int| 0 <= j < r.units.len() implies #[trigger] r.unit_bound(j) by {
        assert(m.unit_bound(j));
    }
}

/// Replacing the unit of stream `i` by one that is bound to it keeps all bound.
proof fn lemma_bound_update(m: SessionModel, r: SessionModel, i: int, unit: TranscoderUnit)
    requires
        m.bound(),
        0 <= i < m.units.len(),
        r.streams == m.streams,
        r.mapping == m.mapping,
        r.units == m.units.update(i, Some(unit)),
        is_video(m.streams[i]),
        unit.wf(),
        unit.ist_index == i,
        m.mapping[i] == Slot::Output(unit.ost_index),
        unit.ist_time_base == m.streams[i].time_base,
        unit.progress.enabled == (m.best_video == Some(i as usize)),
        r.best_video == m.best_video,
    ensures
        r.bound(),
{
    assert forall|j: int| 0 <= j < r.units.len() implies #[trigger] r.unit_bound(j) by {
        assert(m.unit_bound(j));
    }
}

/// Turning to the next kept stream keeps a session well formed, where every
/// video stream before `from` has its unit and no later stream has one.
pub proof fn lemma_begin_setup_keeps_wf(m: SessionModel, from: int)
    requires
        0 <= from <= m.streams.len(),
        m.bound(),
        m.set_up_below(from),
        m.none_from(from),
        m.all_resting(),
    ensures
        m.begin_setup(from).0.wf(),
{
    lemma_next_kept(m.mapping, from);
    let i = next_kept(m.mapping, from);
    let after = m.begin_setup(from).0;
    lemma_bound_same(m, after);
    assert forall|j: int|
        0 <= j < i && j < after.streams.len() && is_video(after.streams[j]) implies (
    #[trigger] after.units[j]) is Some by {
        if j >= from {
            assert(m.mapping[j] is Dropped);
        } else {
            assert(m.units[j] is Some);
        }
    }
    assert forall|j: int| i <= j < after.units.len() implies (#[trigger] after.units[j]) is None by {
        assert(m.units[j] is None);
    }
    assert forall|j: int| 0 <= j < after.units.len() implies resting(#[trigger] after.units[j]) by {
        assert(resting(m.units[j]));
    }
}

/// Turning to the next unit to flush keeps a session well formed, where the
/// units before `from` are flushed and the others rest. It either tells that
/// unit the end of the input or, when none is left, writes the trailer with
/// every unit flushed.
pub proof fn lemma_begin_flush_keeps_wf(m: SessionModel, from: int)
    requires
        0 <= from <= m.streams.len(),
        m.bound(),
        m.set_up_below(m.streams.len() as int),
        m.header_captured(),
        forall|j: int| 0 <= j < from ==> flushed(#[trigger] m.units[j]),
        forall|j: int| from <= j < m.units.len() ==> resting(#[trigger] m.units[j]),
    ensures
        m.begin_flush(from).0.wf(),
        m.begin_flush(from).0.streams == m.streams,
        m.begin_flush(from).0.ost_time_bases == m.ost_time_bases,
        ({
            let (after, action) = m.begin_flush(from);
            ||| after.phase is Flushing && action is SendEofToDecoder
            ||| after.phase == Phase::WritingTrailer && action == Action::WriteTrailer
                && after.all_flushed()
        }),
{
    lemma_next_unit(m.units, from);
    let i = next_unit(m.units, from);
    let after = m.begin_flush(from).0;
    if i >= m.units.len() {
        lemma_bound_same(m, after);
        assert forall|j: int| 0 <= j < after.units.len() implies flushed(
            #[trigger] after.units[j],
        ) by {
            if j >= from {
                assert(m.units[j] is None);
            } else {
                assert(flushed(m.units[j]));
            }
        }
        assert forall|j: int|
            0 <= j < after.streams.len() && is_video(after.streams[j]) implies (
        #[trigger] after.units[j]) is Some by {
            assert(m.units[j] is Some);
        }
    } else {
        let unit = m.units[i]->Some_0;
        let unit2 = unit.step_spec(UnitEvent::EndOfInput, m.ost_time_base(unit.ost_index)).0;
        assert(resting(m.units[i]));
        assert(m.unit_bound(i));
        crate::transcoder::lemma_step_keeps_wf(
            unit,
            UnitEvent::EndOfInput,
            m.ost_time_base(unit.ost_index),
        );
        assert(after.units == m.units.update(i, Some(unit2)));
        lemma_bound_update(m, after, i, unit2);
        assert forall|j: int| 0 <= j < i implies flushed(#[trigger] after.units[j]) by {
            if j >= from {
                assert(m.units[j] is None);
            } else {
                assert(flushed(m.units[j]));
            }
        }
        assert forall|j: int| i < j < after.units.len() implies resting(
            #[trigger] after.units[j],
        ) by {
            assert(resting(m.units[j]));
        }
        assert forall|j: int|
            0 <= j < after.streams.len() && is_video(after.streams[j]) implies (
        #[trigger] after.units[j]) is Some by {
            assert(m.units[j] is Some);
        }
    }
}

/// A turn of a unit keeps a session well formed. While packets are read it
/// ends with the unit's next call or with the next read; during the flush it
/// ends with the unit's next call, with the flush of the next unit, or with
/// the trailer.
pub proof fn lemma_drive_keeps_wf(m: SessionModel, i: usize, event: UnitEvent)
    requires
        m.wf(),
        m.phase == Phase::Transcoding(i) || m.phase == Phase::Flushing(i),
        !(event is EndOfInput),
        !(event is Packet),
    ensures
        m.drive(i, event).0.wf(),
        m.drive(i, event).0.streams == m.streams,
        m.drive(i, event).0.ost_time_bases == m.ost_time_bases,
        ({
            let (after, action) = m.drive(i, event);
            ||| after.phase is Failed && action is Abort
            ||| after.phase == m.phase && relayed(
                i,
                m.units[i as int]->Some_0.step_spec(
                    event,
                    m.ost_time_base(m.units[i as int]->Some_0.ost_index),
                ).1,
            ) == Some(action)
            ||| m.phase is Transcoding && after.phase == Phase::Reading && action
                == Action::ReadPacket
            ||| m.phase is Flushing && after.phase is Flushing && action is SendEofToDecoder
            ||| m.phase is Flushing && after.phase == Phase::WritingTrailer && action
                == Action::WriteTrailer && after.all_flushed()
        }),
{
    let unit = m.units[i as int]->Some_0;
    let tb = m.ost_time_base(unit.ost_index);
    let (unit2, answer) = unit.step_spec(event, tb);
    let after = SessionModel { units: m.units.update(i as int, Some(unit2)), ..m };
    let r = m.drive(i, event).0;
    assert(m.unit_bound(i as int));
    crate::transcoder::lemma_step_keeps_wf(unit, event, tb);
    lemma_bound_update(m, after, i as int, unit2);
    assert forall|j: int|
        0 <= j < after.streams.len() && is_video(after.streams[j]) implies (
    #[trigger] after.units[j]) is Some by {
        assert(m.units[j] is Some);
    }
    if relayed(i, answer) is None {
        if answer == UnitAction::Yield && m.phase is Transcoding {
            assert(r == after.with_phase(Phase::Reading));
            lemma_bound_same(after, r);
            assert forall|j: int| 0 <= j < r.units.len() implies resting(#[trigger] r.units[j]) by {
                if j != i {
                    assert(resting(m.units[j]));
                }
            }
            assert forall|j: int|
                0 <= j < r.streams.len() && is_video(r.streams[j]) implies (#[trigger] r.units[j])
                is Some by {
                assert(after.units[j] is Some);
            }
        } else if answer == UnitAction::Finished && m.phase is Flushing {
            assert forall|j: int| 0 <= j < i + 1 implies flushed(#[trigger] after.units[j]) by {
                if j != i {
                    assert(flushed(m.units[j]));
                }
            }
            assert forall|j: int| i + 1 <= j < after.units.len() implies resting(
                #[trigger] after.units[j],
            ) by {
                assert(resting(m.units[j]));
            }
            lemma_begin_flush_keeps_wf(after, i + 1);
        } else {
            lemma_bound_same(after, r);
        }
    } else {
        assert(r == after);
        if m.phase is Transcoding {
            assert forall|j: int| 0 <= j < r.units.len() && j != i implies resting(
                #[trigger] r.units[j],
            ) by {
                assert(resting(m.units[j]));
            }
        } else {
            assert forall|j: int| 0 <= j < i implies flushed(#[trigger] r.units[j]) by {
                assert(flushed(m.units[j]));
            }
            assert forall|j: int| i < j < r.units.len() implies resting(#[trigger] r.units[j]) by {
                assert(resting(m.units[j]));
            }
        }
    }
}

/// A session that was just begun is well formed.
pub proof fn lemma_initial_wf(codec: AtoolCodecType)
    ensures
        SessionModel::initial(codec).wf(),
{
    assert(mapping_of(Seq::<StreamDescriptor>::empty()) =~= Seq::<Slot>::empty());
}

proof fn lemma_opened_input_keeps_wf(m: SessionModel, outcome: Outcome)
    requires
        m.wf(),
        m.phase == Phase::OpeningInput,
    ensures
        m.opened_input(outcome).0.wf(),
{
    let r = m.opened_input(outcome).0;
    match outcome {
        Outcome::InputOpened { streams, best_video } => {
            assert(streams.len() == streams@.len());
            if indexed(streams@) {
                assert forall|j: int| 0 <= j < r.units.len() implies #[trigger] r.unit_bound(
                    j,
                ) by {}
            } else {
                lemma_bound_same(m, r);
            }
        },
        _ => {
            lemma_bound_same(m, r);
        },
    }
}

proof fn lemma_opened_output_keeps_wf(m: SessionModel, outcome: Outcome)
    requires
        m.wf(),
        m.phase == Phase::OpeningOutput,
    ensures
        m.opened_output(outcome).0.wf(),
{
    let r = m.opened_output(outcome).0;
    match outcome {
        Outcome::OutputOpened { global_header } => {
            let m2 = SessionModel { global_header, ..m };
            lemma_bound_same(m, m2);
            assert forall|j: int| 0 <= j < m2.units.len() implies resting(
                #[trigger] m2.units[j],
            ) by {
                assert(m.units[j] is None);
            }
            lemma_begin_setup_keeps_wf(m2, 0);
        },
        _ => {
            lemma_bound_same(m, r);
        },
    }
}

proof fn lemma_opened_encoder_keeps_wf(m: SessionModel, i: usize, outcome: Outcome)
    requires
        m.wf(),
        m.phase == Phase::OpeningEncoder(i),
    ensures
        m.opened_encoder(i, outcome).0.wf(),
{
    let r = m.opened_encoder(i, outcome).0;
    match outcome {
        Outcome::EncoderOpened { now } => {
            let m2 = m.with_new_unit(i, now);
            let unit = m2.units[i as int]->Some_0;
            crate::streams::lemma_output_indices_dense(m.streams);
            assert(m.mapping[i as int] is Output);
            lemma_bound_update(m, m2, i as int, unit);
            assert forall|j: int| 0 <= j < m2.units.len() implies resting(
                #[trigger] m2.units[j],
            ) by {
                if j != i {
                    assert(resting(m.units[j]));
                }
            }
            assert forall|j: int|
                0 <= j < i + 1 && j < m2.streams.len() && is_video(m2.streams[j]) implies (
            #[trigger] m2.units[j]) is Some by {
                if j != i {
                    assert(m.units[j] is Some);
                }
            }
            assert forall|j: int| i + 1 <= j < m2.units.len() implies (#[trigger] m2.units[j])
                is None by {
                assert(m.units[j] is None);
            }
            lemma_begin_setup_keeps_wf(m2, i + 1);
        },
        _ => {
            lemma_bound_same(m, r);
        },
    }
}

proof fn lemma_added_copy_keeps_wf(m: SessionModel, i: usize, outcome: Outcome)
    requires
        m.wf(),
        m.phase == Phase::AddingCopy(i),
    ensures
        m.added_copy(i, outcome).0.wf(),
{
    let r = m.added_copy(i, outcome).0;
    match outcome {
        Outcome::Done => {
            assert(m.unit_bound(i as int));
            assert forall|j: int|
                0 <= j < i + 1 && j < m.streams.len() && is_video(m.streams[j]) implies (
            #[trigger] m.units[j]) is Some by {
                if j != i {
                    assert(m.units[j] is Some);
                }
            }
            assert forall|j: int| i + 1 <= j < m.units.len() implies (#[trigger] m.units[j])
                is None by {
                assert(m.units[j] is None);
            }
            lemma_begin_setup_keeps_wf(m, i + 1);
        },
        _ => {
            lemma_bound_same(m, r);
        },
    }
}

proof fn lemma_read_keeps_wf(m: SessionModel, outcome: Outcome)
    requires
        m.wf(),
        m.phase == Phase::Reading,
    ensures
        m.read(outcome).0.wf(),
{
    let r = m.read(outcome).0;
    match outcome {
        Outcome::Packet(p) => {
            let i = p.stream;
            if i < m.mapping.len() && !(m.mapping[i as int] is Dropped) && m.units[i as int]
                is Some {
                let unit = m.units[i as int]->Some_0;
                let tb = m.ost_time_base(unit.ost_index);
                assert(resting(m.units[i as int]));
                assert(m.unit_bound(i as int));
                let (unit2, answer) = unit.step_spec(UnitEvent::Packet(p), tb);
                assert(answer is SendPacket);
                crate::transcoder::lemma_step_keeps_wf(unit, UnitEvent::Packet(p), tb);
                assert(r.units == m.units.update(i as int, Some(unit2)));
                lemma_bound_update(m, r, i as int, unit2);
                assert forall|j: int| 0 <= j < r.units.len() && j != i implies resting(
                    #[trigger] r.units[j],
                ) by {
                    assert(resting(m.units[j]));
                }
                assert forall|j: int|
                    0 <= j < r.streams.len() && is_video(r.streams[j]) implies (
                #[trigger] r.units[j]) is Some by {
                    assert(m.units[j] is Some);
                }
            } else {
                lemma_bound_same(m, r);
            }
        },
        Outcome::EndOfInput => {
            lemma_begin_flush_keeps_wf(m, 0);
        },
        _ => {
            lemma_bound_same(m, r);
        },
    }
}

proof fn lemma_unit_turn_keeps_wf(m: SessionModel, i: usize, outcome: Outcome)
    requires
        m.wf(),
        m.phase == Phase::Transcoding(i) || m.phase == Phase::Flushing(i),
    ensures
        m.unit_turn(i, outcome).0.wf(),
{
    let r = m.unit_turn(i, outcome).0;
    match unit_event(outcome) {
        Some(event) => {
            lemma_drive_keeps_wf(m, i, event);
        },
        None => {
            lemma_bound_same(m, r);
        },
    }
}

/// Every step keeps a session well formed.
pub proof fn lemma_next_keeps_wf(m: SessionModel, outcome: Outcome)
    requires
        m.wf(),
    ensures
        m.next(outcome).0.wf(),
{
    let r = m.next(outcome).0;
    match m.phase {
        Phase::OpeningInput => {
            lemma_opened_input_keeps_wf(m, outcome);
        },
        Phase::OpeningOutput => {
            lemma_opened_output_keeps_wf(m, outcome);
        },
        Phase::OpeningEncoder(i) => {
            lemma_opened_encoder_keeps_wf(m, i, outcome);
        },
        Phase::AddingCopy(i) => {
            lemma_added_copy_keeps_wf(m, i, outcome);
        },
        Phase::Reading => {
            lemma_read_keeps_wf(m, outcome);
        },
        Phase::Transcoding(i) => {
            lemma_unit_turn_keeps_wf(m, i, outcome);
        },
        Phase::Flushing(i) => {
            lemma_unit_turn_keeps_wf(m, i, outcome);
        },
        _ => {
            lemma_bound_same(m, r);
        },
    }
}

/// The state of a session, without its invariant.
struct Core {
    codec: AtoolCodecType,
    phase: Phase,
    streams: Vec<StreamDescriptor>,
    best_video: Option<usize>,
    global_header: bool,
    mapping: StreamMapping,
    units: Vec<Option<TranscoderUnit>>,
    pending_decoder: Option<DecoderInfo>,
    ost_time_bases: Vec<TimeBase>,
}

impl View for Core {
    type V = SessionModel;

    closed spec fn view(&self) -> SessionModel {
        SessionModel {
            codec: self.codec,
            phase: self.phase,
            streams: self.streams@,
            best_video: self.best_video,
            global_header: self.global_header,
            mapping: self.mapping.slots@,
            units: self.units@,
            pending_decoder: self.pending_decoder,
            ost_time_bases: self.ost_time_bases@,
        }
    }
}

fn relay(input: usize, answer: UnitAction) -> (action: Option<Action>)
    ensures
        action == relayed(input, answer),
{
    match answer {
        UnitAction::SendPacket(packet) => Some(Action::SendPacket { input, packet }),
        UnitAction::ReceiveFrame => Some(Action::ReceiveFrame { input }),
        UnitAction::SendFrame { frame, line } => Some(Action::SendFrame { input, frame, line }),
        UnitAction::ReceivePacket => Some(Action::ReceivePacket { input }),
        UnitAction::WritePacket(packet) => Some(Action::WritePacket(packet)),
        UnitAction::SendEofToDecoder => Some(Action::SendEofToDecoder { input }),
        UnitAction::SendEofToEncoder => Some(Action::SendEofToEncoder { input }),
        UnitAction::Yield => None,
        UnitAction::Finished => None,
        UnitAction::Abort => None,
    }
}

fn to_unit_event(outcome: Outcome) -> (event: Option<UnitEvent>)
    ensures
        event == unit_event(outcome),
{
    match outcome {
        Outcome::Done => Some(UnitEvent::Done),
        Outcome::Decoded { frame, now } => Some(UnitEvent::Decoded { frame, now }),
        Outcome::NoFrame => Some(UnitEvent::NoFrame),
        Outcome::Encoded(p) => Some(UnitEvent::Encoded(p)),
        Outcome::NoPacket => Some(UnitEvent::NoPacket),
        Outcome::Failed => Some(UnitEvent::Failed),
        _ => None,
    }
}

fn is_indexed(streams: &Vec<StreamDescriptor>) -> (b: bool)
    ensures
        b == indexed(streams@),
{
    let mut i: usize = 0;
    while i < streams.len()
        invariant
            i <= streams.len(),
            forall|j: int| 0 <= j < i ==> (#[trigger] streams[j]).index == j,
        decreases streams.len() - i,
    {
        if streams[i].index != i {
            return false;
        }
        i = i + 1;
    }
    true
}

fn no_units(n: usize) -> (units: Vec<Option<TranscoderUnit>>)
    ensures
        units@ == Seq::new(n as nat, |i: int| None::<TranscoderUnit>),
{
    let mut units: Vec<Option<TranscoderUnit>> = Vec::new();
    let mut i: usize = 0;
    while i < n
        invariant
            i <= n,
            units.len() == i,
            forall|j: int| 0 <= j < i ==> units[j] is None,
        decreases n - i,
    {
        units.push(None);
        i = i + 1;
    }
    assert(units@ =~= Seq::new(n as nat, |i: int| None::<TranscoderUnit>));
    units
}

impl Core {
    fn fail(&mut self, kind: ErrorKind) -> (action: Action)
        ensures
            (final(self)@, action) == old(self)@.fail(kind),
    {
        self.phase = Phase::Failed(kind);
        Action::Abort(kind)
    }

    fn output_of(&self, input: usize) -> (output: usize)
        requires
            input < self.mapping.slots.len(),
        ensures
            output == self@.output_of(input as int),
    {
        match self.mapping.slots[input] {
            Slot::Output(k) => k,
            Slot::Dropped => 0,
        }
    }

    fn ost_time_base(&self, output: usize) -> (tb: TimeBase)
        ensures
            tb == self@.ost_time_base(output),
    {
        if output < self.ost_time_bases.len() {
            self.ost_time_bases[output]
        } else {
            Rational { num: 0, den: 0 }
        }
    }

    fn begin_setup(&mut self, from: usize) -> (action: Action)
        requires
            from <= old(self).streams.len(),
            old(self).mapping.slots.len() == old(self).streams.len(),
        ensures
            (final(self)@, action) == old(self)@.begin_setup(from as int),
    {
        let mut i: usize = from;
        while i < self.mapping.slots.len() && !matches!(self.mapping.slots[i], Slot::Output(_))
            invariant
                from <= i <= self.mapping.slots.len(),
                *self == *old(self),
                next_kept(self.mapping.slots@, i as int) == next_kept(
                    self.mapping.slots@,
                    from as int,
                ),
            decreases self.mapping.slots.len() - i,
        {
            i = i + 1;
        }
        if i >= self.streams.len() {
            self.phase = Phase::CopyingMetadata;
            Action::CopyMetadata
        } else {
            let stream = self.streams[i];
            match classify(stream.parameters.kind) {
                StreamClass::Video => {
                    self.phase = Phase::OpeningDecoder(i);
                    Action::OpenDecoder { input: i }
                },
                _ => {
                    let output = self.output_of(i);
                    self.phase = Phase::AddingCopy(i);
                    Action::AddCopyStream {
                        input: i,
                        output,
                        parameters: CodecParameters { codec_tag: 0, ..stream.parameters },
                    }
                },
            }
        }
    }

    fn begin_flush(&mut self, from: usize) -> (action: Action)
        requires
            from <= old(self).units.len(),
        ensures
            (final(self)@, action) == old(self)@.begin_flush(from as int),
    {
        let mut i: usize = from;
        while i < self.units.len() && self.units[i].is_none()
            invariant
                from <= i <= self.units.len(),
                *self == *old(self),
                next_unit(self.units@, i as int) == next_unit(self.units@, from as int),
            decreases self.units.len() - i,
        {
            i = i + 1;
        }
        if i >= self.units.len() {
            self.phase = Phase::WritingTrailer;
            Action::WriteTrailer
        } else {
            let mut unit = self.units[i].unwrap();
            let tb = self.ost_time_base(unit.ost_index);
            let answer = unit.step(UnitEvent::EndOfInput, tb);
            self.units.set(i, Some(unit));
            self.phase = Phase::Flushing(i);
            match relay(i, answer) {
                Some(action) => action,
                None => self.fail(ErrorKind::Streaming),
            }
        }
    }

    fn drive(&mut self, i: usize, event: UnitEvent) -> (action: Action)
        requires
            i < old(self).units.len(),
            old(self).units[i as int] is Some,
        ensures
            (final(self)@, action) == old(self)@.drive(i, event),
    {
        let mut unit = self.units[i].unwrap();
        let tb = self.ost_time_base(unit.ost_index);
        let answer = unit.step(event, tb);
        self.units.set(i, Some(unit));
        match relay(i, answer) {
            Some(action) => action,
            None => match answer {
                UnitAction::Yield => {
                    if matches!(self.phase, Phase::Transcoding(_)) {
                        self.phase = Phase::Reading;
                        Action::ReadPacket
                    } else {
                        self.fail(ErrorKind::Protocol)
                    }
                },
                UnitAction::Finished => {
                    if matches!(self.phase, Phase::Flushing(_)) {
                        self.begin_flush(i + 1)
                    } else {
                        self.fail(ErrorKind::Protocol)
                    }
                },
                _ => self.fail(ErrorKind::Streaming),
            },
        }
    }

    fn route(&mut self, p: Packet) -> (action: Action)
        requires
            old(self)@.bound(),
        ensures
            (final(self)@, action) == old(self)@.route(p),
    {
        let i: usize = p.stream;
        if i >= self.mapping.slots.len() || matches!(self.mapping.slots[i], Slot::Dropped) {
            Action::ReadPacket
        } else if self.units[i].is_some() {
            self.phase = Phase::Transcoding(i);
            self.drive(i, UnitEvent::Packet(p))
        } else {
            let out = self.output_of(i);
            let tb = self.ost_time_base(out);
            let rescaled = p.rescale_ts(self.streams[i].time_base, tb).stamp(out);
            self.phase = Phase::Copying;
            Action::WritePacket(Packet { position: NO_POSITION, ..rescaled })
        }
    }

    fn opened_input(&mut self, outcome: Outcome) -> (action: Action)
        ensures
            (final(self)@, action) == old(self)@.opened_input(outcome),
    {
        match outcome {
            Outcome::InputOpened { streams, best_video } => {
                if is_indexed(&streams) {
                    self.mapping = StreamMapping::build(&streams);
                    self.units = no_units(streams.len());
                    self.streams = streams;
                    self.best_video = best_video;
                    self.phase = Phase::OpeningOutput;
                    Action::OpenOutput
                } else {
                    self.fail(ErrorKind::Protocol)
                }
            },
            Outcome::Failed => self.fail(ErrorKind::Setup),
            _ => self.fail(ErrorKind::Protocol),
        }
    }

    fn opened_output(&mut self, outcome: Outcome) -> (action: Action)
        requires
            old(self)@.bound(),
        ensures
            (final(self)@, action) == old(self)@.opened_output(outcome),
    {
        match outcome {
            Outcome::OutputOpened { global_header } => {
                self.global_header = global_header;
                self.begin_setup(0)
            },
            Outcome::Failed => self.fail(ErrorKind::Setup),
            _ => self.fail(ErrorKind::Protocol),
        }
    }

    fn opened_decoder(&mut self, i: usize, outcome: Outcome) -> (action: Action)
        requires
            old(self)@.bound(),
            i < old(self).streams.len(),
        ensures
            (final(self)@, action) == old(self)@.opened_decoder(i, outcome),
    {
        match outcome {
            Outcome::DecoderOpened(decoder) => {
                let output = self.output_of(i);
                let settings = EncoderSettings::for_decoder(
                    &decoder,
                    self.streams[i].frame_rate,
                    self.global_header,
                    self.codec,
                );
                self.pending_decoder = Some(decoder);
                self.phase = Phase::OpeningEncoder(i);
                Action::OpenEncoder { input: i, output, settings }
            },
            Outcome::Failed => self.fail(ErrorKind::Setup),
            _ => self.fail(ErrorKind::Protocol),
        }
    }

    fn opened_encoder(&mut self, i: usize, outcome: Outcome) -> (action: Action)
        requires
            old(self)@.bound(),
            i < old(self).streams.len(),
            old(self).pending_decoder is Some,
        ensures
            (final(self)@, action) == old(self)@.opened_encoder(i, outcome),
    {
        match outcome {
            Outcome::EncoderOpened { now } => {
                let decoder = self.pending_decoder.unwrap();
                let logging = match self.best_video {
                    Some(best) => best == i,
                    None => false,
                };
                let unit = TranscoderUnit::new(
                    i,
                    self.output_of(i),
                    self.streams[i].time_base,
                    decoder.time_base,
                    logging,
                    now,
                );
                self.units.set(i, Some(unit));
                self.pending_decoder = None;
                self.begin_setup(i + 1)
            },
            Outcome::Failed => self.fail(ErrorKind::Negotiation),
            _ => self.fail(ErrorKind::Protocol),
        }
    }

    fn added_copy(&mut self, i: usize, outcome: Outcome) -> (action: Action)
        requires
            old(self)@.bound(),
            i < old(self).streams.len(),
        ensures
            (final(self)@, action) == old(self)@.added_copy(i, outcome),
    {
        match outcome {
            Outcome::Done => self.begin_setup(i + 1),
            Outcome::Failed => self.fail(ErrorKind::Setup),
            _ => self.fail(ErrorKind::Protocol),
        }
    }

    fn copied_metadata(&mut self, outcome: Outcome) -> (action: Action)
        ensures
            (final(self)@, action) == old(self)@.copied_metadata(outcome),
    {
        match outcome {
            Outcome::Done => {
                self.phase = Phase::WritingHeader;
                Action::WriteHeader
            },
            Outcome::Failed => self.fail(ErrorKind::Setup),
            _ => self.fail(ErrorKind::Protocol),
        }
    }

    fn wrote_header(&mut self, outcome: Outcome) -> (action: Action)
        requires
            old(self)@.bound(),
        ensures
            (final(self)@, action) == old(self)@.wrote_header(outcome),
    {
        match outcome {
            Outcome::HeaderWritten { time_bases } => {
                proof {
                    lemma_outputs_before_mapping(self.streams@, self.streams@.len() as int);
                }
                if time_bases.len() == self.mapping.output_count() {
                    self.ost_time_bases = time_bases;
                    self.phase = Phase::Reading;
                    Action::ReadPacket
                } else {
                    self.fail(ErrorKind::Protocol)
                }
            },
            Outcome::Failed => self.fail(ErrorKind::Setup),
            _ => self.fail(ErrorKind::Protocol),
        }
    }

    fn read(&mut self, outcome: Outcome) -> (action: Action)
        requires
            old(self)@.bound(),
        ensures
            (final(self)@, action) == old(self)@.read(outcome),
    {
        match outcome {
            Outcome::Packet(p) => self.route(p),
            Outcome::EndOfInput => self.begin_flush(0),
            Outcome::Failed => self.fail(ErrorKind::Streaming),
            _ => self.fail(ErrorKind::Protocol),
        }
    }

    fn copied(&mut self, outcome: Outcome) -> (action: Action)
        ensures
            (final(self)@, action) == old(self)@.copied(outcome),
    {
        match outcome {
            Outcome::Done => {
                self.phase = Phase::Reading;
                Action::ReadPacket
            },
            Outcome::Failed => self.fail(ErrorKind::Streaming),
            _ => self.fail(ErrorKind::Protocol),
        }
    }

    fn unit_turn(&mut self, i: usize, outcome: Outcome) -> (action: Action)
        requires
            i < old(self).units.len(),
            old(self).units[i as int] is Some,
        ensures
            (final(self)@, action) == old(self)@.unit_turn(i, outcome),
    {
        match to_unit_event(outcome) {
            Some(event) => self.drive(i, event),
            None => self.fail(ErrorKind::Protocol),
        }
    }

    fn wrote_trailer(&mut self, outcome: Outcome) -> (action: Action)
        ensures
            (final(self)@, action) == old(self)@.wrote_trailer(outcome),
    {
        match outcome {
            Outcome::Done => {
                self.phase = Phase::Done;
                Action::Finish
            },
            Outcome::Failed => self.fail(ErrorKind::Streaming),
            _ => self.fail(ErrorKind::Protocol),
        }
    }

    fn step(&mut self, outcome: Outcome) -> (action: Action)
        requires
            old(self)@.wf(),
        ensures
            (final(self)@, action) == old(self)@.next(outcome),
            final(self)@.wf(),
    {
        proof {
            lemma_next_keeps_wf(self@, outcome);
        }
        match self.phase {
            Phase::Done => Action::Finish,
            Phase::Failed(kind) => Action::Abort(kind),
            Phase::OpeningInput => self.opened_input(outcome),
            Phase::OpeningOutput => self.opened_output(outcome),
            Phase::OpeningDecoder(i) => self.opened_decoder(i, outcome),
            Phase::OpeningEncoder(i) => self.opened_encoder(i, outcome),
            Phase::AddingCopy(i) => self.added_copy(i, outcome),
            Phase::CopyingMetadata => self.copied_metadata(outcome),
            Phase::WritingHeader => self.wrote_header(outcome),
            Phase::Reading => self.read(outcome),
            Phase::Copying => self.copied(outcome),
            Phase::Transcoding(i) => self.unit_turn(i, outcome),
            Phase::Flushing(i) => self.unit_turn(i, outcome),
            Phase::WritingTrailer => self.wrote_trailer(outcome),
        }
    }
}

/// A transcoding session: one input container, one output container, and
/// the units of the streams that are transcoded.
pub struct Session {
    core: Core,
}

impl View for Session {
    type V = SessionModel;

    closed spec fn view(&self) -> SessionModel {
        self.core@
    }
}

impl Session {
    #[verifier::type_invariant]
    spec fn inv(self) -> bool {
        self.core@.wf()
    }

    /// A new session for the target codec, and its first call: open the input.
    pub fn begin(codec: AtoolCodecType) -> (r: (Session, Action))
        ensures
            r.0@ == SessionModel::initial(codec),
            r.1 == Action::OpenInput,
    {
        proof {
            lemma_initial_wf(codec);
        }
        let core = Core {
            codec,
            phase: Phase::OpeningInput,
            streams: Vec::new(),
            best_video: None,
            global_header: false,
            mapping: StreamMapping { slots: Vec::new() },
            units: Vec::new(),
            pending_decoder: None,
            ost_time_bases: Vec::new(),
        };
        (Session { core }, Action::OpenInput)
    }

    /// Takes the outcome of the call that was asked for last and answers
    /// with the next one.
    pub fn step(self, outcome: Outcome) -> (r: (Session, Action))
        ensures
            (r.0@, r.1) == self@.next(outcome),
            self@.wf(),
            r.0@.wf(),
    {
        proof {
            use_type_invariant(&self);
        }
        let mut core = self.core;
        let action = core.step(outcome);
        (Session { core }, action)
    }

    /// The call that is in flight.
    pub fn phase(&self) -> (phase: Phase)
        ensures
            phase == self@.phase,
    {
        self.core.phase
    }

    /// The slot of input stream `input`; a stream that the input does not
    /// have is dropped.
    pub fn slot(&self, input: usize) -> (slot: Slot)
        ensures
            slot == if input < self@.mapping.len() {
                self@.mapping[input as int]
            } else {
                Slot::Dropped
            },
    {
        self.core.mapping.get(input)
    }

    /// The unit of input stream `input`, if it has one.
    pub fn unit(&self, input: usize) -> (unit: Option<TranscoderUnit>)
        ensures
            unit == if input < self@.units.len() {
                self@.units[input as int]
            } else {
                None
            },
    {
        if input < self.core.units.len() {
            self.core.units[input]
        } else {
            None
        }
    }

    /// The number of output streams.
    pub fn output_count(&self) -> (k: usize)
        ensures
            self@.wf(),
            k == kept_count(self@.streams),
    {
        proof {
            use_type_invariant(self);
            lemma_outputs_before_mapping(self.core.streams@, self.core.streams@.len() as int);
        }
        self.core.mapping.output_count()
    }
}

} // verus!
