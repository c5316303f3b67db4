//! What holds of every run of a session: the order of the protocol, stated
//! over the calls that the session asks for.

use crate::codec::AtoolCodecType;
use crate::packet::Packet;
use crate::packet::NO_POSITION;
use crate::session::indexed;
use crate::session::is_video;
use crate::session::lemma_begin_flush_keeps_wf;
use crate::session::lemma_drive_keeps_wf;
use crate::session::lemma_initial_wf;
use crate::session::lemma_next_keeps_wf;
use crate::session::lemma_next_kept;
use crate::session::lemma_next_unit;
use crate::session::next_kept;
use crate::session::next_unit;
use crate::session::resting;
use crate::session::unit_event;
use crate::session::Action;
use crate::session::ErrorKind;
use crate::session::Outcome;
use crate::session::Phase;
use crate::session::SessionModel;
use crate::streams::kept;
use crate::streams::kept_before;
use crate::streams::kept_count;
use crate::streams::lemma_kept_before_bounds;
use crate::streams::lemma_kept_before_monotonic;
use crate::streams::mapping_of;
use crate::streams::Slot;
use crate::streams::StreamDescriptor;
use crate::transcoder::EncoderSettings;
use crate::transcoder::UnitAction;
use crate::transcoder::UnitState;
use vstd::prelude::*;

verus! {

/// The session after a sequence of outcomes, and the calls it asked for, one
/// per outcome.
pub open spec fn run(m: SessionModel, outcomes: Seq<Outcome>) -> (SessionModel, Seq<Action>)
    decreases outcomes.len(),
{
    if outcomes.len() == 0 {
        (m, Seq::empty())
    } else {
        let (before, actions) = run(m, outcomes.drop_last());
        let (after, action) = before.next(outcomes.last());
        (after, actions.push(action))
    }
}

/// A call that adds an output stream.
pub open spec fn adds_stream(action: Action) -> bool {
    action is OpenEncoder || action is AddCopyStream
}

/// The output index that such a call adds.
pub open spec fn added_output(action: Action) -> usize {
    match action {
        Action::OpenEncoder { output, .. } => output,
        Action::AddCopyStream { output, .. } => output,
        _ => 0,
    }
}

/// How many of the calls add an output stream.
pub open spec fn streams_added(actions: Seq<Action>) -> nat
    decreases actions.len(),
{
    if actions.len() == 0 {
        0
    } else {
        streams_added(actions.drop_last()) + if adds_stream(actions.last()) {
            1nat
        } else {
            0nat
        }
    }
}

/// How many of the calls write the header.
pub open spec fn headers_written(actions: Seq<Action>) -> nat
    decreases actions.len(),
{
    if actions.len() == 0 {
        0
    } else {
        headers_written(actions.drop_last()) + if actions.last() == Action::WriteHeader {
            1nat
        } else {
            0nat
        }
    }
}

/// How many of the calls write the trailer.
pub open spec fn trailers_written(actions: Seq<Action>) -> nat
    decreases actions.len(),
{
    if actions.len() == 0 {
        0
    } else {
        trailers_written(actions.drop_last()) + if actions.last() == Action::WriteTrailer {
            1nat
        } else {
            0nat
        }
    }
}

/// How far a session has come.
pub open spec fn rank(phase: Phase) -> nat {
    match phase {
        Phase::OpeningInput => 0,
        Phase::OpeningOutput => 1,
        Phase::OpeningDecoder(_) => 2,
        Phase::OpeningEncoder(_) => 2,
        Phase::AddingCopy(_) => 2,
        Phase::CopyingMetadata => 3,
        Phase::WritingHeader => 4,
        Phase::Reading => 5,
        Phase::Transcoding(_) => 5,
        Phase::Copying => 5,
        Phase::Flushing(_) => 6,
        Phase::WritingTrailer => 7,
        Phase::Done => 8,
        Phase::Failed(_) => 9,
    }
}

/// What the calls made so far amount to, by the phase the session is in.
pub open spec fn on_track(m: SessionModel, actions: Seq<Action>) -> bool {
    let added = streams_added(actions);
    let headers = headers_written(actions);
    let trailers = trailers_written(actions);
    &&& m.wf()
    &&& match m.phase {
        Phase::OpeningInput | Phase::OpeningOutput => added == 0 && headers == 0 && trailers == 0,
        Phase::OpeningDecoder(i) => added == kept_before(m.streams, i as int) && headers == 0
            && trailers == 0,
        Phase::OpeningEncoder(i) => added == kept_before(m.streams, i + 1) && headers == 0
            && trailers == 0,
        Phase::AddingCopy(i) => added == kept_before(m.streams, i + 1) && headers == 0 && trailers
            == 0,
        Phase::CopyingMetadata => added == kept_count(m.streams) && headers == 0 && trailers == 0,
        Phase::WritingHeader | Phase::Reading | Phase::Transcoding(_) | Phase::Copying
        | Phase::Flushing(_) => added == kept_count(m.streams) && headers == 1 && trailers == 0,
        Phase::WritingTrailer | Phase::Done => added == kept_count(m.streams) && headers == 1
            && trailers == 1,
        Phase::Failed(_) => added <= kept_count(m.streams) && headers <= 1 && trailers <= headers,
    }
}

proof fn lemma_counts_push(actions: Seq<Action>, action: Action)
    ensures
        streams_added(actions.push(action)) == streams_added(actions) + if adds_stream(action) {
            1nat
        } else {
            0nat
        },
        headers_written(actions.push(action)) == headers_written(actions) + if action
            == Action::WriteHeader {
            1nat
        } else {
            0nat
        },
        trailers_written(actions.push(action)) == trailers_written(actions) + if action
            == Action::WriteTrailer {
            1nat
        } else {
            0nat
        },
{
    assert(actions.push(action).drop_last() =~= actions);
}

/// Between two kept streams that follow each other, no stream is kept.
proof fn lemma_kept_before_skip(streams: Seq<StreamDescriptor>, from: int, to: int)
    requires
        0 <= from <= to <= streams.len(),
        forall|j: int| from <= j < to ==> (#[trigger] mapping_of(streams)[j]) is Dropped,
    ensures
        kept_before(streams, to) == kept_before(streams, from),
    decreases to - from,
{
    if from < to {
        lemma_kept_before_skip(streams, from, to - 1);
        assert(mapping_of(streams)[to - 1] is Dropped);
    }
}

/// What one step adds to the calls made so far: the session stays on track,
/// a stream is added only before the header, as the next one; the header is
/// written only once every kept stream has its output stream; a packet is
/// written only between header and trailer; and the trailer is written only
/// after the header, with every unit flushed.
pub open spec fn in_order(m: SessionModel, actions: Seq<Action>, outcome: Outcome) -> bool {
    let (after, action) = m.next(outcome);
    &&& on_track(after, actions.push(action))
    &&& adds_stream(action) ==> headers_written(actions) == 0 && added_output(action)
        == streams_added(actions)
    &&& action == Action::WriteHeader ==> headers_written(actions) == 0 && streams_added(actions)
        == kept_count(m.streams)
    &&& action is WritePacket ==> headers_written(actions) == 1 && trailers_written(actions) == 0
    &&& action == Action::WriteTrailer ==> headers_written(actions) == 1 && trailers_written(
        actions,
    ) == 0 && after.all_flushed()
}

proof fn lemma_begin_setup_on_track(m: SessionModel, from: int, actions: Seq<Action>)
    requires
        0 <= from <= m.streams.len(),
        m.bound(),
        m.begin_setup(from).0.wf(),
        streams_added(actions) == kept_before(m.streams, from),
        headers_written(actions) == 0,
        trailers_written(actions) == 0,
    ensures
        on_track(m.begin_setup(from).0, actions.push(m.begin_setup(from).1)),
        adds_stream(m.begin_setup(from).1) ==> added_output(m.begin_setup(from).1)
            == streams_added(actions),
        m.begin_setup(from).1 != Action::WriteHeader,
        m.begin_setup(from).1 != Action::WriteTrailer,
        !(m.begin_setup(from).1 is WritePacket),
{
    let (after, action) = m.begin_setup(from);
    let i = next_kept(m.mapping, from);
    lemma_next_kept(m.mapping, from);
    lemma_counts_push(actions, action);
    lemma_kept_before_skip(m.streams, from, i);
    lemma_kept_before_bounds(m.streams, i);
}

proof fn lemma_opening_on_track(m: SessionModel, actions: Seq<Action>, outcome: Outcome)
    requires
        on_track(m, actions),
        m.phase == Phase::OpeningInput || m.phase == Phase::OpeningOutput,
    ensures
        in_order(m, actions, outcome),
{
    let (after, action) = m.next(outcome);
    lemma_next_keeps_wf(m, outcome);
    lemma_counts_push(actions, action);
    if m.phase == Phase::OpeningOutput {
        match outcome {
            Outcome::OutputOpened { global_header } => {
                let m2 = SessionModel { global_header, ..m };
                assert forall|j: int| 0 <= j < m2.units.len() implies #[trigger] m2.unit_bound(
                    j,
                ) by {
                    assert(m.unit_bound(j));
                }
                lemma_begin_setup_on_track(m2, 0, actions);
            },
            _ => {},
        }
    }
}

proof fn lemma_decoder_on_track(m: SessionModel, actions: Seq<Action>, outcome: Outcome)
    requires
        on_track(m, actions),
        m.phase is OpeningDecoder,
    ensures
        in_order(m, actions, outcome),
{
    let i = m.phase->OpeningDecoder_0;
    let (after, action) = m.next(outcome);
    lemma_next_keeps_wf(m, outcome);
    lemma_counts_push(actions, action);
    lemma_kept_before_bounds(m.streams, i as int);
    lemma_kept_before_monotonic(m.streams, i as int, m.streams.len() as int);
}

proof fn lemma_encoder_on_track(m: SessionModel, actions: Seq<Action>, outcome: Outcome)
    requires
        on_track(m, actions),
        m.phase is OpeningEncoder,
    ensures
        in_order(m, actions, outcome),
{
    let i = m.phase->OpeningEncoder_0;
    let (after, action) = m.next(outcome);
    lemma_next_keeps_wf(m, outcome);
    lemma_counts_push(actions, action);
    lemma_kept_before_monotonic(m.streams, i + 1, m.streams.len() as int);
    match outcome {
        Outcome::EncoderOpened { now } => {
            let m2 = m.with_new_unit(i, now);
            assert(after.bound());
            assert forall|j: int| 0 <= j < m2.units.len() implies #[trigger] m2.unit_bound(j) by {
                assert(after.unit_bound(j));
            }
            lemma_begin_setup_on_track(m2, i + 1, actions);
        },
        _ => {},
    }
}

proof fn lemma_copy_on_track(m: SessionModel, actions: Seq<Action>, outcome: Outcome)
    requires
        on_track(m, actions),
        m.phase is AddingCopy,
    ensures
        in_order(m, actions, outcome),
{
    let i = m.phase->AddingCopy_0;
    let (after, action) = m.next(outcome);
    lemma_next_keeps_wf(m, outcome);
    lemma_counts_push(actions, action);
    lemma_kept_before_monotonic(m.streams, i + 1, m.streams.len() as int);
    match outcome {
        Outcome::Done => {
            lemma_begin_setup_on_track(m, i + 1, actions);
        },
        _ => {},
    }
}

proof fn lemma_header_on_track(m: SessionModel, actions: Seq<Action>, outcome: Outcome)
    requires
        on_track(m, actions),
        m.phase == Phase::CopyingMetadata || m.phase == Phase::WritingHeader,
    ensures
        in_order(m, actions, outcome),
{
    let (after, action) = m.next(outcome);
    lemma_next_keeps_wf(m, outcome);
    lemma_counts_push(actions, action);
}

proof fn lemma_reading_on_track(m: SessionModel, actions: Seq<Action>, outcome: Outcome)
    requires
        on_track(m, actions),
        m.phase == Phase::Reading || m.phase == Phase::Copying,
    ensures
        in_order(m, actions, outcome),
{
    let (after, action) = m.next(outcome);
    lemma_next_keeps_wf(m, outcome);
    lemma_counts_push(actions, action);
    if m.phase == Phase::Reading {
        match outcome {
            Outcome::Packet(p) => {
                let i = p.stream;
                if i < m.mapping.len() && !(m.mapping[i as int] is Dropped) && m.units[i as int]
                    is Some {
                    assert(resting(m.units[i as int]));
                }
            },
            Outcome::EndOfInput => {
                lemma_begin_flush_keeps_wf(m, 0);
            },
            _ => {},
        }
    }
}

proof fn lemma_unit_on_track(m: SessionModel, actions: Seq<Action>, outcome: Outcome)
    requires
        on_track(m, actions),
        m.phase is Transcoding || m.phase is Flushing,
    ensures
        in_order(m, actions, outcome),
{
    let i = match m.phase {
        Phase::Transcoding(i) => i,
        Phase::Flushing(i) => i,
        _ => 0,
    };
    let (after, action) = m.next(outcome);
    lemma_next_keeps_wf(m, outcome);
    lemma_counts_push(actions, action);
    match unit_event(outcome) {
        Some(event) => {
            lemma_drive_keeps_wf(m, i, event);
        },
        None => {},
    }
}

proof fn lemma_ending_on_track(m: SessionModel, actions: Seq<Action>, outcome: Outcome)
    requires
        on_track(m, actions),
        m.phase == Phase::WritingTrailer || m.phase == Phase::Done || m.phase is Failed,
    ensures
        in_order(m, actions, outcome),
{
    let (after, action) = m.next(outcome);
    lemma_next_keeps_wf(m, outcome);
    lemma_counts_push(actions, action);
}

/// Every step of a session that is on track is in order.
pub proof fn lemma_step_in_order(m: SessionModel, actions: Seq<Action>, outcome: Outcome)
    requires
        on_track(m, actions),
    ensures
        in_order(m, actions, outcome),
{
    match m.phase {
        Phase::OpeningInput | Phase::OpeningOutput => lemma_opening_on_track(m, actions, outcome),
        Phase::OpeningDecoder(_) => lemma_decoder_on_track(m, actions, outcome),
        Phase::OpeningEncoder(_) => lemma_encoder_on_track(m, actions, outcome),
        Phase::AddingCopy(_) => lemma_copy_on_track(m, actions, outcome),
        Phase::CopyingMetadata | Phase::WritingHeader => lemma_header_on_track(
            m,
            actions,
            outcome,
        ),
        Phase::Reading | Phase::Copying => lemma_reading_on_track(m, actions, outcome),
        Phase::Transcoding(_) | Phase::Flushing(_) => lemma_unit_on_track(m, actions, outcome),
        _ => lemma_ending_on_track(m, actions, outcome),
    }
}

/// A session that is run from its beginning stays on track.
pub proof fn lemma_run_on_track(codec: AtoolCodecType, outcomes: Seq<Outcome>)
    ensures
        run(SessionModel::initial(codec), outcomes).1.len() == outcomes.len(),
        on_track(
            run(SessionModel::initial(codec), outcomes).0,
            run(SessionModel::initial(codec), outcomes).1,
        ),
    decreases outcomes.len(),
{
    let start = SessionModel::initial(codec);
    if outcomes.len() == 0 {
        lemma_initial_wf(codec);
    } else {
        lemma_run_on_track(codec, outcomes.drop_last());
        let (before, actions) = run(start, outcomes.drop_last());
        lemma_step_in_order(before, actions, outcomes.last());
    }
}

/// The calls of a shorter run are the first calls of a longer one.
pub proof fn lemma_run_prefix(m: SessionModel, outcomes: Seq<Outcome>, k: int)
    requires
        0 <= k <= outcomes.len(),
    ensures
        run(m, outcomes).1.len() == outcomes.len(),
        run(m, outcomes.take(k)).1 == run(m, outcomes).1.take(k),
        k < outcomes.len() ==> run(m, outcomes).1[k] == run(m, outcomes.take(k)).0.next(
            outcomes[k],
        ).1,
    decreases outcomes.len(),
{
    if outcomes.len() == 0 {
        assert(outcomes.take(k) =~= outcomes);
        assert(run(m, outcomes).1.take(k) =~= run(m, outcomes).1);
    } else if k == outcomes.len() {
        lemma_run_prefix(m, outcomes.drop_last(), k - 1);
        assert(outcomes.take(k) =~= outcomes);
        assert(run(m, outcomes).1.take(k) =~= run(m, outcomes).1);
    } else {
        let shorter = outcomes.drop_last();
        lemma_run_prefix(m, shorter, k);
        assert(shorter.take(k) =~= outcomes.take(k));
        assert(run(m, outcomes).1.take(k) =~= run(m, shorter).1.take(k));
        if k == shorter.len() {
            assert(shorter.take(k) =~= shorter);
        }
    }
}

/// The order of the protocol, over any run from the beginning and for each
/// of its calls. An output stream is added before the header is written, and
/// it is the next one: its index is the number of streams added before. The
/// header is written when every kept stream has its output stream, and only
/// once. A packet is written after the header and before the trailer. The
/// trailer is written after the header, only once, and when every unit is
/// flushed.
pub proof fn lemma_protocol_order(codec: AtoolCodecType, outcomes: Seq<Outcome>, k: int)
    requires
        0 <= k < outcomes.len(),
    ensures
        ({
            let start = SessionModel::initial(codec);
            let actions = run(start, outcomes).1;
            let earlier = actions.take(k);
            let before = run(start, outcomes.take(k)).0;
            let after = before.next(outcomes[k]).0;
            &&& actions.len() == outcomes.len()
            &&& headers_written(actions) <= 1
            &&& trailers_written(actions) <= headers_written(actions)
            &&& adds_stream(actions[k]) ==> headers_written(earlier) == 0 && added_output(
                actions[k],
            ) == streams_added(earlier)
            &&& actions[k] == Action::WriteHeader ==> headers_written(earlier) == 0
                && streams_added(earlier) == kept_count(before.streams)
            &&& actions[k] is WritePacket ==> headers_written(earlier) == 1 && trailers_written(
                earlier,
            ) == 0
            &&& actions[k] == Action::WriteTrailer ==> headers_written(earlier) == 1
                && trailers_written(earlier) == 0 && after.all_flushed()
        }),
{
    let start = SessionModel::initial(codec);
    let actions = run(start, outcomes).1;
    let earlier = actions.take(k);
    let before = run(start, outcomes.take(k)).0;
    lemma_run_on_track(codec, outcomes);
    lemma_run_on_track(codec, outcomes.take(k));
    lemma_run_prefix(start, outcomes, k);
    lemma_step_in_order(before, earlier, outcomes[k]);
    lemma_on_track_counts(run(start, outcomes).0, actions);
}

/// On track, the header was written at most once, and the trailer only after
/// it and at most once.
pub proof fn lemma_on_track_counts(m: SessionModel, actions: Seq<Action>)
    requires
        on_track(m, actions),
    ensures
        headers_written(actions) <= 1,
        trailers_written(actions) <= headers_written(actions),
        streams_added(actions) <= kept_count(m.streams),
        m.phase == Phase::Done ==> streams_added(actions) == kept_count(m.streams)
            && headers_written(actions) == 1 && trailers_written(actions) == 1
            && m.all_flushed(),
{
    lemma_kept_before_bounds(m.streams, m.streams.len() as int);
    match m.phase {
        Phase::OpeningDecoder(i) => {
            lemma_kept_before_monotonic(m.streams, i as int, m.streams.len() as int);
        },
        Phase::OpeningEncoder(i) => {
            lemma_kept_before_monotonic(m.streams, i + 1, m.streams.len() as int);
        },
        Phase::AddingCopy(i) => {
            lemma_kept_before_monotonic(m.streams, i + 1, m.streams.len() as int);
        },
        _ => {},
    }
}

/// Every output stream is added for a kept input stream, with the index
/// that the mapping gives it. A copied stream is created with the parameters
/// of its input stream and a codec tag of zero, whatever the input's tag; a
/// transcoded stream gets the target codec and the settings that match its
/// decoder.
pub proof fn lemma_added_stream(m: SessionModel, outcome: Outcome)
    requires
        m.wf(),
    ensures
        ({
            let (after, action) = m.next(outcome);
            match action {
                Action::AddCopyStream { input, output, parameters } => {
                    &&& input < after.streams.len()
                    &&& kept(after.streams[input as int])
                    &&& !is_video(after.streams[input as int])
                    &&& after.mapping[input as int] == Slot::Output(output)
                    &&& parameters.codec_tag == 0
                    &&& parameters.kind == after.streams[input as int].parameters.kind
                    &&& parameters.codec_id == after.streams[input as int].parameters.codec_id
                },
                Action::OpenEncoder { input, output, settings } => {
                    &&& input < after.streams.len()
                    &&& is_video(after.streams[input as int])
                    &&& after.mapping[input as int] == Slot::Output(output)
                    &&& outcome is DecoderOpened
                    &&& settings == EncoderSettings::matching(
                        outcome->DecoderOpened_0,
                        after.streams[input as int].frame_rate,
                        after.global_header,
                        after.codec,
                    )
                },
                _ => true,
            }
        }),
{
    let (after, action) = m.next(outcome);
    lemma_next_keeps_wf(m, outcome);
    match m.phase {
        Phase::OpeningOutput => {
            lemma_next_kept(m.mapping, 0);
        },
        Phase::OpeningDecoder(i) => {
            crate::streams::lemma_output_indices_dense(m.streams);
        },
        Phase::OpeningEncoder(i) => {
            lemma_next_kept(m.mapping, i + 1);
        },
        Phase::AddingCopy(i) => {
            lemma_next_kept(m.mapping, i + 1);
        },
        Phase::Reading => {
            match outcome {
                Outcome::Packet(p) => {
                    if p.stream < m.mapping.len() && m.units[p.stream as int] is Some {
                        assert(resting(m.units[p.stream as int]));
                    }
                },
                Outcome::EndOfInput => {
                    lemma_begin_flush_keeps_wf(m, 0);
                },
                _ => {},
            }
        },
        Phase::Transcoding(i) => {
            match unit_event(outcome) {
                Some(event) => {
                    lemma_drive_keeps_wf(m, i, event);
                },
                None => {},
            }
        },
        Phase::Flushing(i) => {
            match unit_event(outcome) {
                Some(event) => {
                    lemma_drive_keeps_wf(m, i, event);
                },
                None => {},
            }
        },
        _ => {},
    }
}

/// A packet of a stream that has no output stream is skipped: nothing is
/// written for it, nothing changes, and the next packet is read.
pub proof fn lemma_dropped_packet_skipped(m: SessionModel, p: Packet)
    requires
        m.wf(),
        m.phase == Phase::Reading,
        p.stream >= m.streams.len() || !kept(m.streams[p.stream as int]),
    ensures
        m.next(Outcome::Packet(p)) == (m, Action::ReadPacket),
{
}

/// A packet of a copied stream is written with the index of its output
/// stream, no byte offset, and its times converted from the input stream's
/// base to the base that the muxer gave the output stream.
pub proof fn lemma_copied_packet(m: SessionModel, p: Packet)
    requires
        m.wf(),
        m.phase == Phase::Reading,
        p.stream < m.streams.len(),
        kept(m.streams[p.stream as int]),
        !is_video(m.streams[p.stream as int]),
    ensures
        ({
            let (after, action) = m.next(Outcome::Packet(p));
            let out = kept_before(m.streams, p.stream as int) as usize;
            &&& after == m.with_phase(Phase::Copying)
            &&& action is WritePacket
            &&& out < m.ost_time_bases.len()
            &&& action->WritePacket_0 == (Packet {
                stream: out,
                position: NO_POSITION,
                ..p.rescaled_ts(m.streams[p.stream as int].time_base, m.ost_time_bases[out as int])
            })
            &&& after.next(Outcome::Done) == (m, Action::ReadPacket)
        }),
{
    let i = p.stream as int;
    assert(m.unit_bound(i));
    lemma_kept_before_bounds(m.streams, i);
    lemma_kept_before_monotonic(m.streams, i, m.streams.len() as int);
}

/// The streams are classified and mapped once, when the input is opened;
/// from then on streams and mapping stay as they are. Once the header is
/// written, the output time bases stay as they are, too.
pub proof fn lemma_mapping_is_fixed(m: SessionModel, outcome: Outcome)
    requires
        m.wf(),
        rank(m.phase) >= 1,
    ensures
        m.next(outcome).0.streams == m.streams,
        m.next(outcome).0.mapping == m.mapping,
        m.next(outcome).0.mapping == mapping_of(m.streams),
        rank(m.next(outcome).0.phase) >= rank(m.phase),
        rank(m.phase) >= 5 ==> m.next(outcome).0.ost_time_bases == m.ost_time_bases,
{
    match m.phase {
        Phase::Reading => {
            match outcome {
                Outcome::Packet(p) => {
                    if p.stream < m.mapping.len() && m.units[p.stream as int] is Some {
                        assert(resting(m.units[p.stream as int]));
                    }
                },
                Outcome::EndOfInput => {
                    lemma_begin_flush_keeps_wf(m, 0);
                },
                _ => {},
            }
        },
        Phase::Transcoding(i) => {
            match unit_event(outcome) {
                Some(event) => {
                    lemma_drive_keeps_wf(m, i, event);
                },
                None => {},
            }
        },
        Phase::Flushing(i) => {
            match unit_event(outcome) {
                Some(event) => {
                    lemma_drive_keeps_wf(m, i, event);
                },
                None => {},
            }
        },
        _ => {},
    }
}

/// Packets of one copied stream leave in the order of their timestamps. Of
/// two packets of the stream that are read at any two moments of one
/// session, the second with a presentation time that is not earlier, the
/// second is written to the same output stream with a presentation time that
/// is not earlier, where both bases are valid and both times can be
/// represented in the output base.
pub proof fn lemma_copied_timestamps_ordered(
    m1: SessionModel,
    m2: SessionModel,
    first: Packet,
    second: Packet,
)
    requires
        m1.wf(),
        m2.wf(),
        m1.phase == Phase::Reading,
        m2.phase == Phase::Reading,
        m2.streams == m1.streams,
        m2.ost_time_bases == m1.ost_time_bases,
        first.stream == second.stream,
        first.stream < m1.streams.len(),
        kept(m1.streams[first.stream as int]),
        !is_video(m1.streams[first.stream as int]),
        m1.streams[first.stream as int].time_base.valid(),
        m1.ost_time_base(m1.output_of(first.stream as int)).valid(),
        first.pts is Some,
        second.pts is Some,
        first.pts->Some_0 <= second.pts->Some_0,
    ensures
        ({
            let action1 = m1.next(Outcome::Packet(first)).1;
            let action2 = m2.next(Outcome::Packet(second)).1;
            &&& action1 is WritePacket
            &&& action2 is WritePacket
            &&& action1->WritePacket_0.stream == action2->WritePacket_0.stream
            &&& action1->WritePacket_0.pts is Some && action2->WritePacket_0.pts is Some
                ==> action1->WritePacket_0.pts->Some_0 <= action2->WritePacket_0.pts->Some_0
        }),
{
    let i = first.stream as int;
    assert(m1.unit_bound(i));
    assert(m2.unit_bound(i));
    lemma_copied_packet(m1, first);
    lemma_copied_packet(m2, second);
    crate::packet::lemma_rescale_ts_keeps_order(
        first,
        second,
        m1.streams[i].time_base,
        m1.ost_time_base(m1.output_of(i)),
    );
}

/// A failure ends the session at once: whatever call fails, the session
/// aborts with the kind of error that the phase gives, and from then on it
/// answers every outcome with the same abort.
pub proof fn lemma_failure_aborts(m: SessionModel, outcome: Outcome)
    requires
        m.wf(),
        m.phase != Phase::Done,
    ensures
        ({
            let (after, action) = m.next(Outcome::Failed);
            &&& after.phase is Failed
            &&& action == Action::Abort(after.phase->Failed_0)
            &&& after.next(outcome) == (after, action)
            &&& !(m.phase is Failed) ==> after.phase->Failed_0 == match m.phase {
                Phase::OpeningEncoder(_) => ErrorKind::Negotiation,
                Phase::Reading | Phase::Copying | Phase::Transcoding(_) | Phase::Flushing(_)
                | Phase::WritingTrailer => ErrorKind::Streaming,
                _ => ErrorKind::Setup,
            }
        }),
{
    match m.phase {
        Phase::Transcoding(i) => {
            assert(m.unit_bound(i as int));
        },
        Phase::Flushing(i) => {
            assert(m.unit_bound(i as int));
        },
        _ => {},
    }
}

/// A session that is done stays done and asks for nothing more.
pub proof fn lemma_done_is_final(m: SessionModel, outcome: Outcome)
    requires
        m.phase == Phase::Done,
    ensures
        m.next(outcome) == (m, Action::Finish),
{
}

/// Once the trailer is asked for, no unit is called again and nothing more
/// is read or written: the only answers left are the end of the session and
/// its failure.
pub proof fn lemma_nothing_after_trailer(m: SessionModel, outcome: Outcome)
    requires
        m.phase == Phase::WritingTrailer || m.phase == Phase::Done,
    ensures
        ({
            let (after, action) = m.next(outcome);
            &&& action == Action::Finish || action is Abort
            &&& after.phase == Phase::Done || after.phase is Failed
            &&& after.units == m.units
        }),
{
}

/// Once the output streams are added there is exactly one unit for each
/// video stream, bound to it, and none for any other stream.
pub proof fn lemma_one_unit_per_video_stream(m: SessionModel, i: int)
    requires
        m.wf(),
        3 <= rank(m.phase) <= 8,
        0 <= i < m.streams.len(),
    ensures
        m.units.len() == m.streams.len(),
        m.units[i] is Some <==> is_video(m.streams[i]),
        m.units[i] is Some ==> m.units[i]->Some_0.ist_index == i && m.mapping[i] == Slot::Output(
            m.units[i]->Some_0.ost_index,
        ),
{
    assert(m.unit_bound(i));
    if is_video(m.streams[i]) {
        assert(m.units[i] is Some);
    }
}

/// Each unit owns its streams: no two units read the same input stream or
/// write the same output stream, and at most one unit, that of the best
/// video stream, prints progress lines.
pub proof fn lemma_units_share_nothing(m: SessionModel, i: int, j: int)
    requires
        m.wf(),
        0 <= i < j < m.units.len(),
        m.units[i] is Some,
        m.units[j] is Some,
    ensures
        m.units[i]->Some_0.ist_index == i,
        m.units[j]->Some_0.ist_index == j,
        m.units[i]->Some_0.ost_index < m.units[j]->Some_0.ost_index,
        !(m.units[i]->Some_0.progress.enabled && m.units[j]->Some_0.progress.enabled),
{
    assert(m.unit_bound(i));
    assert(m.unit_bound(j));
    crate::streams::lemma_output_indices_dense(m.streams);
}

/// `outcome` is what a driver can report after `action` when the call did
/// not fail: the streams of the input in the order of their indices, one time
/// base for each output stream, and otherwise an outcome of the kind that
/// the call has.
pub open spec fn answers(m: SessionModel, action: Action, outcome: Outcome) -> bool {
    match action {
        Action::OpenInput => outcome is InputOpened && indexed(outcome->InputOpened_streams@),
        Action::OpenOutput => outcome is OutputOpened,
        Action::OpenDecoder { .. } => outcome is DecoderOpened,
        Action::OpenEncoder { .. } => outcome is EncoderOpened,
        Action::WriteHeader => outcome is HeaderWritten && outcome->HeaderWritten_time_bases@.len()
            == kept_count(m.streams),
        Action::ReadPacket => outcome is Packet || outcome is EndOfInput,
        Action::ReceiveFrame { .. } => outcome is Decoded || outcome is NoFrame,
        Action::ReceivePacket { .. } => outcome is Encoded || outcome is NoPacket,
        Action::Finish => false,
        Action::Abort(_) => false,
        _ => outcome is Done,
    }
}

/// `action` is the call that the session waits for.
pub open spec fn expecting(m: SessionModel, action: Action) -> bool {
    match m.phase {
        Phase::OpeningInput => action == Action::OpenInput,
        Phase::OpeningOutput => action == Action::OpenOutput,
        Phase::OpeningDecoder(i) => action == (Action::OpenDecoder { input: i }),
        Phase::OpeningEncoder(i) => action is OpenEncoder && action->OpenEncoder_input == i,
        Phase::AddingCopy(i) => action is AddCopyStream && action->AddCopyStream_input == i,
        Phase::CopyingMetadata => action == Action::CopyMetadata,
        Phase::WritingHeader => action == Action::WriteHeader,
        Phase::Reading => action == Action::ReadPacket,
        Phase::Copying => action is WritePacket,
        Phase::Transcoding(i) => unit_expecting(m, i, action),
        Phase::Flushing(i) => unit_expecting(m, i, action),
        Phase::WritingTrailer => action == Action::WriteTrailer,
        Phase::Done => action == Action::Finish,
        Phase::Failed(kind) => action == Action::Abort(kind),
    }
}

/// `action` is the call that the unit of input stream `i` waits for.
pub open spec fn unit_expecting(m: SessionModel, i: usize, action: Action) -> bool {
    let state = m.units[i as int]->Some_0.state;
    match action {
        Action::SendPacket { input, .. } => input == i && state == UnitState::Feeding,
        Action::ReceiveFrame { input } => input == i && state == UnitState::PullingFrame,
        Action::SendFrame { input, .. } => input == i && state == UnitState::PushingFrame,
        Action::ReceivePacket { input } => input == i && state == UnitState::PullingPacket,
        Action::WritePacket(_) => state == UnitState::Writing,
        Action::SendEofToDecoder { input } => input == i && state == UnitState::EndingDecoder,
        Action::SendEofToEncoder { input } => input == i && state == UnitState::EndingEncoder,
        _ => false,
    }
}

/// No unit has counted more than `n` frames.
pub open spec fn frames_within(m: SessionModel, n: nat) -> bool {
    forall|j: int|
        0 <= j < m.units.len() && (#[trigger] m.units[j]) is Some ==> m.units[j]->Some_0.frame_count
            <= n
}

proof fn lemma_unit_turn_answered(m: SessionModel, action: Action, outcome: Outcome, n: nat)
    requires
        m.wf(),
        m.phase is Transcoding || m.phase is Flushing,
        expecting(m, action),
        answers(m, action, outcome),
        frames_within(m, n),
        n < u64::MAX,
    ensures
        expecting(m.next(outcome).0, m.next(outcome).1),
        !(m.next(outcome).0.phase is Failed),
        frames_within(m.next(outcome).0, n + 1),
{
    let i = match m.phase {
        Phase::Transcoding(i) => i,
        Phase::Flushing(i) => i,
        _ => 0,
    };
    let (after, next) = m.next(outcome);
    let unit = m.units[i as int]->Some_0;
    let event = unit_event(outcome)->Some_0;
    let tb = m.ost_time_base(unit.ost_index);
    let (unit2, answer) = unit.step_spec(event, tb);
    assert(m.unit_bound(i as int));
    lemma_drive_keeps_wf(m, i, event);
    crate::transcoder::lemma_frame_forwarded_once(unit, event, tb);
    let moved = SessionModel { units: m.units.update(i as int, Some(unit2)), ..m };
    if answer == UnitAction::Finished && m.phase is Flushing {
        lemma_next_unit(moved.units, i + 1);
        let k = next_unit(moved.units, i + 1);
        if k < moved.units.len() {
            assert(resting(m.units[k]));
        }
        assert forall|j: int| 0 <= j < after.units.len() && (#[trigger] after.units[j])
            is Some implies after.units[j]->Some_0.frame_count <= n + 1 by {
            if j != k {
                if j != i {
                    assert(m.units[j] is Some);
                }
            } else {
                assert(m.units[k] is Some);
            }
        }
    } else {
        assert forall|j: int| 0 <= j < after.units.len() && (#[trigger] after.units[j])
            is Some implies after.units[j]->Some_0.frame_count <= n + 1 by {
            if j != i {
                assert(m.units[j] is Some);
            }
        }
    }
}

proof fn lemma_reading_answered(m: SessionModel, action: Action, outcome: Outcome, n: nat)
    requires
        m.wf(),
        m.phase == Phase::Reading,
        expecting(m, action),
        answers(m, action, outcome),
        frames_within(m, n),
    ensures
        expecting(m.next(outcome).0, m.next(outcome).1),
        !(m.next(outcome).0.phase is Failed),
        frames_within(m.next(outcome).0, n + 1),
{
    let (after, next) = m.next(outcome);
    lemma_next_keeps_wf(m, outcome);
    match outcome {
        Outcome::Packet(p) => {
            let i = p.stream;
            if i < m.mapping.len() && !(m.mapping[i as int] is Dropped) && m.units[i as int]
                is Some {
                assert(resting(m.units[i as int]));
                assert forall|j: int| 0 <= j < after.units.len() && (#[trigger] after.units[j])
                    is Some implies after.units[j]->Some_0.frame_count <= n + 1 by {
                    if j != i {
                        assert(m.units[j] is Some);
                    }
                }
            } else {
                assert forall|j: int| 0 <= j < after.units.len() && (#[trigger] after.units[j])
                    is Some implies after.units[j]->Some_0.frame_count <= n + 1 by {
                    assert(m.units[j] is Some);
                }
            }
        },
        Outcome::EndOfInput => {
            lemma_begin_flush_keeps_wf(m, 0);
            lemma_next_unit(m.units, 0);
            let k = next_unit(m.units, 0);
            if k < m.units.len() {
                assert(resting(m.units[k]));
            }
            assert forall|j: int| 0 <= j < after.units.len() && (#[trigger] after.units[j])
                is Some implies after.units[j]->Some_0.frame_count <= n + 1 by {
                assert(m.units[j] is Some);
            }
        },
        _ => {},
    }
}

proof fn lemma_setup_answered(m: SessionModel, action: Action, outcome: Outcome, n: nat)
    requires
        m.wf(),
        rank(m.phase) <= 4 || m.phase == Phase::Copying || rank(m.phase) >= 7,
        expecting(m, action),
        answers(m, action, outcome),
        frames_within(m, n),
    ensures
        expecting(m.next(outcome).0, m.next(outcome).1),
        !(m.next(outcome).0.phase is Failed),
        frames_within(m.next(outcome).0, n + 1),
{
    let (after, next) = m.next(outcome);
    lemma_next_keeps_wf(m, outcome);
    assert forall|j: int| 0 <= j < after.units.len() && (#[trigger] after.units[j])
        is Some implies after.units[j]->Some_0.frame_count <= n + 1 by {
        if m.phase is OpeningEncoder && j == m.phase->OpeningEncoder_0 {
        } else if m.phase == Phase::OpeningInput {
        } else {
            assert(m.units[j] is Some);
        }
    }
}

/// A step that is answered in turn does not fail: where the driver reports
/// the outcome of the call that the session waits for, and no call fails,
/// the session goes on and waits for the call that it asks for next.
pub proof fn lemma_step_answered(m: SessionModel, action: Action, outcome: Outcome, n: nat)
    requires
        m.wf(),
        expecting(m, action),
        answers(m, action, outcome),
        frames_within(m, n),
        n < u64::MAX,
    ensures
        expecting(m.next(outcome).0, m.next(outcome).1),
        !(m.next(outcome).0.phase is Failed),
        frames_within(m.next(outcome).0, n + 1),
{
    match m.phase {
        Phase::Reading => lemma_reading_answered(m, action, outcome, n),
        Phase::Transcoding(_) | Phase::Flushing(_) => lemma_unit_turn_answered(
            m,
            action,
            outcome,
            n,
        ),
        _ => lemma_setup_answered(m, action, outcome, n),
    }
}

/// The outcomes of a run in which the first answers the opening of the
/// input and every later one answers the call before it.
pub open spec fn in_turn(codec: AtoolCodecType, outcomes: Seq<Outcome>) -> bool
    decreases outcomes.len(),
{
    if outcomes.len() == 0 {
        true
    } else {
        let earlier = outcomes.drop_last();
        let (before, actions) = run(SessionModel::initial(codec), earlier);
        &&& in_turn(codec, earlier)
        &&& answers(
            before,
            if earlier.len() == 0 {
                Action::OpenInput
            } else {
                actions.last()
            },
            outcomes.last(),
        )
    }
}

/// A session fails only where a call fails. In a run in which every outcome
/// answers the call before it, the session never aborts; and once it answers
/// that it is finished, every kept stream has got its output stream, header
/// and trailer are written once each, and every unit is flushed.
pub proof fn lemma_session_completes(codec: AtoolCodecType, outcomes: Seq<Outcome>)
    requires
        in_turn(codec, outcomes),
        0 < outcomes.len() < u64::MAX,
    ensures
        ({
            let (m, actions) = run(SessionModel::initial(codec), outcomes);
            &&& actions.len() == outcomes.len()
            &&& !(m.phase is Failed)
            &&& !(actions.last() is Abort)
            &&& expecting(m, actions.last())
            &&& frames_within(m, outcomes.len())
            &&& actions.last() == Action::Finish ==> {
                &&& m.phase == Phase::Done
                &&& streams_added(actions) == kept_count(m.streams)
                &&& headers_written(actions) == 1
                &&& trailers_written(actions) == 1
                &&& m.all_flushed()
            }
        }),
    decreases outcomes.len(),
{
    let start = SessionModel::initial(codec);
    let earlier = outcomes.drop_last();
    let (before, actions) = run(start, earlier);
    lemma_run_on_track(codec, outcomes);
    lemma_run_on_track(codec, earlier);
    lemma_on_track_counts(run(start, outcomes).0, run(start, outcomes).1);
    if earlier.len() == 0 {
        lemma_initial_wf(codec);
        lemma_step_answered(start, Action::OpenInput, outcomes.last(), 0);
    } else {
        lemma_session_completes(codec, earlier);
        lemma_step_answered(before, actions.last(), outcomes.last(), earlier.len());
    }
}

} // verus!
