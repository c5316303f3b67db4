use std::collections::VecDeque;

use atool::codec::AtoolCodecType;
use atool::codec::CodecId;
use atool::packet::Packet;
use atool::packet::NO_POSITION;
use atool::session::Action;
use atool::session::ErrorKind;
use atool::session::Outcome;
use atool::session::Phase;
use atool::session::Session;
use atool::streams::CodecParameters;
use atool::streams::MediaKind;
use atool::streams::Slot;
use atool::streams::StreamDescriptor;
use atool::timebase::Rational;
use atool::transcoder::DecoderInfo;
use atool::transcoder::FrameInfo;
use atool::transcoder::PictureType;
use atool::transcoder::UnitState;

fn stream(index: usize, kind: MediaKind, tag: u32) -> StreamDescriptor {
    StreamDescriptor {
        index,
        parameters: CodecParameters { kind, codec_id: 100 + index as u32, codec_tag: tag },
        time_base: Rational::new(1, 1000),
        frame_rate: Rational::new(25, 1),
    }
}

/// A codec stage that holds back `delay` items until it is told the end.
struct Held {
    items: VecDeque<Option<i64>>,
    delay: usize,
    ended: bool,
}

impl Held {
    fn new(delay: usize) -> Held {
        Held { items: VecDeque::new(), delay, ended: false }
    }

    fn pull(&mut self) -> Option<Option<i64>> {
        if self.items.len() > self.delay || (self.ended && !self.items.is_empty()) {
            self.items.pop_front()
        } else {
            None
        }
    }
}

/// An engine that plays back a list of packets.
struct Engine {
    streams: Vec<StreamDescriptor>,
    best_video: Option<usize>,
    input: VecDeque<Packet>,
    decoders: Vec<Held>,
    encoders: Vec<Held>,
    added: Vec<Action>,
    header_bases: Vec<Rational>,
    written: Vec<Packet>,
    calls: Vec<Action>,
    clock: u64,
    corrupt: bool,
}

impl Engine {
    fn new(streams: Vec<StreamDescriptor>, input: Vec<Packet>) -> Engine {
        let n = streams.len();
        let best_video =
            streams.iter().position(|s| s.parameters.kind == MediaKind::Video);
        Engine {
            streams,
            best_video,
            input: input.into_iter().collect(),
            decoders: (0..n).map(|_| Held::new(2)).collect(),
            encoders: (0..n).map(|_| Held::new(1)).collect(),
            added: Vec::new(),
            header_bases: Vec::new(),
            written: Vec::new(),
            calls: Vec::new(),
            clock: 0,
            corrupt: false,
        }
    }

    fn perform(&mut self, action: Action) -> Outcome {
        self.calls.push(action);
        match action {
            Action::OpenInput => {
                if self.corrupt {
                    return Outcome::Failed;
                }
                Outcome::InputOpened { streams: self.streams.clone(), best_video: self.best_video }
            }
            Action::OpenOutput => Outcome::OutputOpened { global_header: true },
            Action::OpenDecoder { .. } => Outcome::DecoderOpened(DecoderInfo {
                width: 640,
                height: 360,
                aspect_ratio: Rational::new(1, 1),
                format: 0,
                time_base: Rational::new(1, 25),
            }),
            Action::OpenEncoder { .. } => {
                self.added.push(action);
                Outcome::EncoderOpened { now: self.clock }
            }
            Action::AddCopyStream { .. } => {
                self.added.push(action);
                Outcome::Done
            }
            Action::CopyMetadata => Outcome::Done,
            Action::WriteHeader => {
                // the muxer settles on its own time bases
                self.header_bases =
                    (0..self.added.len()).map(|k| Rational::new(1, 10000 * (k as i32 + 1))).collect();
                Outcome::HeaderWritten { time_bases: self.header_bases.clone() }
            }
            Action::ReadPacket => match self.input.pop_front() {
                Some(p) => Outcome::Packet(p),
                None => Outcome::EndOfInput,
            },
            Action::SendPacket { input, packet } => {
                self.decoders[input].items.push_back(packet.pts);
                Outcome::Done
            }
            Action::ReceiveFrame { input } => match self.decoders[input].pull() {
                Some(timestamp) => {
                    self.clock += 40_000;
                    Outcome::Decoded {
                        frame: FrameInfo { timestamp, picture_type: PictureType::I },
                        now: self.clock,
                    }
                }
                None => Outcome::NoFrame,
            },
            Action::SendFrame { input, frame, .. } => {
                self.encoders[input].items.push_back(frame.timestamp);
                Outcome::Done
            }
            Action::ReceivePacket { input } => match self.encoders[input].pull() {
                Some(pts) => Outcome::Encoded(Packet {
                    stream: 0,
                    pts,
                    dts: pts,
                    duration: 1,
                    position: NO_POSITION,
                }),
                None => Outcome::NoPacket,
            },
            Action::WritePacket(p) => {
                self.written.push(p);
                Outcome::Done
            }
            Action::SendEofToDecoder { input } => {
                self.decoders[input].ended = true;
                Outcome::Done
            }
            Action::SendEofToEncoder { input } => {
                self.encoders[input].ended = true;
                Outcome::Done
            }
            Action::WriteTrailer => Outcome::Done,
            Action::Finish | Action::Abort(_) => Outcome::Done,
        }
    }

    /// Runs a whole session and returns it with its last answer.
    fn convert(&mut self, codec: AtoolCodecType) -> (Session, Action) {
        let (mut session, mut action) = Session::begin(codec);
        loop {
            match action {
                Action::Finish | Action::Abort(_) => {
                    self.calls.push(action);
                    return (session, action);
                }
                _ => {}
            }
            let outcome = self.perform(action);
            let (s, a) = session.step(outcome);
            session = s;
            action = a;
        }
    }

    fn count(&self, wanted: Action) -> usize {
        self.calls.iter().filter(|a| **a == wanted).count()
    }

    fn position(&self, wanted: Action) -> usize {
        self.calls.iter().position(|a| *a == wanted).unwrap()
    }
}

fn packet(stream: usize, ms: i64) -> Packet {
    Packet { stream, pts: Some(ms), dts: Some(ms), duration: 40, position: 4096 + ms }
}

/// data, video, audio, data, subtitle; ten packets each for the kept streams
/// and some for the dropped ones.
fn movie() -> Engine {
    let streams = vec![
        stream(0, MediaKind::Other, 11),
        stream(1, MediaKind::Video, 0x31637661),
        stream(2, MediaKind::Audio, 0x6134706d),
        stream(3, MediaKind::Other, 12),
        stream(4, MediaKind::Subtitle, 0x67337874),
    ];
    let mut input = Vec::new();
    for n in 0..10 {
        input.push(packet(0, n * 40));
        input.push(packet(1, n * 40));
        input.push(packet(2, n * 40));
        input.push(packet(4, n * 40));
        input.push(packet(3, n * 40));
    }
    Engine::new(streams, input)
}

#[test]
fn a_session_runs_to_its_end() {
    let mut engine = movie();
    let (session, last) = engine.convert(AtoolCodecType::X264);
    assert_eq!(last, Action::Finish);
    assert_eq!(session.phase(), Phase::Done);
    assert_eq!(engine.calls[0], Action::OpenInput);
    assert_eq!(engine.calls[1], Action::OpenOutput);
    assert_eq!(*engine.calls.last().unwrap(), Action::Finish);
    assert_eq!(engine.calls[engine.calls.len() - 2], Action::WriteTrailer);
}

#[test]
fn output_streams_are_as_many_as_kept_inputs() {
    let mut engine = movie();
    let (session, _) = engine.convert(AtoolCodecType::X264);
    assert_eq!(engine.added.len(), 3);
    assert_eq!(session.output_count(), 3);
    assert_eq!(session.output_count(), engine.streams.len() - 2);
    assert_eq!(session.slot(0), Slot::Dropped);
    assert_eq!(session.slot(1), Slot::Output(0));
    assert_eq!(session.slot(2), Slot::Output(1));
    assert_eq!(session.slot(3), Slot::Dropped);
    assert_eq!(session.slot(4), Slot::Output(2));
    assert_eq!(session.slot(5), Slot::Dropped);
}

#[test]
fn output_streams_are_added_in_order_without_gaps() {
    let mut engine = movie();
    engine.convert(AtoolCodecType::X264);
    let outputs: Vec<usize> = engine
        .added
        .iter()
        .map(|a| match a {
            Action::OpenEncoder { output, .. } => *output,
            Action::AddCopyStream { output, .. } => *output,
            _ => unreachable!(),
        })
        .collect();
    assert_eq!(outputs, vec![0, 1, 2]);
    let inputs: Vec<usize> = engine
        .added
        .iter()
        .map(|a| match a {
            Action::OpenEncoder { input, .. } => *input,
            Action::AddCopyStream { input, .. } => *input,
            _ => unreachable!(),
        })
        .collect();
    assert_eq!(inputs, vec![1, 2, 4]);
}

#[test]
fn copied_streams_have_codec_tag_zero() {
    let mut engine = movie();
    engine.convert(AtoolCodecType::X264);
    assert_eq!(
        engine.added[1],
        Action::AddCopyStream {
            input: 2,
            output: 1,
            parameters: CodecParameters { kind: MediaKind::Audio, codec_id: 102, codec_tag: 0 },
        }
    );
    assert_eq!(
        engine.added[2],
        Action::AddCopyStream {
            input: 4,
            output: 2,
            parameters: CodecParameters { kind: MediaKind::Subtitle, codec_id: 104, codec_tag: 0 },
        }
    );
}

#[test]
fn video_streams_get_a_matching_encoder() {
    let mut engine = movie();
    let (session, _) = engine.convert(AtoolCodecType::VP9);
    match engine.added[0] {
        Action::OpenEncoder { input, output, settings } => {
            assert_eq!(input, 1);
            assert_eq!(output, 0);
            assert_eq!(settings.codec, CodecId::VP9);
            assert_eq!(settings.width, 640);
            assert_eq!(settings.height, 360);
            assert_eq!(settings.frame_rate, Some(Rational::new(25, 1)));
            assert_eq!(settings.time_base, Rational::new(1, 25));
            assert!(settings.global_header);
        }
        _ => unreachable!(),
    }
    let unit = session.unit(1).unwrap();
    assert_eq!(unit.ist_index, 1);
    assert_eq!(unit.ost_index, 0);
    assert!(unit.progress.enabled);
    assert_eq!(session.unit(2), None);
    assert_eq!(session.unit(9), None);
}

#[test]
fn header_and_trailer_are_written_once_and_in_order() {
    let mut engine = movie();
    engine.convert(AtoolCodecType::X264);
    assert_eq!(engine.count(Action::WriteHeader), 1);
    assert_eq!(engine.count(Action::WriteTrailer), 1);
    assert_eq!(engine.count(Action::CopyMetadata), 1);
    let header = engine.position(Action::WriteHeader);
    let trailer = engine.position(Action::WriteTrailer);
    assert!(engine.position(Action::CopyMetadata) < header);
    for (i, call) in engine.calls.iter().enumerate() {
        match call {
            Action::OpenEncoder { .. } | Action::AddCopyStream { .. } | Action::OpenDecoder { .. } => {
                assert!(i < header)
            }
            Action::WritePacket(_) | Action::ReadPacket => assert!(header < i && i < trailer),
            Action::SendEofToDecoder { .. } | Action::SendEofToEncoder { .. } => {
                assert!(header < i && i < trailer)
            }
            _ => {}
        }
    }
}

#[test]
fn every_kept_packet_is_written_and_no_other() {
    let mut engine = movie();
    let (session, _) = engine.convert(AtoolCodecType::X264);
    for out in 0..3 {
        assert_eq!(engine.written.iter().filter(|p| p.stream == out).count(), 10);
    }
    assert_eq!(engine.written.len(), 30);
    let unit = session.unit(1).unwrap();
    assert_eq!(unit.frame_count, 10);
    assert_eq!(unit.state, UnitState::Closed);
}

#[test]
fn copied_packets_are_rescaled_to_the_header_bases() {
    let mut engine = movie();
    engine.convert(AtoolCodecType::X264);
    // audio: input base 1/1000, output stream 1 with base 1/20000
    let audio: Vec<Packet> = engine.written.iter().filter(|p| p.stream == 1).cloned().collect();
    assert_eq!(
        audio[3],
        Packet {
            stream: 1,
            pts: Some(2400),
            dts: Some(2400),
            duration: 800,
            position: NO_POSITION,
        }
    );
    // subtitles: output stream 2 with base 1/30000
    let subs: Vec<Packet> = engine.written.iter().filter(|p| p.stream == 2).cloned().collect();
    assert_eq!(subs[1].pts, Some(1200));
    assert_eq!(subs[1].position, NO_POSITION);
}

#[test]
fn transcoded_packets_are_rescaled_from_the_decoder_base() {
    let mut engine = movie();
    engine.convert(AtoolCodecType::X264);
    // video: input 1/1000 -> decoder 1/25 -> output stream 0 with base 1/10000
    let video: Vec<Option<i64>> =
        engine.written.iter().filter(|p| p.stream == 0).map(|p| p.pts).collect();
    assert_eq!(video, (0..10).map(|n| Some(n * 400)).collect::<Vec<_>>());
}

#[test]
fn written_timestamps_do_not_decrease() {
    let mut engine = movie();
    engine.convert(AtoolCodecType::X264);
    for out in 0..3 {
        let pts: Vec<i64> =
            engine.written.iter().filter(|p| p.stream == out).map(|p| p.pts.unwrap()).collect();
        for pair in pts.windows(2) {
            assert!(pair[0] <= pair[1]);
        }
    }
}

#[test]
fn every_unit_is_flushed_before_the_trailer() {
    let streams = vec![
        stream(0, MediaKind::Video, 1),
        stream(1, MediaKind::Audio, 2),
        stream(2, MediaKind::Video, 3),
    ];
    let mut input = Vec::new();
    for n in 0..6 {
        input.push(packet(0, n * 40));
        input.push(packet(2, n * 40));
        input.push(packet(1, n * 40));
    }
    let mut engine = Engine::new(streams, input);
    let (session, last) = engine.convert(AtoolCodecType::AV1);
    assert_eq!(last, Action::Finish);
    let trailer = engine.position(Action::WriteTrailer);
    for unit in [0usize, 2] {
        let eof_decoder = engine.position(Action::SendEofToDecoder { input: unit });
        let eof_encoder = engine.position(Action::SendEofToEncoder { input: unit });
        assert!(eof_decoder < eof_encoder);
        assert!(eof_encoder < trailer);
        assert_eq!(engine.count(Action::SendEofToDecoder { input: unit }), 1);
        assert_eq!(engine.count(Action::SendEofToEncoder { input: unit }), 1);
        assert_eq!(session.unit(unit).unwrap().state, UnitState::Closed);
        assert_eq!(session.unit(unit).unwrap().frame_count, 6);
    }
    // only the best video stream logs
    assert!(session.unit(0).unwrap().progress.enabled);
    assert!(!session.unit(2).unwrap().progress.enabled);
    assert_eq!(engine.written.len(), 18);
}

#[test]
fn an_input_without_kept_streams_still_gets_header_and_trailer() {
    let streams = vec![stream(0, MediaKind::Other, 1)];
    let mut engine = Engine::new(streams, vec![packet(0, 0), packet(0, 40)]);
    let (session, last) = engine.convert(AtoolCodecType::X264);
    assert_eq!(last, Action::Finish);
    assert_eq!(session.output_count(), 0);
    assert_eq!(
        engine.calls,
        vec![
            Action::OpenInput,
            Action::OpenOutput,
            Action::CopyMetadata,
            Action::WriteHeader,
            Action::ReadPacket,
            Action::ReadPacket,
            Action::ReadPacket,
            Action::WriteTrailer,
            Action::Finish,
        ]
    );
}

#[test]
fn a_packet_of_an_unknown_stream_is_skipped() {
    let streams = vec![stream(0, MediaKind::Audio, 1)];
    let mut engine = Engine::new(streams, vec![packet(5, 0), packet(0, 40)]);
    let (_, last) = engine.convert(AtoolCodecType::X264);
    assert_eq!(last, Action::Finish);
    assert_eq!(engine.written.len(), 1);
}

#[test]
fn a_batch_goes_on_after_a_malformed_input() {
    let mut first = movie();
    let mut second = movie();
    second.corrupt = true;
    let mut third = movie();
    let results = [
        first.convert(AtoolCodecType::X264).1,
        second.convert(AtoolCodecType::X264).1,
        third.convert(AtoolCodecType::X264).1,
    ];
    assert_eq!(results, [Action::Finish, Action::Abort(ErrorKind::Setup), Action::Finish]);
    assert_eq!(first.written.len(), 30);
    assert_eq!(second.written.len(), 0);
    assert_eq!(third.written.len(), 30);
    assert_eq!(first.written, third.written);
    assert_eq!(second.count(Action::WriteHeader), 0);
}

fn run_until(engine: &mut Engine, stop: fn(&Action) -> bool) -> (Session, Action) {
    let (mut session, mut action) = Session::begin(AtoolCodecType::X264);
    while !stop(&action) {
        let outcome = engine.perform(action);
        let (s, a) = session.step(outcome);
        session = s;
        action = a;
    }
    (session, action)
}

#[test]
fn failures_are_named_by_the_phase() {
    let cases: [(fn(&Action) -> bool, ErrorKind); 9] = [
        (|a| *a == Action::OpenInput, ErrorKind::Setup),
        (|a| *a == Action::OpenOutput, ErrorKind::Setup),
        (|a| matches!(a, Action::OpenDecoder { .. }), ErrorKind::Setup),
        (|a| matches!(a, Action::OpenEncoder { .. }), ErrorKind::Negotiation),
        (|a| matches!(a, Action::AddCopyStream { .. }), ErrorKind::Setup),
        (|a| *a == Action::WriteHeader, ErrorKind::Setup),
        (|a| matches!(a, Action::SendPacket { .. }), ErrorKind::Streaming),
        (|a| matches!(a, Action::WritePacket(_)), ErrorKind::Streaming),
        (|a| *a == Action::WriteTrailer, ErrorKind::Streaming),
    ];
    for (stop, kind) in cases {
        let mut engine = movie();
        let (session, _) = run_until(&mut engine, stop);
        let (session, action) = session.step(Outcome::Failed);
        assert_eq!(action, Action::Abort(kind));
        assert_eq!(session.phase(), Phase::Failed(kind));
        let (session, action) = session.step(Outcome::Done);
        assert_eq!(action, Action::Abort(kind));
        assert_eq!(session.phase(), Phase::Failed(kind));
    }
}

#[test]
fn an_outcome_that_was_not_asked_for_fails_the_session() {
    let (session, action) = Session::begin(AtoolCodecType::X264);
    assert_eq!(action, Action::OpenInput);
    assert_eq!(session.phase(), Phase::OpeningInput);
    let (session, action) = session.step(Outcome::Done);
    assert_eq!(action, Action::Abort(ErrorKind::Protocol));
    assert_eq!(session.phase(), Phase::Failed(ErrorKind::Protocol));
}

#[test]
fn a_header_with_the_wrong_number_of_bases_fails_the_session() {
    let mut engine = movie();
    let (session, _) = run_until(&mut engine, |a| *a == Action::WriteHeader);
    let (_, action) =
        session.step(Outcome::HeaderWritten { time_bases: vec![Rational::new(1, 1000)] });
    assert_eq!(action, Action::Abort(ErrorKind::Protocol));
}

#[test]
fn a_finished_session_stays_finished() {
    let mut engine = movie();
    let (session, _) = engine.convert(AtoolCodecType::X264);
    let (session, action) = session.step(Outcome::Failed);
    assert_eq!(action, Action::Finish);
    assert_eq!(session.phase(), Phase::Done);
}

#[test]
fn streams_out_of_order_fail_the_session() {
    let (session, _) = Session::begin(AtoolCodecType::X264);
    let streams = vec![stream(1, MediaKind::Video, 0), stream(0, MediaKind::Audio, 0)];
    let (session, action) = session.step(Outcome::InputOpened { streams, best_video: Some(0) });
    assert_eq!(action, Action::Abort(ErrorKind::Protocol));
    assert_eq!(session.phase(), Phase::Failed(ErrorKind::Protocol));
}

#[test]
fn a_best_stream_that_is_no_video_stream_logs_nowhere() {
    let streams = vec![stream(0, MediaKind::Audio, 0), stream(1, MediaKind::Video, 0)];
    let mut engine = Engine::new(streams, vec![packet(1, 0)]);
    engine.best_video = Some(0);
    let (session, last) = engine.convert(AtoolCodecType::VP8);
    assert_eq!(last, Action::Finish);
    assert!(!session.unit(1).unwrap().progress.enabled);
}
