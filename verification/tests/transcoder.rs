use std::collections::VecDeque;

use atool::codec::AtoolCodecType;
use atool::codec::CodecId;
use atool::packet::Packet;
use atool::packet::NO_POSITION;
use atool::timebase::Rational;
use atool::transcoder::DecoderInfo;
use atool::transcoder::EncoderSettings;
use atool::transcoder::FrameInfo;
use atool::transcoder::PictureType;
use atool::transcoder::Stage;
use atool::transcoder::TranscoderUnit;
use atool::transcoder::UnitAction;
use atool::transcoder::UnitEvent;
use atool::transcoder::UnitState;

const IST_TB: Rational = Rational { num: 1, den: 1000 };
const DEC_TB: Rational = Rational { num: 1, den: 25 };
const OST_TB: Rational = Rational { num: 1, den: 12800 };

/// A codec stage that holds back `delay` items until it is told the end.
struct Stage0 {
    held: VecDeque<Option<i64>>,
    delay: usize,
    ended: bool,
}

impl Stage0 {
    fn new(delay: usize) -> Stage0 {
        Stage0 { held: VecDeque::new(), delay, ended: false }
    }

    fn pull(&mut self) -> Option<Option<i64>> {
        if self.held.len() > self.delay || (self.ended && !self.held.is_empty()) {
            self.held.pop_front()
        } else {
            None
        }
    }
}

struct Rig {
    unit: TranscoderUnit,
    decoder: Stage0,
    encoder: Stage0,
    frames_sent: Vec<FrameInfo>,
    written: Vec<Packet>,
    lines: usize,
    calls: Vec<UnitAction>,
    clock: u64,
}

impl Rig {
    fn new(decoder_delay: usize, encoder_delay: usize, logging: bool) -> Rig {
        Rig {
            unit: TranscoderUnit::new(2, 1, IST_TB, DEC_TB, logging, 0),
            decoder: Stage0::new(decoder_delay),
            encoder: Stage0::new(encoder_delay),
            frames_sent: Vec::new(),
            written: Vec::new(),
            lines: 0,
            calls: Vec::new(),
            clock: 0,
        }
    }

    /// Hands `event` to the unit and performs its calls until it yields,
    /// finishes or aborts.
    fn drive(&mut self, event: UnitEvent) -> UnitAction {
        let mut event = event;
        loop {
            let action = self.unit.step(event, OST_TB);
            self.calls.push(action);
            event = match action {
                UnitAction::SendPacket(p) => {
                    self.decoder.held.push_back(p.pts);
                    UnitEvent::Done
                }
                UnitAction::ReceiveFrame => match self.decoder.pull() {
                    Some(timestamp) => {
                        self.clock += 40_000;
                        UnitEvent::Decoded {
                            frame: FrameInfo { timestamp, picture_type: PictureType::B },
                            now: self.clock,
                        }
                    }
                    None => UnitEvent::NoFrame,
                },
                UnitAction::SendFrame { frame, line } => {
                    self.frames_sent.push(frame);
                    if line.is_some() {
                        self.lines += 1;
                    }
                    self.encoder.held.push_back(frame.timestamp);
                    UnitEvent::Done
                }
                UnitAction::ReceivePacket => match self.encoder.pull() {
                    Some(pts) => UnitEvent::Encoded(Packet {
                        stream: 0,
                        pts,
                        dts: pts,
                        duration: 1,
                        position: NO_POSITION,
                    }),
                    None => UnitEvent::NoPacket,
                },
                UnitAction::WritePacket(p) => {
                    self.written.push(p);
                    UnitEvent::Done
                }
                UnitAction::SendEofToDecoder => {
                    self.decoder.ended = true;
                    UnitEvent::Done
                }
                UnitAction::SendEofToEncoder => {
                    self.encoder.ended = true;
                    UnitEvent::Done
                }
                UnitAction::Yield | UnitAction::Finished | UnitAction::Abort => return action,
            };
        }
    }

    fn feed(&mut self, n: i64) -> UnitAction {
        self.drive(UnitEvent::Packet(Packet {
            stream: 2,
            pts: Some(n * 40),
            dts: Some(n * 40),
            duration: 40,
            position: 1000 * n,
        }))
    }
}

#[test]
fn flush_emits_every_frame_once() {
    let mut rig = Rig::new(3, 2, false);
    for n in 0..10 {
        assert_eq!(rig.feed(n), UnitAction::Yield);
    }
    // the decoder still holds three frames, the encoder two
    assert_eq!(rig.frames_sent.len(), 7);
    assert_eq!(rig.written.len(), 5);
    assert_eq!(rig.drive(UnitEvent::EndOfInput), UnitAction::Finished);
    assert_eq!(rig.frames_sent.len(), 10);
    assert_eq!(rig.written.len(), 10);
    assert_eq!(rig.unit.frame_count, 10);
    assert_eq!(rig.unit.state, UnitState::Closed);
    let pts: Vec<Option<i64>> = rig.frames_sent.iter().map(|f| f.timestamp).collect();
    assert_eq!(pts, (0..10).map(|n| Some(n as i64)).collect::<Vec<_>>());
}

#[test]
fn nothing_comes_after_the_flush() {
    let mut rig = Rig::new(1, 1, false);
    for n in 0..10 {
        rig.feed(n);
    }
    assert_eq!(rig.drive(UnitEvent::EndOfInput), UnitAction::Finished);
    let closed = rig.unit;
    let events = [
        UnitEvent::Done,
        UnitEvent::NoFrame,
        UnitEvent::NoPacket,
        UnitEvent::EndOfInput,
        UnitEvent::Failed,
        UnitEvent::Decoded {
            frame: FrameInfo { timestamp: Some(1), picture_type: PictureType::I },
            now: 1,
        },
        UnitEvent::Encoded(Packet { stream: 0, pts: None, dts: None, duration: 0, position: 0 }),
    ];
    for event in events {
        assert_eq!(rig.unit.step(event, OST_TB), UnitAction::Finished);
        assert_eq!(rig.unit, closed);
    }
    assert_eq!(rig.feed(11), UnitAction::Finished);
    assert_eq!(rig.frames_sent.len(), 10);
    assert_eq!(rig.written.len(), 10);
}

#[test]
fn flush_of_an_idle_unit_emits_nothing() {
    let mut rig = Rig::new(2, 2, false);
    assert_eq!(rig.unit.current_stage(), Stage::Idle);
    assert_eq!(rig.drive(UnitEvent::EndOfInput), UnitAction::Finished);
    assert_eq!(
        rig.calls,
        vec![
            UnitAction::SendEofToDecoder,
            UnitAction::ReceiveFrame,
            UnitAction::SendEofToEncoder,
            UnitAction::ReceivePacket,
            UnitAction::Finished,
        ]
    );
    assert_eq!(rig.unit.frame_count, 0);
    assert_eq!(rig.unit.current_stage(), Stage::Closed);
}

#[test]
fn decoder_is_drained_before_the_encoder_is_ended() {
    let mut rig = Rig::new(2, 2, false);
    for n in 0..4 {
        rig.feed(n);
    }
    rig.calls.clear();
    assert_eq!(rig.drive(UnitEvent::EndOfInput), UnitAction::Finished);
    let eof_decoder = rig.calls.iter().position(|a| *a == UnitAction::SendEofToDecoder).unwrap();
    let eof_encoder = rig.calls.iter().position(|a| *a == UnitAction::SendEofToEncoder).unwrap();
    let last_frame = rig
        .calls
        .iter()
        .rposition(|a| matches!(a, UnitAction::SendFrame { .. }))
        .unwrap();
    let last_pull = rig.calls.iter().rposition(|a| *a == UnitAction::ReceiveFrame).unwrap();
    assert_eq!(eof_decoder, 0);
    assert!(last_frame < eof_encoder);
    assert!(last_pull < eof_encoder);
    assert_eq!(rig.calls.iter().filter(|a| **a == UnitAction::SendEofToDecoder).count(), 1);
    assert_eq!(rig.calls.iter().filter(|a| **a == UnitAction::SendEofToEncoder).count(), 1);
    assert_eq!(*rig.calls.last().unwrap(), UnitAction::Finished);
}

#[test]
fn each_call_follows_the_one_before() {
    let mut unit = TranscoderUnit::new(0, 0, IST_TB, DEC_TB, false, 0);
    let p = Packet { stream: 0, pts: Some(80), dts: None, duration: 40, position: 7 };
    assert_eq!(
        unit.step(UnitEvent::Packet(p), OST_TB),
        UnitAction::SendPacket(Packet { stream: 0, pts: Some(2), dts: None, duration: 1, position: 7 })
    );
    assert_eq!(unit.current_stage(), Stage::Decoding);
    assert_eq!(unit.step(UnitEvent::Done, OST_TB), UnitAction::ReceiveFrame);
    let frame = FrameInfo { timestamp: Some(2), picture_type: PictureType::P };
    assert_eq!(
        unit.step(UnitEvent::Decoded { frame, now: 5 }, OST_TB),
        UnitAction::SendFrame {
            frame: FrameInfo { timestamp: Some(2), picture_type: PictureType::Unspecified },
            line: None,
        }
    );
    assert_eq!(unit.current_stage(), Stage::Encoding);
    assert_eq!(unit.frame_count, 1);
    assert_eq!(unit.step(UnitEvent::Done, OST_TB), UnitAction::ReceivePacket);
    let encoded = Packet { stream: 0, pts: Some(2), dts: Some(1), duration: 1, position: NO_POSITION };
    assert_eq!(
        unit.step(UnitEvent::Encoded(encoded), OST_TB),
        UnitAction::WritePacket(Packet {
            stream: 0,
            pts: Some(1024),
            dts: Some(512),
            duration: 512,
            position: NO_POSITION,
        })
    );
    assert_eq!(unit.step(UnitEvent::Done, OST_TB), UnitAction::ReceivePacket);
    assert_eq!(unit.step(UnitEvent::NoPacket, OST_TB), UnitAction::ReceiveFrame);
    assert_eq!(unit.step(UnitEvent::NoFrame, OST_TB), UnitAction::Yield);
    assert_eq!(unit.state, UnitState::Ready);
    assert_eq!(unit.current_stage(), Stage::Decoding);
}

#[test]
fn encoded_packets_get_the_output_stream_and_base() {
    let mut unit = TranscoderUnit::new(4, 3, IST_TB, DEC_TB, false, 0);
    unit.state = UnitState::PullingPacket;
    let encoded = Packet { stream: 0, pts: Some(3), dts: None, duration: 0, position: 99 };
    assert_eq!(
        unit.step(UnitEvent::Encoded(encoded), Rational::new(1, 90000)),
        UnitAction::WritePacket(Packet {
            stream: 3,
            pts: Some(10800),
            dts: None,
            duration: 0,
            position: 99,
        })
    );
}

#[test]
fn an_outcome_out_of_turn_aborts() {
    let mut unit = TranscoderUnit::new(0, 0, IST_TB, DEC_TB, false, 0);
    assert_eq!(unit.step(UnitEvent::NoFrame, OST_TB), UnitAction::Abort);
    assert_eq!(unit.state, UnitState::Failed);
    assert_eq!(unit.current_stage(), Stage::Failed);
    assert_eq!(unit.step(UnitEvent::EndOfInput, OST_TB), UnitAction::Abort);
    assert_eq!(unit.state, UnitState::Failed);
}

#[test]
fn a_failed_call_aborts() {
    let mut rig = Rig::new(0, 0, false);
    rig.feed(0);
    let p = Packet { stream: 2, pts: Some(40), dts: None, duration: 0, position: 0 };
    assert!(matches!(rig.unit.step(UnitEvent::Packet(p), OST_TB), UnitAction::SendPacket(_)));
    assert_eq!(rig.unit.step(UnitEvent::Failed, OST_TB), UnitAction::Abort);
    assert_eq!(rig.unit.state, UnitState::Failed);
}

#[test]
fn a_full_frame_counter_aborts() {
    let mut unit = TranscoderUnit::new(0, 0, IST_TB, DEC_TB, false, 0);
    unit.state = UnitState::PullingFrame;
    unit.frame_count = u64::MAX;
    let frame = FrameInfo { timestamp: None, picture_type: PictureType::I };
    assert_eq!(unit.step(UnitEvent::Decoded { frame, now: 0 }, OST_TB), UnitAction::Abort);
    assert_eq!(unit.frame_count, u64::MAX);
}

#[test]
fn the_logging_unit_reports_through_its_frames() {
    // 40 ms per frame: frame 100 comes at 4 s
    let mut rig = Rig::new(0, 0, true);
    for n in 0..250 {
        rig.feed(n);
    }
    assert_eq!(rig.lines, 2);
    let mut quiet = Rig::new(0, 0, false);
    for n in 0..250 {
        quiet.feed(n);
    }
    assert_eq!(quiet.lines, 0);
    assert_eq!(quiet.unit.frame_count, 250);
}

#[test]
fn encoder_matches_the_decoder() {
    let decoder = DecoderInfo {
        width: 1920,
        height: 1080,
        aspect_ratio: Rational::new(1, 1),
        format: 0,
        time_base: Rational::new(1, 30000),
    };
    let settings =
        EncoderSettings::for_decoder(&decoder, Rational::new(30000, 1001), true, AtoolCodecType::X265);
    assert_eq!(
        settings,
        EncoderSettings {
            codec: CodecId::H265,
            width: 1920,
            height: 1080,
            aspect_ratio: Rational::new(1, 1),
            format: 0,
            frame_rate: Some(Rational::new(30000, 1001)),
            time_base: Rational::new(1001, 30000),
            global_header: true,
        }
    );
}

#[test]
fn feed_and_flush_are_steps() {
    let mut unit = TranscoderUnit::new(0, 0, IST_TB, DEC_TB, false, 0);
    let mut twin = unit;
    let p = Packet { stream: 0, pts: Some(40), dts: Some(0), duration: 40, position: 0 };
    assert_eq!(unit.feed(p, OST_TB), twin.step(UnitEvent::Packet(p), OST_TB));
    assert_eq!(unit, twin);
    let mut unit = TranscoderUnit::new(0, 0, IST_TB, DEC_TB, false, 0);
    let mut twin = unit;
    assert_eq!(unit.flush(OST_TB), UnitAction::SendEofToDecoder);
    assert_eq!(twin.step(UnitEvent::EndOfInput, OST_TB), UnitAction::SendEofToDecoder);
    assert_eq!(unit, twin);
    assert_eq!(unit.current_stage(), Stage::Flushing);
    assert!(unit.decoder_ended);
    assert!(!unit.encoder_ended);
}
