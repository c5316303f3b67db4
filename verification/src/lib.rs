//! The logic of a media tool, verified.
//!
//! At its core is the orchestration of a single-pass, multi-stream
//! transcode: video streams are decoded and encoded anew, audio and subtitle
//! streams are copied, anything else is dropped. The codec engine itself
//! (demuxer, decoders, encoders, muxer) stays outside. The state machines
//! here decide which engine call comes next and what is handed to it; a
//! driver performs the call and reports its outcome.
//!
//! - [`timebase`] converts timestamps between time bases, exactly.
//! - [`packet`] holds the header of a packet and converts its times.
//! - [`streams`] classifies input streams and maps them to output streams.
//! - [`codec`] names the target codecs.
//! - [`progress`] throttles progress lines.
//! - [`transcoder`] is the state machine of one transcoded stream.
//! - [`session`] is the coordinator of one conversion, and [`protocol`]
//!   states what holds of all its runs.
//! - [`options`] reads encoder options, [`batch`] picks output names and
//!   runs a list of inputs.
//! - [`password_generator`], [`whisper`] and [`audio`] hold the plain logic
//!   of the tool's other commands.

pub mod audio;
pub mod batch;
pub mod codec;
pub mod options;
pub mod packet;
pub mod password_generator;
pub mod progress;
pub mod protocol;
pub mod session;
pub mod streams;
pub mod timebase;
pub mod transcoder;
pub mod whisper;
