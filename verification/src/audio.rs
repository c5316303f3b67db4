//! The profile of the audio that the speech model takes, and the arithmetic
//! of cutting a waveform into chunks of equal length.

use vstd::prelude::*;

verus! {

/// The sample rate of the model's input.
pub const SAMPLE_RATE: u32 = 16000;

/// The number of channels of the model's input.
pub const CHANNELS: u16 = 1;

/// Whether audio with this sample rate and this many channels can be fed to
/// the model as it is: 16 kHz, mono.
pub fn matches_profile(sample_rate: u32, channels: u16) -> (b: bool)
    ensures
        b == (sample_rate == SAMPLE_RATE && channels == CHANNELS),
{
    sample_rate == SAMPLE_RATE && channels == CHANNELS
}

/// The channel layout to decode with: the one the source declares, or
/// `fallback` where it declares none.
pub fn channel_layout_or(declared: u64, fallback: u64) -> (layout: u64)
    ensures
        layout == if declared == 0 {
            fallback
        } else {
            declared
        },
{
    if declared == 0 {
        fallback
    } else {
        declared
    }
}

/// How many samples of silence fill a waveform of `len` samples up to a whole
/// number of chunks.
pub open spec fn padding(len: nat, chunk: nat) -> nat {
    if len % chunk == 0 {
        0
    } else {
        (chunk - len % chunk) as nat
    }
}

/// The samples to append so that a waveform of `len` samples is a whole
/// number of chunks of `chunk` samples: fewer than one chunk, and none where
/// it is whole already.
pub fn pad_len(len: usize, chunk: usize) -> (pad: usize)
    requires
        chunk > 0,
    ensures
        pad == padding(len as nat, chunk as nat),
        pad < chunk,
        (len + pad) % (chunk as int) == 0,
{
    let rest = len % chunk;
    if rest == 0 {
        0
    } else {
        proof {
            vstd::arithmetic::div_mod::lemma_fundamental_div_mod(len as int, chunk as int);
            let q = len as int / chunk as int;
            assert(len + (chunk - rest) == (q + 1) * chunk) by (nonlinear_arith)
                requires
                    len as int == chunk as int * q + rest as int,
            ;
            vstd::arithmetic::div_mod::lemma_fundamental_div_mod_converse(
                len + (chunk - rest),
                chunk as int,
                q + 1,
                0,
            );
        }
        chunk - rest
    }
}

/// The number of chunks of a waveform of `len` samples once it is padded.
pub fn chunk_count(len: usize, chunk: usize) -> (rows: usize)
    requires
        chunk > 0,
    ensures
        rows == (len + padding(len as nat, chunk as nat)) / (chunk as int),
{
    let rest = len % chunk;
    let whole = len / chunk;
    proof {
        vstd::arithmetic::div_mod::lemma_fundamental_div_mod(len as int, chunk as int);
        if rest == 0 {
        } else {
            assert(len + (chunk - rest) == (whole + 1) * chunk) by (nonlinear_arith)
                requires
                    len as int == chunk as int * whole as int + rest as int,
            ;
            vstd::arithmetic::div_mod::lemma_fundamental_div_mod_converse(
                len + (chunk - rest),
                chunk as int,
                whole + 1,
                0,
            );
            assert(whole < usize::MAX) by (nonlinear_arith)
                requires
                    len as int == chunk as int * whole as int + rest as int,
                    rest > 0,
                    chunk > 0,
                    len <= usize::MAX,
                    whole >= 0,
            ;
        }
    }
    if rest == 0 {
        whole
    } else {
        whole + 1
    }
}

} // verus!
