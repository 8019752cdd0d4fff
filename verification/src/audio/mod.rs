//! PCM audio as ripped: what a track's samples are, which processing a track
//! gets, and what the WAV and FLAC writers accept.
use vstd::prelude::*;

pub mod flac;
pub mod process;
pub mod wav;

use crate::text::{dec, push_dec};

verus! {

#[derive(Debug, Clone, Copy, PartialEq, Eq, Structural)]
pub struct PcmSpec {
    pub channels: u16,
    pub sample_rate: u32,
    pub bits_per_sample: u16,
}

#[derive(Debug, Clone, PartialEq, Eq)]
pub struct PcmTrackData {
    pub spec: PcmSpec,
    pub interleaved_i16_samples: Vec<i16>,
}

#[derive(Debug, Clone, PartialEq, Eq)]
pub struct ProcessedPcmTrackData {
    pub spec: PcmSpec,
    pub interleaved_i32_samples: Vec<i32>,
}

/// Why a writer refuses its input.
#[derive(Debug, Clone, PartialEq, Eq)]
pub enum PcmInputError {
    InvalidSpec(&'static str),
    ChannelAlignment { channels: u16, sample_count: usize },
}

/// The sample range of a bit depth the writers accept.
pub open spec fn sample_range(bits: u16) -> (int, int) {
    if bits == 16 {
        (-32768, 32767)
    } else {
        (-8388608, 8388607)
    }
}

/// Every sample lies in the range of the declared bit depth.
pub open spec fn samples_in_range(s: Seq<i32>, bits: u16) -> bool {
    forall|i: int|
        0 <= i < s.len() ==> sample_range(bits).0 <= #[trigger] s[i] <= sample_range(bits).1
}

/// What the writers check before encoding: a channel count, a sample rate,
/// a 16- or 24-bit depth, whole frames, and samples within the depth.
/// `None` means the input is accepted; otherwise the message or alignment
/// that is reported.
pub open spec fn common_input_check(input: ProcessedPcmTrackData, depth_msg: Seq<char>) -> Option<
    (Seq<char>, Option<(u16, usize)>),
> {
    let n = input.interleaved_i32_samples@.len();
    if input.spec.channels == 0 {
        Some(("channels must be > 0"@, None))
    } else if input.spec.sample_rate == 0 {
        Some(("sample_rate must be > 0"@, None))
    } else if input.spec.bits_per_sample != 16 && input.spec.bits_per_sample != 24 {
        Some((depth_msg, None))
    } else if n % (input.spec.channels as nat) != 0 {
        Some((Seq::empty(), Some((input.spec.channels, n as usize))))
    } else if !samples_in_range(input.interleaved_i32_samples@, input.spec.bits_per_sample) {
        Some(("PCM sample value out of range for declared bit depth"@, None))
    } else {
        None
    }
}

/// A writer's error as the message or alignment it carries.
pub open spec fn input_error_view(e: PcmInputError) -> (Seq<char>, Option<(u16, usize)>) {
    match e {
        PcmInputError::InvalidSpec(m) => (m@, None),
        PcmInputError::ChannelAlignment { channels, sample_count } => (
            Seq::empty(),
            Some((channels, sample_count)),
        ),
    }
}

/// The common checks, with `depth_msg` for an unsupported depth.
pub fn check_common_input(input: &ProcessedPcmTrackData, depth_msg: &'static str) -> (r: Result<
    (),
    PcmInputError,
>)
    ensures
        match common_input_check(*input, depth_msg@) {
            None => r is Ok,
            Some(v) => r matches Err(e) && input_error_view(e) == v,
        },
{
    if input.spec.channels == 0 {
        return Err(PcmInputError::InvalidSpec("channels must be > 0"));
    }
    if input.spec.sample_rate == 0 {
        return Err(PcmInputError::InvalidSpec("sample_rate must be > 0"));
    }
    if input.spec.bits_per_sample != 16 && input.spec.bits_per_sample != 24 {
        return Err(PcmInputError::InvalidSpec(depth_msg));
    }
    let channels = input.spec.channels as usize;
    let n = input.interleaved_i32_samples.len();
    if n % channels != 0 {
        return Err(
            PcmInputError::ChannelAlignment { channels: input.spec.channels, sample_count: n },
        );
    }
    let (lo, hi): (i32, i32) = if input.spec.bits_per_sample == 16 {
        (-32768, 32767)
    } else {
        (-8388608, 8388607)
    };
    let mut i: usize = 0;
    while i < n
        invariant
            n == input.interleaved_i32_samples@.len(),
            i <= n,
            input.spec.channels != 0,
            input.spec.sample_rate != 0,
            input.spec.bits_per_sample == 16 || input.spec.bits_per_sample == 24,
            input.interleaved_i32_samples@.len() % (input.spec.channels as nat) == 0,
            lo == sample_range(input.spec.bits_per_sample).0,
            hi == sample_range(input.spec.bits_per_sample).1,
            forall|j: int| 0 <= j < i ==> lo <= #[trigger] input.interleaved_i32_samples@[j] <= hi,
        decreases n - i,
    {
        let v = input.interleaved_i32_samples[i];
        if v < lo || v > hi {
            assert(!(lo <= input.interleaved_i32_samples@[i as int] <= hi));
            return Err(
                PcmInputError::InvalidSpec("PCM sample value out of range for declared bit depth"),
            );
        }
        i += 1;
    }
    Ok(())
}

/// How a writer reports a refused input.
pub open spec fn input_error_message(e: PcmInputError) -> Seq<char> {
    match e {
        PcmInputError::InvalidSpec(m) => "invalid pcm spec: "@ + m@,
        PcmInputError::ChannelAlignment { channels, sample_count } => "sample count "@ + dec(
            sample_count as nat,
        ) + " is not divisible by channel count "@ + dec(channels as nat),
    }
}

impl PcmInputError {
    pub fn message(&self) -> (r: String)
        ensures
            r@ == input_error_message(*self),
    {
        match self {
            PcmInputError::InvalidSpec(m) => {
                let mut out = String::from_str("invalid pcm spec: ");
                out.append(m);
                out
            },
            PcmInputError::ChannelAlignment { channels, sample_count } => {
                let mut out = String::from_str("sample count ");
                push_dec(&mut out, *sample_count as u64);
                out.append(" is not divisible by channel count ");
                push_dec(&mut out, *channels as u64);
                out
            },
        }
    }
}

} // verus!
