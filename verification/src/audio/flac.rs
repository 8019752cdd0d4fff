//! What the FLAC writer accepts.
use vstd::prelude::*;

use flacenc::component::BitRepr;
use flacenc::error::Verify;

use crate::audio::{check_common_input, common_input_check, input_error_view, samples_in_range, PcmInputError,
    ProcessedPcmTrackData};

verus! {

/// The FLAC writer's input check: the common checks, then at least 16
/// frames.
pub open spec fn flac_input_check(input: ProcessedPcmTrackData) -> Option<
    (Seq<char>, Option<(u16, usize)>),
> {
    match common_input_check(input, "FLAC writer currently supports 16-bit and 24-bit PCM"@) {
        Some(v) => Some(v),
        None => if input.interleaved_i32_samples@.len() / (input.spec.channels as nat) < 16 {
            Some(("FLAC writer currently requires at least 16 frames"@, None))
        } else {
            None
        },
    }
}

pub fn validate_input(input: &ProcessedPcmTrackData) -> (r: Result<(), PcmInputError>)
    ensures
        match flac_input_check(*input) {
            None => r is Ok,
            Some(v) => r matches Err(e) && input_error_view(e) == v,
        },
{
    match check_common_input(input, "FLAC writer currently supports 16-bit and 24-bit PCM") {
        Err(e) => Err(e),
        Ok(()) => {
            let frames = input.interleaved_i32_samples.len() / (input.spec.channels as usize);
            if frames < 16 {
                Err(PcmInputError::InvalidSpec("FLAC writer currently requires at least 16 frames"))
            } else {
                Ok(())
            }
        },
    }
}


/// Why the FLAC encoder made no stream: its configuration was refused, or
/// the encoding failed; with the encoder's message.
#[derive(Debug, Clone, PartialEq, Eq)]
pub enum FlacEncoderFailure {
    Config(String),
    Encode(String),
}

/// A failure as whether it concerns the configuration, and its message.
pub open spec fn encoder_failure_view(f: FlacEncoderFailure) -> (bool, Seq<char>) {
    match f {
        FlacEncoderFailure::Config(m) => (true, m@),
        FlacEncoderFailure::Encode(m) => (false, m@),
    }
}

/// The FLAC stream that flacenc's default encoder, run on one thread, makes
/// of interleaved samples within their bit depth, or its failure.
pub uninterp spec fn flacenc_stream(
    samples: Seq<i32>,
    channels: u16,
    bits_per_sample: u16,
    sample_rate: u32,
) -> Result<Seq<u8>, (bool, Seq<char>)>;

/// Encodes samples with flacenc's default configuration on one thread (so
/// no worker count from the environment applies) and fixed block size
/// (`encode_with_fixed_block_size`), and writes the stream to bytes. The
/// samples must fit their bit depth. The contract names the outcome and says
/// nothing of its bytes.
#[verifier::external_body]
fn flacenc_encode(samples: &[i32], channels: u16, bits_per_sample: u16, sample_rate: u32) -> (r:
    Result<Vec<u8>, FlacEncoderFailure>)
    requires
        channels >= 1,
        bits_per_sample == 16 || bits_per_sample == 24,
        sample_rate >= 1,
        samples_in_range(samples@, bits_per_sample),
    ensures
        match r {
            Ok(b) => flacenc_stream(samples@, channels, bits_per_sample, sample_rate) == Ok::<
                Seq<u8>,
                (bool, Seq<char>),
            >(b@),
            Err(f) => flacenc_stream(samples@, channels, bits_per_sample, sample_rate) == Err::<
                Seq<u8>,
                (bool, Seq<char>),
            >(encoder_failure_view(f)),
        },
{
    let mut serial = flacenc::config::Encoder::default();
    serial.multithread = false;
    let config = match serial.into_verified() {
        Ok(c) => c,
        Err((_, e)) => return Err(FlacEncoderFailure::Config(e.to_string())),
    };
    let source = flacenc::source::MemSource::from_samples(samples, channels as usize, bits_per_sample as usize, sample_rate as usize);
    let stream = flacenc::encode_with_fixed_block_size(&config, source, config.block_size)
        .map_err(|e| FlacEncoderFailure::Encode(e.to_string()))?;
    let mut sink = flacenc::bitsink::ByteSink::new();
    match stream.write(&mut sink) {
        Ok(()) => Ok(sink.as_slice().to_vec()),
        Err(e) => Err(FlacEncoderFailure::Encode(e.to_string())),
    }
}

/// Why a FLAC file could not be rendered.
#[derive(Debug, Clone, PartialEq, Eq)]
pub enum FlacWriteError {
    InvalidSpec(&'static str),
    ChannelAlignment { channels: u16, sample_count: usize },
    Config(String),
    Encode(String),
}

impl FlacWriteError {
    /// The text the writer reports.
    pub fn message(&self) -> (r: String)
        ensures
            r@ == flac_write_error_message(*self),
    {
        match self {
            FlacWriteError::InvalidSpec(m) => PcmInputError::InvalidSpec(m).message(),
            FlacWriteError::ChannelAlignment { channels, sample_count } => PcmInputError::ChannelAlignment {
                channels: *channels,
                sample_count: *sample_count,
            }.message(),
            FlacWriteError::Config(m) => {
                let mut out = String::from_str("flac config error: ");
                out.append(m.as_str());
                out
            },
            FlacWriteError::Encode(m) => {
                let mut out = String::from_str("flac encode error: ");
                out.append(m.as_str());
                out
            },
        }
    }
}

pub open spec fn flac_write_error_message(e: FlacWriteError) -> Seq<char> {
    match e {
        FlacWriteError::InvalidSpec(m) => crate::audio::input_error_message(PcmInputError::InvalidSpec(m)),
        FlacWriteError::ChannelAlignment { channels, sample_count } => crate::audio::input_error_message(
            PcmInputError::ChannelAlignment { channels, sample_count },
        ),
        FlacWriteError::Config(m) => "flac config error: "@ + m@,
        FlacWriteError::Encode(m) => "flac encode error: "@ + m@,
    }
}

/// The bytes of a FLAC file of the track: its input checked first, then
/// encoded by flacenc.
pub fn render_flac_bytes(input: &ProcessedPcmTrackData) -> (r: Result<Vec<u8>, FlacWriteError>)
    ensures
        match flac_input_check(*input) {
            Some((m, None)) => r matches Err(FlacWriteError::InvalidSpec(x)) && x@ == m,
            Some((_, Some((c, n)))) => r == Err::<Vec<u8>, FlacWriteError>(
                FlacWriteError::ChannelAlignment { channels: c, sample_count: n },
            ),
            None => match r {
                Ok(b) => flacenc_stream(
                    input.interleaved_i32_samples@,
                    input.spec.channels,
                    input.spec.bits_per_sample,
                    input.spec.sample_rate,
                ) == Ok::<Seq<u8>, (bool, Seq<char>)>(b@),
                Err(FlacWriteError::Config(m)) => flacenc_stream(
                    input.interleaved_i32_samples@,
                    input.spec.channels,
                    input.spec.bits_per_sample,
                    input.spec.sample_rate,
                ) == Err::<Seq<u8>, (bool, Seq<char>)>((true, m@)),
                Err(FlacWriteError::Encode(m)) => flacenc_stream(
                    input.interleaved_i32_samples@,
                    input.spec.channels,
                    input.spec.bits_per_sample,
                    input.spec.sample_rate,
                ) == Err::<Seq<u8>, (bool, Seq<char>)>((false, m@)),
                Err(_) => false,
            },
        },
{
    match validate_input(input) {
        Err(PcmInputError::InvalidSpec(m)) => {
            return Err(FlacWriteError::InvalidSpec(m));
        },
        Err(PcmInputError::ChannelAlignment { channels, sample_count }) => {
            return Err(FlacWriteError::ChannelAlignment { channels, sample_count });
        },
        Ok(()) => {},
    }
    match flacenc_encode(
        input.interleaved_i32_samples.as_slice(),
        input.spec.channels,
        input.spec.bits_per_sample,
        input.spec.sample_rate,
    ) {
        Ok(b) => Ok(b),
        Err(FlacEncoderFailure::Config(m)) => Err(FlacWriteError::Config(m)),
        Err(FlacEncoderFailure::Encode(m)) => Err(FlacWriteError::Encode(m)),
    }
}

} // verus!
