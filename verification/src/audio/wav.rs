//! The WAV writer: what it accepts, and the bytes of a WAV file of a track.
use vstd::prelude::*;

use crate::audio::{check_common_input, common_input_check, input_error_view, samples_in_range,
    PcmInputError, ProcessedPcmTrackData};

verus! {

/// The WAV writer's input check.
pub open spec fn wav_input_check(input: ProcessedPcmTrackData) -> Option<
    (Seq<char>, Option<(u16, usize)>),
> {
    common_input_check(input, "WAV writer currently supports 16-bit and 24-bit PCM"@)
}

pub fn validate_input(input: &ProcessedPcmTrackData) -> (r: Result<(), PcmInputError>)
    ensures
        match wav_input_check(*input) {
            None => r is Ok,
            Some(v) => r matches Err(e) && input_error_view(e) == v,
        },
{
    check_common_input(input, "WAV writer currently supports 16-bit and 24-bit PCM")
}

/// A sample as written to a 16-bit file: clamped to the 16-bit range.
pub fn narrow_to_i16(sample: i32) -> (r: i16)
    ensures
        r as int == if sample < -32768 {
            -32768
        } else if sample > 32767 {
            32767
        } else {
            sample as int
        },
{
    if sample < -32768 {
        -32768
    } else if sample > 32767 {
        32767
    } else {
        sample as i16
    }
}

/// The sample of a 16-bit file: clamped to the 16-bit range.
pub open spec fn clamp_i16(sample: i32) -> i32 {
    if sample < -32768 {
        -32768i32
    } else if sample > 32767 {
        32767i32
    } else {
        sample
    }
}

/// The samples as written: narrowed to 16 bits for a 16-bit file, as they
/// are otherwise.
pub open spec fn wav_written_samples(input: ProcessedPcmTrackData) -> Seq<i32> {
    if input.spec.bits_per_sample == 16 {
        input.interleaved_i32_samples@.map_values(|s: i32| clamp_i16(s))
    } else {
        input.interleaved_i32_samples@
    }
}

/// The bytes that hound's `WavWriter` writes for integer samples of a
/// channel count, sample rate and bit depth.
pub uninterp spec fn hound_wav_bytes(
    samples: Seq<i32>,
    channels: u16,
    sample_rate: u32,
    bits_per_sample: u16,
) -> Seq<u8>;

/// The sizes hound writes into 32-bit header fields fit them: the bytes per
/// second, and the data with the header after the first eight bytes.
pub open spec fn wav_sizes_fit(sample_count: nat, channels: u16, sample_rate: u32, bits_per_sample: u16) -> bool {
    let bytes = ((bits_per_sample + 7) / 8) as nat;
    &&& sample_rate * bytes * channels <= u32::MAX
    &&& sample_count * bytes + 60 <= u32::MAX
}

/// Writes integer samples through hound's `WavWriter` (`new`, one
/// `write_sample` per sample, `finalize`) into memory. With a supported
/// depth, samples within it, whole frames and sizes that fit the header,
/// hound fails in none of these steps; the contract names the bytes and says
/// nothing more of them.
#[verifier::external_body]
fn hound_encode(samples: &[i32], channels: u16, sample_rate: u32, bits_per_sample: u16) -> (r:
    Result<Vec<u8>, String>)
    requires
        channels >= 1,
        sample_rate >= 1,
        bits_per_sample == 16 || bits_per_sample == 24,
        samples@.len() % (channels as nat) == 0,
        samples_in_range(samples@, bits_per_sample),
        wav_sizes_fit(samples@.len(), channels, sample_rate, bits_per_sample),
    ensures
        r is Ok,
        r matches Ok(b) ==> b@ == hound_wav_bytes(samples@, channels, sample_rate, bits_per_sample),
{
    let spec = hound::WavSpec { channels, sample_rate, bits_per_sample, sample_format: hound::SampleFormat::Int };
    let mut buf = std::io::Cursor::new(Vec::<u8>::new());
    let mut wav = hound::WavWriter::new(&mut buf, spec).map_err(|e| e.to_string())?;
    for s in samples {
        wav.write_sample(*s).map_err(|e| e.to_string())?;
    }
    wav.finalize().map_err(|e| e.to_string())?;
    Ok(buf.into_inner())
}

/// Why a WAV file could not be rendered.
#[derive(Debug, Clone, PartialEq, Eq)]
pub enum WavWriteError {
    InvalidSpec(&'static str),
    ChannelAlignment { channels: u16, sample_count: usize },
    Hound(String),
}

pub open spec fn wav_write_error_message(e: WavWriteError) -> Seq<char> {
    match e {
        WavWriteError::InvalidSpec(m) => crate::audio::input_error_message(PcmInputError::InvalidSpec(m)),
        WavWriteError::ChannelAlignment { channels, sample_count } => crate::audio::input_error_message(
            PcmInputError::ChannelAlignment { channels, sample_count },
        ),
        WavWriteError::Hound(m) => "wav writer error: "@ + m@,
    }
}

impl WavWriteError {
    /// The text the writer reports.
    pub fn message(&self) -> (r: String)
        ensures
            r@ == wav_write_error_message(*self),
    {
        match self {
            WavWriteError::InvalidSpec(m) => PcmInputError::InvalidSpec(m).message(),
            WavWriteError::ChannelAlignment { channels, sample_count } => PcmInputError::ChannelAlignment {
                channels: *channels,
                sample_count: *sample_count,
            }.message(),
            WavWriteError::Hound(m) => {
                let mut out = String::from_str("wav writer error: ");
                out.append(m.as_str());
                out
            },
        }
    }
}

/// The samples as written to the file (see `wav_written_samples`).
fn written_samples(input: &ProcessedPcmTrackData) -> (r: Vec<i32>)
    ensures
        r@ == wav_written_samples(*input),
{
    let n = input.interleaved_i32_samples.len();
    let sixteen = input.spec.bits_per_sample == 16;
    let mut out: Vec<i32> = Vec::with_capacity(n);
    let mut i: usize = 0;
    while i < n
        invariant
            n == input.interleaved_i32_samples@.len(),
            sixteen == (input.spec.bits_per_sample == 16),
            i <= n,
            out@.len() == i,
            forall|j: int| 0 <= j < i ==> #[trigger] out@[j] == wav_written_samples(*input)[j],
        decreases n - i,
    {
        let s = input.interleaved_i32_samples[i];
        if sixteen {
            out.push(narrow_to_i16(s) as i32);
        } else {
            out.push(s);
        }
        i += 1;
    }
    assert(out@ =~= wav_written_samples(*input));
    out
}

/// The bytes of a WAV file of the track: its input checked first, then
/// written by hound, 16-bit samples narrowed to 16 bits.
pub fn render_wav_bytes(input: &ProcessedPcmTrackData) -> (r: Result<Vec<u8>, WavWriteError>)
    requires
        wav_sizes_fit(
            input.interleaved_i32_samples@.len(),
            input.spec.channels,
            input.spec.sample_rate,
            input.spec.bits_per_sample,
        ),
    ensures
        match wav_input_check(*input) {
            Some((m, None)) => r matches Err(WavWriteError::InvalidSpec(x)) && x@ == m,
            Some((_, Some((c, n)))) => r == Err::<Vec<u8>, WavWriteError>(
                WavWriteError::ChannelAlignment { channels: c, sample_count: n },
            ),
            None => r matches Ok(b) && b@ == hound_wav_bytes(
                wav_written_samples(*input),
                input.spec.channels,
                input.spec.sample_rate,
                input.spec.bits_per_sample,
            ),
        },
{
    match validate_input(input) {
        Err(PcmInputError::InvalidSpec(m)) => {
            return Err(WavWriteError::InvalidSpec(m));
        },
        Err(PcmInputError::ChannelAlignment { channels, sample_count }) => {
            return Err(WavWriteError::ChannelAlignment { channels, sample_count });
        },
        Ok(()) => {},
    }
    let samples = written_samples(input);
    proof {
        assert forall|i: int| 0 <= i < samples@.len() implies crate::audio::sample_range(
            input.spec.bits_per_sample,
        ).0 <= #[trigger] samples@[i] <= crate::audio::sample_range(input.spec.bits_per_sample).1 by {
            assert(input.interleaved_i32_samples@[i] == input.interleaved_i32_samples@[i]);
        }
    }
    match hound_encode(
        samples.as_slice(),
        input.spec.channels,
        input.spec.sample_rate,
        input.spec.bits_per_sample,
    ) {
        Ok(b) => Ok(b),
        Err(m) => Err(WavWriteError::Hound(m)),
    }
}

} // verus!
