//! Per-track processing: which path a track takes (HDCD decoding,
//! de-emphasis or none) and the sample conversions around the HDCD filter.
use vstd::prelude::*;

use crate::audio::{PcmSpec, PcmTrackData, ProcessedPcmTrackData};

verus! {

#[derive(Debug, Clone, Copy, PartialEq, Eq, Structural)]
pub enum ProcessingPath {
    Hdcd,
    Deemphasis,
    Unprocessed,
}

#[derive(Debug, Clone, Copy, PartialEq, Eq, Structural)]
pub struct TrackProcessingOptions {
    pub decode_hdcd: bool,
    pub deemphasis: bool,
    pub force_deemphasis: bool,
    pub track_has_preemphasis: bool,
}

/// Whether de-emphasis applies: when forced, or when enabled and the track
/// is pre-emphasised.
pub open spec fn deemphasis_applies(o: TrackProcessingOptions) -> bool {
    o.force_deemphasis || (o.deemphasis && o.track_has_preemphasis)
}

/// HDCD decoding takes precedence over de-emphasis.
pub open spec fn processing_path(o: TrackProcessingOptions) -> ProcessingPath {
    if o.decode_hdcd {
        ProcessingPath::Hdcd
    } else if deemphasis_applies(o) {
        ProcessingPath::Deemphasis
    } else {
        ProcessingPath::Unprocessed
    }
}

impl TrackProcessingOptions {
    pub fn should_apply_deemphasis(self) -> (r: bool)
        ensures
            r == deemphasis_applies(self),
    {
        self.force_deemphasis || (self.deemphasis && self.track_has_preemphasis)
    }

    pub fn selected_processing_path(self) -> (r: ProcessingPath)
        ensures
            r == processing_path(self),
    {
        if self.decode_hdcd {
            ProcessingPath::Hdcd
        } else if self.should_apply_deemphasis() {
            ProcessingPath::Deemphasis
        } else {
            ProcessingPath::Unprocessed
        }
    }
}

#[derive(Debug, Clone, PartialEq, Eq)]
pub enum TrackProcessingError {
    InvalidSpec(&'static str),
    BackendUnavailable(String),
    BackendFailure(String),
}

/// The samples widened to 32 bits, unchanged in value.
pub fn passthrough_pcm(input: &PcmTrackData) -> (r: ProcessedPcmTrackData)
    ensures
        r.spec == input.spec,
        r.interleaved_i32_samples@.len() == input.interleaved_i16_samples@.len(),
        forall|i: int|
            0 <= i < r.interleaved_i32_samples@.len() ==> r.interleaved_i32_samples@[i] as int
                == input.interleaved_i16_samples@[i] as int,
{
    let mut out: Vec<i32> = Vec::new();
    let mut i: usize = 0;
    while i < input.interleaved_i16_samples.len()
        invariant
            i <= input.interleaved_i16_samples@.len(),
            out@.len() == i,
            forall|j: int| 0 <= j < i ==> out@[j] as int == input.interleaved_i16_samples@[j] as int,
        decreases input.interleaved_i16_samples.len() - i,
    {
        out.push(input.interleaved_i16_samples[i] as i32);
        i += 1;
    }
    ProcessedPcmTrackData { spec: input.spec, interleaved_i32_samples: out }
}

/// The message a processing path gives for input it cannot take, if any:
/// a channel count, a sample rate, 16-bit samples and whole frames are
/// needed.
pub open spec fn processing_input_check(spec: PcmSpec, n: nat, depth_msg: Seq<char>) -> Option<
    Seq<char>,
> {
    if spec.channels == 0 {
        Some("channels must be > 0"@)
    } else if spec.sample_rate == 0 {
        Some("sample_rate must be > 0"@)
    } else if spec.bits_per_sample != 16 {
        Some(depth_msg)
    } else if n % (spec.channels as nat) != 0 {
        Some("sample count must be divisible by channels"@)
    } else {
        None
    }
}

pub open spec fn invalid_spec_msg(r: Result<(), TrackProcessingError>) -> Option<Seq<char>> {
    match r {
        Err(TrackProcessingError::InvalidSpec(m)) => Some(m@),
        _ => None,
    }
}

fn check_processing_input(input: &PcmTrackData, depth_msg: &'static str) -> (r: Result<
    (),
    TrackProcessingError,
>)
    ensures
        r is Ok <==> processing_input_check(
            input.spec,
            input.interleaved_i16_samples@.len(),
            depth_msg@,
        ) is None,
        r is Err ==> invalid_spec_msg(r) == processing_input_check(
            input.spec,
            input.interleaved_i16_samples@.len(),
            depth_msg@,
        ),
{
    if input.spec.channels == 0 {
        return Err(TrackProcessingError::InvalidSpec("channels must be > 0"));
    }
    if input.spec.sample_rate == 0 {
        return Err(TrackProcessingError::InvalidSpec("sample_rate must be > 0"));
    }
    if input.spec.bits_per_sample != 16 {
        return Err(TrackProcessingError::InvalidSpec(depth_msg));
    }
    if input.interleaved_i16_samples.len() % (input.spec.channels as usize) != 0 {
        return Err(TrackProcessingError::InvalidSpec("sample count must be divisible by channels"));
    }
    Ok(())
}

/// What the HDCD path accepts.
pub fn validate_hdcd_input(input: &PcmTrackData) -> (r: Result<(), TrackProcessingError>)
    ensures
        r is Ok <==> processing_input_check(
            input.spec,
            input.interleaved_i16_samples@.len(),
            "hdcd path currently supports 16-bit PCM input only"@,
        ) is None,
        r is Err ==> invalid_spec_msg(r) == processing_input_check(
            input.spec,
            input.interleaved_i16_samples@.len(),
            "hdcd path currently supports 16-bit PCM input only"@,
        ),
{
    check_processing_input(input, "hdcd path currently supports 16-bit PCM input only")
}

/// What the de-emphasis path accepts.
pub fn validate_deemphasis_input(input: &PcmTrackData) -> (r: Result<(), TrackProcessingError>)
    ensures
        r is Ok <==> processing_input_check(
            input.spec,
            input.interleaved_i16_samples@.len(),
            "deemphasis currently supports 16-bit PCM only"@,
        ) is None,
        r is Err ==> invalid_spec_msg(r) == processing_input_check(
            input.spec,
            input.interleaved_i16_samples@.len(),
            "deemphasis currently supports 16-bit PCM only"@,
        ),
{
    check_processing_input(input, "deemphasis currently supports 16-bit PCM only")
}

/// The little-endian bytes of a 16-bit sample moved to the top of a 32-bit
/// word (the filter's input format).
pub open spec fn widened_bytes(s: i16) -> Seq<u8> {
    let w = (s as int * 65536) as i32 as u32;
    seq![(w % 256) as u8, ((w / 256) % 256) as u8, ((w / 65536) % 256) as u8, (w / 16777216) as u8]
}

/// The filter input for a track: each sample as `widened_bytes`.
pub open spec fn hdcd_input(samples: Seq<i16>) -> Seq<u8>
    decreases samples.len(),
{
    if samples.len() == 0 {
        Seq::empty()
    } else {
        hdcd_input(samples.drop_last()) + widened_bytes(samples.last())
    }
}

pub fn hdcd_input_bytes(samples: &[i16]) -> (r: Vec<u8>)
    ensures
        r@ == hdcd_input(samples@),
{
    let mut out: Vec<u8> = Vec::new();
    let mut i: usize = 0;
    while i < samples.len()
        invariant
            i <= samples@.len(),
            out@ == hdcd_input(samples@.take(i as int)),
        decreases samples.len() - i,
    {
        let s = samples[i];
        let w: u32 = if s >= 0 {
            (s as u32) * 65536
        } else {
            (((s as i32) + 32768) as u32) * 65536 + 0x8000_0000
        };
        assert(w == (s as int * 65536) as i32 as u32) by (bit_vector)
            requires
                w == if s >= 0 {
                    (s as u32) * 65536
                } else {
                    (((s as i32) + 32768) as u32) * 65536 + 0x8000_0000
                },
        ;
        out.push((w % 256) as u8);
        out.push(((w / 256) % 256) as u8);
        out.push(((w / 65536) % 256) as u8);
        out.push((w / 16777216) as u8);
        assert(samples@.take(i + 1).drop_last() == samples@.take(i as int));
        assert(out@ =~= hdcd_input(samples@.take(i + 1)));
        i += 1;
    }
    assert(samples@.take(samples@.len() as int) == samples@);
    out
}

/// A 32-bit filter output sample brought back to 24 bits: rounded away from
/// zero by 0x80 (saturating), shifted down by 8, and clamped to 24 bits.
pub open spec fn narrowed_sample(w: i32) -> i32 {
    let r: i32 = if w >= 0 {
        if w as int + 128 > i32::MAX {
            i32::MAX
        } else {
            (w + 128) as i32
        }
    } else {
        if w as int - 128 < i32::MIN {
            i32::MIN
        } else {
            (w - 128) as i32
        }
    };
    let n = r >> 8u32;
    if n < -8388608 {
        -8388608i32
    } else if n > 8388607 {
        8388607i32
    } else {
        n
    }
}

/// The little-endian 32-bit signed word at `at`.
pub open spec fn le_i32(d: Seq<u8>, at: int) -> i32 {
    (d[at] as int + d[at + 1] as int * 256 + d[at + 2] as int * 65536 + d[at + 3] as int
        * 16777216) as u32 as i32
}

/// The 24-bit samples of a filter output of whole words.
pub open spec fn hdcd_output(d: Seq<u8>) -> Seq<i32> {
    Seq::new(d.len() / 4, |j: int| narrowed_sample(le_i32(d, 4 * j)))
}

pub open spec fn backend_failure_msg(r: Result<Vec<i32>, TrackProcessingError>) -> Option<Seq<char>> {
    match r {
        Err(TrackProcessingError::BackendFailure(m)) => Some(m@),
        _ => None,
    }
}

/// The filter's output as 24-bit samples; output that is not whole words,
/// or not whole frames, is a backend failure.
pub fn hdcd_output_samples(stdout: &[u8], channels: u16) -> (r: Result<Vec<i32>, TrackProcessingError>)
    requires
        channels > 0,
    ensures
        stdout@.len() % 4 != 0 ==> backend_failure_msg(r) == Some(
            "ffmpeg produced invalid PCM byte length"@,
        ),
        stdout@.len() % 4 == 0 && (stdout@.len() / 4) % (channels as nat) != 0 ==> backend_failure_msg(
            r,
        ) == Some("ffmpeg output sample count is not channel-aligned"@),
        stdout@.len() % 4 == 0 && (stdout@.len() / 4) % (channels as nat) == 0 ==> (r matches Ok(v)
            && v@ == hdcd_output(stdout@)),
{
    let n = stdout.len();
    if n % 4 != 0 {
        return Err(TrackProcessingError::BackendFailure(
            String::from_str("ffmpeg produced invalid PCM byte length"),
        ));
    }
    let count = n / 4;
    let mut out: Vec<i32> = Vec::new();
    let mut j: usize = 0;
    while j < count
        invariant
            n == stdout@.len(),
            count == n / 4,
            j <= count,
            out@ == hdcd_output(stdout@).take(j as int),
        decreases count - j,
    {
        assert(j * 4 + 4 <= n) by (nonlinear_arith)
            requires
                j < count,
                count == n / 4,
        ;
        let o = j * 4;
        let u: u32 = stdout[o] as u32 + stdout[o + 1] as u32 * 256 + stdout[o + 2] as u32 * 65536
            + stdout[o + 3] as u32 * 16777216;
        let w = u as i32;
        let rounded: i32 = if w >= 0 {
            if w > i32::MAX - 128 {
                i32::MAX
            } else {
                w + 128
            }
        } else {
            if w < i32::MIN + 128 {
                i32::MIN
            } else {
                w - 128
            }
        };
        let narrowed = rounded >> 8u32;
        let clamped = if narrowed < -8388608 {
            -8388608
        } else if narrowed > 8388607 {
            8388607
        } else {
            narrowed
        };
        assert(clamped == narrowed_sample(le_i32(stdout@, 4 * j)));
        out.push(clamped);
        assert(hdcd_output(stdout@).take(j + 1) == hdcd_output(stdout@).take(j as int).push(
            clamped,
        ));
        j += 1;
    }
    assert(hdcd_output(stdout@).take(count as int) == hdcd_output(stdout@));
    if out.len() % (channels as usize) != 0 {
        return Err(TrackProcessingError::BackendFailure(
            String::from_str("ffmpeg output sample count is not channel-aligned"),
        ));
    }
    Ok(out)
}

} // verus!
