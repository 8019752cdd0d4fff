//! Reading a track: where to read, what fills the parts outside the disc,
//! how frames become samples, and the sample-exact crop for the drive
//! offset.
use vstd::prelude::*;

use crate::audio::{PcmSpec, PcmTrackData};
use crate::cdda::reader::{ParanoiaTrackRunResult, serves_track, track_frames, CddaFrameReader, CddaReadError, CDDA_FRAME_BYTES};
use crate::workflow::{debug_quote, debug_quoted, runtime_msg, apply_offset_frame_adjustment, clamp_to_i32, offset_adjusted, RunWorkflowError, TrackBoundary};
use crate::clamp_i32;
use crate::cdda::linux_drive::{backend_unavailable_message, open_linux_physical_drive, run_paranoia_on_linux_drive_with_defaults_for_level};
use crate::cdda::paranoia::{RetryPolicy, RipEvent, RipState};
use crate::text::{dec, push_dec};

verus! {

/// The format of audio read from a CD.
pub open spec fn cd_spec() -> PcmSpec {
    PcmSpec { channels: 2, sample_rate: 44100, bits_per_sample: 16 }
}

/// The little-endian 16-bit sample of two bytes.
pub open spec fn le_i16(lo: u8, hi: u8) -> i16 {
    (lo as int + hi as int * 256) as u16 as i16
}

/// The samples of a frame: each whole pair of bytes, little-endian.
pub open spec fn frame_samples(f: Seq<u8>) -> Seq<i16> {
    Seq::new(f.len() / 2, |k: int| le_i16(f[2 * k], f[2 * k + 1]))
}

/// The samples of frames, one after the other.
pub open spec fn frames_samples(fs: Seq<Seq<u8>>) -> Seq<i16>
    decreases fs.len(),
{
    if fs.len() == 0 {
        Seq::empty()
    } else {
        frames_samples(fs.drop_last()) + frame_samples(fs.last())
    }
}

pub open spec fn frames_view(fs: Seq<Vec<u8>>) -> Seq<Seq<u8>> {
    fs.map_values(|f: Vec<u8>| f@)
}

fn push_frame_samples(out: &mut Vec<i16>, frame: &Vec<u8>)
    ensures
        final(out)@ == old(out)@ + frame_samples(frame@),
{
    let ghost o = out@;
    let mut off: usize = 0;
    while off + 1 < frame.len()
        invariant
            off % 2 == 0,
            off <= frame@.len(),
            out@ == o + frame_samples(frame@).take(off as int / 2),
        decreases frame.len() - off,
    {
        let lo = frame[off];
        let hi = frame[off + 1];
        let w: u16 = lo as u16 + (hi as u16) * 256;
        let v = w as i16;
        assert(v == le_i16(lo, hi));
        out.push(v);
        assert(frame_samples(frame@).take(off as int / 2 + 1) =~= frame_samples(frame@).take(
            off as int / 2,
        ).push(le_i16(frame@[off as int], frame@[off + 1])));
        off += 2;
    }
    assert(frame_samples(frame@).take(off as int / 2) =~= frame_samples(frame@));
}

/// The samples of CD frames as stereo 16-bit audio at 44.1 kHz.
pub fn pcm_from_cdda_frames(frames: &[Vec<u8>]) -> (r: PcmTrackData)
    ensures
        r.spec == cd_spec(),
        r.interleaved_i16_samples@ == frames_samples(frames_view(frames@)),
{
    let mut samples: Vec<i16> = Vec::new();
    let mut i: usize = 0;
    while i < frames.len()
        invariant
            i <= frames@.len(),
            samples@ == frames_samples(frames_view(frames@.take(i as int))),
        decreases frames.len() - i,
    {
        push_frame_samples(&mut samples, &frames[i]);
        assert(frames_view(frames@.take(i + 1)).drop_last() =~= frames_view(frames@.take(i as int)));
        assert(frames_view(frames@.take(i + 1)).last() == frames@[i as int]@);
        i += 1;
    }
    assert(frames@.take(frames@.len() as int) == frames@);
    PcmTrackData {
        spec: PcmSpec { channels: 2, sample_rate: 44100, bits_per_sample: 16 },
        interleaved_i16_samples: samples,
    }
}

/// The sum of all bytes of the frames, modulo 2^32: the pass checksum of
/// a drive read.
pub open spec fn bytes_total(fs: Seq<Seq<u8>>) -> int
    decreases fs.len(),
{
    if fs.len() == 0 {
        0
    } else {
        bytes_total(fs.drop_last()) + seq_total(fs.last())
    }
}

pub open spec fn seq_total(f: Seq<u8>) -> int
    decreases f.len(),
{
    if f.len() == 0 {
        0
    } else {
        seq_total(f.drop_last()) + f.last()
    }
}

pub fn frames_byte_sum(_pass: u32, frames: &[Vec<u8>]) -> (r: u32)
    ensures
        r as int == bytes_total(frames_view(frames@)) % 0x1_0000_0000,
{
    let mut acc: u32 = 0;
    let mut i: usize = 0;
    while i < frames.len()
        invariant
            i <= frames@.len(),
            acc as int == bytes_total(frames_view(frames@.take(i as int))) % 0x1_0000_0000,
        decreases frames.len() - i,
    {
        let f = &frames[i];
        let ghost before = bytes_total(frames_view(frames@.take(i as int)));
        let mut j: usize = 0;
        while j < f.len()
            invariant
                j <= f@.len(),
                acc as int == (before + seq_total(f@.take(j as int))) % 0x1_0000_0000,
            decreases f.len() - j,
        {
            assert(f@.take(j + 1).drop_last() == f@.take(j as int));
            acc = ((acc as u64 + f[j] as u64) % 0x1_0000_0000) as u32;
            proof {
                vstd::arithmetic::div_mod::lemma_add_mod_noop(
                    before + seq_total(f@.take(j as int)),
                    f@[j as int] as int,
                    0x1_0000_0000,
                );
                vstd::arithmetic::div_mod::lemma_mod_twice(
                    before + seq_total(f@.take(j as int)),
                    0x1_0000_0000,
                );
            }
            j += 1;
        }
        assert(f@.take(f@.len() as int) == f@);
        assert(frames_view(frames@.take(i + 1)).drop_last() =~= frames_view(frames@.take(i as int)));
        assert(frames_view(frames@.take(i + 1)).last() == frames@[i as int]@);
        i += 1;
    }
    assert(frames@.take(frames@.len() as int) == frames@);
    acc
}

// ---------------------------------------------------------------------------
// Read plans
// ---------------------------------------------------------------------------

/// Where a track is read: the offset-adjusted range, limited to the disc
/// unless lead-in and lead-out are read, with the frames cut off to be
/// filled with silence, and the boundary before adjustment.
#[derive(Debug, Clone, Copy, PartialEq, Eq, Structural)]
pub struct TrackReadPlan {
    pub track_number: u32,
    pub start_lsn: i32,
    pub frame_count: usize,
    pub read_start_lsn: i32,
    pub read_frame_count: usize,
    pub silence_before_frames: usize,
    pub silence_after_frames: usize,
    pub original_start_lsn: i32,
    pub original_frame_count: usize,
}

pub open spec fn sat_usize(x: int) -> usize {
    if x > usize::MAX {
        usize::MAX
    } else {
        x as usize
    }
}

pub open spec fn nonneg(x: i32) -> usize {
    if x < 0 {
        0
    } else {
        x as usize
    }
}

pub open spec fn planned_read(
    b: TrackBoundary,
    over_under_read_frames: i32,
    overread_leadinout: bool,
    disc_start_lsn: i32,
    disc_end_lsn: i32,
) -> TrackReadPlan {
    let adj = offset_adjusted(b, over_under_read_frames);
    let first0 = adj.start_lsn;
    let last0 = crate::workflow::boundary_end(adj);
    let before: usize = if overread_leadinout { 0 } else { nonneg(clamp_i32(disc_start_lsn - first0)) };
    let after: usize = if overread_leadinout { 0 } else { nonneg(clamp_i32(last0 - disc_end_lsn)) };
    let first = if overread_leadinout { first0 } else { clamp_i32(first0 + (before as i32)) };
    let last = if overread_leadinout { last0 } else { clamp_i32(last0 - (after as i32)) };
    let read: usize = if last >= first {
        clamp_i32(clamp_i32(last - first) + 1) as usize
    } else {
        0
    };
    TrackReadPlan {
        track_number: adj.track_number,
        start_lsn: adj.start_lsn,
        frame_count: sat_usize(sat_usize(read + before) + after),
        read_start_lsn: first,
        read_frame_count: read,
        silence_before_frames: before,
        silence_after_frames: after,
        original_start_lsn: b.start_lsn,
        original_frame_count: b.frame_count,
    }
}

pub fn plan_track_read(
    boundary: TrackBoundary,
    over_under_read_frames: i32,
    overread_leadinout: bool,
    disc_start_lsn: i32,
    disc_end_lsn: i32,
) -> (r: TrackReadPlan)
    ensures
        r == planned_read(boundary, over_under_read_frames, overread_leadinout, disc_start_lsn, disc_end_lsn),
{
    let adjusted = apply_offset_frame_adjustment(boundary, over_under_read_frames);
    let mut first = adjusted.start_lsn;
    let mut last = crate::workflow::boundary_last(&adjusted);
    let (before, after): (usize, usize) = if overread_leadinout {
        (0, 0)
    } else {
        let bb = clamp_to_i32(disc_start_lsn as i64 - first as i64);
        let before: usize = if bb < 0 { 0 } else { bb as usize };
        let aa = clamp_to_i32(last as i64 - disc_end_lsn as i64);
        let after: usize = if aa < 0 { 0 } else { aa as usize };
        first = clamp_to_i32(first as i64 + (before as i32) as i64);
        last = clamp_to_i32(last as i64 - (after as i32) as i64);
        (before, after)
    };
    let read: usize = if last >= first {
        let d = clamp_to_i32(last as i64 - first as i64);
        clamp_to_i32(d as i64 + 1) as usize
    } else {
        0
    };
    let s1: usize = if read as u128 + before as u128 > usize::MAX as u128 { usize::MAX } else { read + before };
    let total: usize = if s1 as u128 + after as u128 > usize::MAX as u128 { usize::MAX } else { s1 + after };
    TrackReadPlan {
        track_number: adjusted.track_number,
        start_lsn: adjusted.start_lsn,
        frame_count: total,
        read_start_lsn: first,
        read_frame_count: read,
        silence_before_frames: before,
        silence_after_frames: after,
        original_start_lsn: boundary.start_lsn,
        original_frame_count: boundary.frame_count,
    }
}

/// The read plan of each track, in order.
pub fn build_track_read_plans(
    boundaries: &[TrackBoundary],
    over_under_read_frames: i32,
    overread_leadinout: bool,
    disc_start_lsn: i32,
    disc_end_lsn: i32,
) -> (r: Vec<TrackReadPlan>)
    ensures
        r@.len() == boundaries@.len(),
        forall|i: int| 0 <= i < r@.len() ==> #[trigger] r@[i] == planned_read(
            boundaries@[i],
            over_under_read_frames,
            overread_leadinout,
            disc_start_lsn,
            disc_end_lsn,
        ),
{
    let mut out: Vec<TrackReadPlan> = Vec::new();
    let mut i: usize = 0;
    while i < boundaries.len()
        invariant
            i <= boundaries@.len(),
            out@.len() == i,
            forall|j: int| 0 <= j < i ==> #[trigger] out@[j] == planned_read(
                boundaries@[j],
                over_under_read_frames,
                overread_leadinout,
                disc_start_lsn,
                disc_end_lsn,
            ),
        decreases boundaries.len() - i,
    {
        out.push(plan_track_read(boundaries[i], over_under_read_frames, overread_leadinout, disc_start_lsn, disc_end_lsn));
        i += 1;
    }
    out
}

// ---------------------------------------------------------------------------
// Silence and offset crop
// ---------------------------------------------------------------------------

/// The number of 16-bit values in a CD frame.
pub open spec fn i16_per_frame() -> int {
    1176
}

fn push_zeros(out: &mut Vec<i16>, n: usize)
    ensures
        final(out)@ == old(out)@ + Seq::new(n as nat, |k: int| 0i16),
{
    let ghost o = out@;
    let mut k: usize = 0;
    while k < n
        invariant
            k <= n,
            out@ == o + Seq::new(k as nat, |x: int| 0i16),
        decreases n - k,
    {
        out.push(0);
        assert(Seq::new((k + 1) as nat, |x: int| 0i16) =~= Seq::new(k as nat, |x: int| 0i16).push(0i16));
        k += 1;
    }
}

/// The track with `before` frames of silence in front and `after` behind.
pub fn add_silence_padding(pcm: PcmTrackData, silence_before_frames: usize, silence_after_frames: usize) -> (r:
    PcmTrackData)
    requires
        (silence_before_frames + silence_after_frames) * 1176 + pcm.interleaved_i16_samples@.len()
            <= usize::MAX,
    ensures
        r.spec == pcm.spec,
        r.interleaved_i16_samples@ == Seq::new((silence_before_frames * 1176) as nat, |k: int| 0i16)
            + pcm.interleaved_i16_samples@ + Seq::new((silence_after_frames * 1176) as nat, |k: int| 0i16),
{
    let before = silence_before_frames * 1176;
    let after = silence_after_frames * 1176;
    if before == 0 && after == 0 {
        assert(pcm.interleaved_i16_samples@ =~= Seq::new(0, |k: int| 0i16) + pcm.interleaved_i16_samples@
            + Seq::new(0, |k: int| 0i16));
        return pcm;
    }
    let mut out: Vec<i16> = Vec::new();
    push_zeros(&mut out, before);
    let mut i: usize = 0;
    let ghost z = out@;
    while i < pcm.interleaved_i16_samples.len()
        invariant
            i <= pcm.interleaved_i16_samples@.len(),
            out@ == z + pcm.interleaved_i16_samples@.take(i as int),
        decreases pcm.interleaved_i16_samples.len() - i,
    {
        out.push(pcm.interleaved_i16_samples[i]);
        assert(pcm.interleaved_i16_samples@.take(i + 1) =~= pcm.interleaved_i16_samples@.take(i as int).push(
            pcm.interleaved_i16_samples@[i as int],
        ));
        i += 1;
    }
    assert(pcm.interleaved_i16_samples@.take(i as int) =~= pcm.interleaved_i16_samples@);
    push_zeros(&mut out, after);
    PcmTrackData { spec: pcm.spec, interleaved_i16_samples: out }
}

/// The first sample that the offset crop keeps, before clamping.
pub open spec fn crop_start(plan: TrackReadPlan, offset_samples: i32) -> int {
    (plan.original_start_lsn - plan.start_lsn) * 1176 + offset_samples * 2
}

pub open spec fn clamp_to(x: int, lo: int, hi: int) -> int {
    if x < lo {
        lo
    } else if x > hi {
        hi
    } else {
        x
    }
}

/// The samples that the crop keeps: the track's true length from the exact
/// sample offset, padded with silence where the read fell short.
pub open spec fn cropped_samples(s: Seq<i16>, plan: TrackReadPlan, offset_samples: i32) -> Seq<i16> {
    let len = plan.original_frame_count * 1176;
    let st = clamp_to(crop_start(plan, offset_samples), 0, s.len() as int);
    let en = clamp_to(st + len, 0, s.len() as int);
    s.subrange(st, en) + Seq::new((len - (en - st)) as nat, |k: int| 0i16)
}

/// The crop puts the track at its true place on the disc. When the samples
/// read are the disc's from frame `plan.start_lsn` on (`disc(p)` being the
/// 16-bit value at position `p` of the disc, 1176 to a frame), and the read
/// covers the track shifted by the drive offset, the cropped track is the
/// disc's values from frame `plan.original_start_lsn` moved by
/// `offset_samples` stereo samples, for the track's length.
pub proof fn law_crop_keeps_the_offset_track(
    s: Seq<i16>,
    plan: TrackReadPlan,
    offset_samples: i32,
    disc: spec_fn(int) -> i16,
)
    requires
        forall|k: int| 0 <= k < s.len() ==> #[trigger] s[k] == disc(plan.start_lsn * 1176 + k),
        plan.start_lsn * 1176 <= plan.original_start_lsn * 1176 + 2 * offset_samples,
        plan.original_start_lsn * 1176 + 2 * offset_samples + plan.original_frame_count * 1176
            <= plan.start_lsn * 1176 + s.len(),
    ensures
        cropped_samples(s, plan, offset_samples).len() == plan.original_frame_count * 1176,
        forall|j: int|
            0 <= j < plan.original_frame_count * 1176 ==> #[trigger] cropped_samples(s, plan, offset_samples)[j]
                == disc(plan.original_start_lsn * 1176 + 2 * offset_samples + j),
{
    let st = crop_start(plan, offset_samples);
    let len = plan.original_frame_count * 1176;
    assert(st == plan.original_start_lsn * 1176 + 2 * offset_samples - plan.start_lsn * 1176);
    let c = cropped_samples(s, plan, offset_samples);
    assert(c =~= s.subrange(st, st + len) + Seq::new(0, |k: int| 0i16));
    assert forall|j: int| 0 <= j < len implies #[trigger] c[j] == disc(
        plan.original_start_lsn * 1176 + 2 * offset_samples + j,
    ) by {
        assert(c[j] == s[st + j]);
        assert(plan.start_lsn * 1176 + (st + j) == plan.original_start_lsn * 1176 + 2 * offset_samples + j);
    }
}

/// Crops a track read with whole-frame offset adjustment to its true,
/// sample-exact range.
pub fn apply_drive_offset_crop(pcm: PcmTrackData, plan: &TrackReadPlan, offset_samples: i32) -> (r: PcmTrackData)
    requires
        plan.original_frame_count * 2352 <= isize::MAX,
        pcm.interleaved_i16_samples@.len() <= isize::MAX,
    ensures
        r.spec == pcm.spec,
        r.interleaved_i16_samples@ == cropped_samples(pcm.interleaved_i16_samples@, *plan, offset_samples),
{
    let cs: i64 = (plan.original_start_lsn as i64 - plan.start_lsn as i64) * 1176 + (offset_samples as i64) * 2;
    let crop_len: i64 = (plan.original_frame_count as i64) * 1176;
    let total = pcm.interleaved_i16_samples.len() as i64;
    let start: i64 = if cs < 0 { 0 } else if cs > total { total } else { cs };
    let e0: i64 = start + crop_len;
    let end: i64 = if e0 > total { total } else { e0 };
    let mut out: Vec<i16> = Vec::new();
    let mut i = start as usize;
    while i < end as usize
        invariant
            0 <= start <= end <= total == pcm.interleaved_i16_samples@.len(),
            start as usize <= i <= end as usize,
            out@ == pcm.interleaved_i16_samples@.subrange(start as int, i as int),
        decreases end as usize - i,
    {
        out.push(pcm.interleaved_i16_samples[i]);
        assert(pcm.interleaved_i16_samples@.subrange(start as int, i + 1) =~= pcm.interleaved_i16_samples@.subrange(
            start as int,
            i as int,
        ).push(pcm.interleaved_i16_samples@[i as int]));
        i += 1;
    }
    let kept = (end - start) as usize;
    if kept < crop_len as usize {
        push_zeros(&mut out, crop_len as usize - kept);
    } else {
        assert(out@ =~= out@ + Seq::new(0, |k: int| 0i16));
    }
    PcmTrackData { spec: pcm.spec, interleaved_i16_samples: out }
}

// ---------------------------------------------------------------------------
// Acquisition
// ---------------------------------------------------------------------------

/// `{:?}` of a read error.
pub open spec fn read_error_text(e: CddaReadError) -> Seq<char> {
    match e {
        CddaReadError::SeekFailed(m) => "SeekFailed("@ + debug_quoted(m@) + ")"@,
        CddaReadError::ReadFailed(m) => "ReadFailed("@ + debug_quoted(m@) + ")"@,
    }
}

fn read_error_debug(e: &CddaReadError) -> (r: String)
    ensures
        r@ == read_error_text(*e),
{
    let (name, m) = match e {
        CddaReadError::SeekFailed(m) => ("SeekFailed(", m),
        CddaReadError::ReadFailed(m) => ("ReadFailed(", m),
    };
    let mut out = String::from_str(name);
    let q = debug_quote(m.as_str());
    out.append(q.as_str());
    out.append(")");
    out
}

fn runtime_error(prefix: &str, e: &CddaReadError) -> (r: RunWorkflowError)
    ensures
        runtime_msg(r) == Some(prefix@ + read_error_text(*e)),
{
    let mut m = String::from_str(prefix);
    let d = read_error_debug(e);
    m.append(d.as_str());
    RunWorkflowError::Runtime(m)
}

/// Whether an acquisition error is a failed seek or read, as the reader
/// reported it.
pub open spec fn read_failure(r: RunWorkflowError) -> bool {
    exists|e: CddaReadError|
        runtime_msg(r) == Some("frame seek failed: "@ + read_error_text(e)) || runtime_msg(r) == Some(
            "frame read failed: "@ + read_error_text(e),
        )
}

/// Reads `frame_count` frames from `start_lsn` on as CD audio.
pub fn acquire_track_pcm_from_reader<R: CddaFrameReader>(reader: &mut R, start_lsn: i32, frame_count: usize) -> (r:
    Result<PcmTrackData, RunWorkflowError>)
    ensures
        r matches Ok(p) ==> p.spec == cd_spec(),
        r matches Err(e) ==> read_failure(e),
        final(reader).served_image() == old(reader).served_image(),
        final(reader).media_steady() == old(reader).media_steady(),
        crate::cdda::reader::never_fails(*old(reader)) ==> crate::cdda::reader::never_fails(*final(reader)),
        serves_track(*old(reader), start_lsn, frame_count) ==> (r matches Ok(p)
            && p.interleaved_i16_samples@ == frames_samples(
            track_frames(*old(reader), start_lsn, frame_count),
        )),
{
    let ghost smooth = serves_track(*old(reader), start_lsn, frame_count);
    let ghost track = track_frames(*old(reader), start_lsn, frame_count);
    match reader.seek_frame(start_lsn) {
        Ok(()) => {},
        Err(e) => {
            return Err(runtime_error("frame seek failed: ", &e));
        },
    }
    let mut samples: Vec<i16> = Vec::new();
    let mut k: usize = 0;
    assert(track.take(0) =~= Seq::<Seq<u8>>::empty());
    while k < frame_count
        invariant
            k <= frame_count,
            smooth == serves_track(*old(reader), start_lsn, frame_count),
            track == track_frames(*old(reader), start_lsn, frame_count),
            reader.served_image() == old(reader).served_image(),
            reader.media_steady() == old(reader).media_steady(),
            crate::cdda::reader::never_fails(*old(reader)) ==> crate::cdda::reader::never_fails(*reader),
            reader.served_image() is Some && smooth ==> forall|j: nat| !#[trigger] reader.fails_ahead(j),
            smooth ==> reader.read_position() == start_lsn + k && samples@ == frames_samples(
                track.take(k as int),
            ),
        decreases frame_count - k,
    {
        let frame = match reader.read_frame() {
            Ok(f) => f,
            Err(e) => {
                return Err(runtime_error("frame read failed: ", &e));
            },
        };
        push_frame_samples(&mut samples, &frame);
        assert(smooth ==> track.take(k + 1).drop_last() =~= track.take(k as int) && track.take(
            k + 1,
        ).last() == frame@);
        k += 1;
    }
    assert(smooth ==> track.take(frame_count as int) == track);
    Ok(PcmTrackData {
        spec: PcmSpec { channels: 2, sample_rate: 44100, bits_per_sample: 16 },
        interleaved_i16_samples: samples,
    })
}

/// The retry policy of a drive read: repeated passes until `ripping_retries`
/// checksums agree, at most `max_retries` (at least one) passes, or none.
pub fn drive_retry_policy(ripping_retries: i32, max_retries: i32) -> (r: RetryPolicy)
    ensures
        ripping_retries > 0 ==> r.required_matches == ripping_retries as u32 && r.max_retries == (if max_retries
            < 1 {
            1
        } else {
            max_retries
        }) as u32,
        ripping_retries <= 0 ==> r.required_matches == 0 && r.max_retries == 0,
        r@.prior_checksums.len() == 0,
{
    if ripping_retries > 0 {
        let m: i32 = if max_retries < 1 { 1 } else { max_retries };
        RetryPolicy::new(ripping_retries as u32, m as u32)
    } else {
        RetryPolicy::disabled()
    }
}

/// What a drive run gives for a track: a failed run is an error naming its
/// state; otherwise its final frames as audio, or, without final frames, an
/// error naming the track, the state and whether the retry limit was reached.
pub open spec fn drive_run_outcome(run: ParanoiaTrackRunResult, track_number: u32) -> Result<
    Seq<i16>,
    Seq<char>,
> {
    if run.state == RipState::Failed {
        Err("physical paranoia run did not complete track: "@ + rip_state_name(run.state))
    } else {
        match run.final_frames {
            Some(frames) => Ok(frames_samples(frames_view(frames@))),
            None => Err(
                "physical paranoia run produced no finalized frames for track "@ + dec(
                    track_number as nat,
                ) + ": state "@ + rip_state_name(run.state) + ", retry-limit-reached "@ + (if run.events@.contains(
                    RipEvent::RetryLimitReached,
                ) {
                    "true"@
                } else {
                    "false"@
                }),
            ),
        }
    }
}

/// The audio of a drive run, or why it has none (see `drive_run_outcome`).
pub fn pcm_from_drive_run(run: &ParanoiaTrackRunResult, track_number: u32) -> (r: Result<
    PcmTrackData,
    RunWorkflowError,
>)
    ensures
        match drive_run_outcome(*run, track_number) {
            Ok(samples) => r matches Ok(p) && p.spec == cd_spec() && p.interleaved_i16_samples@
                == samples,
            Err(m) => r matches Err(e) && runtime_msg(e) == Some(m),
        },
{
    if run.state == RipState::Failed {
        let mut m = String::from_str("physical paranoia run did not complete track: ");
        m.append(rip_state_debug(run.state));
        return Err(RunWorkflowError::Runtime(m));
    }
    match &run.final_frames {
        Some(frames) => Ok(pcm_from_cdda_frames(frames.as_slice())),
        None => {
            let mut m = String::from_str("physical paranoia run produced no finalized frames for track ");
            push_dec(&mut m, track_number as u64);
            m.append(": state ");
            m.append(rip_state_debug(run.state));
            m.append(", retry-limit-reached ");
            let limit = contains_event(&run.events, RipEvent::RetryLimitReached);
            m.append(if limit { "true" } else { "false" });
            Err(RunWorkflowError::Runtime(m))
        },
    }
}

/// `{:?}` of the error of opening a drive in a build without a drive
/// backend.
pub open spec fn drive_unavailable_text() -> Seq<char> {
    "ReadFailed("@ + debug_quoted(backend_unavailable_message()) + ")"@
}

/// Reads a track from the drive: through the paranoia engine from level 1
/// on, with the byte sum of a pass as its checksum; directly otherwise.
pub fn acquire_track_pcm_from_physical_reader(
    dev_path: Option<&str>,
    paranoia_level: i32,
    ripping_retries: i32,
    max_retries: i32,
    frame_count: usize,
    start_lsn: i32,
    track_number: u32,
) -> (r: Result<PcmTrackData, RunWorkflowError>)
    ensures
        r matches Err(e) && runtime_msg(e) == Some(
            (if paranoia_level > 0 {
                "physical paranoia run failed: "@
            } else {
                "physical drive open failed: "@
            }) + drive_unavailable_text(),
        ),
{
    let device_path: Option<&str> = match dev_path {
        Some(d) => Some(d),
        None => Some("/dev/cdrom"),
    };
    if paranoia_level > 0 {
        let mut retry_policy = drive_retry_policy(ripping_retries, max_retries);
        let frame_retries: u32 = if max_retries < 0 { 0 } else { max_retries as u32 };
        let run = match run_paranoia_on_linux_drive_with_defaults_for_level(
            device_path,
            paranoia_level,
            start_lsn,
            frame_count,
            frame_retries,
            &mut retry_policy,
            frames_byte_sum,
        ) {
            Ok(run) => run,
            Err(e) => {
                return Err(runtime_error("physical paranoia run failed: ", &e));
            },
        };
        return pcm_from_drive_run(&run, track_number);
    }
    let mut reader = match open_linux_physical_drive(device_path) {
        Ok(r) => r,
        Err(e) => {
            return Err(runtime_error("physical drive open failed: ", &e));
        },
    };
    let res = acquire_track_pcm_from_reader(&mut reader, start_lsn, frame_count);
    reader.close();
    res
}

fn contains_event(events: &Vec<RipEvent>, e: RipEvent) -> (r: bool)
    ensures
        r == events@.contains(e),
{
    let mut i: usize = 0;
    while i < events.len()
        invariant
            i <= events@.len(),
            forall|j: int| 0 <= j < i ==> events@[j] != e,
        decreases events.len() - i,
    {
        if events[i] == e {
            assert(events@[i as int] == e);
            return true;
        }
        i += 1;
    }
    false
}


// ---------------------------------------------------------------------------
// Reading tracks from a disc image
// ---------------------------------------------------------------------------

/// The frames a disc image holds when none is given: byte `j` of frame `i`
/// is `31 i + 17 j` modulo 256.
pub fn build_synthetic_frames(frame_count: usize) -> (r: Vec<Vec<u8>>)
    requires
        frame_count <= 0x1000_0000,
    ensures
        r@.len() == frame_count,
        forall|i: int, j: int|
            0 <= i < frame_count && 0 <= j < CDDA_FRAME_BYTES ==> #[trigger] r@[i]@[j] == ((31 * i
                + 17 * j) % 256) as u8,
        forall|i: int| 0 <= i < frame_count ==> #[trigger] r@[i]@.len() == CDDA_FRAME_BYTES,
{
    let mut frames: Vec<Vec<u8>> = Vec::new();
    let mut i: usize = 0;
    while i < frame_count
        invariant
            i <= frame_count <= 0x1000_0000,
            frames@.len() == i,
            forall|a: int, j: int|
                0 <= a < i && 0 <= j < CDDA_FRAME_BYTES ==> #[trigger] frames@[a]@[j] == ((31 * a + 17
                    * j) % 256) as u8,
            forall|a: int| 0 <= a < i ==> #[trigger] frames@[a]@.len() == CDDA_FRAME_BYTES,
        decreases frame_count - i,
    {
        let mut frame: Vec<u8> = Vec::new();
        let mut j: usize = 0;
        while j < CDDA_FRAME_BYTES
            invariant
                i < frame_count <= 0x1000_0000,
                j <= CDDA_FRAME_BYTES,
                frame@.len() == j,
                forall|b: int| 0 <= b < j ==> #[trigger] frame@[b] == ((31 * i + 17 * b) % 256) as u8,
            decreases CDDA_FRAME_BYTES - j,
        {
            frame.push((((i as u64) * 31 + (j as u64) * 17) % 256) as u8);
            j += 1;
        }
        frames.push(frame);
        i += 1;
    }
    frames
}

/// The name `{:?}` gives a rip state.
pub open spec fn rip_state_name(s: RipState) -> Seq<char> {
    match s {
        RipState::Idle => "Idle"@,
        RipState::Reading => "Reading"@,
        RipState::Finalizing => "Finalizing"@,
        RipState::TrackComplete => "TrackComplete"@,
        RipState::RetryPending => "RetryPending"@,
        RipState::Aborted => "Aborted"@,
        RipState::Failed => "Failed"@,
    }
}

fn rip_state_debug(s: RipState) -> (r: &'static str)
    ensures
        r@ == rip_state_name(s),
{
    match s {
        RipState::Idle => "Idle",
        RipState::Reading => "Reading",
        RipState::Finalizing => "Finalizing",
        RipState::TrackComplete => "TrackComplete",
        RipState::RetryPending => "RetryPending",
        RipState::Aborted => "Aborted",
        RipState::Failed => "Failed",
    }
}

/// An empty CD track.
fn empty_cd_pcm() -> (r: PcmTrackData)
    ensures
        r.spec == cd_spec(),
        r.interleaved_i16_samples@.len() == 0,
{
    PcmTrackData {
        spec: PcmSpec { channels: 2, sample_rate: 44100, bits_per_sample: 16 },
        interleaved_i16_samples: Vec::new(),
    }
}

/// The sizes of a read plan stay within what memory can address.
pub open spec fn plan_fits_memory(p: TrackReadPlan) -> bool {
    &&& p.original_frame_count * 2352 <= isize::MAX
    &&& (p.silence_before_frames + p.silence_after_frames) * 1176 <= isize::MAX / 4
}

/// Frame `i` of the synthetic disc image.
pub open spec fn synthetic_frame(i: int) -> Seq<u8> {
    Seq::new(CDDA_FRAME_BYTES as nat, |j: int| ((31 * i + 17 * j) % 256) as u8)
}

/// `count` synthetic frames from frame `start` on.
pub open spec fn synthetic_track(start: int, count: int) -> Seq<Seq<u8>> {
    Seq::new(count as nat, |k: int| synthetic_frame(start + k))
}

/// The frame after the last one a plan reads (a negative start counts as
/// frame 0).
pub open spec fn plan_image_end(p: TrackReadPlan) -> int {
    (if p.read_start_lsn < 0 {
        0
    } else {
        p.read_start_lsn as int
    }) + p.read_frame_count
}

/// A plan the synthetic image serves: it reads nothing before frame 0,
/// nothing past the largest image memory holds, and no more samples than
/// memory can address.
pub open spec fn image_plan_readable(p: TrackReadPlan) -> bool {
    &&& p.read_frame_count > 0 ==> p.read_start_lsn >= 0
    &&& plan_image_end(p) <= 0x1000_0000
    &&& p.read_frame_count * 1176 <= isize::MAX / 2
}

/// The samples of a planned track read from the synthetic image: the frames
/// it reads, decoded, with the planned silence around them, cropped by the
/// drive offset.
pub open spec fn image_track_samples(p: TrackReadPlan, offset: i32) -> Seq<i16> {
    let read = frames_samples(synthetic_track(p.read_start_lsn as int, p.read_frame_count as int));
    let padded = Seq::new((p.silence_before_frames * 1176) as nat, |k: int| 0i16) + read + Seq::new(
        (p.silence_after_frames * 1176) as nat,
        |k: int| 0i16,
    );
    cropped_samples(padded, p, offset)
}

/// Frames of 2352 bytes hold 1176 samples each.
proof fn lemma_frames_samples_len(fs: Seq<Seq<u8>>)
    requires
        forall|i: int| 0 <= i < fs.len() ==> #[trigger] fs[i].len() == CDDA_FRAME_BYTES,
    ensures
        frames_samples(fs).len() == fs.len() * 1176,
    decreases fs.len(),
{
    if fs.len() > 0 {
        lemma_frames_samples_len(fs.drop_last());
        assert(fs.last().len() == CDDA_FRAME_BYTES);
    }
}

/// Reads each planned track from a disc image of synthetic frames: with
/// paranoia, passes are compared (the byte sum of a pass is its checksum),
/// and a run that does not converge keeps its last frames; then the silence
/// outside the disc is added and the drive offset cropped.
pub fn acquire_tracks_pcm_from_image_reader(
    paranoia_level: i32,
    ripping_retries: i32,
    max_retries: i32,
    offset: i32,
    plans: &[TrackReadPlan],
) -> (r: Result<Vec<(u32, PcmTrackData)>, RunWorkflowError>)
    requires
        forall|i: int| 0 <= i < plans@.len() ==> #[trigger] plan_fits_memory(plans@[i]),
        forall|i: int| 0 <= i < plans@.len() ==> #[trigger] plans@[i].read_frame_count <= 0x0100_0000,
    ensures
        r matches Ok(v) ==> {
            &&& v@.len() == plans@.len()
            &&& forall|i: int| 0 <= i < v@.len() ==> (#[trigger] v@[i]).0 == plans@[i].track_number
                && v@[i].1.spec == cd_spec() && v@[i].1.interleaved_i16_samples@.len()
                == plans@[i].original_frame_count * 1176
        },
        r matches Err(e) ==> runtime_msg(e) is Some,
        (forall|i: int| 0 <= i < plans@.len() ==> #[trigger] image_plan_readable(plans@[i])) ==> (
        r matches Ok(v) && forall|i: int|
            0 <= i < v@.len() ==> (#[trigger] v@[i]).1.interleaved_i16_samples@
                == image_track_samples(plans@[i], offset)),
{
    let ghost readable = forall|i: int| 0 <= i < plans@.len() ==> #[trigger] image_plan_readable(plans@[i]);
    let mut max_frame_end: usize = 0;
    let mut k: usize = 0;
    while k < plans.len()
        invariant
            k <= plans@.len(),
            max_frame_end <= 0x0200_0000 + 0x8000_0000usize,
            forall|i: int| 0 <= i < plans@.len() ==> #[trigger] plans@[i].read_frame_count <= 0x0100_0000,
            forall|j: int| 0 <= j < k && plan_image_end(plans@[j]) <= 0x0200_0000 + 0x8000_0000usize
                ==> #[trigger] plan_image_end(plans@[j]) <= max_frame_end,
            readable == (forall|i: int| 0 <= i < plans@.len() ==> #[trigger] image_plan_readable(plans@[i])),
            readable ==> max_frame_end <= 0x1000_0000,
        decreases plans.len() - k,
    {
        let start: usize = if plans[k].read_start_lsn < 0 { 0 } else { plans[k].read_start_lsn as usize };
        let end = start + plans[k].read_frame_count;
        assert(end == plan_image_end(plans@[k as int]));
        assert(readable ==> image_plan_readable(plans@[k as int]));
        if end > max_frame_end && end <= 0x0200_0000 + 0x8000_0000usize {
            max_frame_end = end;
        }
        k += 1;
    }
    let total_frames: usize = if plans.len() == 0 || max_frame_end < 32 { 32 } else { max_frame_end };
    if total_frames > 0x1000_0000 {
        return Err(RunWorkflowError::Runtime(String::from_str("image read exceeds addressable memory")));
    }
    let frames = build_synthetic_frames(total_frames);
    let mut reader = crate::cdda::reader::FaultInjectedImageReader::new(frames);
    let ghost image = reader.frames();
    proof {
        assert forall|f: int| 0 <= f < total_frames implies #[trigger] image[f] == synthetic_frame(f) by {
            assert(image[f] =~= synthetic_frame(f));
        }
    }
    let mut out: Vec<(u32, PcmTrackData)> = Vec::new();
    let mut i: usize = 0;
    while i < plans.len()
        invariant
            i <= plans@.len(),
            out@.len() == i,
            forall|j: int| 0 <= j < plans@.len() ==> #[trigger] plan_fits_memory(plans@[j]),
            forall|j: int| 0 <= j < i ==> (#[trigger] out@[j]).0 == plans@[j].track_number
                && out@[j].1.spec == cd_spec() && out@[j].1.interleaved_i16_samples@.len()
                == plans@[j].original_frame_count * 1176,
            readable == (forall|j: int| 0 <= j < plans@.len() ==> #[trigger] image_plan_readable(plans@[j])),
            readable ==> forall|j: int| 0 <= j < plans@.len() ==> #[trigger] plan_image_end(plans@[j])
                <= total_frames,
            image.len() == total_frames,
            total_frames <= 0x1000_0000,
            forall|f: int| 0 <= f < total_frames ==> #[trigger] image[f] == synthetic_frame(f),
            reader.served_image() == Some(image),
            reader.media_steady(),
            crate::cdda::reader::never_fails(reader),
            readable ==> forall|j: int| 0 <= j < i ==> (#[trigger] out@[j]).1.interleaved_i16_samples@
                == image_track_samples(plans@[j], offset),
        decreases plans.len() - i,
    {
        let plan = &plans[i];
        let start_lsn = plan.read_start_lsn;
        let frame_count = plan.read_frame_count;
        let ghost track = synthetic_track(start_lsn as int, frame_count as int);
        proof {
            if readable {
                assert(image_plan_readable(plans@[i as int]));
                assert(plan_image_end(plans@[i as int]) <= total_frames);
                if frame_count > 0 {
                    assert(serves_track(reader, start_lsn, frame_count));
                    assert(track_frames(reader, start_lsn, frame_count) =~= track);
                }
            }
        }
        let mut fallback: Option<PcmTrackData> = None;
        if paranoia_level > 0 && frame_count > 0 {
            let mut retry_policy = drive_retry_policy(ripping_retries, max_retries);
            let heuristics = crate::cdda::reader::ParanoiaHeuristicConfig::default();
            let run = match crate::cdda::reader::run_track_with_paranoia_heuristics_interruptible(
                &mut reader,
                start_lsn,
                frame_count,
                if max_retries < 0 { 0 } else { max_retries as u32 },
                &mut retry_policy,
                heuristics,
                crate::cdda::reader::never_interrupt,
                frames_byte_sum,
            ) {
                Ok(run) => run,
                Err(e) => {
                    return Err(runtime_error("image paranoia run failed: ", &e));
                },
            };
            if crate::workflow::paranoia_run_did_not_converge(run.state, run.events.as_slice()) {
                match &run.final_frames {
                    Some(fs) => {
                        assert(frames_view(fs@) =~= crate::cdda::reader::frames_view(fs@));
                        fallback = Some(pcm_from_cdda_frames(fs.as_slice()));
                    },
                    None => {
                        let mut m = String::from_str("image paranoia run did not complete track: ");
                        m.append(rip_state_debug(run.state));
                        return Err(RunWorkflowError::Runtime(m));
                    },
                }
            }
        }
        let pcm = match fallback {
            Some(p) => p,
            None => if frame_count > 0 {
                match acquire_track_pcm_from_reader(&mut reader, start_lsn, frame_count) {
                    Ok(p) => p,
                    Err(e) => {
                        return Err(e);
                    },
                }
            } else {
                empty_cd_pcm()
            },
        };
        proof {
            if readable {
                assert(pcm.interleaved_i16_samples@ == frames_samples(track));
                lemma_frames_samples_len(track);
            }
        }
        if pcm.interleaved_i16_samples.len() > (isize::MAX as usize) / 2 {
            return Err(RunWorkflowError::Runtime(String::from_str("image read exceeds addressable memory")));
        }
        proof {
            assert(plan_fits_memory(plans@[i as int]));
        }
        let pcm = add_silence_padding(pcm, plan.silence_before_frames, plan.silence_after_frames);
        let pcm = apply_drive_offset_crop(pcm, plan, offset);
        out.push((plan.track_number, pcm));
        i += 1;
    }
    Ok(out)
}

} // verus!
