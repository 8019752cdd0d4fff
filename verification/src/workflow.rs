//! The decisions of the rip workflow that do not touch a drive, a file or
//! the network: track selection, disc geometry, CUE start times, AccurateRip
//! checks and the messages shown to the user.
use vstd::prelude::*;

use crate::audio::PcmTrackData;
use crate::cdda::paranoia::{RipEvent, RipState};
use crate::cdda::reader::CddaReadError;
use crate::fun512::{acu_run, sample_at, samples_of, ChecksumCtx};
use crate::metadata::musicbrainz::ReleaseSummary;
use crate::naming::trim;
use crate::text::{contains, dec, dec_int, dec_pad, ostr, push_dec, push_dec_i64, push_dec_pad};
use crate::tags::TagMap;
use crate::OutputFormat;
use vstd::wrapping::u32_specs;

verus! {

#[derive(Debug, Clone, PartialEq, Eq)]
pub enum RunWorkflowError {
    UnsupportedOutputFormat(OutputFormat),
    NotYetImplemented(&'static str),
    Runtime(String),
}

pub open spec fn runtime_msg(e: RunWorkflowError) -> Option<Seq<char>> {
    match e {
        RunWorkflowError::Runtime(m) => Some(m@),
        _ => None,
    }
}

// ---------------------------------------------------------------------------
// Times
// ---------------------------------------------------------------------------

/// `MM:SS.FF` for a frame count (75 frames per second); negative counts
/// read as zero.
pub open spec fn msf_text(frames: i32) -> Seq<char> {
    let f: nat = if frames < 0 { 0 } else { frames as nat };
    dec_pad(f / 75 / 60, 2) + ":"@ + dec_pad((f / 75) % 60, 2) + "."@ + dec_pad(f % 75, 2)
}

pub fn format_msf_from_frames(frames: i32) -> (r: String)
    ensures
        r@ == msf_text(frames),
{
    let f: u64 = if frames < 0 { 0 } else { frames as u64 };
    let total_seconds = f / 75;
    let mut out = String::new();
    push_dec_pad(&mut out, total_seconds / 60, 2);
    out.append(":");
    push_dec_pad(&mut out, total_seconds % 60, 2);
    out.append(".");
    push_dec_pad(&mut out, f % 75, 2);
    out
}

// ---------------------------------------------------------------------------
// Track selection
// ---------------------------------------------------------------------------

/// A track of the disc's table of contents as the info report shows it.
#[derive(Debug, Clone, Copy, PartialEq, Eq, Structural)]
pub struct InfoTocEntry {
    pub number: u8,
    pub start_lsn: i32,
    pub end_lsn: i32,
    pub track_is_data: bool,
    pub pregap_lsn: Option<i32>,
}

pub open spec fn toc_has_number(toc: Seq<InfoTocEntry>, n: i32) -> bool {
    exists|i: int| 0 <= i < toc.len() && (#[trigger] toc[i]).number as i32 == n
}

/// The first requested index that is not positive or not on the disc.
pub open spec fn first_bad_index(toc: Seq<InfoTocEntry>, req: Seq<i32>, from: int) -> Option<i32>
    decreases req.len() - from,
{
    if from < 0 || from >= req.len() {
        None
    } else if req[from] <= 0 || !toc_has_number(toc, req[from]) {
        Some(req[from])
    } else {
        first_bad_index(toc, req, from + 1)
    }
}

pub open spec fn invalid_index_msg(idx: int, total: nat) -> Seq<char> {
    "Invalid rip index "@ + dec_int(idx) + ", list has "@ + dec(total) + " tracks!"@
}

fn toc_contains(toc: &[InfoTocEntry], n: i32) -> (r: bool)
    ensures
        r == toc_has_number(toc@, n),
{
    let mut i: usize = 0;
    while i < toc.len()
        invariant
            i <= toc@.len(),
            forall|j: int| 0 <= j < i ==> (#[trigger] toc@[j]).number as i32 != n,
        decreases toc.len() - i,
    {
        if toc[i].number as i32 == n {
            return true;
        }
        i += 1;
    }
    false
}

/// Checks a track selection against the disc: every index must be a track
/// number on it.
pub fn validate_requested_track_indices_against_toc(
    toc: &[InfoTocEntry],
    requested_indices: &[i32],
) -> (r: Result<(), RunWorkflowError>)
    ensures
        match first_bad_index(toc@, requested_indices@, 0) {
            None => r is Ok,
            Some(idx) => r matches Err(e) && runtime_msg(e) == Some(
                invalid_index_msg(idx as int, toc@.len()),
            ),
        },
{
    let mut i: usize = 0;
    while i < requested_indices.len()
        invariant
            i <= requested_indices@.len(),
            first_bad_index(toc@, requested_indices@, 0) == first_bad_index(
                toc@,
                requested_indices@,
                i as int,
            ),
        decreases requested_indices.len() - i,
    {
        let idx = requested_indices[i];
        if idx <= 0 || !toc_contains(toc, idx) {
            let mut msg = String::from_str("Invalid rip index ");
            push_dec_i64(&mut msg, idx as i64);
            msg.append(", list has ");
            push_dec(&mut msg, toc.len() as u64);
            msg.append(" tracks!");
            return Err(RunWorkflowError::Runtime(msg));
        }
        i += 1;
    }
    Ok(())
}

pub open spec fn u32_in(s: Seq<u32>, n: u32) -> bool {
    exists|i: int| 0 <= i < s.len() && s[i] == n
}

/// The first requested track that is not an available audio track.
pub open spec fn first_unavailable(req: Seq<u32>, avail: Seq<u32>, from: int) -> Option<u32>
    decreases req.len() - from,
{
    if from < 0 || from >= req.len() {
        None
    } else if !u32_in(avail, req[from]) {
        Some(req[from])
    } else {
        first_unavailable(req, avail, from + 1)
    }
}

fn contains_u32(s: &[u32], n: u32) -> (r: bool)
    ensures
        r == u32_in(s@, n),
{
    let mut i: usize = 0;
    while i < s.len()
        invariant
            i <= s@.len(),
            forall|j: int| 0 <= j < i ==> s@[j] != n,
        decreases s.len() - i,
    {
        if s[i] == n {
            return true;
        }
        i += 1;
    }
    false
}

fn copy_u32s(s: &[u32]) -> (r: Vec<u32>)
    ensures
        r@ == s@,
{
    let mut out: Vec<u32> = Vec::new();
    let mut i: usize = 0;
    while i < s.len()
        invariant
            i <= s@.len(),
            out@ == s@.take(i as int),
        decreases s.len() - i,
    {
        out.push(s[i]);
        assert(s@.take(i + 1) == s@.take(i as int).push(s@[i as int]));
        i += 1;
    }
    assert(s@.take(s@.len() as int) == s@);
    out
}

/// The audio tracks to rip: all available ones when none are requested,
/// otherwise the requested ones, each of which must be available.
pub fn resolve_requested_audio_tracks(
    requested_track_numbers: &[u32],
    available_audio_tracks: &[u32],
    total_tracks_on_disc: usize,
) -> (r: Result<Vec<u32>, RunWorkflowError>)
    ensures
        requested_track_numbers@.len() == 0 ==> (r matches Ok(v) && v@
            == available_audio_tracks@),
        requested_track_numbers@.len() > 0 ==> match first_unavailable(
            requested_track_numbers@,
            available_audio_tracks@,
            0,
        ) {
            None => r matches Ok(v) && v@ == requested_track_numbers@,
            Some(n) => r matches Err(e) && runtime_msg(e) == Some(
                invalid_index_msg(n as int, total_tracks_on_disc as nat),
            ),
        },
{
    if requested_track_numbers.len() == 0 {
        return Ok(copy_u32s(available_audio_tracks));
    }
    let mut i: usize = 0;
    while i < requested_track_numbers.len()
        invariant
            i <= requested_track_numbers@.len(),
            first_unavailable(requested_track_numbers@, available_audio_tracks@, 0)
                == first_unavailable(requested_track_numbers@, available_audio_tracks@, i as int),
        decreases requested_track_numbers.len() - i,
    {
        let n = requested_track_numbers[i];
        if !contains_u32(available_audio_tracks, n) {
            let mut msg = String::from_str("Invalid rip index ");
            push_dec(&mut msg, n as u64);
            msg.append(", list has ");
            push_dec(&mut msg, total_tracks_on_disc as u64);
            msg.append(" tracks!");
            return Err(RunWorkflowError::Runtime(msg));
        }
        i += 1;
    }
    Ok(copy_u32s(requested_track_numbers))
}

/// The positive entries of a track selection, as track numbers.
pub open spec fn positive_indices(s: Seq<i32>) -> Seq<u32>
    decreases s.len(),
{
    if s.len() == 0 {
        Seq::empty()
    } else {
        positive_indices(s.drop_last()) + if s.last() > 0 {
            seq![s.last() as u32]
        } else {
            Seq::<u32>::empty()
        }
    }
}

pub fn selected_track_numbers(rip_indices: &[i32]) -> (r: Vec<u32>)
    ensures
        r@ == positive_indices(rip_indices@),
{
    let mut out: Vec<u32> = Vec::new();
    let mut i: usize = 0;
    while i < rip_indices.len()
        invariant
            i <= rip_indices@.len(),
            out@ == positive_indices(rip_indices@.take(i as int)),
        decreases rip_indices.len() - i,
    {
        assert(rip_indices@.take(i + 1).drop_last() == rip_indices@.take(i as int));
        if rip_indices[i] > 0 {
            out.push(rip_indices[i] as u32);
        }
        i += 1;
    }
    assert(rip_indices@.take(rip_indices@.len() as int) == rip_indices@);
    out
}

// ---------------------------------------------------------------------------
// MusicBrainz prompts
// ---------------------------------------------------------------------------

/// An optional text that is present and not blank.
pub open spec fn non_blank(o: Option<Seq<char>>) -> Option<Seq<char>> {
    match o {
        Some(s) => if trim(s).len() > 0 {
            Some(s)
        } else {
            None
        },
        None => None,
    }
}

/// One line of the release list: 1-based number, identifier, title, then
/// country, date and number of CDs where known.
pub open spec fn release_line(idx: usize, r: ReleaseSummary) -> Seq<char> {
    let n: nat = if idx == usize::MAX { idx as nat } else { (idx + 1) as nat };
    "    "@ + dec(n) + " (ID: "@ + r.id@ + "): "@ + r.album@ + match non_blank(ostr(r.country)) {
        Some(c) => " ("@ + c + ")"@,
        None => Seq::empty(),
    } + match non_blank(ostr(r.date)) {
        Some(d) => " ("@ + d + ")"@,
        None => Seq::empty(),
    } + if r.num_cds > 1 {
        " ("@ + dec_int(r.num_cds as int) + " CDs)"@
    } else {
        Seq::empty()
    }
}

fn push_if_non_blank(out: &mut String, o: &Option<String>)
    ensures
        final(out)@ == old(out)@ + match non_blank(ostr(*o)) {
            Some(c) => " ("@ + c + ")"@,
            None => Seq::empty(),
        },
{
    if let Some(c) = o {
        if !crate::metadata::musicbrainz::discid_is_blank(c.as_str()) {
            out.append(" (");
            out.append(c.as_str());
            out.append(")");
        }
    }
}

pub fn format_musicbrainz_release_summary_for_info_mode(idx: usize, release: &ReleaseSummary) -> (r:
    String)
    ensures
        r@ == release_line(idx, *release),
{
    let mut out = String::from_str("    ");
    let n: u64 = if idx == usize::MAX { idx as u64 } else { (idx + 1) as u64 };
    push_dec(&mut out, n);
    out.append(" (ID: ");
    out.append(release.id.as_str());
    out.append("): ");
    out.append(release.album.as_str());
    push_if_non_blank(&mut out, &release.country);
    push_if_non_blank(&mut out, &release.date);
    if release.num_cds > 1 {
        out.append(" (");
        push_dec_i64(&mut out, release.num_cds as i64);
        out.append(" CDs)");
    }
    out
}

/// The release lines of `rs[..k]`, each ending a line.
pub open spec fn release_lines(rs: Seq<ReleaseSummary>, k: nat) -> Seq<char>
    decreases k,
{
    if k == 0 {
        Seq::empty()
    } else {
        release_lines(rs, (k - 1) as nat) + release_line((k - 1) as usize, rs[k - 1]) + "\n"@
    }
}

/// The prompt shown when a disc matches several releases.
pub open spec fn multiple_releases_text(discid: Seq<char>, rs: Seq<ReleaseSummary>) -> Seq<char> {
    "Multiple releases found in database for DiscID "@ + discid + ":\n"@ + release_lines(
        rs,
        rs.len(),
    ) + "\nPlease specify which release to use by adding the -R argument with an index or ID."@
}

pub fn format_musicbrainz_multiple_releases_message(discid: &str, releases: &[ReleaseSummary]) -> (r:
    String)
    ensures
        r@ == multiple_releases_text(discid@, releases@),
{
    let mut out = String::from_str("Multiple releases found in database for DiscID ");
    out.append(discid);
    out.append(":\n");
    let ghost head = out@;
    let mut i: usize = 0;
    while i < releases.len()
        invariant
            i <= releases@.len(),
            out@ == head + release_lines(releases@, i as nat),
        decreases releases.len() - i,
    {
        let line = format_musicbrainz_release_summary_for_info_mode(i, &releases[i]);
        out.append(line.as_str());
        out.append("\n");
        i += 1;
    }
    out.append("\nPlease specify which release to use by adding the -R argument with an index or ID.");
    out
}

// ---------------------------------------------------------------------------
// Paranoia and AccurateRip checks
// ---------------------------------------------------------------------------

pub open spec fn has_event(events: Seq<RipEvent>, e: RipEvent) -> bool {
    exists|i: int| 0 <= i < events.len() && events[i] == e
}

/// A paranoia run counts as not converged unless it completed the track
/// without hitting the retry limit.
pub fn paranoia_run_did_not_converge(state: RipState, events: &[RipEvent]) -> (r: bool)
    ensures
        r == (state != RipState::TrackComplete || has_event(events@, RipEvent::RetryLimitReached)),
{
    if state != RipState::TrackComplete {
        return true;
    }
    let mut i: usize = 0;
    while i < events.len()
        invariant
            i <= events@.len(),
            forall|j: int| 0 <= j < i ==> events@[j] != RipEvent::RetryLimitReached,
        decreases events.len() - i,
    {
        if events[i] == RipEvent::RetryLimitReached {
            return true;
        }
        i += 1;
    }
    false
}

/// The AccurateRip v1 sum of one frame: each little-endian word times its
/// 1-based position, wrapping at 32 bits.
pub open spec fn frame_v1_sum(words: Seq<u32>) -> u32
    decreases words.len(),
{
    if words.len() == 0 {
        0
    } else {
        u32_specs::wrapping_add(
            frame_v1_sum(words.drop_last()),
            u32_specs::wrapping_mul(words.last(), u32_specs::wrapping_add((words.len() - 1) as u32, 1)),
        )
    }
}

pub fn accurip_v1_checksum(frame: &[u8]) -> (r: u32)
    ensures
        r == frame_v1_sum(samples_of(frame@)),
{
    let n = frame.len();
    let count = n / 4;
    let ghost ws = samples_of(frame@);
    let mut sum: u32 = 0;
    let mut i: usize = 0;
    assert(ws.take(0) =~= Seq::<u32>::empty());
    while i < count
        invariant
            n == frame@.len(),
            count == n / 4,
            ws == samples_of(frame@),
            i <= count,
            sum == frame_v1_sum(ws.take(i as int)),
        decreases count - i,
    {
        assert(i * 4 + 4 <= n) by (nonlinear_arith)
            requires
                i < count,
                count == n / 4,
        ;
        let o = i * 4;
        let value: u32 = frame[o] as u32 + frame[o + 1] as u32 * 256 + frame[o + 2] as u32 * 65536
            + frame[o + 3] as u32 * 16777216;
        assert(value == ws[i as int]);
        sum = sum.wrapping_add(value.wrapping_mul((i as u32).wrapping_add(1)));
        assert(ws.take(i + 1).drop_last() == ws.take(i as int));
        assert(ws.take(i + 1).len() - 1 == i);
        i += 1;
    }
    assert(ws.take(count as int) == ws);
    sum
}

/// The little-endian bytes of 16-bit samples.
pub open spec fn pcm_bytes(s: Seq<i16>) -> Seq<u8>
    decreases s.len(),
{
    if s.len() == 0 {
        Seq::empty()
    } else {
        let u = s.last() as u16;
        pcm_bytes(s.drop_last()) + seq![(u % 256) as u8, (u / 256) as u8]
    }
}

/// The AccurateRip v1 checksum of a track's samples: the first track skips
/// its first five frames and the last track its last five.
pub open spec fn track_v1_checksum(samples: Seq<i16>, first: bool, last: bool) -> u32 {
    let nb = (samples.len() / 2) as u32;
    let start: u32 = if first { 2940 } else { 0 };
    let end: u32 = if last { u32_specs::wrapping_sub(nb, 2940) } else { nb };
    acu_run(start, end, (1u32, 0u32, 0u32, 0u32), samples_of(pcm_bytes(samples))).1
}

/// The v1 sum of stereo sample words: each word times its position from 1,
/// summed (wrapping at 32 bits) over the positions from `lo` to `hi`.
pub open spec fn v1_sum_between(ws: Seq<u32>, lo: int, hi: int) -> u32
    decreases ws.len(),
{
    if ws.len() == 0 {
        0
    } else {
        let prev = v1_sum_between(ws.drop_last(), lo, hi);
        if lo <= ws.len() <= hi {
            u32_specs::wrapping_add(prev, u32_specs::wrapping_mul(ws.len() as u32, ws.last()))
        } else {
            prev
        }
    }
}

proof fn lemma_acu_run_v1(start: u32, end: u32, vals: Seq<u32>)
    requires
        vals.len() < u32::MAX,
    ensures
        acu_run(start, end, (1u32, 0u32, 0u32, 0u32), vals).0 == vals.len() + 1,
        acu_run(start, end, (1u32, 0u32, 0u32, 0u32), vals).1 == v1_sum_between(vals, start as int, end as int),
    decreases vals.len(),
{
    if vals.len() > 0 {
        lemma_acu_run_v1(start, end, vals.drop_last());
        let st = acu_run(start, end, (1u32, 0u32, 0u32, 0u32), vals.drop_last());
        assert(st.0 == vals.len());
        assert(u32_specs::wrapping_add(st.0, 1) == vals.len() + 1);
    }
}

proof fn lemma_pcm_bytes(s: Seq<i16>)
    ensures
        pcm_bytes(s).len() == 2 * s.len(),
        forall|j: int|
            0 <= j < s.len() ==> #[trigger] pcm_bytes(s)[2 * j] == ((s[j] as u16) % 256) as u8
                && pcm_bytes(s)[2 * j + 1] == ((s[j] as u16) / 256) as u8,
    decreases s.len(),
{
    if s.len() > 0 {
        lemma_pcm_bytes(s.drop_last());
        let p = pcm_bytes(s.drop_last());
        let u = s.last() as u16;
        assert(pcm_bytes(s) == p + seq![(u % 256) as u8, (u / 256) as u8]);
        assert forall|j: int| 0 <= j < s.len() implies #[trigger] pcm_bytes(s)[2 * j] == ((s[j] as u16) % 256) as u8
            && pcm_bytes(s)[2 * j + 1] == ((s[j] as u16) / 256) as u8 by {
            if j < s.len() - 1 {
                assert(s.drop_last()[j] == s[j]);
                assert(pcm_bytes(s.drop_last())[2 * j] == ((s[j] as u16) % 256) as u8);
            }
        }
    }
}

/// The stereo words of two sample sequences of one length agree where the
/// samples do.
proof fn lemma_words_agree(a: Seq<i16>, b: Seq<i16>, k: int)
    requires
        a.len() == b.len(),
        0 <= k <= a.len() / 2,
        forall|j: int| 0 <= j < 2 * k ==> #[trigger] a[j] == b[j],
    ensures
        samples_of(pcm_bytes(a)).len() == a.len() / 2,
        samples_of(pcm_bytes(b)).len() == a.len() / 2,
        forall|i: int| 0 <= i < k ==> #[trigger] samples_of(pcm_bytes(a))[i] == samples_of(pcm_bytes(b))[i],
{
    lemma_pcm_bytes(a);
    lemma_pcm_bytes(b);
    assert((2 * a.len()) / 4 == a.len() / 2);
    assert forall|i: int| 0 <= i < k implies #[trigger] samples_of(pcm_bytes(a))[i] == samples_of(pcm_bytes(b))[i] by {
        assert(a[2 * i] == b[2 * i]);
        assert(a[2 * i + 1] == b[2 * i + 1]);
        assert(pcm_bytes(a)[2 * (2 * i)] == pcm_bytes(b)[2 * (2 * i)]);
        assert(pcm_bytes(a)[2 * (2 * i) + 1] == pcm_bytes(b)[2 * (2 * i) + 1]);
        assert(pcm_bytes(a)[2 * (2 * i + 1)] == pcm_bytes(b)[2 * (2 * i + 1)]);
        assert(pcm_bytes(a)[2 * (2 * i + 1) + 1] == pcm_bytes(b)[2 * (2 * i + 1) + 1]);
        assert(4 * i == 2 * (2 * i) && 4 * i + 1 == 2 * (2 * i) + 1 && 4 * i + 2 == 2 * (2 * i + 1) && 4 * i + 3
            == 2 * (2 * i + 1) + 1);
        assert(samples_of(pcm_bytes(a))[i] == sample_at(pcm_bytes(a), i));
        assert(samples_of(pcm_bytes(b))[i] == sample_at(pcm_bytes(b), i));
    }
}

/// The v1 sum up to position `hi` sees only the words before it.
proof fn lemma_sum_agree(a: Seq<u32>, b: Seq<u32>, lo: int, hi: int)
    requires
        a.len() == b.len(),
        forall|i: int| 0 <= i < a.len() && i < hi ==> #[trigger] a[i] == b[i],
    ensures
        v1_sum_between(a, lo, hi) == v1_sum_between(b, lo, hi),
    decreases a.len(),
{
    if a.len() > 0 {
        lemma_sum_agree(a.drop_last(), b.drop_last(), lo, hi);
        if a.len() <= hi {
            assert(a.last() == b.last());
        }
    }
}

/// The AccurateRip v1 checksum of a track is the v1 sum of its stereo words
/// over the positions it counts: from 2940 on for the first track of a disc
/// (its first five frames are left out), up to five frames (2940 words)
/// before the end for the last track, and all of them otherwise.
pub proof fn law_track_v1_checksum_sum(s: Seq<i16>, first: bool, last: bool)
    requires
        s.len() / 2 < u32::MAX,
        last ==> s.len() / 2 >= 2940,
    ensures
        track_v1_checksum(s, first, last) == v1_sum_between(
            samples_of(pcm_bytes(s)),
            if first { 2940 } else { 0 },
            if last { s.len() / 2 - 2940 } else { (s.len() / 2) as int },
        ),
{
    lemma_words_agree(s, s, 0);
    let words = (s.len() / 2) as u32;
    let lo: u32 = if first { 2940 } else { 0 };
    let hi: u32 = if last { u32_specs::wrapping_sub(words, 2940) } else { words };
    lemma_acu_run_v1(lo, hi, samples_of(pcm_bytes(s)));
}

/// The last five frames of the disc's last track do not count: two tracks
/// that differ only in their last 2940 stereo samples have the same v1
/// checksum as last tracks.
pub proof fn law_last_track_skips_last_five_frames(a: Seq<i16>, b: Seq<i16>, first: bool)
    requires
        a.len() == b.len(),
        a.len() / 2 < u32::MAX,
        a.len() / 2 >= 2940,
        forall|j: int| 0 <= j < 2 * (a.len() / 2 - 2940) ==> #[trigger] a[j] == b[j],
    ensures
        track_v1_checksum(a, first, true) == track_v1_checksum(b, first, true),
{
    law_track_v1_checksum_sum(a, first, true);
    law_track_v1_checksum_sum(b, first, true);
    let k = a.len() / 2 - 2940;
    lemma_words_agree(a, b, k);
    lemma_sum_agree(samples_of(pcm_bytes(a)), samples_of(pcm_bytes(b)), if first { 2940 } else { 0 }, k);
}

pub fn accurip_v1_checksum_pcm(pcm: &PcmTrackData, is_first_track: bool, is_last_track: bool) -> (r:
    u32)
    ensures
        r == track_v1_checksum(pcm.interleaved_i16_samples@, is_first_track, is_last_track),
{
    let n = pcm.interleaved_i16_samples.len();
    let nb_samples = (n / 2) as u32;
    let mut ctx = ChecksumCtx::new(nb_samples, is_first_track, is_last_track);
    let mut buf: Vec<u8> = Vec::new();
    let mut i: usize = 0;
    while i < n
        invariant
            n == pcm.interleaved_i16_samples@.len(),
            i <= n,
            buf@ == pcm_bytes(pcm.interleaved_i16_samples@.take(i as int)),
        decreases n - i,
    {
        let u = pcm.interleaved_i16_samples[i] as u16;
        buf.push((u % 256) as u8);
        buf.push((u / 256) as u8);
        assert(pcm.interleaved_i16_samples@.take(i + 1).drop_last()
            == pcm.interleaved_i16_samples@.take(i as int));
        assert(buf@ =~= pcm_bytes(pcm.interleaved_i16_samples@.take(i + 1)));
        i += 1;
    }
    assert(pcm.interleaved_i16_samples@.take(n as int) == pcm.interleaved_i16_samples@);
    ctx.process_bytes(buf.as_slice());
    ctx.finalize().accurip_checksum_v1
}

// ---------------------------------------------------------------------------
// Drive errors
// ---------------------------------------------------------------------------

/// `{:?}` of a string: quoted, with escapes.
pub uninterp spec fn debug_quoted(s: Seq<char>) -> Seq<char>;

/// `<str as Debug>::fmt` through `format!("{:?}")`: the quoted, escaped form
/// of `s`, a function of `s` alone.
#[verifier::external_body]
pub(crate) fn debug_quote(s: &str) -> (r: String)
    ensures
        r@ == debug_quoted(s@),
{
    format!("{:?}", s)
}

pub open spec fn ascii_lower(s: Seq<char>) -> Seq<char> {
    s.map_values(|c: char| if 'A' <= c && c <= 'Z' { ((c as u32) + 32) as char } else { c })
}

pub open spec fn read_error_parts(e: CddaReadError) -> (Seq<char>, Seq<char>) {
    match e {
        CddaReadError::SeekFailed(m) => ("SeekFailed"@, m@),
        CddaReadError::ReadFailed(m) => ("ReadFailed"@, m@),
    }
}

/// What a failed TOC read tells the user: a missing or unreadable medium is
/// named as such; anything else is reported with the error itself.
pub open spec fn toc_error_text(e: CddaReadError) -> Seq<char> {
    let (variant, m) = read_error_parts(e);
    let lower = ascii_lower(m);
    if contains(lower, "no medium"@) || contains(lower, "invalid toc values"@) {
        "Drive has no readable audio medium inserted"@
    } else {
        "TOC read failed: "@ + variant + "("@ + debug_quoted(m) + ")"@
    }
}

pub(crate) fn lower_ascii(s: &str) -> (r: Vec<char>)
    ensures
        r@ == ascii_lower(s@),
{
    let v = crate::text::chars_of(s);
    let mut out: Vec<char> = Vec::new();
    let mut i: usize = 0;
    while i < v.len()
        invariant
            i <= v@.len(),
            v@ == s@,
            out@ == ascii_lower(v@.take(i as int)),
        decreases v.len() - i,
    {
        let c = v[i];
        let d = if 'A' <= c && c <= 'Z' {
            (((c as u32) + 32) as u8) as char
        } else {
            c
        };
        out.push(d);
        assert(ascii_lower(v@.take(i + 1)) =~= ascii_lower(v@.take(i as int)).push(d));
        i += 1;
    }
    assert(v@.take(v@.len() as int) == v@);
    out
}

pub fn map_toc_preflight_error(err: &CddaReadError) -> (r: RunWorkflowError)
    ensures
        runtime_msg(r) == Some(toc_error_text(*err)),
{
    let (variant, msg) = match err {
        CddaReadError::SeekFailed(m) => ("SeekFailed", m),
        CddaReadError::ReadFailed(m) => ("ReadFailed", m),
    };
    let lower = lower_ascii(msg.as_str());
    let p1 = crate::text::chars_of("no medium");
    let p2 = crate::text::chars_of("invalid toc values");
    if crate::text::chars_contains(lower.as_slice(), p1.as_slice())
        || crate::text::chars_contains(lower.as_slice(), p2.as_slice()) {
        return RunWorkflowError::Runtime(
            String::from_str("Drive has no readable audio medium inserted"),
        );
    }
    let mut out = String::from_str("TOC read failed: ");
    out.append(variant);
    out.append("(");
    let q = debug_quote(msg.as_str());
    out.append(q.as_str());
    out.append(")");
    RunWorkflowError::Runtime(out)
}


// ---------------------------------------------------------------------------
// Disc geometry
// ---------------------------------------------------------------------------

/// Where a track starts and how many frames it has.
#[derive(Debug, Clone, Copy, PartialEq, Eq, Structural)]
pub struct TrackBoundary {
    pub track_number: u32,
    pub start_lsn: i32,
    pub frame_count: usize,
}

/// A track as the metadata services see it.
#[derive(Debug, Clone, Copy, PartialEq, Eq, Structural)]
pub struct AppTrack {
    pub number: u8,
    pub start_lsn: i32,
    pub end_lsn: i32,
    pub track_is_data: bool,
}

/// `x` clamped to the `i32` range.
pub open spec fn clamp_i32(x: int) -> i32 {
    if x > i32::MAX {
        i32::MAX
    } else if x < i32::MIN {
        i32::MIN
    } else {
        x as i32
    }
}

pub(crate) fn clamp_to_i32(x: i64) -> (r: i32)
    ensures
        r == clamp_i32(x as int),
{
    if x > 2147483647 {
        2147483647
    } else if x < -2147483648 {
        -2147483648
    } else {
        x as i32
    }
}

/// The last sector of a track: its start plus one less than its frame count
/// (read as `i32`), saturating.
pub open spec fn boundary_end(b: TrackBoundary) -> i32 {
    let d: usize = if b.frame_count == 0 { 0 } else { (b.frame_count - 1) as usize };
    clamp_i32(b.start_lsn as int + (d as i32) as int)
}

pub(crate) fn boundary_last(b: &TrackBoundary) -> (r: i32)
    ensures
        r == boundary_end(*b),
{
    let d: usize = if b.frame_count == 0 { 0 } else { b.frame_count - 1 };
    let di = d as i32;
    clamp_to_i32(b.start_lsn as i64 + di as i64)
}

/// The tracks of a disc image as audio tracks for the metadata services.
pub fn app_tracks_from_image_boundaries(boundaries: &[TrackBoundary]) -> (r: Vec<AppTrack>)
    ensures
        r@.len() == boundaries@.len(),
        forall|i: int|
            0 <= i < r@.len() ==> #[trigger] r@[i] == (AppTrack {
                number: boundaries@[i].track_number as u8,
                start_lsn: boundaries@[i].start_lsn,
                end_lsn: boundary_end(boundaries@[i]),
                track_is_data: false,
            }),
{
    let mut out: Vec<AppTrack> = Vec::new();
    let mut i: usize = 0;
    while i < boundaries.len()
        invariant
            i <= boundaries@.len(),
            out@.len() == i,
            forall|j: int|
                0 <= j < i ==> #[trigger] out@[j] == (AppTrack {
                    number: boundaries@[j].track_number as u8,
                    start_lsn: boundaries@[j].start_lsn,
                    end_lsn: boundary_end(boundaries@[j]),
                    track_is_data: false,
                }),
        decreases boundaries.len() - i,
    {
        let b = boundaries[i];
        out.push(
            AppTrack {
                number: b.track_number as u8,
                start_lsn: b.start_lsn,
                end_lsn: boundary_last(&b),
                track_is_data: false,
            },
        );
        i += 1;
    }
    out
}

/// The smallest start (negative starts counted as 0), or 0 for no tracks.
pub open spec fn min_start(bs: Seq<TrackBoundary>) -> i32
    decreases bs.len(),
{
    if bs.len() == 0 {
        0
    } else {
        let s = if bs.last().start_lsn < 0 { 0 } else { bs.last().start_lsn };
        if bs.len() == 1 {
            s
        } else {
            let m = min_start(bs.drop_last());
            if s < m { s } else { m }
        }
    }
}

/// The largest track end, or 0 for no tracks.
pub open spec fn max_end(bs: Seq<TrackBoundary>) -> i32
    decreases bs.len(),
{
    if bs.len() == 0 {
        0
    } else {
        let e = boundary_end(bs.last());
        if bs.len() == 1 {
            e
        } else {
            let m = max_end(bs.drop_last());
            if e > m { e } else { m }
        }
    }
}

/// The sector range an image covers: from the first start to the last end
/// (never before the start).
pub fn image_disc_range_from_boundaries(boundaries: &[TrackBoundary]) -> (r: (i32, i32))
    ensures
        r.0 == min_start(boundaries@),
        r.1 == if max_end(boundaries@) > min_start(boundaries@) {
            max_end(boundaries@)
        } else {
            min_start(boundaries@)
        },
{
    let mut start: i32 = 0;
    let mut end: i32 = 0;
    let mut i: usize = 0;
    while i < boundaries.len()
        invariant
            i <= boundaries@.len(),
            start == min_start(boundaries@.take(i as int)),
            end == max_end(boundaries@.take(i as int)),
        decreases boundaries.len() - i,
    {
        let b = boundaries[i];
        let s = if b.start_lsn < 0 { 0 } else { b.start_lsn };
        let e = boundary_last(&b);
        assert(boundaries@.take(i + 1).drop_last() == boundaries@.take(i as int));
        assert(boundaries@.take(i + 1).last() == b);
        if i == 0 {
            start = s;
            end = e;
        } else {
            if s < start {
                start = s;
            }
            if e > end {
                end = e;
            }
        }
        i += 1;
    }
    assert(boundaries@.take(boundaries@.len() as int) == boundaries@);
    if end < start {
        end = start;
    }
    (start, end)
}

// ---------------------------------------------------------------------------
// CUE start times
// ---------------------------------------------------------------------------

/// The end of the run of white space at `i`.
pub open spec fn skip_space(s: Seq<char>, i: int) -> int
    decreases s.len() - i,
{
    if i < 0 || i >= s.len() || !crate::text::is_space(s[i]) {
        i
    } else {
        skip_space(s, i + 1)
    }
}

/// The end of the word at `i`.
pub open spec fn skip_word(s: Seq<char>, i: int) -> int
    decreases s.len() - i,
{
    if i < 0 || i >= s.len() || crate::text::is_space(s[i]) {
        i
    } else {
        skip_word(s, i + 1)
    }
}

pub proof fn lemma_skip_bounds(s: Seq<char>, i: int)
    requires
        0 <= i <= s.len(),
    ensures
        i <= skip_space(s, i) <= s.len(),
        i <= skip_word(s, i) <= s.len(),
        skip_space(s, i) < s.len() ==> !crate::text::is_space(s[skip_space(s, i)]),
        i < s.len() && !crate::text::is_space(s[i]) ==> skip_word(s, i) > i,
    decreases s.len() - i,
{
    if i < s.len() {
        lemma_skip_bounds(s, i + 1);
    }
}

/// The white-space separated words of `s` from `i` on.
pub open spec fn words_from(s: Seq<char>, i: int) -> Seq<Seq<char>>
    decreases s.len() - i,
{
    if i < 0 || i > s.len() {
        Seq::empty()
    } else {
        let j = skip_space(s, i);
        proof {
            lemma_skip_bounds(s, i);
        }
        if j >= s.len() {
            Seq::empty()
        } else {
            let k = skip_word(s, j);
            proof {
                lemma_skip_bounds(s, j);
            }
            seq![s.subrange(j, k)] + words_from(s, k)
        }
    }
}

pub open spec fn words(s: Seq<char>) -> Seq<Seq<char>> {
    words_from(s, 0)
}

pub open spec fn vecs_view(v: Seq<Vec<char>>) -> Seq<Seq<char>> {
    v.map_values(|w: Vec<char>| w@)
}

fn split_words(s: &[char]) -> (r: Vec<Vec<char>>)
    ensures
        vecs_view(r@) == words(s@),
{
    let n = s.len();
    let mut out: Vec<Vec<char>> = Vec::new();
    let mut i: usize = 0;
    assert(vecs_view(out@) + words_from(s@, 0) == words(s@));
    let mut done = false;
    while !done
        invariant
            n == s@.len(),
            i <= n,
            !done ==> vecs_view(out@) + words_from(s@, i as int) == words(s@),
            done ==> vecs_view(out@) == words(s@),
        decreases n - i + if done { 0int } else { 1int },
    {
        let ghost before = vecs_view(out@);
        proof {
            lemma_skip_bounds(s@, i as int);
        }
        let mut j = i;
        while j < n && crate::is_whitespace_char(s[j])
            invariant
                i <= j <= n,
                n == s@.len(),
                skip_space(s@, i as int) == skip_space(s@, j as int),
            decreases n - j,
        {
            j += 1;
        }
        if j >= n {
            assert(words_from(s@, i as int) =~= Seq::<Seq<char>>::empty());
            assert(vecs_view(out@) =~= before);
            done = true;
        } else {
            proof {
                lemma_skip_bounds(s@, j as int);
            }
            let mut k = j;
            while k < n && !crate::is_whitespace_char(s[k])
                invariant
                    j <= k <= n,
                    n == s@.len(),
                    skip_word(s@, j as int) == skip_word(s@, k as int),
                decreases n - k,
            {
                k += 1;
            }
            let mut w: Vec<char> = Vec::new();
            let mut m = j;
            while m < k
                invariant
                    j <= m <= k <= n,
                    n == s@.len(),
                    w@ == s@.subrange(j as int, m as int),
                decreases k - m,
            {
                w.push(s[m]);
                assert(s@.subrange(j as int, m + 1) == s@.subrange(j as int, m as int).push(s@[m as int]));
                m += 1;
            }
            out.push(w);
            assert(vecs_view(out@) =~= before.push(s@.subrange(j as int, k as int)));
            assert(words_from(s@, i as int) == seq![s@.subrange(j as int, k as int)] + words_from(
                s@,
                k as int,
            ));
            assert(vecs_view(out@) + words_from(s@, k as int) =~= before + words_from(s@, i as int));
            i = k;
        }
    }
    out
}

/// The track number a `TRACK nn ...` line starts (any case), if positive.
pub open spec fn cue_track_number(line: Seq<char>) -> Option<u32> {
    let ws = words(line);
    if ws.len() < 2 || ascii_lower(ws[0]) != "track"@ {
        None
    } else {
        match crate::text::parse_u32(ws[1]) {
            Some(n) => if n > 0 {
                Some(n)
            } else {
                None
            },
            None => None,
        }
    }
}

fn lower_chars(s: &[char]) -> (r: Vec<char>)
    ensures
        r@ == ascii_lower(s@),
{
    let mut out: Vec<char> = Vec::new();
    let mut i: usize = 0;
    while i < s.len()
        invariant
            i <= s@.len(),
            out@ == ascii_lower(s@.take(i as int)),
        decreases s.len() - i,
    {
        let c = s[i];
        let d = if 'A' <= c && c <= 'Z' {
            (((c as u32) + 32) as u8) as char
        } else {
            c
        };
        out.push(d);
        assert(ascii_lower(s@.take(i + 1)) =~= ascii_lower(s@.take(i as int)).push(d));
        i += 1;
    }
    assert(s@.take(s@.len() as int) == s@);
    out
}

fn word_is(w: &Vec<char>, lower: &str) -> (r: bool)
    ensures
        r == (ascii_lower(w@) == lower@),
{
    let l = lower_chars(w.as_slice());
    let t = crate::text::chars_of(lower);
    crate::text::chars_eq(l.as_slice(), t.as_slice())
}

pub fn parse_track_number(line: &str) -> (r: Option<u32>)
    ensures
        r == cue_track_number(line@),
{
    let v = crate::text::chars_of(line);
    let ws = split_words(v.as_slice());
    if ws.len() < 2 {
        return None;
    }
    assert(vecs_view(ws@)[0] == ws@[0]@);
    assert(vecs_view(ws@)[1] == ws@[1]@);
    if !word_is(&ws[0], "track") {
        return None;
    }
    match crate::text::parse_u32_chars(ws[1].as_slice()) {
        Some(n) => if n > 0 {
            Some(n)
        } else {
            None
        },
        None => None,
    }
}

/// The `mm`, `ss` and `ff` fields of an `INDEX 01 mm:ss:ff` line, if it is
/// one (any case for `INDEX`, exactly three colon-separated integers).
pub open spec fn cue_index_fields(line: Seq<char>) -> Option<(i32, i32, i32)> {
    let ws = words(line);
    if ws.len() != 3 || ascii_lower(ws[0]) != "index"@ || ws[1] != "01"@ {
        None
    } else {
        let t = ws[2];
        match crate::text::find_char_from(t, ':', 0) {
            None => None,
            Some(c1) => match crate::text::find_char_from(t, ':', c1 + 1) {
                None => None,
                Some(c2) => if crate::text::find_char_from(t, ':', c2 + 1) is Some {
                    None
                } else {
                    match (
                        crate::text::parse_i32(t.subrange(0, c1)),
                        crate::text::parse_i32(t.subrange(c1 + 1, c2)),
                        crate::text::parse_i32(t.subrange(c2 + 1, t.len() as int)),
                    ) {
                        (Some(mm), Some(ss), Some(ff)) => Some((mm, ss, ff)),
                        _ => None,
                    }
                },
            },
        }
    }
}

/// Minutes as frames, saturating at `i32::MAX` as the minutes are scaled.
pub open spec fn minute_frames(mm: i32) -> int {
    let a = if mm as int * 60 > i32::MAX { i32::MAX as int } else { mm as int * 60 };
    if a * 75 > i32::MAX {
        i32::MAX as int
    } else {
        a * 75
    }
}

/// The start (in frames) an `INDEX 01` line gives: minutes non-negative,
/// seconds below 60, frames below 75.
pub open spec fn cue_index_lsn(line: Seq<char>) -> Option<i32> {
    match cue_index_fields(line) {
        Some((mm, ss, ff)) => if mm < 0 || !(0 <= ss < 60) || !(0 <= ff < 75) {
            None
        } else {
            Some((minute_frames(mm) + ss as int * 75 + ff as int) as i32)
        },
        None => None,
    }
}

/// The start of an `INDEX 01` line fits an `i32`.
pub open spec fn cue_index_fits(line: Seq<char>) -> bool {
    match cue_index_fields(line) {
        Some((mm, ss, ff)) => (mm < 0 || !(0 <= ss < 60) || !(0 <= ff < 75)) || minute_frames(mm)
            + ss as int * 75 + ff as int <= i32::MAX,
        None => true,
    }
}

pub fn parse_cue_index_01_lsn(line: &str) -> (r: Option<i32>)
    requires
        cue_index_fits(line@),
    ensures
        r == cue_index_lsn(line@),
{
    let (mm, ss, ff) = match cue_index_fields_of(line) {
        Some(f) => f,
        None => {
            return None;
        },
    };
    if mm < 0 || !(0 <= ss && ss < 60) || !(0 <= ff && ff < 75) {
        return None;
    }
    let a: i64 = if (mm as i64) * 60 > 2147483647 { 2147483647 } else { (mm as i64) * 60 };
    let b: i64 = if a * 75 > 2147483647 { 2147483647 } else { a * 75 };
    Some((b + (ss as i64) * 75 + (ff as i64)) as i32)
}

/// Whether the start an `INDEX 01` line gives fits an `i32` (lines that are
/// not such lines, or whose fields are out of range, give none and fit).
pub fn cue_index_line_fits(line: &str) -> (r: bool)
    ensures
        r == cue_index_fits(line@),
{
    match cue_index_fields_of(line) {
        Some((mm, ss, ff)) => {
            if mm < 0 || !(0 <= ss && ss < 60) || !(0 <= ff && ff < 75) {
                true
            } else {
                let a: i64 = if (mm as i64) * 60 > 2147483647 { 2147483647 } else { (mm as i64) * 60 };
                let b: i64 = if a * 75 > 2147483647 { 2147483647 } else { a * 75 };
                b + (ss as i64) * 75 + (ff as i64) <= 2147483647
            }
        },
        None => true,
    }
}

fn cue_index_fields_of(line: &str) -> (r: Option<(i32, i32, i32)>)
    ensures
        r == cue_index_fields(line@),
{
    let v = crate::text::chars_of(line);
    let ws = split_words(v.as_slice());
    if ws.len() != 3 {
        return None;
    }
    assert(vecs_view(ws@)[0] == ws@[0]@);
    assert(vecs_view(ws@)[1] == ws@[1]@);
    assert(vecs_view(ws@)[2] == ws@[2]@);
    if !word_is(&ws[0], "index") {
        return None;
    }
    let zero_one = crate::text::chars_of("01");
    if !crate::text::chars_eq(ws[1].as_slice(), zero_one.as_slice()) {
        return None;
    }
    let t = &ws[2];
    let c1 = match crate::text::find_char_in(t.as_slice(), ':', 0) {
        Some(c) => c,
        None => {
            return None;
        },
    };
    proof {
        crate::lemma_find_char_from_bounds(t@, ':', 0);
    }
    let c2 = match crate::text::find_char_in(t.as_slice(), ':', c1 + 1) {
        Some(c) => c,
        None => {
            return None;
        },
    };
    proof {
        crate::lemma_find_char_from_bounds(t@, ':', c1 + 1);
    }
    if crate::text::find_char_in(t.as_slice(), ':', c2 + 1).is_some() {
        return None;
    }
    let p0 = crate::naming::slice_chars(t.as_slice(), 0, c1);
    let p1 = crate::naming::slice_chars(t.as_slice(), c1 + 1, c2);
    let p2 = crate::naming::slice_chars(t.as_slice(), c2 + 1, t.len());
    let mm = match crate::text::parse_i32_chars(p0.as_slice()) {
        Some(x) => x,
        None => {
            return None;
        },
    };
    let ss = match crate::text::parse_i32_chars(p1.as_slice()) {
        Some(x) => x,
        None => {
            return None;
        },
    };
    let ff = match crate::text::parse_i32_chars(p2.as_slice()) {
        Some(x) => x,
        None => {
            return None;
        },
    };
    Some((mm, ss, ff))
}

/// The lines of `s` from `i` on (split at `\n`; a trailing `\r` stays and
/// reads as white space).
pub open spec fn lines_from(s: Seq<char>, i: int) -> Seq<Seq<char>>
    decreases s.len() - i,
{
    if i < 0 || i > s.len() {
        Seq::empty()
    } else {
        let e = match crate::text::find_char_from(s, '\n', i) {
            Some(k) => k,
            None => s.len() as int,
        };
        proof {
            crate::lemma_find_char_from_bounds(s, '\n', i);
        }
        if e < s.len() {
            seq![s.subrange(i, e)] + lines_from(s, e + 1)
        } else {
            seq![s.subrange(i, e)]
        }
    }
}

pub open spec fn starts_has_track(starts: Seq<(u32, i32)>, n: u32) -> bool {
    exists|i: int| 0 <= i < starts.len() && (#[trigger] starts[i]).0 == n
}

/// The current track and the starts found after reading one more line:
/// a `TRACK` line makes its number current; an `INDEX 01` line records the
/// current track's start unless it already has one.
pub open spec fn cue_scan_step(st: (Option<u32>, Seq<(u32, i32)>), line: Seq<char>) -> (
    Option<u32>,
    Seq<(u32, i32)>,
) {
    match cue_track_number(line) {
        Some(n) => (Some(n), st.1),
        None => match (cue_index_lsn(line), st.0) {
            (Some(l), Some(n)) => if !starts_has_track(st.1, n) {
                (st.0, st.1.push((n, l)))
            } else {
                st
            },
            _ => st,
        },
    }
}

pub open spec fn cue_scan(lines: Seq<Seq<char>>) -> (Option<u32>, Seq<(u32, i32)>)
    decreases lines.len(),
{
    if lines.len() == 0 {
        (None, Seq::empty())
    } else {
        cue_scan_step(cue_scan(lines.drop_last()), lines.last())
    }
}

/// `s` (ordered by track) with `e` placed after every entry whose track
/// number is at most its own.
pub open spec fn insert_by_track(s: Seq<(u32, i32)>, e: (u32, i32)) -> Seq<(u32, i32)>
    decreases s.len(),
{
    if s.len() == 0 {
        seq![e]
    } else if s.last().0 <= e.0 {
        s.push(e)
    } else {
        insert_by_track(s.drop_last(), e).push(s.last())
    }
}

/// `s` stably sorted by track number.
pub open spec fn sorted_by_track(s: Seq<(u32, i32)>) -> Seq<(u32, i32)>
    decreases s.len(),
{
    if s.len() == 0 {
        Seq::empty()
    } else {
        insert_by_track(sorted_by_track(s.drop_last()), s.last())
    }
}

/// Every `INDEX 01` line of the text fits an `i32`.
pub open spec fn cue_text_fits(text: Seq<char>) -> bool {
    forall|i: int|
        0 <= i < lines_from(text, 0).len() ==> #[trigger] cue_index_fits(lines_from(text, 0)[i])
}

fn insert_start(v: &Vec<(u32, i32)>, e: (u32, i32)) -> (r: Vec<(u32, i32)>)
    ensures
        r@ == insert_by_track(v@, e),
{
    let mut p = v.len();
    assert(v@.take(p as int) == v@);
    assert(v@.skip(p as int) =~= Seq::<(u32, i32)>::empty());
    assert(insert_by_track(v@, e) == insert_by_track(v@.take(p as int), e) + v@.skip(p as int));
    while p > 0 && v[p - 1].0 > e.0
        invariant
            p <= v@.len(),
            insert_by_track(v@, e) == insert_by_track(v@.take(p as int), e) + v@.skip(p as int),
        decreases p,
    {
        let ghost t = v@.take(p as int);
        assert(t.drop_last() == v@.take(p - 1));
        assert(t.last() == v@[p - 1]);
        assert(v@.skip(p - 1) == seq![v@[p - 1]] + v@.skip(p as int));
        assert(insert_by_track(v@.take(p - 1), e).push(v@[p - 1]) + v@.skip(p as int)
            =~= insert_by_track(v@.take(p - 1), e) + v@.skip(p - 1));
        p -= 1;
    }
    let mut out: Vec<(u32, i32)> = Vec::new();
    let mut i: usize = 0;
    while i < p
        invariant
            i <= p <= v@.len(),
            out@ == v@.take(i as int),
        decreases p - i,
    {
        out.push(v[i]);
        assert(v@.take(i + 1) == v@.take(i as int).push(v@[i as int]));
        i += 1;
    }
    assert(insert_by_track(v@.take(p as int), e) == v@.take(p as int).push(e));
    out.push(e);
    let mut j = p;
    while j < v.len()
        invariant
            p <= j <= v@.len(),
            out@ == v@.take(p as int).push(e) + v@.subrange(p as int, j as int),
        decreases v.len() - j,
    {
        out.push(v[j]);
        assert(v@.subrange(p as int, j + 1) == v@.subrange(p as int, j as int).push(v@[j as int]));
        j += 1;
    }
    assert(v@.subrange(p as int, v@.len() as int) == v@.skip(p as int));
    out
}

fn has_start_for(starts: &Vec<(u32, i32)>, n: u32) -> (r: bool)
    ensures
        r == starts_has_track(starts@, n),
{
    let mut i: usize = 0;
    while i < starts.len()
        invariant
            i <= starts@.len(),
            forall|j: int| 0 <= j < i ==> (#[trigger] starts@[j]).0 != n,
        decreases starts.len() - i,
    {
        if starts[i].0 == n {
            return true;
        }
        i += 1;
    }
    false
}

/// The `INDEX 01` start of each track of a CUE sheet, ordered by track.
pub fn parse_cue_track_starts(cue_text: &str) -> (r: Vec<(u32, i32)>)
    requires
        cue_text_fits(cue_text@),
    ensures
        r@ == sorted_by_track(cue_scan(lines_from(cue_text@, 0)).1),
{
    let s = crate::text::chars_of(cue_text);
    let n = s.len();
    let ghost ls = lines_from(s@, 0);
    let mut starts: Vec<(u32, i32)> = Vec::new();
    let mut current: Option<u32> = None;
    let mut i: usize = 0;
    let ghost mut k: int = 0;
    let mut done = false;
    assert(ls.take(0) =~= Seq::<Seq<char>>::empty());
    assert(ls.skip(0) == ls);
    while !done
        invariant
            n == s@.len(),
            s@ == cue_text@,
            ls == lines_from(s@, 0),
            cue_text_fits(cue_text@),
            i <= n,
            0 <= k <= ls.len(),
            !done ==> ls.skip(k) == lines_from(s@, i as int),
            done ==> k == ls.len(),
            (current, starts@) == cue_scan(ls.take(k)),
        decreases n - i + if done { 0int } else { 1int },
    {
        let e = match crate::text::find_char_in(s.as_slice(), '\n', i) {
            Some(x) => x,
            None => n,
        };
        proof {
            crate::lemma_find_char_from_bounds(s@, '\n', i as int);
        }
        let line_chars = crate::naming::slice_chars(s.as_slice(), i, e);
        let line = string_from(&line_chars);
        assert(lines_from(s@, i as int)[0] == s@.subrange(i as int, e as int));
        assert(lines_from(s@, i as int).len() >= 1);
        assert(ls[k] == ls.skip(k)[0]);
        assert(cue_index_fits(ls[k]));
        let ghost st = (current, starts@);
        assert(ls.take(k + 1).drop_last() == ls.take(k));
        assert(ls.take(k + 1).last() == line@);
        match parse_track_number(line.as_str()) {
            Some(t) => {
                current = Some(t);
            },
            None => {
                match parse_cue_index_01_lsn(line.as_str()) {
                    Some(l) => {
                        if let Some(t) = current {
                            if !has_start_for(&starts, t) {
                                starts.push((t, l));
                            }
                        }
                    },
                    None => {},
                }
            },
        }
        assert((current, starts@) == cue_scan_step(st, line@));
        proof {
            k = k + 1;
        }
        if e < n {
            assert(ls.skip(k) == ls.skip(k - 1).drop_first());
            i = e + 1;
        } else {
            assert(ls.skip(k - 1).len() == 1);
            done = true;
        }
    }
    assert(ls.take(ls.len() as int) == ls);
    let mut sorted: Vec<(u32, i32)> = Vec::new();
    let mut j: usize = 0;
    assert(starts@.take(0) =~= Seq::<(u32, i32)>::empty());
    while j < starts.len()
        invariant
            j <= starts@.len(),
            sorted@ == sorted_by_track(starts@.take(j as int)),
        decreases starts.len() - j,
    {
        assert(starts@.take(j + 1).drop_last() == starts@.take(j as int));
        sorted = insert_start(&sorted, starts[j]);
        j += 1;
    }
    assert(starts@.take(starts@.len() as int) == starts@);
    sorted
}

fn string_from(v: &Vec<char>) -> (s: String)
    ensures
        s@ == v@,
{
    let s = crate::text::string_of(v.as_slice(), 0, v.len());
    assert(v@.subrange(0, v@.len() as int) == v@);
    s
}


// ---------------------------------------------------------------------------
// Track boundaries
// ---------------------------------------------------------------------------

/// The tags given for track `n`, if any.
pub open spec fn meta_for(m: Seq<(u32, TagMap)>, n: u32) -> Option<TagMap>
    decreases m.len(),
{
    if m.len() == 0 {
        None
    } else if m[0].0 == n {
        Some(m[0].1)
    } else {
        meta_for(m.drop_first(), n)
    }
}

/// The start and length a table of contents gives track `n`, if any.
pub open spec fn override_for(o: Seq<(u32, i32, usize)>, n: u32) -> Option<(i32, usize)>
    decreases o.len(),
{
    if o.len() == 0 {
        None
    } else if o[0].0 == n {
        Some((o[0].1, o[0].2))
    } else {
        override_for(o.drop_first(), n)
    }
}

/// A tag read as an `i32` (surrounding white space allowed).
pub open spec fn meta_i32(t: TagMap, key: Seq<char>) -> Option<i32> {
    match t.get_spec(key) {
        Some(v) => crate::text::parse_i32(trim(v)),
        None => None,
    }
}

/// A tag read as a positive `usize` (surrounding white space allowed).
pub open spec fn meta_count(t: TagMap, key: Seq<char>) -> Option<usize> {
    match t.get_spec(key) {
        Some(v) => match crate::text::parse_usize(trim(v)) {
            Some(x) => if x > 0 {
                Some(x)
            } else {
                None
            },
            None => None,
        },
        None => None,
    }
}

/// Where track `n` starts when nothing says otherwise: after `n - 1` tracks
/// of the default length (saturating, then read as `i32`).
pub open spec fn default_start(n: u32, dfc: usize) -> i32 {
    let k: int = if n == 0 { 0 } else { n - 1 };
    let p: int = if k * dfc > usize::MAX { usize::MAX as int } else { k * dfc };
    (p as usize) as i32
}

/// Track `n`'s boundary: a table-of-contents entry wins; otherwise the
/// `start_lsn` tag (when not negative) or the default start, and the
/// `frames` tag, else the length up to the `end_lsn` tag, else the default
/// length.
pub open spec fn boundary_for(
    n: u32,
    meta: Seq<(u32, TagMap)>,
    dfc: usize,
    overrides: Option<Seq<(u32, i32, usize)>>,
) -> TrackBoundary {
    let ov = match overrides {
        Some(o) => override_for(o, n),
        None => None,
    };
    match ov {
        Some((start, fc)) => TrackBoundary { track_number: n, start_lsn: start, frame_count: fc },
        None => {
            let m = meta_for(meta, n);
            let start = match m {
                Some(t) => match meta_i32(t, "start_lsn"@) {
                    Some(x) => if x >= 0 {
                        x
                    } else {
                        default_start(n, dfc)
                    },
                    None => default_start(n, dfc),
                },
                None => default_start(n, dfc),
            };
            let fc = match m {
                Some(t) => match meta_count(t, "frames"@) {
                    Some(f) => f,
                    None => match meta_i32(t, "end_lsn"@) {
                        Some(e) => if e >= start {
                            (e - start + 1) as usize
                        } else {
                            dfc
                        },
                        None => dfc,
                    },
                },
                None => dfc,
            };
            TrackBoundary { track_number: n, start_lsn: start, frame_count: fc }
        },
    }
}

pub open spec fn overrides_view(o: Option<&[(u32, i32, usize)]>) -> Option<Seq<(u32, i32, usize)>> {
    match o {
        Some(s) => Some(s@),
        None => None,
    }
}

pub(crate) fn find_meta<'a>(meta: &'a [(u32, TagMap)], n: u32) -> (r: Option<&'a TagMap>)
    ensures
        match meta_for(meta@, n) {
            Some(t) => r == Some(&t),
            None => r is None,
        },
{
    let mut i: usize = 0;
    assert(meta@.skip(0) == meta@);
    while i < meta.len()
        invariant
            i <= meta@.len(),
            meta_for(meta@, n) == meta_for(meta@.skip(i as int), n),
        decreases meta.len() - i,
    {
        assert(meta@.skip(i as int).drop_first() == meta@.skip(i + 1));
        if meta[i].0 == n {
            return Some(&meta[i].1);
        }
        i += 1;
    }
    None
}

fn find_override(o: &[(u32, i32, usize)], n: u32) -> (r: Option<(i32, usize)>)
    ensures
        r == override_for(o@, n),
{
    let mut i: usize = 0;
    assert(o@.skip(0) == o@);
    while i < o.len()
        invariant
            i <= o@.len(),
            override_for(o@, n) == override_for(o@.skip(i as int), n),
        decreases o.len() - i,
    {
        assert(o@.skip(i as int).drop_first() == o@.skip(i + 1));
        if o[i].0 == n {
            return Some((o[i].1, o[i].2));
        }
        i += 1;
    }
    None
}

fn trimmed_tag(t: &TagMap, key: &str) -> (r: Option<Vec<char>>)
    ensures
        match t.get_spec(key@) {
            Some(v) => r matches Some(x) && x@ == trim(v),
            None => r is None,
        },
{
    match t.get(key) {
        None => None,
        Some(v) => {
            let c = crate::text::chars_of(v.as_str());
            let (a, b) = crate::naming::trim_bounds_pub(c.as_slice(), 0, c.len());
            assert(c@.subrange(0, c@.len() as int) == c@);
            Some(crate::naming::slice_chars(c.as_slice(), a, b))
        },
    }
}

fn tag_i32(t: &TagMap, key: &str) -> (r: Option<i32>)
    ensures
        r == meta_i32(*t, key@),
{
    match trimmed_tag(t, key) {
        None => None,
        Some(x) => crate::text::parse_i32_chars(x.as_slice()),
    }
}

fn tag_count(t: &TagMap, key: &str) -> (r: Option<usize>)
    ensures
        r == meta_count(*t, key@),
{
    match trimmed_tag(t, key) {
        None => None,
        Some(x) => match crate::text::parse_usize_chars(x.as_slice()) {
            Some(v) => if v > 0 {
                Some(v)
            } else {
                None
            },
            None => None,
        },
    }
}

#[verifier::spinoff_prover]
fn boundary_of(
    n: u32,
    meta: &[(u32, TagMap)],
    dfc: usize,
    overrides: Option<&[(u32, i32, usize)]>,
) -> (r: TrackBoundary)
    ensures
        r == boundary_for(n, meta@, dfc, overrides_view(overrides)),
{
    let ov = match overrides {
        Some(o) => find_override(o, n),
        None => None,
    };
    if let Some((start, fc)) = ov {
        return TrackBoundary { track_number: n, start_lsn: start, frame_count: fc };
    }
    let k: usize = if n == 0 { 0 } else { (n - 1) as usize };
    let p: usize = if k == 0 {
        0
    } else if dfc > usize::MAX / k {
        assert(k * dfc > usize::MAX) by (nonlinear_arith)
            requires
                k > 0,
                dfc > usize::MAX / k,
        ;
        usize::MAX
    } else {
        assert(k * dfc <= usize::MAX) by (nonlinear_arith)
            requires
                k > 0,
                dfc <= usize::MAX / k,
        ;
        k * dfc
    };
    let dstart = p as i32;
    let m = find_meta(meta, n);
    let start: i32 = match m {
        Some(t) => match tag_i32(t, "start_lsn") {
            Some(x) => if x >= 0 {
                x
            } else {
                dstart
            },
            None => dstart,
        },
        None => dstart,
    };
    let fc: usize = match m {
        Some(t) => match tag_count(t, "frames") {
            Some(f) => f,
            None => match tag_i32(t, "end_lsn") {
                Some(e) => if e >= start {
                    ((e as i64) - (start as i64) + 1) as usize
                } else {
                    dfc
                },
                None => dfc,
            },
        },
        None => dfc,
    };
    let ghost want = boundary_for(n, meta@, dfc, overrides_view(overrides));
    assert(want.start_lsn == start);
    assert(want.frame_count == fc);
    TrackBoundary { track_number: n, start_lsn: start, frame_count: fc }
}

/// The boundary of each requested track, in order.
pub fn resolve_track_boundaries(
    track_numbers: &[u32],
    track_meta: &[(u32, TagMap)],
    default_frame_count: usize,
    image_toc_overrides: Option<&[(u32, i32, usize)]>,
) -> (r: Vec<TrackBoundary>)
    ensures
        r@.len() == track_numbers@.len(),
        forall|i: int|
            0 <= i < r@.len() ==> #[trigger] r@[i] == boundary_for(
                track_numbers@[i],
                track_meta@,
                default_frame_count,
                overrides_view(image_toc_overrides),
            ),
{
    let mut out: Vec<TrackBoundary> = Vec::new();
    let mut i: usize = 0;
    while i < track_numbers.len()
        invariant
            i <= track_numbers@.len(),
            out@.len() == i,
            forall|j: int|
                0 <= j < i ==> #[trigger] out@[j] == boundary_for(
                    track_numbers@[j],
                    track_meta@,
                    default_frame_count,
                    overrides_view(image_toc_overrides),
                ),
        decreases track_numbers.len() - i,
    {
        out.push(boundary_of(track_numbers[i], track_meta, default_frame_count, image_toc_overrides));
        i += 1;
    }
    out
}

/// The boundary widened for over- or underreading: with `e` extra frames,
/// both ends move by `|e| - 1` frames in the direction of `e`, and one more
/// frame is read at the front (underread) or at the back (overread); all
/// arithmetic saturates.
pub open spec fn offset_adjusted(b: TrackBoundary, e: i32) -> TrackBoundary {
    let first0 = b.start_lsn;
    let last0 = boundary_end(b);
    let sign: int = if e < 0 { -1 } else if e > 0 { 1 } else { 0 };
    let ua: int = if e < 0 { -(e as int) } else { e as int };
    let shift: int = {
        let a = (ua as u32) as i32;
        let s = clamp_i32(a as int - 1);
        if s < 0 { 0 } else { s as int }
    };
    let first1 = clamp_i32(first0 as int + sign * shift);
    let last1 = clamp_i32(last0 as int + sign * shift);
    let first = if sign < 0 { clamp_i32(first1 as int - 1) } else { first1 };
    let last = if sign > 0 { clamp_i32(last1 as int + 1) } else { last1 };
    let fc: usize = if last >= first {
        (clamp_i32(clamp_i32(last as int - first as int) as int + 1) as int) as usize
    } else {
        0
    };
    TrackBoundary { track_number: b.track_number, start_lsn: first, frame_count: fc }
}

pub fn apply_offset_frame_adjustment(boundary: TrackBoundary, over_under_read_frames: i32) -> (r:
    TrackBoundary)
    ensures
        r == offset_adjusted(boundary, over_under_read_frames),
{
    let first0 = boundary.start_lsn;
    let last0 = boundary_last(&boundary);
    let e = over_under_read_frames;
    let sign: i64 = if e < 0 {
        -1
    } else if e > 0 {
        1
    } else {
        0
    };
    let ua: u64 = if e < 0 { (-(e as i64)) as u64 } else { e as u64 };
    let a = (ua as u32) as i32;
    let s = clamp_to_i32(a as i64 - 1);
    let shift: i64 = if s < 0 { 0 } else { s as i64 };
    let first1 = clamp_to_i32(first0 as i64 + sign * shift);
    let last1 = clamp_to_i32(last0 as i64 + sign * shift);
    let first = if sign < 0 { clamp_to_i32(first1 as i64 - 1) } else { first1 };
    let last = if sign > 0 { clamp_to_i32(last1 as i64 + 1) } else { last1 };
    let fc: usize = if last >= first {
        let d = clamp_to_i32(last as i64 - first as i64);
        let c = clamp_to_i32(d as i64 + 1);
        c as usize
    } else {
        0
    };
    TrackBoundary { track_number: boundary.track_number, start_lsn: first, frame_count: fc }
}


// ---------------------------------------------------------------------------
// Table of contents of an image, from its CUE sheet or a user override
// ---------------------------------------------------------------------------

/// The start and length of each track a CUE sheet lists: a track lasts up
/// to the next track's start, or `dfc` frames when it is the last or the
/// next one does not start later.
pub open spec fn cue_toc_entries(starts: Seq<(u32, i32)>, dfc: usize) -> Seq<(u32, i32, usize)> {
    Seq::new(
        starts.len(),
        |i: int|
            (
                starts[i].0,
                starts[i].1,
                if i + 1 < starts.len() && starts[i + 1].1 > starts[i].1 {
                    (starts[i + 1].1 - starts[i].1) as usize
                } else {
                    dfc
                },
            ),
    )
}

/// The table of contents a CUE sheet's text gives (empty without tracks).
pub fn parse_image_toc_from_cue_text(cue_text: &str, default_frame_count: usize) -> (r: Vec<
    (u32, i32, usize),
>)
    requires
        cue_text_fits(cue_text@),
    ensures
        r@ == cue_toc_entries(
            sorted_by_track(cue_scan(lines_from(cue_text@, 0)).1),
            default_frame_count,
        ),
{
    let starts = parse_cue_track_starts(cue_text);
    let mut out: Vec<(u32, i32, usize)> = Vec::new();
    let mut i: usize = 0;
    while i < starts.len()
        invariant
            i <= starts@.len(),
            out@ == cue_toc_entries(starts@, default_frame_count).take(i as int),
        decreases starts.len() - i,
    {
        let (n, start) = starts[i];
        let fc: usize = if i + 1 < starts.len() && starts[i + 1].1 > start {
            ((starts[i + 1].1 as i64) - (start as i64)) as usize
        } else {
            default_frame_count
        };
        out.push((n, start, fc));
        assert(cue_toc_entries(starts@, default_frame_count).take(i + 1) == cue_toc_entries(
            starts@,
            default_frame_count,
        ).take(i as int).push((n, start, fc)));
        i += 1;
    }
    assert(cue_toc_entries(starts@, default_frame_count).take(starts@.len() as int)
        == cue_toc_entries(starts@, default_frame_count));
    out
}

/// The track, start and end of one `N:start-end` entry of a table of
/// contents given as text: track `N` not 0, `start` not negative, `end` not
/// before `start`, any part trimmed.
pub open spec fn toc_text_fields(p: Seq<char>) -> Option<(u32, i32, i32)> {
    let p = trim(p);
    match crate::text::find_char(p, ':') {
        None => None,
        Some(c) => match crate::text::parse_u32(trim(p.take(c))) {
            None => None,
            Some(t) => if t == 0 {
                None
            } else {
                let range = p.skip(c + 1);
                match crate::text::find_char(range, '-') {
                    None => None,
                    Some(d) => match (
                        crate::text::parse_i32(trim(range.take(d))),
                        crate::text::parse_i32(trim(range.skip(d + 1))),
                    ) {
                        (Some(a), Some(b)) => if a < 0 || b < a {
                            None
                        } else {
                            Some((t, a, b))
                        },
                        _ => None,
                    },
                }
            },
        },
    }
}

/// The track, start and length of an entry.
pub open spec fn toc_text_entry(p: Seq<char>) -> Option<(u32, i32, usize)> {
    match toc_text_fields(p) {
        Some((t, a, b)) => Some((t, a, (b - a + 1) as usize)),
        None => None,
    }
}

/// The length of an entry fits an `i32`.
pub open spec fn toc_text_entry_fits(p: Seq<char>) -> bool {
    toc_text_fields(p) matches Some((t, a, b)) ==> b - a + 1 <= i32::MAX
}

/// Every entry of a table of contents given as text has a length that fits an `i32`.
pub open spec fn toc_value_fits(raw: Seq<char>) -> bool {
    forall|i: int|
        0 <= i < crate::cli::split_char(raw, ',').len() ==> #[trigger] toc_text_entry_fits(
            crate::cli::split_char(raw, ',')[i],
        )
}

/// The start and length the last valid entry for track `n` gives.
pub open spec fn last_toc_entry(parts: Seq<Seq<char>>, n: u32) -> Option<(i32, usize)>
    decreases parts.len(),
{
    if parts.len() == 0 {
        None
    } else {
        match toc_text_entry(parts.last()) {
            Some((t, a, fc)) => if t == n {
                Some((a, fc))
            } else {
                last_toc_entry(parts.drop_last(), n)
            },
            None => last_toc_entry(parts.drop_last(), n),
        }
    }
}

fn trimmed_chars(s: &[char], lo: usize, hi: usize) -> (r: Vec<char>)
    requires
        lo <= hi <= s@.len(),
    ensures
        r@ == trim(s@.subrange(lo as int, hi as int)),
{
    let (a, b) = crate::naming::trim_bounds_pub(s, lo, hi);
    crate::naming::slice_chars(s, a, b)
}

fn parse_toc_text_fields(piece: &str) -> (r: Option<(u32, i32, i32)>)
    ensures
        r == toc_text_fields(piece@),
{
    let raw = crate::text::chars_of(piece);
    let p = trimmed_chars(raw.as_slice(), 0, raw.len());
    assert(raw@.subrange(0, raw@.len() as int) == piece@);
    let n = p.len();
    proof {
        crate::lemma_find_char_from_bounds(p@, ':', 0);
    }
    let c = match crate::text::find_char_in(p.as_slice(), ':', 0) {
        Some(c) => c,
        None => {
            return None;
        },
    };
    let tchars = trimmed_chars(p.as_slice(), 0, c);
    assert(p@.subrange(0, c as int) == p@.take(c as int));
    let t = match crate::text::parse_u32_chars(tchars.as_slice()) {
        Some(t) => t,
        None => {
            return None;
        },
    };
    if t == 0 {
        return None;
    }
    let ghost range = p@.skip(c + 1);
    proof {
        crate::lemma_find_char_from_bounds(p@, '-', c + 1);
        lemma_find_char_shift(p@, '-', c + 1);
    }
    let d = match crate::text::find_char_in(p.as_slice(), '-', c + 1) {
        Some(d) => d,
        None => {
            return None;
        },
    };
    let achars = trimmed_chars(p.as_slice(), c + 1, d);
    let bchars = trimmed_chars(p.as_slice(), d + 1, n);
    assert(p@.subrange(c + 1, d as int) == range.take(d - (c + 1)));
    assert(p@.subrange(d + 1, n as int) == range.skip(d - (c + 1) + 1));
    let a = match crate::text::parse_i32_chars(achars.as_slice()) {
        Some(a) => a,
        None => {
            return None;
        },
    };
    let b = match crate::text::parse_i32_chars(bchars.as_slice()) {
        Some(b) => b,
        None => {
            return None;
        },
    };
    if a < 0 || b < a {
        return None;
    }
    Some((t, a, b))
}

fn parse_toc_text_entry(piece: &str) -> (r: Option<(u32, i32, usize)>)
    requires
        toc_text_entry_fits(piece@),
    ensures
        r == toc_text_entry(piece@),
{
    match parse_toc_text_fields(piece) {
        Some((t, a, b)) => Some((t, a, (b - a + 1) as usize)),
        None => None,
    }
}

/// Whether every entry of a table of contents given as text has a length
/// that fits an `i32`.
pub fn toc_value_fits_check(raw: &str) -> (r: bool)
    ensures
        r == toc_value_fits(raw@),
{
    let parts = crate::cli::split_pieces(raw, ',');
    let ghost ps = crate::text::strings_view(parts@);
    let mut i: usize = 0;
    while i < parts.len()
        invariant
            i <= parts@.len(),
            ps == crate::text::strings_view(parts@),
            ps == crate::cli::split_char(raw@, ','),
            forall|j: int| 0 <= j < i ==> #[trigger] toc_text_entry_fits(ps[j]),
        decreases parts.len() - i,
    {
        assert(ps[i as int] == parts@[i as int]@);
        match parse_toc_text_fields(parts[i].as_str()) {
            Some((_t, a, b)) => {
                if (b as i64) - (a as i64) + 1 > 2147483647 {
                    assert(!toc_text_entry_fits(ps[i as int]));
                    return false;
                }
            },
            None => {},
        }
        i += 1;
    }
    true
}

/// Searching from `from` in `s` finds what searching `s` from `from` on finds,
/// shifted.
proof fn lemma_find_char_shift(s: Seq<char>, c: char, from: int)
    requires
        0 <= from <= s.len(),
    ensures
        crate::text::find_char(s.skip(from), c) == match crate::text::find_char_from(s, c, from) {
            Some(i) => Some(i - from),
            None => None::<int>,
        },
{
    lemma_find_char_shift_from(s, c, from, from);
}

proof fn lemma_find_char_shift_from(s: Seq<char>, c: char, from: int, j: int)
    requires
        0 <= from <= j <= s.len(),
    ensures
        crate::text::find_char_from(s.skip(from), c, j - from) == match crate::text::find_char_from(
            s,
            c,
            j,
        ) {
            Some(i) => Some(i - from),
            None => None::<int>,
        },
    decreases s.len() - j,
{
    if j < s.len() {
        assert(s.skip(from)[j - from] == s[j]);
        if s[j] != c {
            lemma_find_char_shift_from(s, c, from, j + 1);
        }
    }
}

/// A table of contents given as text (`N:start-end,...`); for a track given
/// twice the later entry counts, and entries that do not read are skipped.
pub fn parse_image_toc_value(raw: &str) -> (r: Vec<(u32, i32, usize)>)
    requires
        toc_value_fits(raw@),
    ensures
        forall|n: u32| #[trigger] override_for(r@, n) == last_toc_entry(
            crate::cli::split_char(raw@, ','),
            n,
        ),
{
    let parts = crate::cli::split_pieces(raw, ',');
    let ghost ps = crate::text::strings_view(parts@);
    let mut out: Vec<(u32, i32, usize)> = Vec::new();
    let mut i: usize = 0;
    assert(ps.take(0) == Seq::<Seq<char>>::empty());
    while i < parts.len()
        invariant
            i <= parts@.len(),
            ps == crate::text::strings_view(parts@),
            ps == crate::cli::split_char(raw@, ','),
            toc_value_fits(raw@),
            forall|n: u32| #[trigger] override_for(out@, n) == last_toc_entry(ps.take(i as int), n),
        decreases parts.len() - i,
    {
        assert(ps.take(i + 1).drop_last() == ps.take(i as int));
        assert(ps.take(i + 1).last() == parts@[i as int]@);
        assert(toc_text_entry_fits(ps[i as int]));
        match parse_toc_text_entry(parts[i].as_str()) {
            Some(e) => {
                let ghost before = out@;
                out.insert(0, e);
                assert forall|n: u32| #[trigger] override_for(out@, n) == last_toc_entry(
                    ps.take(i + 1),
                    n,
                ) by {
                    assert(out@[0] == e);
                    assert(out@.drop_first() == before);
                    assert(override_for(before, n) == last_toc_entry(ps.take(i as int), n));
                }
            },
            None => {},
        }
        i += 1;
    }
    assert(ps.take(parts@.len() as int) == ps);
    out
}

proof fn lemma_override_concat(a: Seq<(u32, i32, usize)>, b: Seq<(u32, i32, usize)>, n: u32)
    ensures
        override_for(a + b, n) == match override_for(a, n) {
            Some(x) => Some(x),
            None => override_for(b, n),
        },
    decreases a.len(),
{
    if a.len() > 0 {
        assert((a + b)[0] == a[0]);
        assert((a + b).drop_first() == a.drop_first() + b);
        lemma_override_concat(a.drop_first(), b, n);
    } else {
        assert(a + b == b);
    }
}

/// The table of contents overrides of an image rip: those its CUE sheet's
/// text gives, replaced track by track by those given as text.
pub fn image_toc_overrides_from_settings(
    cue_text: Option<&str>,
    toc_value: Option<&str>,
    default_frame_count: usize,
) -> (r: Vec<(u32, i32, usize)>)
    requires
        cue_text matches Some(t) ==> cue_text_fits(t@),
        toc_value matches Some(v) ==> toc_value_fits(v@),
    ensures
        forall|n: u32| #[trigger] override_for(r@, n) == match toc_value {
            Some(v) => match last_toc_entry(crate::cli::split_char(v@, ','), n) {
                Some(x) => Some(x),
                None => match cue_text {
                    Some(t) => override_for(
                        cue_toc_entries(
                            sorted_by_track(cue_scan(lines_from(t@, 0)).1),
                            default_frame_count,
                        ),
                        n,
                    ),
                    None => None,
                },
            },
            None => match cue_text {
                Some(t) => override_for(
                    cue_toc_entries(
                        sorted_by_track(cue_scan(lines_from(t@, 0)).1),
                        default_frame_count,
                    ),
                    n,
                ),
                None => None,
            },
        },
{
    let cue = match cue_text {
        Some(t) => parse_image_toc_from_cue_text(t, default_frame_count),
        None => Vec::new(),
    };
    let mut out = match toc_value {
        Some(v) => parse_image_toc_value(v),
        None => Vec::new(),
    };
    let ghost first = out@;
    let mut cue_mut = cue;
    let ghost second = cue_mut@;
    out.append(&mut cue_mut);
    assert forall|n: u32| #[trigger] override_for(out@, n) == match override_for(first, n) {
        Some(x) => Some(x),
        None => override_for(second, n),
    } by {
        lemma_override_concat(first, second, n);
    }
    out
}


// ---------------------------------------------------------------------------
// Source, media and durations of a full rip
// ---------------------------------------------------------------------------

/// Where a full rip reads its audio from.
#[derive(Debug, Clone, Copy, PartialEq, Eq, Structural)]
pub enum FullRipSource {
    Image,
    Physical,
}

/// The source of a full rip: an image file named by its extension, else the
/// drive; without a device, the drive when this build reads drives.
pub open spec fn full_rip_source(dev_path: Option<Seq<char>>, physical_drive_support: bool) -> FullRipSource {
    match dev_path {
        Some(p) => if crate::dev_kind_of(p) == crate::DriverKind::Unknown {
            FullRipSource::Physical
        } else {
            FullRipSource::Image
        },
        None => if physical_drive_support {
            FullRipSource::Physical
        } else {
            FullRipSource::Image
        },
    }
}

pub fn full_rip_source_from_settings(settings: &crate::Settings, physical_drive_support: bool) -> (r:
    FullRipSource)
    ensures
        r == full_rip_source(ostr(settings.dev_path), physical_drive_support),
{
    match &settings.dev_path {
        Some(path) => match crate::open_dev_kind(path.as_str()) {
            crate::DriverKind::BinCue | crate::DriverKind::Cue | crate::DriverKind::Nrg
            | crate::DriverKind::CdrDao => FullRipSource::Image,
            crate::DriverKind::Unknown => FullRipSource::Physical,
        },
        None => if physical_drive_support {
            FullRipSource::Physical
        } else {
            FullRipSource::Image
        },
    }
}

/// The tray is ejected after a successful rip when asked for and the audio
/// came from a drive.
pub fn should_attempt_eject_on_success(settings: &crate::Settings, source: FullRipSource) -> (r: bool)
    ensures
        r == (settings.eject_on_success_rip && source == FullRipSource::Physical),
{
    settings.eject_on_success_rip && source == FullRipSource::Physical
}

/// The media tag of a rip: HDCD when decoding HDCD, else CD.
pub fn default_media_value(settings: &crate::Settings) -> (r: &'static str)
    ensures
        r@ == if settings.decode_hdcd {
            "HDCD"@
        } else {
            "CD"@
        },
{
    if settings.decode_hdcd {
        "HDCD"
    } else {
        "CD"
    }
}

/// `mm:ss.cc` for a number of frames (75 per second).
pub open spec fn duration_text(frame_count: nat) -> Seq<char> {
    dec_pad(frame_count / 4500, 2) + ":"@ + dec_pad((frame_count / 75) % 60, 2) + "."@ + dec_pad(
        ((frame_count % 75) * 100) / 75,
        2,
    )
}

pub fn format_duration_from_frames(frame_count: usize) -> (r: String)
    ensures
        r@ == duration_text(frame_count as nat),
{
    let minutes = frame_count / (75 * 60);
    let seconds = (frame_count / 75) % 60;
    let centis = ((frame_count % 75) * 100) / 75;
    let mut out = String::new();
    push_dec_pad(&mut out, minutes as u64, 2);
    out.append(":");
    push_dec_pad(&mut out, seconds as u64, 2);
    out.append(".");
    push_dec_pad(&mut out, centis as u64, 2);
    proof {
        reveal_strlit(":");
        reveal_strlit(".");
    }
    out
}

/// The stereo samples in a number of frames (588 per frame), saturating.
pub fn samples_from_frames(frame_count: usize) -> (r: usize)
    ensures
        r == if frame_count * 588 > usize::MAX {
            usize::MAX as int
        } else {
            frame_count * 588
        },
{
    if frame_count > usize::MAX / 588 {
        usize::MAX
    } else {
        frame_count * 588
    }
}


// ---------------------------------------------------------------------------
// What a run does
// ---------------------------------------------------------------------------

/// The modes of a run.
#[derive(Debug, Clone, Copy, PartialEq, Eq, Structural)]
pub enum WorkflowMode {
    FindOffset,
    InfoOnly,
    /// A CUE sheet was asked for without an offset: the run only says so.
    CueOnlyOffsetUnset,
    CueOnly,
    SyntheticRip,
    FullRip,
}

/// The first output format that cannot be written, if any.
pub open spec fn first_unwritable(outputs: Seq<OutputFormat>) -> Option<OutputFormat>
    decreases outputs.len(),
{
    if outputs.len() == 0 {
        None
    } else if outputs[0] != OutputFormat::Wav && outputs[0] != OutputFormat::Flac {
        Some(outputs[0])
    } else {
        first_unwritable(outputs.drop_first())
    }
}

/// A run's mode: offset search, then info, then a CUE sheet, then a synthetic
/// rip when enabled, else a full rip.
pub open spec fn workflow_mode(s: crate::Settings, synthetic: bool) -> WorkflowMode {
    if s.find_drive_offset {
        WorkflowMode::FindOffset
    } else if s.print_info_only {
        WorkflowMode::InfoOnly
    } else if s.generate_cue_only {
        if s.offset_is_set {
            WorkflowMode::CueOnly
        } else {
            WorkflowMode::CueOnlyOffsetUnset
        }
    } else if synthetic {
        WorkflowMode::SyntheticRip
    } else {
        WorkflowMode::FullRip
    }
}

/// The message of a CUE sheet run without an offset.
pub const CUE_ONLY_OFFSET_UNSET_MESSAGE: &'static str =
    "Offset is unset! To continue with an offset of 0, run with -s 0!";

/// What a run does, or the first output format it cannot write.
pub fn plan_run_workflow(settings: &crate::Settings, synthetic_rip_enabled: bool) -> (r: Result<
    WorkflowMode,
    RunWorkflowError,
>)
    ensures
        match first_unwritable(settings.outputs@) {
            Some(f) => r == Err::<WorkflowMode, RunWorkflowError>(RunWorkflowError::UnsupportedOutputFormat(f)),
            None => r == Ok::<WorkflowMode, RunWorkflowError>(workflow_mode(*settings, synthetic_rip_enabled)),
        },
{
    let mut i: usize = 0;
    assert(settings.outputs@.skip(0) == settings.outputs@);
    while i < settings.outputs.len()
        invariant
            i <= settings.outputs@.len(),
            first_unwritable(settings.outputs@) == first_unwritable(settings.outputs@.skip(i as int)),
        decreases settings.outputs.len() - i,
    {
        let f = settings.outputs[i];
        assert(settings.outputs@.skip(i as int)[0] == f);
        assert(settings.outputs@.skip(i as int).drop_first() == settings.outputs@.skip(i + 1));
        match f {
            OutputFormat::Wav | OutputFormat::Flac => {},
            _ => {
                return Err(RunWorkflowError::UnsupportedOutputFormat(f));
            },
        }
        i += 1;
    }
    if settings.find_drive_offset {
        Ok(WorkflowMode::FindOffset)
    } else if settings.print_info_only {
        Ok(WorkflowMode::InfoOnly)
    } else if settings.generate_cue_only {
        if settings.offset_is_set {
            Ok(WorkflowMode::CueOnly)
        } else {
            Ok(WorkflowMode::CueOnlyOffsetUnset)
        }
    } else if synthetic_rip_enabled {
        Ok(WorkflowMode::SyntheticRip)
    } else {
        Ok(WorkflowMode::FullRip)
    }
}

/// A switch given as text is on: `1`, `true`, `yes` or `on`, in any case,
/// surrounding white space ignored.
pub open spec fn switch_on(v: Seq<char>) -> bool {
    let n = ascii_lower(trim(v));
    n == "1"@ || n == "true"@ || n == "yes"@ || n == "on"@
}

pub fn env_value_truthy(v: &str) -> (r: bool)
    ensures
        r == switch_on(v@),
{
    let c = crate::text::chars_of(v);
    let (a, b) = crate::naming::trim_bounds_pub(c.as_slice(), 0, c.len());
    assert(c@.subrange(0, c@.len() as int) == v@);
    let t = crate::text::string_of(c.as_slice(), a, b);
    let lower = lower_ascii(t.as_str());
    let w1 = crate::text::chars_of("1");
    let w2 = crate::text::chars_of("true");
    let w3 = crate::text::chars_of("yes");
    let w4 = crate::text::chars_of("on");
    crate::text::chars_eq(lower.as_slice(), w1.as_slice()) || crate::text::chars_eq(
        lower.as_slice(),
        w2.as_slice(),
    ) || crate::text::chars_eq(lower.as_slice(), w3.as_slice()) || crate::text::chars_eq(
        lower.as_slice(),
        w4.as_slice(),
    )
}

} // verus!
