//! MusicBrainz disc identifiers, FreeDB (CDDB) identifiers and the
//! MusicBrainz TOC submission link.
use vstd::prelude::*;

use crate::hashing::{base64_of, base64_standard, sha1_digest, sha1_of};
use crate::text::{chars_of, dec, hex_fixed, push_char, push_dec, push_hex};

verus! {

/// The TOC holds offsets for this many tracks.
pub const TOC_TRACK_LIMIT: usize = 99;

#[derive(Debug, Clone, Copy, PartialEq, Eq, Structural)]
pub struct DiscTrack {
    pub number: u8,
    pub start_lsn: i32,
    pub end_lsn: i32,
    pub track_is_data: bool,
}

#[derive(Debug, Clone, PartialEq, Eq)]
pub struct DiscidInfo {
    pub musicbrainz_discid: String,
    pub cddb: String,
    pub mb_submission_url: String,
    pub last_audio_track_index: usize,
}

#[derive(Debug, Clone, Copy, PartialEq, Eq, Structural)]
pub enum DiscidError {
    NoTracks,
    NoAudioTracks,
    InvalidTrackData,
}

// ---------------------------------------------------------------------------
// The model
// ---------------------------------------------------------------------------

/// Every track has non-negative sectors and ends no earlier than it starts.
pub open spec fn valid_disc_tracks(t: Seq<DiscTrack>) -> bool {
    forall|i: int|
        0 <= i < t.len() ==> 0 <= (#[trigger] t[i]).start_lsn && 0 <= t[i].end_lsn && t[i].start_lsn
            <= t[i].end_lsn
}

/// Index of the last audio track among `t[..end]`.
pub open spec fn last_audio_before(t: Seq<DiscTrack>, end: int) -> Option<int>
    decreases end,
{
    if end <= 0 || end > t.len() {
        None
    } else if !t[end - 1].track_is_data {
        Some(end - 1)
    } else {
        last_audio_before(t, end - 1)
    }
}

/// The lead-out position after the last audio track (in frames from the
/// start of the disc, i.e. with the two-second gap).
pub open spec fn lead_out(t: Seq<DiscTrack>, idx: int) -> int {
    t[idx].end_lsn as int + 151
}

/// The TOC offset for slot `i`: the track's start (with the two-second gap)
/// up to the last audio track, 0 after it.
pub open spec fn toc_offset(t: Seq<DiscTrack>, idx: int, i: int) -> int {
    if i <= idx {
        t[i].start_lsn as int + 150
    } else {
        0
    }
}

/// The first `k` TOC offsets as eight upper-case hexadecimal digits each.
pub open spec fn toc_offsets_hex(t: Seq<DiscTrack>, idx: int, k: nat) -> Seq<char>
    decreases k,
{
    if k == 0 {
        Seq::empty()
    } else {
        toc_offsets_hex(t, idx, (k - 1) as nat) + hex_fixed(
            toc_offset(t, idx, k - 1) as nat,
            8,
            true,
        )
    }
}

/// The text whose SHA-1 digest identifies the disc: first and last audio
/// track numbers, lead-out, and 99 track offsets, all in hexadecimal.
pub open spec fn discid_toc_text(t: Seq<DiscTrack>, idx: int) -> Seq<char> {
    hex_fixed(t[0].number as nat, 2, true) + hex_fixed(t[idx].number as nat, 2, true) + hex_fixed(
        lead_out(t, idx) as nat,
        8,
        true,
    ) + toc_offsets_hex(t, idx, TOC_TRACK_LIMIT as nat)
}

/// Base64 made safe for URLs as MusicBrainz does: `/` to `_`, `+` to `.`,
/// `=` to `-`.
pub open spec fn url_safe_id(s: Seq<char>) -> Seq<char> {
    s.map_values(
        |c: char|
            if c == '/' {
                '_'
            } else if c == '+' {
                '.'
            } else if c == '=' {
                '-'
            } else {
                c
            },
    )
}

/// The sum of the decimal digits of `m`.
pub open spec fn digit_sum(m: nat) -> nat
    decreases m,
{
    if m == 0 {
        0
    } else {
        m % 10 + digit_sum(m / 10)
    }
}

/// The digit sums of the start seconds of the first `k` tracks.
pub open spec fn cddb_digit_sum(t: Seq<DiscTrack>, k: nat) -> nat
    decreases k,
{
    if k == 0 {
        0
    } else {
        cddb_digit_sum(t, (k - 1) as nat) + digit_sum(((t[k - 1].start_lsn as int + 150) / 75) as nat)
    }
}

/// The FreeDB identifier: digit-sum checksum modulo 255, then the disc length
/// in seconds, then the last audio track number, packed into 32 bits.
pub open spec fn cddb_id(t: Seq<DiscTrack>, idx: int) -> u32 {
    let sum = (cddb_digit_sum(t, (idx + 1) as nat) % 255) as u32;
    let span = (lead_out(t, idx) / 75 - (t[0].start_lsn as int + 150) / 75) as u32;
    (sum << 24u32) | (span << 8u32) | (t[idx].number as u32)
}

/// `+offset` for each of the first `k` tracks, in decimal.
pub open spec fn submission_offsets(t: Seq<DiscTrack>, k: nat) -> Seq<char>
    decreases k,
{
    if k == 0 {
        Seq::empty()
    } else {
        submission_offsets(t, (k - 1) as nat) + "+"@ + dec((t[k - 1].start_lsn as int + 150) as nat)
    }
}

/// The MusicBrainz link that attaches this TOC to a release.
pub open spec fn submission_url(t: Seq<DiscTrack>, idx: int, discid: Seq<char>) -> Seq<char> {
    "https://musicbrainz.org/cdtoc/attach?toc="@ + dec(t[0].number as nat) + "+"@ + dec(
        t[idx].number as nat,
    ) + "+"@ + dec(lead_out(t, idx) as nat) + submission_offsets(t, (idx + 1) as nat)
        + "&tracks="@ + dec((idx + 1) as nat) + "&id="@ + discid
}

/// The disc length in seconds cannot come out negative.
pub open spec fn span_in_range(t: Seq<DiscTrack>) -> bool {
    last_audio_before(t, t.len() as int) matches Some(idx) ==> (t[0].start_lsn as int + 150) / 75
        <= lead_out(t, idx) / 75
}

/// What identifies a disc once its TOC digest has been Base64-encoded.
pub open spec fn discid_info_matches(
    t: Seq<DiscTrack>,
    idx: int,
    encoded: Seq<char>,
    r: DiscidInfo,
) -> bool {
    &&& r.musicbrainz_discid@ == url_safe_id(encoded)
    &&& r.cddb@ == hex_fixed(cddb_id(t, idx) as nat, 8, true)
    &&& r.mb_submission_url@ == submission_url(t, idx, url_safe_id(encoded))
    &&& r.last_audio_track_index == idx
}

// ---------------------------------------------------------------------------
// Computation
// ---------------------------------------------------------------------------

/// The URL-safe form of a Base64 disc identifier.
pub fn url_safe_discid(encoded: &str) -> (r: String)
    ensures
        r@ == url_safe_id(encoded@),
{
    let v = chars_of(encoded);
    let mut out = String::new();
    let mut i: usize = 0;
    while i < v.len()
        invariant
            i <= v@.len(),
            v@ == encoded@,
            out@ == url_safe_id(v@.take(i as int)),
        decreases v.len() - i,
    {
        let c = v[i];
        let d = if c == '/' {
            '_'
        } else if c == '+' {
            '.'
        } else if c == '=' {
            '-'
        } else {
            c
        };
        push_char(&mut out, d);
        assert(url_safe_id(v@.take(i + 1)) =~= url_safe_id(v@.take(i as int)).push(d));
        i += 1;
    }
    assert(v@.take(v@.len() as int) == v@);
    out
}

fn digit_sum_of(m: u32) -> (r: u32)
    ensures
        r == digit_sum(m as nat),
        r <= 90,
{
    let mut x = m;
    let mut s: u32 = 0;
    let mut steps: u32 = 0;
    while x > 0
        invariant
            s + digit_sum(x as nat) == digit_sum(m as nat),
            s <= 9 * steps,
            steps <= 10,
            x < pow10_bound(steps),
        decreases x,
    {
        s += x % 10;
        x = x / 10;
        steps += 1;
    }
    s
}

/// `x < 10^(10 - steps)` once `steps` digits of a `u32` have been consumed.
pub open spec fn pow10_bound(steps: u32) -> int {
    if steps == 0 {
        0x1_0000_0000
    } else if steps == 1 {
        429496730
    } else if steps == 2 {
        42949673
    } else if steps == 3 {
        4294968
    } else if steps == 4 {
        429497
    } else if steps == 5 {
        42950
    } else if steps == 6 {
        4295
    } else if steps == 7 {
        430
    } else if steps == 8 {
        43
    } else if steps == 9 {
        5
    } else {
        1
    }
}

/// Everything that follows the digest: the URL-safe identifier, the FreeDB
/// identifier and the submission link, for tracks `t` whose last audio track
/// is `last_audio_track_index` and whose digest Base64 text is `encoded`.
pub fn discid_info_from_digest(
    tracks: &[DiscTrack],
    last_audio_track_index: usize,
    encoded: &str,
) -> (r: DiscidInfo)
    requires
        valid_disc_tracks(tracks@),
        last_audio_before(tracks@, tracks@.len() as int) == Some(last_audio_track_index as int),
        span_in_range(tracks@),
    ensures
        discid_info_matches(tracks@, last_audio_track_index as int, encoded@, r),
{
    proof {
        lemma_last_audio_bounds(tracks@, tracks@.len() as int);
    }
    let idx = last_audio_track_index;
    let ghost t = tracks@;
    let first = tracks[0];
    let lt = tracks[idx];
    let last: u32 = lt.end_lsn as u32 + 151;
    let discid = url_safe_discid(encoded);

    let mut sum: u32 = 0;
    let mut i: usize = 0;
    while i <= idx
        invariant
            idx < t.len(),
            t == tracks@,
            valid_disc_tracks(t),
            i <= idx + 1,
            sum as int == cddb_digit_sum(t, i as nat) % 255,
        decreases idx + 1 - i,
    {
        let tr = tracks[i];
        assert(0 <= t[i as int].start_lsn);
        let m: u32 = (tr.start_lsn as u32 + 150) / 75;
        let d = digit_sum_of(m);
        proof {
            vstd::arithmetic::div_mod::lemma_add_mod_noop(
                cddb_digit_sum(t, i as nat) as int,
                d as int,
                255,
            );
            vstd::arithmetic::div_mod::lemma_mod_twice(d as int, 255);
            vstd::arithmetic::div_mod::lemma_add_mod_noop(sum as int, d as int, 255);
        }
        sum = (sum + d) % 255;
        i += 1;
    }
    assert(0 <= t[0].start_lsn);
    let first_secs: u32 = (first.start_lsn as u32 + 150) / 75;
    let span: u32 = last / 75 - first_secs;
    let cddb: u32 = (sum << 24u32) | (span << 8u32) | (lt.number as u32);
    let mut cddb_text = String::new();
    push_hex(&mut cddb_text, cddb as u64, 8, true);

    let mut url = String::from_str("https://musicbrainz.org/cdtoc/attach?toc=");
    push_dec(&mut url, first.number as u64);
    url.append("+");
    push_dec(&mut url, lt.number as u64);
    url.append("+");
    push_dec(&mut url, last as u64);
    let ghost head = url@;
    let mut j: usize = 0;
    while j <= idx
        invariant
            idx < t.len(),
            t == tracks@,
            valid_disc_tracks(t),
            j <= idx + 1,
            url@ == head + submission_offsets(t, j as nat),
        decreases idx + 1 - j,
    {
        let tr = tracks[j];
        assert(0 <= t[j as int].start_lsn);
        url.append("+");
        push_dec(&mut url, (tr.start_lsn as u32 + 150) as u64);
        j += 1;
    }
    url.append("&tracks=");
    push_dec(&mut url, (idx as u64) + 1);
    url.append("&id=");
    url.append(discid.as_str());
    DiscidInfo {
        musicbrainz_discid: discid,
        cddb: cddb_text,
        mb_submission_url: url,
        last_audio_track_index: idx,
    }
}

proof fn lemma_last_audio_bounds(t: Seq<DiscTrack>, end: int)
    ensures
        last_audio_before(t, end) matches Some(i) ==> 0 <= i < end <= t.len() && !t[i].track_is_data,
        last_audio_before(t, end) is None ==> forall|j: int|
            0 <= j < end && end <= t.len() ==> #[trigger] t[j].track_is_data,
    decreases end,
{
    if 0 < end <= t.len() && t[end - 1].track_is_data {
        lemma_last_audio_bounds(t, end - 1);
    }
}

/// Identifies a disc from its track list: the MusicBrainz disc identifier
/// (URL-safe Base64 of the SHA-1 of its TOC text), the FreeDB identifier and
/// the MusicBrainz submission link, computed over the tracks up to the last
/// audio track.
pub fn compute_discid(tracks: &[DiscTrack]) -> (r: Result<DiscidInfo, DiscidError>)
    requires
        span_in_range(tracks@),
    ensures
        tracks@.len() == 0 ==> r == Err::<DiscidInfo, DiscidError>(DiscidError::NoTracks),
        tracks@.len() > 0 && !valid_disc_tracks(tracks@) ==> r == Err::<DiscidInfo, DiscidError>(
            DiscidError::InvalidTrackData,
        ),
        tracks@.len() > 0 && valid_disc_tracks(tracks@) && last_audio_before(
            tracks@,
            tracks@.len() as int,
        ) is None ==> r == Err::<DiscidInfo, DiscidError>(DiscidError::NoAudioTracks),
        tracks@.len() > 0 && valid_disc_tracks(tracks@) ==> match last_audio_before(
            tracks@,
            tracks@.len() as int,
        ) {
            Some(idx) => r matches Ok(info) && discid_info_matches(
                tracks@,
                idx,
                base64_standard(sha1_digest(vstd::utf8::encode_utf8(discid_toc_text(tracks@, idx)))),
                info,
            ),
            None => true,
        },
{
    if tracks.len() == 0 {
        return Err(DiscidError::NoTracks);
    }
    let mut i: usize = 0;
    while i < tracks.len()
        invariant
            i <= tracks@.len(),
            forall|j: int|
                0 <= j < i ==> 0 <= (#[trigger] tracks@[j]).start_lsn && 0 <= tracks@[j].end_lsn
                    && tracks@[j].start_lsn <= tracks@[j].end_lsn,
        decreases tracks.len() - i,
    {
        let t = tracks[i];
        if t.start_lsn < 0 || t.end_lsn < 0 || t.end_lsn < t.start_lsn {
            return Err(DiscidError::InvalidTrackData);
        }
        i += 1;
    }
    let mut end = tracks.len();
    while end > 0 && tracks[end - 1].track_is_data
        invariant
            end <= tracks@.len(),
            last_audio_before(tracks@, tracks@.len() as int) == last_audio_before(
                tracks@,
                end as int,
            ),
        decreases end,
    {
        end -= 1;
    }
    if end == 0 {
        return Err(DiscidError::NoAudioTracks);
    }
    let idx = end - 1;
    let ghost t = tracks@;
    let lt = tracks[idx];
    let last: u32 = lt.end_lsn as u32 + 151;
    let mut text = String::new();
    push_hex(&mut text, tracks[0].number as u64, 2, true);
    push_hex(&mut text, lt.number as u64, 2, true);
    push_hex(&mut text, last as u64, 8, true);
    let ghost head = text@;
    let mut k: usize = 0;
    while k < TOC_TRACK_LIMIT
        invariant
            idx < t.len(),
            t == tracks@,
            valid_disc_tracks(t),
            k <= TOC_TRACK_LIMIT,
            text@ == head + toc_offsets_hex(t, idx as int, k as nat),
        decreases TOC_TRACK_LIMIT - k,
    {
        let offset: u32 = if k <= idx {
            assert(0 <= t[k as int].start_lsn);
            tracks[k].start_lsn as u32 + 150
        } else {
            0
        };
        push_hex(&mut text, offset as u64, 8, true);
        k += 1;
    }
    assert(text@ == discid_toc_text(t, idx as int));
    let digest = sha1_of(text.as_str().as_bytes());
    let encoded = base64_of(digest.as_slice());
    Ok(discid_info_from_digest(tracks, idx, encoded.as_str()))
}

} // verus!
