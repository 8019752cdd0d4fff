//! The decisions of a full rip that are not reading or writing: the album
//! tags, the AccurateRip check after each read attempt, and the summary
//! text of each track.
use vstd::prelude::*;

use crate::metadata::discid::DiscidInfo;
use crate::metadata::musicbrainz::MusicBrainzReleaseMeta;
use crate::naming::{trim, trim_bounds_pub};
use crate::tags::TagMap;
use crate::text::{chars_of, dec, dec_int, push_dec, push_dec_i64, repeat};
use crate::track_meta::{album_meta_value, opt_str, parse_album_metadata_map};
use crate::workflow::{RunWorkflowError, default_media_value, duration_text, format_duration_from_frames, samples_from_frames, FullRipSource, TrackBoundary};
use crate::Settings;

verus! {

pub open spec fn opt_view(o: Option<String>) -> Option<Seq<char>> {
    match o {
        Some(s) => Some(s@),
        None => None,
    }
}

/// The album tag `k` of a full rip: the album metadata option first, then
/// the disc identifiers, then the MusicBrainz release, and last the
/// defaults for the album, its artist and the media.
pub open spec fn full_rip_album_value(
    album_metadata: Option<Seq<char>>,
    discid: Option<DiscidInfo>,
    release: Option<MusicBrainzReleaseMeta>,
    hdcd: bool,
    k: Seq<char>,
) -> Option<Seq<char>> {
    if album_meta_value(album_metadata, k) is Some {
        album_meta_value(album_metadata, k)
    } else if k == "musicbrainz_discid"@ && discid is Some {
        Some(discid->Some_0.musicbrainz_discid@)
    } else if k == "cddb"@ && discid is Some {
        Some(discid->Some_0.cddb@)
    } else if k == "album"@ && release is Some {
        Some(release->Some_0.album@)
    } else if k == "album_artist"@ && release is Some && release->Some_0.album_artist is Some {
        opt_view(release->Some_0.album_artist)
    } else if k == "musicbrainz_albumid"@ && release is Some {
        Some(release->Some_0.musicbrainz_albumid@)
    } else if k == "date"@ && release is Some && release->Some_0.date is Some {
        opt_view(release->Some_0.date)
    } else if k == "album"@ {
        Some("Runtime Album"@)
    } else if k == "album_artist"@ {
        Some("Runtime Artist"@)
    } else if k == "media"@ {
        Some(if hdcd { "HDCD"@ } else { "CD"@ })
    } else {
        None
    }
}

/// Stores `value` under `key` unless a value is stored there already.
fn insert_if_absent(m: &mut TagMap, key: &str, value: &str)
    ensures
        forall|k: Seq<char>| #[trigger] final(m).get_spec(k) == if k == key@ && old(m).get_spec(k) is None {
            Some(value@)
        } else {
            old(m).get_spec(k)
        },
{
    if m.get(key).is_none() {
        m.insert(String::from_str(key), String::from_str(value));
    }
}

/// The album tags of a full rip (see `full_rip_album_value`).
pub fn full_rip_album_meta(
    settings: &Settings,
    discid: Option<&DiscidInfo>,
    release: Option<&MusicBrainzReleaseMeta>,
) -> (r: TagMap)
    ensures
        forall|k: Seq<char>| #[trigger] r.get_spec(k) == full_rip_album_value(
            opt_view(settings.album_metadata),
            match discid {
                Some(d) => Some(*d),
                None => None,
            },
            match release {
                Some(m) => Some(*m),
                None => None,
            },
            settings.decode_hdcd,
            k,
        ),
{
    let raw: Option<&str> = match &settings.album_metadata {
        Some(s) => Some(s.as_str()),
        None => None,
    };
    assert(opt_str(raw) == opt_view(settings.album_metadata));
    let mut m = parse_album_metadata_map(raw);
    proof {
        reveal_strlit("musicbrainz_discid");
        reveal_strlit("cddb");
        reveal_strlit("album");
        reveal_strlit("album_artist");
        reveal_strlit("musicbrainz_albumid");
        reveal_strlit("date");
        reveal_strlit("media");
    }
    if let Some(d) = discid {
        insert_if_absent(&mut m, "musicbrainz_discid", d.musicbrainz_discid.as_str());
        insert_if_absent(&mut m, "cddb", d.cddb.as_str());
    }
    if let Some(rel) = release {
        insert_if_absent(&mut m, "album", rel.album.as_str());
        if let Some(a) = &rel.album_artist {
            insert_if_absent(&mut m, "album_artist", a.as_str());
        }
        insert_if_absent(&mut m, "musicbrainz_albumid", rel.musicbrainz_albumid.as_str());
        if let Some(date) = &rel.date {
            insert_if_absent(&mut m, "date", date.as_str());
        }
    }
    insert_if_absent(&mut m, "album", "Runtime Album");
    insert_if_absent(&mut m, "album_artist", "Runtime Artist");
    insert_if_absent(&mut m, "media", default_media_value(settings));
    m
}

/// `s` left-aligned in a field of `w` characters (`{:<w}`).
pub open spec fn pad_right(s: Seq<char>, w: nat) -> Seq<char> {
    if s.len() >= w {
        s
    } else {
        s + repeat(' ', (w - s.len()) as nat)
    }
}

/// The metadata lines of a track: each tag whose value is not blank, in key
/// order, its key in a field of 30 characters.
pub open spec fn meta_lines(pairs: Seq<(Seq<char>, Seq<char>)>) -> Seq<char>
    decreases pairs.len(),
{
    if pairs.len() == 0 {
        Seq::empty()
    } else {
        meta_lines(pairs.drop_last()) + if trim(pairs.last().1).len() == 0 {
            Seq::<char>::empty()
        } else {
            "    "@ + pad_right(pairs.last().0, 30) + " "@ + pairs.last().1 + "\n"@
        }
    }
}

/// The file lines of a track.
pub open spec fn file_lines(files: Seq<Seq<char>>) -> Seq<char>
    decreases files.len(),
{
    if files.len() == 0 {
        Seq::empty()
    } else {
        file_lines(files.drop_last()) + "    "@ + files.last() + "\n"@
    }
}

/// The last frame of a track (its start when it has none), saturating.
pub open spec fn track_end_lsn(b: TrackBoundary) -> int {
    let tail = (if b.frame_count == 0 {
        0
    } else {
        b.frame_count - 1
    }) as i32;
    let sum = b.start_lsn + tail;
    if sum > i32::MAX {
        i32::MAX as int
    } else if sum < i32::MIN {
        i32::MIN as int
    } else {
        sum
    }
}

/// The summary of one ripped track: where it lies, its properties, the
/// benchmark line the caller measured, its tags (or "none" for a track
/// without any) and the files written for it.
pub open spec fn track_summary_text(
    b: TrackBoundary,
    benchmark: Option<Seq<char>>,
    meta: Option<Seq<(Seq<char>, Seq<char>)>>,
    files: Seq<Seq<char>>,
) -> Seq<char> {
    let n = dec(b.track_number as nat);
    let samples = if b.frame_count * 588 > usize::MAX {
        usize::MAX as nat
    } else {
        (b.frame_count * 588) as nat
    };
    "TRACK "@ + n + " START_LSN "@ + dec_int(b.start_lsn as int) + " FRAMES "@ + dec(b.frame_count as nat)
        + "\nTrack "@ + n + " ripped and encoded successfully!\nTrack "@ + n
        + " summary:\n  Properties:\n    Duration:    "@ + duration_text(b.frame_count as nat)
        + "\n    Samples:     "@ + dec(samples) + "\n    Frames:      "@ + dec(b.frame_count as nat)
        + "\n    Start LSN:   "@ + dec_int(b.start_lsn as int) + "\n    End LSN:     "@ + dec_int(
        track_end_lsn(b),
    ) + "\n"@ + (match benchmark {
        Some(t) => "    Benchmark:   "@ + t + "\n"@,
        None => Seq::empty(),
    }) + "\n  Metadata:\n"@ + (match meta {
        Some(p) => meta_lines(p),
        None => "    none\n"@,
    }) + "\n  File(s):\n"@ + file_lines(files) + "\n"@
}

fn push_str(out: &mut String, s: &str)
    ensures
        final(out)@ == old(out)@ + s@,
{
    out.append(s);
}

/// Whether a value is blank (`str::trim` leaves nothing).
fn is_blank_value(v: &str) -> (r: bool)
    ensures
        r == (trim(v@).len() == 0),
{
    let c = chars_of(v);
    let (a, b) = trim_bounds_pub(c.as_slice(), 0, c.len());
    assert(c@.subrange(0, c@.len() as int) =~= v@);
    a == b
}

/// The summary of one ripped track (see `track_summary_text`).
#[verifier::rlimit(50)]
pub fn full_rip_track_summary(
    b: &TrackBoundary,
    benchmark: Option<&str>,
    meta: Option<&TagMap>,
    files: &[String],
) -> (r: String)
    ensures
        r@ == track_summary_text(
            *b,
            opt_str(benchmark),
            match meta {
                Some(m) => Some(m.pairs()),
                None => None,
            },
            files@.map_values(|f: String| f@),
        ),
{
    let mut out = String::from_str("TRACK ");
    push_dec(&mut out, b.track_number as u64);
    push_str(&mut out, " START_LSN ");
    push_dec_i64(&mut out, b.start_lsn as i64);
    push_str(&mut out, " FRAMES ");
    push_dec(&mut out, b.frame_count as u64);
    push_str(&mut out, "\nTrack ");
    push_dec(&mut out, b.track_number as u64);
    push_str(&mut out, " ripped and encoded successfully!\nTrack ");
    push_dec(&mut out, b.track_number as u64);
    push_str(&mut out, " summary:\n  Properties:\n    Duration:    ");
    let d = format_duration_from_frames(b.frame_count);
    push_str(&mut out, d.as_str());
    push_str(&mut out, "\n    Samples:     ");
    push_dec(&mut out, samples_from_frames(b.frame_count) as u64);
    push_str(&mut out, "\n    Frames:      ");
    push_dec(&mut out, b.frame_count as u64);
    push_str(&mut out, "\n    Start LSN:   ");
    push_dec_i64(&mut out, b.start_lsn as i64);
    push_str(&mut out, "\n    End LSN:     ");
    let tail: usize = if b.frame_count == 0 { 0 } else { b.frame_count - 1 };
    let t: i32 = #[verifier::truncate] (tail as i32);
    let sum: i64 = b.start_lsn as i64 + t as i64;
    let end: i64 = if sum > i32::MAX as i64 {
        i32::MAX as i64
    } else if sum < i32::MIN as i64 {
        i32::MIN as i64
    } else {
        sum
    };
    push_dec_i64(&mut out, end);
    push_str(&mut out, "\n");
    if let Some(t) = benchmark {
        push_str(&mut out, "    Benchmark:   ");
        push_str(&mut out, t);
        push_str(&mut out, "\n");
    }
    push_str(&mut out, "\n  Metadata:\n");
    match meta {
        Some(m) => {
            let n = m.len();
            let mut i: usize = 0;
            let ghost before = out@;
            while i < n
                invariant
                    i <= n,
                    n == m.pairs().len(),
                    out@ == before + meta_lines(m.pairs().take(i as int)),
                decreases n - i,
            {
                assert(m.pairs().take(i + 1).drop_last() =~= m.pairs().take(i as int));
                let k = m.key_at(i);
                let v = m.value_at(i);
                if !is_blank_value(v.as_str()) {
                    push_str(&mut out, "    ");
                    push_str(&mut out, k.as_str());
                    let kc = chars_of(k.as_str());
                    let mut w = kc.len();
                    assert(repeat(' ', 0) =~= Seq::<char>::empty());
                    while w < 30
                        invariant
                            k@.len() <= w <= 30 || (k@.len() > 30 && w == k@.len()),
                            w >= k@.len(),
                            out@ == before + meta_lines(m.pairs().take(i as int)) + "    "@ + k@
                                + repeat(' ', (w - k@.len()) as nat),
                        decreases 30 - w,
                    {
                        let ghost o = out@;
                        push_str(&mut out, " ");
                        proof {
                            reveal_strlit(" ");
                            assert(repeat(' ', (w + 1 - k@.len()) as nat) =~= repeat(' ', (w - k@.len()) as nat).push(' '));
                            assert(out@ =~= before + meta_lines(m.pairs().take(i as int)) + "    "@ + k@
                                + repeat(' ', (w + 1 - k@.len()) as nat));
                        }
                        w += 1;
                    }
                    assert(pad_right(k@, 30) =~= k@ + repeat(' ', (w - k@.len()) as nat));
                    push_str(&mut out, " ");
                    push_str(&mut out, v.as_str());
                    push_str(&mut out, "\n");
                }
                i += 1;
            }
            assert(m.pairs().take(n as int) =~= m.pairs());
        },
        None => {
            push_str(&mut out, "    none\n");
        },
    }
    push_str(&mut out, "\n  File(s):\n");
    let ghost before_files = out@;
    let mut j: usize = 0;
    while j < files.len()
        invariant
            j <= files@.len(),
            out@ == before_files + file_lines(files@.map_values(|f: String| f@).take(j as int)),
        decreases files.len() - j,
    {
        assert(files@.map_values(|f: String| f@).take(j + 1).drop_last() =~= files@.map_values(
            |f: String| f@,
        ).take(j as int));
        push_str(&mut out, "    ");
        push_str(&mut out, files[j].as_str());
        push_str(&mut out, "\n");
        j += 1;
    }
    assert(files@.map_values(|f: String| f@).take(files@.len() as int) =~= files@.map_values(
        |f: String| f@,
    ));
    push_str(&mut out, "\n");
    assert(out@ =~= track_summary_text(
        *b,
        opt_str(benchmark),
        match meta {
            Some(m) => Some(m.pairs()),
            None => None,
        },
        files@.map_values(|f: String| f@),
    ));
    out
}

/// The head of a full rip's summary: the source, the output root, how many
/// files were written, and the memory line the caller measured, if any.
pub open spec fn summary_head_text(
    source: FullRipSource,
    output_root: Seq<char>,
    written_files: nat,
    peak_rss: Option<Seq<char>>,
) -> Seq<char> {
    "cyanrip-rs full-rip bridge mode\nSource: "@ + (match source {
        FullRipSource::Image => "image"@,
        FullRipSource::Physical => "physical"@,
    }) + "\nOutput root: "@ + output_root + "\nWritten files: "@ + dec(written_files) + "\n"@ + (
    match peak_rss {
        Some(p) => "Peak RSS:      "@ + p + "\n"@,
        None => Seq::empty(),
    })
}

/// The head of a full rip's summary (see `summary_head_text`).
pub fn full_rip_summary_head(
    source: FullRipSource,
    output_root: &str,
    written_files: usize,
    peak_rss: Option<&str>,
) -> (r: String)
    ensures
        r@ == summary_head_text(source, output_root@, written_files as nat, opt_str(peak_rss)),
{
    let mut out = String::from_str("cyanrip-rs full-rip bridge mode\nSource: ");
    match source {
        FullRipSource::Image => push_str(&mut out, "image"),
        FullRipSource::Physical => push_str(&mut out, "physical"),
    }
    push_str(&mut out, "\nOutput root: ");
    push_str(&mut out, output_root);
    push_str(&mut out, "\nWritten files: ");
    push_dec(&mut out, written_files as u64);
    push_str(&mut out, "\n");
    if let Some(p) = peak_rss {
        push_str(&mut out, "Peak RSS:      ");
        push_str(&mut out, p);
        push_str(&mut out, "\n");
    }
    out
}

// ---------------------------------------------------------------------------
// Checking a track read against AccurateRip
// ---------------------------------------------------------------------------

/// How many times a track is read at most: the retry setting, at least once.
pub open spec fn max_track_attempts(max_retries: i32) -> u32 {
    if max_retries < 1 {
        1
    } else {
        max_retries as u32
    }
}

pub fn track_attempt_limit(max_retries: i32) -> (r: u32)
    ensures
        r == max_track_attempts(max_retries),
{
    if max_retries < 1 {
        1
    } else {
        max_retries as u32
    }
}

/// The line announcing read attempt `attempt` of `max` of a track.
pub open spec fn track_attempt_text(track: u32, attempt: u32, max: u32) -> Seq<char> {
    "Track "@ + dec(track as nat) + " read attempt "@ + dec(attempt as nat) + " of "@ + dec(max as nat)
        + "..."@
}

pub fn track_attempt_line(track: u32, attempt: u32, max: u32) -> (r: String)
    ensures
        r@ == track_attempt_text(track, attempt, max),
{
    let mut out = String::from_str("Track ");
    push_dec(&mut out, track as u64);
    out.append(" read attempt ");
    push_dec(&mut out, attempt as u64);
    out.append(" of ");
    push_dec(&mut out, max as u64);
    out.append("...");
    out
}

/// What the AccurateRip check of a read attempt reports: the confidence
/// found, a found disc with confidence 0, or no verification; a mismatch
/// reports nothing here.
pub open spec fn attempt_status_text(track: u32, attempt: u32, confidence: Option<i32>) -> Option<Seq<char>> {
    let at = " for track "@ + dec(track as nat) + " on attempt "@ + dec(attempt as nat);
    match confidence {
        Some(v) => if v > 0 {
            Some("AccurateRip verified"@ + at + " with confidence "@ + dec(v as nat) + "."@)
        } else if v == 0 {
            Some("AccurateRip status found but confidence is 0"@ + at + "."@)
        } else {
            None
        },
        None => Some("AccurateRip verification unavailable"@ + at + "."@),
    }
}

/// After read attempt `attempt` of at most `max`: a mismatch (confidence
/// -1) reads the track again while attempts are left, announcing it, and
/// else fails the rip; any other result keeps the read.
pub open spec fn attempt_verdict(track: u32, attempt: u32, max: u32, confidence: Option<i32>) -> (
    Option<Seq<char>>,
    Result<bool, Seq<char>>,
) {
    if confidence == Some(-1i32) {
        if attempt < max {
            (
                Some("AccurateRip mismatch on track "@ + dec(track as nat) + " (attempt "@ + dec(
                    attempt as nat,
                ) + " of "@ + dec(max as nat) + "), retrying track read..."@),
                Ok(false),
            )
        } else {
            (
                None,
                Err("AccurateRip mismatch persisted on track "@ + dec(track as nat) + " after "@ + dec(
                    attempt as nat,
                ) + " attempt(s)"@),
            )
        }
    } else {
        (None, Ok(true))
    }
}

/// The AccurateRip check of read attempt `attempt` (of at most `max`) of a
/// track with the confidence found: the lines it prints, and whether the
/// read is kept (`Ok(true)`), the track is read again (`Ok(false)`), or the
/// rip fails.
pub fn accurip_track_attempt(track: u32, attempt: u32, max: u32, confidence: Option<i32>) -> (r: (
    Vec<String>,
    Result<bool, RunWorkflowError>,
))
    ensures
        ({
            let status = attempt_status_text(track, attempt, confidence);
            let (retry_line, verdict) = attempt_verdict(track, attempt, max, confidence);
            &&& r.0@.map_values(|l: String| l@) == (match status {
                Some(t) => seq![t],
                None => Seq::<Seq<char>>::empty(),
            }) + (match retry_line {
                Some(t) => seq![t],
                None => Seq::<Seq<char>>::empty(),
            })
            &&& match verdict {
                Ok(b) => r.1 == Ok::<bool, RunWorkflowError>(b),
                Err(m) => r.1 matches Err(RunWorkflowError::Runtime(t)) && t@ == m,
            }
        }),
{
    let mut lines: Vec<String> = Vec::new();
    let mut at = String::from_str(" for track ");
    push_dec(&mut at, track as u64);
    at.append(" on attempt ");
    push_dec(&mut at, attempt as u64);
    match confidence {
        Some(v) => {
            if v > 0 {
                let mut l = String::from_str("AccurateRip verified");
                l.append(at.as_str());
                l.append(" with confidence ");
                push_dec(&mut l, v as u64);
                l.append(".");
                lines.push(l);
            } else if v == 0 {
                let mut l = String::from_str("AccurateRip status found but confidence is 0");
                l.append(at.as_str());
                l.append(".");
                lines.push(l);
            }
        },
        None => {
            let mut l = String::from_str("AccurateRip verification unavailable");
            l.append(at.as_str());
            l.append(".");
            lines.push(l);
        },
    }
    let ghost before = lines@;
    let verdict = match confidence {
        Some(v) if v == -1 => {
            if attempt < max {
                let mut l = String::from_str("AccurateRip mismatch on track ");
                push_dec(&mut l, track as u64);
                l.append(" (attempt ");
                push_dec(&mut l, attempt as u64);
                l.append(" of ");
                push_dec(&mut l, max as u64);
                l.append("), retrying track read...");
                lines.push(l);
                Ok(false)
            } else {
                let mut m = String::from_str("AccurateRip mismatch persisted on track ");
                push_dec(&mut m, track as u64);
                m.append(" after ");
                push_dec(&mut m, attempt as u64);
                m.append(" attempt(s)");
                Err(RunWorkflowError::Runtime(m))
            }
        },
        _ => Ok(true),
    };
    proof {
        let status = attempt_status_text(track, attempt, confidence);
        let (retry_line, _) = attempt_verdict(track, attempt, max, confidence);
        let s1 = match status {
            Some(t) => seq![t],
            None => Seq::<Seq<char>>::empty(),
        };
        assert(before.map_values(|l: String| l@) =~= s1);
        let s2 = match retry_line {
            Some(t) => seq![t],
            None => Seq::<Seq<char>>::empty(),
        };
        assert(lines@.map_values(|l: String| l@) =~= s1 + s2);
    }
    (lines, verdict)
}

} // verus!
