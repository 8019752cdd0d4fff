//! Finding a drive's read offset: frames read around a known position are
//! checked against the AccurateRip records of the disc at every candidate
//! sample offset.
use vstd::prelude::*;

use crate::cdda::linux_drive::open_linux_physical_drive;
use crate::cdda::reader::{CddaFrameReader, CDDA_FRAME_BYTES};
use crate::fun512::samples_of;
use crate::metadata::accurip::{
    best_confidence, find_accurip_confidence, AccuDbStatus, AccuRipDbEntry, AccuRipLookupResult,
    AccuRipTrackMatches,
    AccuRipTrackInput,
};
use crate::text::{dec, dec_int, push_dec, push_dec_i64};
use crate::track_read::{drive_unavailable_text, read_error_text};
use crate::workflow::{accurip_v1_checksum, frame_v1_sum, runtime_msg, RunWorkflowError};
use crate::clamp_i32;

verus! {

/// The first search radius, in frames.
pub const FIND_OFFSET_INITIAL_RADIUS_FRAMES: usize = 6;

// ---------------------------------------------------------------------------
// Searching a window
// ---------------------------------------------------------------------------

/// The window position of the frame that starts `offset` samples from the
/// centre, when it lies within the radius and the window.
pub open spec fn offset_frame_start(window_len: nat, bytes_radius: nat, offset: i32) -> Option<int> {
    let byte_off: int = if offset < 0 { -(offset as int) * 4 } else { offset as int * 4 };
    if byte_off > bytes_radius {
        None
    } else {
        let start = if offset < 0 { bytes_radius - byte_off } else { bytes_radius + byte_off };
        if start + 2352 <= window_len {
            Some(start)
        } else {
            None
        }
    }
}

/// Whether the frame at `offset` has a non-zero checksum that the records
/// give their highest confidence.
pub open spec fn offset_matches(
    window: Seq<u8>,
    entries: Seq<AccuRipDbEntry>,
    max_confidence: i32,
    bytes_radius: nat,
    offset: i32,
) -> bool {
    match offset_frame_start(window.len(), bytes_radius, offset) {
        Some(start) => {
            let sum = frame_v1_sum(samples_of(window.subrange(start, start + 2352)));
            sum != 0 && best_confidence(entries, sum, true) == max_confidence as int
        },
        None => false,
    }
}

/// The candidate offset at byte distance `byte_off` in direction `dir`.
pub open spec fn candidate_at(dir: i32, byte_off: int) -> i32 {
    clamp_i32(dir * (((byte_off / 4) as usize) as i32))
}

/// The first matching candidate of the scan from `byte_off` on, skipping
/// the guess.
pub open spec fn scan_offsets(
    window: Seq<u8>,
    entries: Seq<AccuRipDbEntry>,
    max_confidence: i32,
    bytes_radius: nat,
    dir: i32,
    guess: i32,
    byte_off: int,
) -> Option<i32>
    decreases bytes_radius + 4 - byte_off,
{
    if byte_off < 0 || byte_off >= bytes_radius {
        None
    } else {
        let offset = candidate_at(dir, byte_off);
        if offset != guess && offset_matches(window, entries, max_confidence, bytes_radius, offset) {
            Some(offset)
        } else {
            scan_offsets(window, entries, max_confidence, bytes_radius, dir, guess, byte_off + 4)
        }
    }
}

/// The offset found in a window read around a known position: the guess
/// when it matches, else the first match scanning away from the centre in
/// direction `dir`.
pub open spec fn window_search(
    window: Seq<u8>,
    entries: Seq<AccuRipDbEntry>,
    max_confidence: i32,
    bytes_radius: nat,
    dir: i32,
    guess: i32,
) -> Option<i32> {
    if window.len() < bytes_radius * 2 + 2352 {
        None
    } else if guess != 0 && offset_matches(window, entries, max_confidence, bytes_radius, guess) {
        Some(guess)
    } else {
        scan_offsets(window, entries, max_confidence, bytes_radius, dir, guess, if dir < 0 { 4 } else { 0 })
    }
}

/// The frame starting `start` bytes into the window exists, and its v1 sum
/// is not zero and is one the records give their highest confidence.
pub open spec fn frame_hits(window: Seq<u8>, entries: Seq<AccuRipDbEntry>, max_confidence: i32, start: int) -> bool {
    &&& 0 <= start
    &&& start + 2352 <= window.len()
    &&& frame_v1_sum(samples_of(window.subrange(start, start + 2352))) != 0
    &&& best_confidence(entries, frame_v1_sum(samples_of(window.subrange(start, start + 2352))), true)
        == max_confidence as int
}

proof fn lemma_offset_matches_frame(
    window: Seq<u8>,
    entries: Seq<AccuRipDbEntry>,
    max_confidence: i32,
    bytes_radius: nat,
    offset: i32,
)
    ensures
        offset_matches(window, entries, max_confidence, bytes_radius, offset) ==> 4 * (if offset < 0 {
            -offset
        } else {
            offset as int
        }) <= bytes_radius,
        4 * (if offset < 0 { -offset } else { offset as int }) <= bytes_radius ==> (offset_matches(
            window,
            entries,
            max_confidence,
            bytes_radius,
            offset,
        ) == frame_hits(window, entries, max_confidence, bytes_radius + 4 * offset)),
{
}

proof fn lemma_scan_found_matches(
    window: Seq<u8>,
    entries: Seq<AccuRipDbEntry>,
    max_confidence: i32,
    bytes_radius: nat,
    dir: i32,
    guess: i32,
    byte_off: int,
)
    ensures
        scan_offsets(window, entries, max_confidence, bytes_radius, dir, guess, byte_off) matches Some(o)
            ==> offset_matches(window, entries, max_confidence, bytes_radius, o),
    decreases bytes_radius + 4 - byte_off,
{
    if !(byte_off < 0 || byte_off >= bytes_radius) {
        lemma_scan_found_matches(window, entries, max_confidence, bytes_radius, dir, guess, byte_off + 4);
    }
}

/// An offset found in a window is one whose frame matches: the frame that
/// starts `4 * offset` bytes from the centre (before it for a negative
/// offset, after it for a positive one) has a v1 sum the records give their
/// highest confidence.
pub proof fn law_found_offset_frame_matches(
    window: Seq<u8>,
    entries: Seq<AccuRipDbEntry>,
    max_confidence: i32,
    bytes_radius: nat,
    dir: i32,
    guess: i32,
)
    ensures
        window_search(window, entries, max_confidence, bytes_radius, dir, guess) matches Some(o)
            ==> frame_hits(window, entries, max_confidence, bytes_radius + 4 * o),
{
    match window_search(window, entries, max_confidence, bytes_radius, dir, guess) {
        Some(o) => {
            lemma_scan_found_matches(window, entries, max_confidence, bytes_radius, dir, guess, if dir < 0 {
                4
            } else {
                0
            });
            lemma_offset_matches_frame(window, entries, max_confidence, bytes_radius, o);
        },
        None => {},
    }
}

proof fn lemma_scan_reaches(
    window: Seq<u8>,
    entries: Seq<AccuRipDbEntry>,
    max_confidence: i32,
    bytes_radius: nat,
    dir: i32,
    m: int,
    j: int,
)
    requires
        dir == 1 || dir == -1,
        1 <= j <= m,
        m <= i32::MAX,
        4 * m < bytes_radius,
        bytes_radius <= usize::MAX,
        frame_hits(window, entries, max_confidence, bytes_radius + 4 * dir * m),
        forall|k: int| j <= k < m ==> !#[trigger] frame_hits(window, entries, max_confidence, bytes_radius + 4 * dir * k),
    ensures
        scan_offsets(window, entries, max_confidence, bytes_radius, dir, 0, 4 * j) == Some((dir * m) as i32),
    decreases m - j,
{
    let c = candidate_at(dir, 4 * j);
    assert((4 * j) / 4 == j);
    assert(0 <= j <= i32::MAX);
    let ju = ((4 * j) / 4) as usize;
    assert(ju as int == j);
    assert((ju as i32) as int == j);
    assert(-0x8000_0000 <= dir * j <= 0x7fff_ffff) by (nonlinear_arith)
        requires
            dir == 1 || dir == -1,
            0 <= j <= 0x7fff_ffff,
    ;
    assert(c == dir * j);
    if dir == 1 {
        assert(c == j) by (nonlinear_arith)
            requires
                c == dir * j,
                dir == 1,
        ;
    } else {
        assert(c == -j) by (nonlinear_arith)
            requires
                c == dir * j,
                dir == -1,
        ;
    }
    lemma_offset_matches_frame(window, entries, max_confidence, bytes_radius, c);
    assert(4 * (if c < 0 { -c } else { c as int }) == 4 * j);
    assert(bytes_radius + 4 * c == bytes_radius + 4 * dir * j) by (nonlinear_arith)
        requires
            c == dir * j,
    ;
    if j < m {
        assert(!frame_hits(window, entries, max_confidence, bytes_radius + 4 * dir * j));
        lemma_scan_reaches(window, entries, max_confidence, bytes_radius, dir, m, j + 1);
        assert(4 * j + 4 == 4 * (j + 1));
    }
}

/// The search from the centre with no earlier offset finds the nearest
/// matching offset in its direction: when the frame `4 * m` bytes before the
/// centre (after it, searching forward) matches and none nearer does, a
/// backward search gives `-m` (a forward one `m`).
pub proof fn law_search_finds_nearest_offset(
    window: Seq<u8>,
    entries: Seq<AccuRipDbEntry>,
    max_confidence: i32,
    bytes_radius: nat,
    dir: i32,
    m: int,
)
    requires
        dir == 1 || dir == -1,
        1 <= m <= i32::MAX,
        4 * m < bytes_radius <= usize::MAX,
        window.len() >= bytes_radius * 2 + 2352,
        frame_hits(window, entries, max_confidence, bytes_radius + 4 * dir * m),
        forall|k: int| 1 <= k < m ==> !#[trigger] frame_hits(window, entries, max_confidence, bytes_radius + 4 * dir * k),
    ensures
        window_search(window, entries, max_confidence, bytes_radius, dir, 0) == Some((dir * m) as i32),
{
    lemma_scan_reaches(window, entries, max_confidence, bytes_radius, dir, m, 1);
    if dir > 0 {
        let c0 = candidate_at(dir, 0);
        assert(c0 == 0);
        assert(scan_offsets(window, entries, max_confidence, bytes_radius, dir, 0, 0) == scan_offsets(
            window,
            entries,
            max_confidence,
            bytes_radius,
            dir,
            0,
            4,
        ));
    }
}

fn check_offset(
    window: &[u8],
    entries: &[AccuRipDbEntry],
    max_confidence: i32,
    bytes_radius: usize,
    offset: i32,
) -> (r: bool)
    ensures
        r == offset_matches(window@, entries@, max_confidence, bytes_radius as nat, offset),
{
    let a: u128 = if offset < 0 { (-(offset as i64)) as u128 } else { offset as u128 };
    let byte_off: u128 = a * 4;
    if byte_off > bytes_radius as u128 {
        return false;
    }
    let start: u128 = if offset < 0 { bytes_radius as u128 - byte_off } else { bytes_radius as u128 + byte_off };
    if start + 2352 > window.len() as u128 {
        return false;
    }
    let s = start as usize;
    let e = s + 2352;
    let mut frame: Vec<u8> = Vec::new();
    let mut i = s;
    while i < e
        invariant
            e == s + 2352,
            s <= i <= e <= window@.len(),
            frame@ == window@.subrange(s as int, i as int),
        decreases e - i,
    {
        frame.push(window[i]);
        assert(window@.subrange(s as int, i + 1) =~= window@.subrange(s as int, i as int).push(window@[i as int]));
        i += 1;
    }
    let sum = accurip_v1_checksum(frame.as_slice());
    if sum == 0 {
        return false;
    }
    let conf = find_accurip_confidence(AccuDbStatus::Found, entries, sum, true);
    conf == max_confidence
}

pub fn search_for_offset_in_window(
    window: &[u8],
    entries: &[AccuRipDbEntry],
    max_confidence: i32,
    bytes_radius: usize,
    dir: i32,
    guess: i32,
) -> (r: Option<i32>)
    ensures
        r == window_search(window@, entries@, max_confidence, bytes_radius as nat, dir, guess),
{
    if (window.len() as u128) < (bytes_radius as u128) * 2 + 2352 {
        return None;
    }
    if guess != 0 && check_offset(window, entries, max_confidence, bytes_radius, guess) {
        return Some(guess);
    }
    let mut byte_off: usize = if dir < 0 { 4 } else { 0 };
    let ghost start = byte_off as int;
    while byte_off < bytes_radius
        invariant
            window@.len() >= bytes_radius * 2 + 2352,
            window_search(window@, entries@, max_confidence, bytes_radius as nat, dir, guess)
                == scan_offsets(window@, entries@, max_confidence, bytes_radius as nat, dir, guess, byte_off as int),
        decreases bytes_radius as int + 4 - byte_off as int,
    {
        let q = #[verifier::truncate] ((byte_off / 4) as i32);
        assert(-0x4000_0000_0000_0000 <= dir as int * q as int <= 0x4000_0000_0000_0000) by (nonlinear_arith)
            requires
                -0x8000_0000 <= dir <= 0x7fff_ffff,
                -0x8000_0000 <= q <= 0x7fff_ffff,
        ;
        let prod: i128 = dir as i128 * q as i128;
        let offset: i32 = if prod > i32::MAX as i128 {
            i32::MAX
        } else if prod < i32::MIN as i128 {
            i32::MIN
        } else {
            prod as i32
        };
        assert(offset == candidate_at(dir, byte_off as int));
        if offset != guess && check_offset(window, entries, max_confidence, bytes_radius, offset) {
            return Some(offset);
        }
        if byte_off > usize::MAX - 4 {
            assert(scan_offsets(window@, entries@, max_confidence, bytes_radius as nat, dir, guess, byte_off + 4) is None);
            return None;
        }
        byte_off = byte_off + 4;
    }
    None
}

// ---------------------------------------------------------------------------
// Candidates across tracks
// ---------------------------------------------------------------------------

/// `{:+}` of a number: its sign, always, then its magnitude.
pub open spec fn signed_text(x: i32) -> Seq<char> {
    if x >= 0 {
        "+"@ + dec(x as nat)
    } else {
        "-"@ + dec((-(x as int)) as nat)
    }
}

fn push_signed(out: &mut String, x: i32)
    ensures
        final(out)@ == old(out)@ + signed_text(x),
{
    if x >= 0 {
        out.append("+");
        push_dec(out, x as u64);
    } else {
        out.append("-");
        push_dec(out, (-(x as i64)) as u64);
    }
}

pub open spec fn more_suffix(has_more_tracks: bool) -> Seq<char> {
    if has_more_tracks {
        ", trying to confirm with another track"@
    } else {
        Seq::empty()
    }
}

/// What a candidate offset found in a track does to the running result
/// (offset, confidence) and the line it reports: the first candidate is
/// taken with confidence 1, the same one again raises the confidence, and
/// another one replaces it with confidence 1.
pub open spec fn candidate_outcome(
    track_number: u32,
    candidate: i32,
    found: i32,
    confidence: i32,
    has_more_tracks: bool,
) -> (i32, i32, Seq<char>) {
    let suffix = more_suffix(has_more_tracks);
    if confidence == 0 {
        (candidate, 1, "Offset of "@ + signed_text(candidate) + " found in track "@ + dec(track_number as nat)
            + suffix)
    } else if found == candidate {
        let c = if confidence == i32::MAX { i32::MAX } else { (confidence + 1) as i32 };
        (found, c, "Offset of "@ + signed_text(candidate) + " confirmed (confidence: "@ + dec_int(c as int)
            + ") in track "@ + dec(track_number as nat) + suffix)
    } else {
        (candidate, 1, "New offset of "@ + signed_text(candidate) + " found at track "@ + dec(
            track_number as nat,
        ) + ", scrapping old offset of "@ + signed_text(found) + suffix)
    }
}

fn push_suffix(out: &mut String, has_more_tracks: bool)
    ensures
        final(out)@ == old(out)@ + more_suffix(has_more_tracks),
{
    if has_more_tracks {
        out.append(", trying to confirm with another track");
    } else {
        assert(old(out)@ =~= old(out)@ + Seq::<char>::empty());
    }
}

pub fn apply_offset_candidate(
    lines: &mut Vec<String>,
    track_number: u32,
    candidate_offset: i32,
    offset_found_samples: &mut i32,
    confidence: &mut i32,
    has_more_tracks: bool,
)
    ensures
        ({
            let o = candidate_outcome(
                track_number,
                candidate_offset,
                *old(offset_found_samples),
                *old(confidence),
                has_more_tracks,
            );
            &&& *final(offset_found_samples) == o.0
            &&& *final(confidence) == o.1
            &&& final(lines)@.len() == old(lines)@.len() + 1
            &&& final(lines)@.take(old(lines)@.len() as int) == old(lines)@
            &&& final(lines)@.last()@ == o.2
        }),
{
    let ghost o = candidate_outcome(track_number, candidate_offset, *offset_found_samples, *confidence, has_more_tracks);
    let mut line = String::new();
    if *confidence == 0 {
        *offset_found_samples = candidate_offset;
        *confidence = 1;
        line.append("Offset of ");
        push_signed(&mut line, candidate_offset);
        line.append(" found in track ");
        push_dec(&mut line, track_number as u64);
        push_suffix(&mut line, has_more_tracks);
        assert(line@ =~= o.2);
    } else if *offset_found_samples == candidate_offset {
        *confidence = if *confidence == i32::MAX { i32::MAX } else { *confidence + 1 };
        line.append("Offset of ");
        push_signed(&mut line, candidate_offset);
        line.append(" confirmed (confidence: ");
        push_dec_i64(&mut line, *confidence as i64);
        line.append(") in track ");
        push_dec(&mut line, track_number as u64);
        push_suffix(&mut line, has_more_tracks);
        assert(line@ =~= o.2);
    } else {
        line.append("New offset of ");
        push_signed(&mut line, candidate_offset);
        line.append(" found at track ");
        push_dec(&mut line, track_number as u64);
        line.append(", scrapping old offset of ");
        push_signed(&mut line, *offset_found_samples);
        push_suffix(&mut line, has_more_tracks);
        assert(line@ =~= o.2);
        *offset_found_samples = candidate_offset;
        *confidence = 1;
    }
    let ghost before = lines@;
    lines.push(line);
    assert(lines@.take(before.len() as int) =~= before);
}

// ---------------------------------------------------------------------------
// Reports
// ---------------------------------------------------------------------------

pub open spec fn lines_view(v: Seq<String>) -> Seq<Seq<char>> {
    v.map_values(|l: String| l@)
}

/// The header of the offset search report.
pub open spec fn find_offset_header(dev_path: Option<Seq<char>>) -> Seq<Seq<char>> {
    seq![
        "cyanrip-rs find-offset mode"@,
        "Device: "@ + match dev_path {
            Some(d) => d,
            None => "<default>"@,
        },
        "AccurateRip: enabled (required)"@,
        "MusicBrainz: disabled"@,
        "CoverArt DB: disabled"@,
        "Eject on success: disabled"@,
        "Offset baseline (samples): 0"@,
    ]
}

pub fn render_find_offset_report_header(dev_path: Option<&str>) -> (r: Vec<String>)
    ensures
        lines_view(r@) == find_offset_header(
            match dev_path {
                Some(d) => Some(d@),
                None => None,
            },
        ),
{
    let mut lines: Vec<String> = Vec::new();
    lines.push(String::from_str("cyanrip-rs find-offset mode"));
    let mut dev = String::from_str("Device: ");
    match dev_path {
        Some(d) => dev.append(d),
        None => dev.append("<default>"),
    }
    lines.push(dev);
    lines.push(String::from_str("AccurateRip: enabled (required)"));
    lines.push(String::from_str("MusicBrainz: disabled"));
    lines.push(String::from_str("CoverArt DB: disabled"));
    lines.push(String::from_str("Eject on success: disabled"));
    lines.push(String::from_str("Offset baseline (samples): 0"));
    assert(lines_view(lines@) =~= find_offset_header(
        match dev_path {
            Some(d) => Some(d@),
            None => None,
        },
    ));
    lines
}

/// The closing line of an offset search.
pub open spec fn offset_conclusion_text(found: i32, confidence: i32, had_any_ar: bool, had_any_eligible_track: bool) -> Seq<char> {
    if confidence > 0 {
        "Drive offset of "@ + signed_text(found) + " found (confidence: "@ + dec_int(confidence as int) + ")!"@
    } else if !had_any_ar {
        "No track had AccuRip entry in the AccurateRip database, cannot detect drive offset!"@
    } else if !had_any_eligible_track {
        "No track was long enough to search for drive offset!"@
    } else {
        "Was not able to find drive offset!"@
    }
}

pub fn offset_conclusion(found: i32, confidence: i32, had_any_ar: bool, had_any_eligible_track: bool) -> (r: String)
    ensures
        r@ == offset_conclusion_text(found, confidence, had_any_ar, had_any_eligible_track),
{
    if confidence > 0 {
        let mut out = String::from_str("Drive offset of ");
        push_signed(&mut out, found);
        out.append(" found (confidence: ");
        push_dec_i64(&mut out, confidence as i64);
        out.append(")!");
        out
    } else if !had_any_ar {
        String::from_str("No track had AccuRip entry in the AccurateRip database, cannot detect drive offset!")
    } else if !had_any_eligible_track {
        String::from_str("No track was long enough to search for drive offset!")
    } else {
        String::from_str("Was not able to find drive offset!")
    }
}

/// The whole report of a build without drive access: the header and the
/// reason no search can run.
pub fn render_find_offset_unavailable_report(dev_path: Option<&str>) -> (r: String)
    ensures
        r@ == crate::text::join(
            find_offset_header(
                match dev_path {
                    Some(d) => Some(d@),
                    None => None,
                },
            ).push(
                "Status: unavailable in this build (requires linux + cdda + backend-libcdio-sys and an inserted audio CD)"@,
            ),
            "\n"@,
        ),
{
    let mut lines = render_find_offset_report_header(dev_path);
    lines.push(
        String::from_str(
            "Status: unavailable in this build (requires linux + cdda + backend-libcdio-sys and an inserted audio CD)",
        ),
    );
    let ghost want = find_offset_header(
        match dev_path {
            Some(d) => Some(d@),
            None => None,
        },
    ).push(
        "Status: unavailable in this build (requires linux + cdda + backend-libcdio-sys and an inserted audio CD)"@,
    );
    assert(lines_view(lines@) =~= want);
    join_lines(&lines)
}

/// The lines joined by line breaks.
pub fn join_lines(lines: &Vec<String>) -> (r: String)
    ensures
        r@ == crate::text::join(lines_view(lines@), "\n"@),
{
    let ghost ws = lines_view(lines@);
    let mut out = String::new();
    let mut i: usize = 0;
    assert(ws.take(0) =~= Seq::<Seq<char>>::empty());
    while i < lines.len()
        invariant
            i <= lines@.len(),
            ws == lines_view(lines@),
            out@ == crate::text::join(ws.take(i as int), "\n"@),
        decreases lines.len() - i,
    {
        if i > 0 {
            out.append("\n");
        }
        out.append(lines[i].as_str());
        assert(ws.take(i + 1).drop_last() == ws.take(i as int));
        assert(ws.take(i + 1).last() == lines@[i as int]@);
        proof {
            if i == 0 {
                assert(ws.take(1).len() == 1);
            }
        }
        assert(out@ =~= crate::text::join(ws.take(i + 1), "\n"@));
        i += 1;
    }
    assert(ws.take(lines@.len() as int) == ws);
    out
}

// ---------------------------------------------------------------------------
// The search over the disc
// ---------------------------------------------------------------------------

fn runtime_error(prefix: &str, e: &crate::cdda::reader::CddaReadError) -> (r: RunWorkflowError)
    ensures
        runtime_msg(r) == Some(prefix@ + read_error_text(*e)),
{
    let mut m = String::from_str(prefix);
    let (name, text) = match e {
        crate::cdda::reader::CddaReadError::SeekFailed(t) => ("SeekFailed(", t),
        crate::cdda::reader::CddaReadError::ReadFailed(t) => ("ReadFailed(", t),
    };
    m.append(name);
    let q = crate::workflow::debug_quote(text.as_str());
    m.append(q.as_str());
    m.append(")");
    RunWorkflowError::Runtime(m)
}

/// The error of a drive read in a build without a drive backend: the drive
/// cannot be opened.
pub open spec fn drive_open_failure(e: RunWorkflowError) -> bool {
    runtime_msg(e) == Some("physical drive open failed: "@ + drive_unavailable_text())
}

/// Reads `frame_count` frames from `start_lsn` on from the drive, as bytes.
/// This build has no drive backend, so the drive never opens.
#[verifier::loop_isolation(false)]
pub fn read_drive_window(device_path: Option<&str>, start_lsn: i32, frame_count: usize) -> (r: Result<
    Vec<u8>,
    RunWorkflowError,
>)
    ensures
        r matches Err(e) && drive_open_failure(e),
{
    let mut reader = match open_linux_physical_drive(device_path) {
        Ok(r) => r,
        Err(e) => {
            return Err(runtime_error("physical drive open failed: ", &e));
        },
    };
    match reader.seek_frame(start_lsn) {
        Ok(()) => {},
        Err(e) => {
            reader.close();
            return Err(runtime_error("physical seek failed: ", &e));
        },
    }
    let mut out: Vec<u8> = Vec::new();
    let mut k: usize = 0;
    while k < frame_count
        invariant
            k <= frame_count,
        decreases frame_count - k,
    {
        match reader.read_frame() {
            Ok(frame) => {
                let mut j: usize = 0;
                while j < frame.len()
                    invariant
                        j <= frame@.len(),
                    decreases frame.len() - j,
                {
                    out.push(frame[j]);
                    j += 1;
                }
            },
            Err(e) => {
                reader.close();
                return Err(runtime_error("physical read failed: ", &e));
            },
        }
        k += 1;
    }
    reader.close();
    Ok(out)
}

/// The running result of an offset search.
#[derive(Debug, Clone, Copy, PartialEq, Eq, Structural)]
pub struct OffsetSearch {
    pub offset_found_samples: i32,
    pub confidence: i32,
    pub had_any_ar: bool,
    pub had_any_eligible_track: bool,
}

fn track_line(prefix: &str, n: usize, suffix: &str) -> (r: String)
    ensures
        r@ == prefix@ + dec(n as nat) + suffix@,
{
    let mut out = String::from_str(prefix);
    push_dec(&mut out, n as u64);
    out.append(suffix);
    out
}

/// The number of frames of a track; an end before the start counts as none.
pub open spec fn track_span(t: AccuRipTrackInput) -> int {
    if t.end_lsn >= t.start_lsn {
        t.end_lsn - t.start_lsn
    } else {
        0
    }
}

/// Whether the disc's AccurateRip records hold entries for track `i`.
pub open spec fn has_offset_records(
    ar_tracks: Seq<AccuRipTrackInput>,
    lookup: AccuRipLookupResult,
    i: int,
) -> bool {
    &&& 0 <= i < ar_tracks.len()
    &&& i < lookup.track_matches@.len()
    &&& lookup.track_matches@[i].entries@.len() > 0
}

/// Whether track `i` is searched at `radius`: it has records and reaches
/// `radius` frames past its 450th frame.
pub open spec fn offset_probe_eligible(
    ar_tracks: Seq<AccuRipTrackInput>,
    lookup: AccuRipLookupResult,
    i: int,
    radius: int,
) -> bool {
    &&& has_offset_records(ar_tracks, lookup, i)
    &&& track_span(ar_tracks[i]) >= 450
    &&& track_span(ar_tracks[i]) - 450 >= radius
}

/// Whether track `i` is read in the round at `radius`: it is searched there,
/// and twice the radius plus one frame can be counted.
pub open spec fn offset_probed(
    ar_tracks: Seq<AccuRipTrackInput>,
    lookup: AccuRipLookupResult,
    i: int,
    radius: usize,
) -> bool {
    offset_probe_eligible(ar_tracks, lookup, i, radius as int) && radius <= (usize::MAX - 1) / 2
}

/// The frames read for track `t` in the round at `radius`: from `radius`
/// frames before its 450th frame (in saturating `i32` arithmetic, never
/// before 0), `2 * radius + 1` frames.
pub open spec fn window_request(t: AccuRipTrackInput, radius: usize) -> (i32, usize) {
    let a = clamp_i32((t.start_lsn as i32) + 450);
    let b = clamp_i32(a - (radius as i32));
    (if b < 0 {
        0i32
    } else {
        b
    }, (2 * radius + 1) as usize)
}

/// The window request of track `t` at `radius`.
pub fn offset_window_request(t: AccuRipTrackInput, radius: usize) -> (r: (i32, usize))
    requires
        radius <= (usize::MAX - 1) / 2,
    ensures
        r == window_request(t, radius),
{
    let s: i64 = (#[verifier::truncate] (t.start_lsn as i32)) as i64 + 450;
    let a: i64 = if s > i32::MAX as i64 { i32::MAX as i64 } else { s };
    let b0: i64 = a - (#[verifier::truncate] (radius as i32)) as i64;
    let b: i64 = if b0 < i32::MIN as i64 {
        i32::MIN as i64
    } else if b0 > i32::MAX as i64 {
        i32::MAX as i64
    } else {
        b0
    };
    let start: i32 = if b < 0 { 0 } else { b as i32 };
    (start, 2 * radius + 1)
}

/// Bytes in `radius` frames, saturating.
pub open spec fn radius_bytes(radius: usize) -> nat {
    if radius > usize::MAX / 2352 {
        usize::MAX as nat
    } else {
        (radius * 2352) as nat
    }
}

/// The offset found in a window for a track with match list `m`: searched
/// from the offset found so far in its direction, then, without a result,
/// from the centre the other way.
pub open spec fn window_candidate(st: OffsetSearch, m: AccuRipTrackMatches, radius: usize, window: Seq<u8>) -> Option<i32> {
    let dir: i32 = if st.confidence > 0 && st.offset_found_samples < 0 { -1i32 } else { 1i32 };
    let guess: i32 = if st.confidence > 0 { st.offset_found_samples } else { 0i32 };
    match window_search(window, m.entries@, m.max_confidence, radius_bytes(radius), dir, guess) {
        Some(o) => Some(o),
        None => window_search(window, m.entries@, m.max_confidence, radius_bytes(radius), (-dir) as i32, 0i32),
    }
}

/// The search after track `i` (of `n`) was read: the state it leaves and
/// the lines it reports.
pub open spec fn track_step(
    st: OffsetSearch,
    i: int,
    n: int,
    m: AccuRipTrackMatches,
    radius: usize,
    window: Seq<u8>,
) -> (OffsetSearch, Seq<Seq<char>>) {
    let more = i + 1 < n;
    match window_candidate(st, m, radius, window) {
        Some(o) => {
            let c = candidate_outcome(((i + 1) as u32), o, st.offset_found_samples, st.confidence, more);
            (
                OffsetSearch {
                    offset_found_samples: c.0,
                    confidence: c.1,
                    had_any_ar: st.had_any_ar,
                    had_any_eligible_track: st.had_any_eligible_track,
                },
                seq!["Data loaded, searching for offsets..."@, c.2],
            )
        },
        None => (
            st,
            seq![
                "Data loaded, searching for offsets..."@,
                "Nothing found for track "@ + dec((i + 1) as nat) + if more {
                    ", trying another track"@
                } else {
                    Seq::<char>::empty()
                },
            ],
        ),
    }
}

fn find_window_candidate(st: OffsetSearch, matches: &AccuRipTrackMatches, radius: usize, window: &[u8]) -> (r:
    Option<i32>)
    ensures
        r == window_candidate(st, *matches, radius, window@),
{
    let bytes_radius: usize = if radius > usize::MAX / CDDA_FRAME_BYTES { usize::MAX } else { radius * CDDA_FRAME_BYTES };
    let dir: i32 = if st.confidence > 0 && st.offset_found_samples < 0 { -1 } else { 1 };
    let guess: i32 = if st.confidence > 0 { st.offset_found_samples } else { 0 };
    match search_for_offset_in_window(
        window,
        matches.entries.as_slice(),
        matches.max_confidence,
        bytes_radius,
        dir,
        guess,
    ) {
        Some(o) => Some(o),
        None => search_for_offset_in_window(
            window,
            matches.entries.as_slice(),
            matches.max_confidence,
            bytes_radius,
            -dir,
            0,
        ),
    }
}

/// The search of track `idx` (of `n`) once its window is read: the window is
/// searched and the state and lines updated.
#[verifier::rlimit(30)]
pub fn offset_search_track(
    st: OffsetSearch,
    idx: usize,
    n: usize,
    matches: &AccuRipTrackMatches,
    radius: usize,
    window: &[u8],
    lines: &mut Vec<String>,
) -> (r: OffsetSearch)
    requires
        idx < n,
    ensures
        r == track_step(st, idx as int, n as int, *matches, radius, window@).0,
        lines_view(final(lines)@) == lines_view(old(lines)@) + track_step(
            st,
            idx as int,
            n as int,
            *matches,
            radius,
            window@,
        ).1,
{
    let ghost l0 = lines_view(lines@);
    lines.push(String::from_str("Data loaded, searching for offsets..."));
    assert(lines_view(lines@) =~= l0.push("Data loaded, searching for offsets..."@));
    let ghost l1 = lines_view(lines@);
    let found = find_window_candidate(st, matches, radius, window);
    let has_more_tracks = idx + 1 < n;
    let mut out = st;
    match found {
        Some(offset) => {
            let mut f = st.offset_found_samples;
            let mut c = st.confidence;
            let ghost before = lines@;
            apply_offset_candidate(lines, #[verifier::truncate] ((idx + 1) as u32), offset, &mut f, &mut c, has_more_tracks);
            proof {
                let o = candidate_outcome(((idx + 1) as u32), offset, st.offset_found_samples, st.confidence, has_more_tracks);
                assert(lines@ =~= before.push(lines@.last()));
                assert(lines_view(lines@) =~= l1.push(o.2));
            }
            out.offset_found_samples = f;
            out.confidence = c;
        },
        None => {
            let suffix = if has_more_tracks { ", trying another track" } else { "" };
            lines.push(track_line("Nothing found for track ", idx + 1, suffix));
            proof {
                reveal_strlit("");
                let more = idx + 1 < n;
                let want = "Nothing found for track "@ + dec((idx + 1) as nat) + if more {
                    ", trying another track"@
                } else {
                    Seq::<char>::empty()
                };
                assert(lines@.last()@ =~= want);
                assert(lines_view(lines@) =~= l1.push(want));
            }
        },
    }
    out
}

/// The line that closes a round without a result.
pub open spec fn radius_line(radius: usize) -> Seq<char> {
    "Was not able to find drive offset with a radius of "@ + dec(radius as nat)
        + " frames, trying again with a larger radius..."@
}

/// The line announcing the read of track `i`.
pub open spec fn loading_line(i: int) -> Seq<char> {
    "Loading data for track "@ + dec((i + 1) as nat) + "..."@
}

/// Lines and window requests put before a search's own.
pub open spec fn prepended(
    lines: Seq<Seq<char>>,
    reqs: Seq<(i32, usize)>,
    o: (bool, OffsetSearch, Seq<Seq<char>>, Seq<(i32, usize)>),
) -> (bool, OffsetSearch, Seq<Seq<char>>, Seq<(i32, usize)>) {
    (o.0, o.1, lines + o.2, reqs + o.3)
}

/// The offset search from track `idx` of the round at `radius` on, with the
/// state `st`, whether this round met AccurateRip records (`had`) and read a
/// track (`did`), and `ws` the windows the reads give, in order. It is
/// whether the search ended (rather than stopping at a read with no window
/// left), the state it ends with, the lines it reports and the windows it
/// asks for. A round goes through the tracks: a track with records counts;
/// one long enough is announced, read and searched. After a round the search
/// ends when an offset was found, no track had records, none was read, or
/// the radius cannot double; else it reports so and goes on at twice the
/// radius.
pub open spec fn search_at(
    ar: Seq<AccuRipTrackInput>,
    lookup: AccuRipLookupResult,
    radius: usize,
    idx: nat,
    st: OffsetSearch,
    had: bool,
    did: bool,
    ws: Seq<Seq<u8>>,
) -> (bool, OffsetSearch, Seq<Seq<char>>, Seq<(i32, usize)>)
    decreases usize::MAX - radius, ar.len() - idx,
{
    if idx >= ar.len() {
        if st.confidence > 0 || !had || !did || radius > usize::MAX / 2 || radius == 0 {
            (true, st, Seq::empty(), Seq::empty())
        } else {
            prepended(
                seq![radius_line(radius)],
                Seq::empty(),
                search_at(ar, lookup, (radius * 2) as usize, 0, st, false, false, ws),
            )
        }
    } else if !has_offset_records(ar, lookup, idx as int) {
        search_at(ar, lookup, radius, idx + 1, st, had, did, ws)
    } else {
        let st1 = OffsetSearch {
            offset_found_samples: st.offset_found_samples,
            confidence: st.confidence,
            had_any_ar: true,
            had_any_eligible_track: st.had_any_eligible_track,
        };
        if !offset_probed(ar, lookup, idx as int, radius) {
            search_at(ar, lookup, radius, idx + 1, st1, true, did, ws)
        } else {
            let st2 = OffsetSearch {
                offset_found_samples: st.offset_found_samples,
                confidence: st.confidence,
                had_any_ar: true,
                had_any_eligible_track: true,
            };
            let req = window_request(ar[idx as int], radius);
            if ws.len() == 0 {
                (false, st2, seq![loading_line(idx as int)], seq![req])
            } else {
                let (st3, tl) = track_step(st2, idx as int, ar.len() as int, lookup.track_matches@[idx as int], radius, ws[0]);
                prepended(
                    seq![loading_line(idx as int)] + tl,
                    seq![req],
                    search_at(ar, lookup, radius, idx + 1, st3, true, true, ws.drop_first()),
                )
            }
        }
    }
}

/// The state a search starts in.
pub open spec fn search_start() -> OffsetSearch {
    OffsetSearch { offset_found_samples: 0, confidence: 0, had_any_ar: false, had_any_eligible_track: false }
}

/// The whole search, with the windows `ws`.
pub open spec fn offset_search(
    ar: Seq<AccuRipTrackInput>,
    lookup: AccuRipLookupResult,
    ws: Seq<Seq<u8>>,
) -> (bool, OffsetSearch, Seq<Seq<char>>, Seq<(i32, usize)>) {
    search_at(ar, lookup, FIND_OFFSET_INITIAL_RADIUS_FRAMES, 0, search_start(), false, false, ws)
}

/// The read `read_window` answered the request `req` with the window `w`.
pub open spec fn window_answered<W: FnMut(i32, usize) -> Result<Vec<u8>, RunWorkflowError>>(
    read_window: W,
    req: (i32, usize),
    w: Seq<u8>,
) -> bool {
    exists|v: Vec<u8>| v@ == w && #[trigger] call_ensures(read_window, req, Ok::<Vec<u8>, RunWorkflowError>(v))
}

/// Each of the first requests was answered with its window.
pub open spec fn windows_answered<W: FnMut(i32, usize) -> Result<Vec<u8>, RunWorkflowError>>(
    read_window: W,
    reqs: Seq<(i32, usize)>,
    ws: Seq<Seq<u8>>,
) -> bool {
    &&& ws.len() <= reqs.len()
    &&& forall|k: int| 0 <= k < ws.len() ==> #[trigger] window_answered(read_window, reqs[k], ws[k])
}

/// A search run with the reads of `read_window`: with the windows the reads
/// gave, it asked for exactly the windows it read, in order, and reported
/// the lines added. A result is an ended search with that state; an error is
/// the answer to the last window asked for, the one read that failed.
pub open spec fn offset_run_explained<W: FnMut(i32, usize) -> Result<Vec<u8>, RunWorkflowError>>(
    r: Result<OffsetSearch, RunWorkflowError>,
    ar: Seq<AccuRipTrackInput>,
    lookup: AccuRipLookupResult,
    before: Seq<Seq<char>>,
    after: Seq<Seq<char>>,
    read_window: W,
) -> bool {
    exists|ws: Seq<Seq<u8>>|
        {
            let o = #[trigger] offset_search(ar, lookup, ws);
            &&& windows_answered(read_window, o.3, ws)
            &&& after == before + o.2
            &&& match r {
                Ok(s) => o.0 && o.1 == s && o.3.len() == ws.len(),
                Err(e) => !o.0 && o.3.len() == ws.len() + 1 && call_ensures(read_window, o.3.last(), Err::<Vec<u8>, RunWorkflowError>(e)),
            }
        }
}

/// Searches the drive's offset with the AccurateRip records of the disc,
/// reading windows with `read_window`: each track with records that is long
/// enough is read around its 450th frame and searched, first in the
/// direction of the offset found so far; without a result the radius doubles
/// while some track was read. The report lines are appended to `lines`; a
/// failed read ends the search with its error.
#[verifier::rlimit(60)]
pub fn find_drive_offset_with<W>(
    ar_tracks: &[AccuRipTrackInput],
    lookup: &AccuRipLookupResult,
    lines: &mut Vec<String>,
    read_window: W,
) -> (r: Result<OffsetSearch, RunWorkflowError>) where
    W: FnMut(i32, usize) -> Result<Vec<u8>, RunWorkflowError>,

    requires
        forall|s: i32, c: usize| #[trigger] call_requires(read_window, (s, c)),
    ensures
        offset_run_explained(
            r,
            ar_tracks@,
            *lookup,
            lines_view(old(lines)@),
            lines_view(final(lines)@),
            read_window,
        ),
{
    let ghost l0 = lines_view(lines@);
    let ghost ar = ar_tracks@;
    let ghost lk = *lookup;
    let mut read = read_window;
    let mut radius: usize = FIND_OFFSET_INITIAL_RADIUS_FRAMES;
    let mut st = OffsetSearch { offset_found_samples: 0, confidence: 0, had_any_ar: false, had_any_eligible_track: false };
    let ghost mut ws: Seq<Seq<u8>> = Seq::empty();
    let ghost mut reqs: Seq<(i32, usize)> = Seq::empty();
    let ghost mut added: Seq<Seq<char>> = Seq::empty();
    proof {
        assert forall|rest: Seq<Seq<u8>>| #[trigger] offset_search(ar, lk, ws + rest) == prepended(
            added,
            reqs,
            search_at(ar, lk, radius, 0, st, false, false, rest),
        ) by {
            assert(ws + rest =~= rest);
            let o = search_at(ar, lk, radius, 0, st, false, false, rest);
            assert(added + o.2 =~= o.2);
            assert(reqs + o.3 =~= o.3);
        }
    }
    loop
        invariant
            radius >= FIND_OFFSET_INITIAL_RADIUS_FRAMES,
            read == read_window,
            ar == ar_tracks@,
            lk == *lookup,
            forall|s: i32, c: usize| #[trigger] call_requires(read, (s, c)),
            lines_view(lines@) == l0 + added,
            l0 == lines_view(old(lines)@),
            reqs.len() == ws.len(),
            windows_answered(read_window, reqs, ws),
            forall|rest: Seq<Seq<u8>>| #[trigger] offset_search(ar, lk, ws + rest) == prepended(
                added,
                reqs,
                search_at(ar, lk, radius, 0, st, false, false, rest),
            ),
        decreases usize::MAX - radius,
    {
        let mut had_ar_this_radius = false;
        let mut did_check_this_radius = false;
        let mut idx: usize = 0;
        while idx < ar_tracks.len()
            invariant
                idx <= ar_tracks@.len(),
                radius >= FIND_OFFSET_INITIAL_RADIUS_FRAMES,
                read == read_window,
                ar == ar_tracks@,
                lk == *lookup,
                forall|s: i32, c: usize| #[trigger] call_requires(read, (s, c)),
                lines_view(lines@) == l0 + added,
                l0 == lines_view(old(lines)@),
                reqs.len() == ws.len(),
                windows_answered(read_window, reqs, ws),
                forall|rest: Seq<Seq<u8>>| #[trigger] offset_search(ar, lk, ws + rest) == prepended(
                    added,
                    reqs,
                    search_at(ar, lk, radius, idx as nat, st, had_ar_this_radius, did_check_this_radius, rest),
                ),
            decreases ar_tracks.len() - idx,
        {
            let track = ar_tracks[idx];
            let ghost st0 = st;
            let ghost had0 = had_ar_this_radius;
            let ghost did0 = did_check_this_radius;
            if idx < lookup.track_matches.len() && lookup.track_matches[idx].entries.len() > 0 {
                let matches = &lookup.track_matches[idx];
                assert(has_offset_records(ar, lk, idx as int));
                had_ar_this_radius = true;
                st.had_any_ar = true;
                let track_len: u32 = if track.end_lsn >= track.start_lsn { track.end_lsn - track.start_lsn } else { 0 };
                let long_enough = (track_len as usize) >= 450 && (track_len as usize) - 450 >= radius;
                if long_enough && radius <= (usize::MAX - 1) / 2 {
                    assert(offset_probed(ar, lk, idx as int, radius));
                    did_check_this_radius = true;
                    st.had_any_eligible_track = true;
                    let ghost st2 = st;
                    let ghost before_load = lines@;
                    lines.push(track_line("Loading data for track ", idx + 1, "..."));
                    let ghost load = loading_line(idx as int);
                    assert(lines@.last()@ == load);
                    assert(lines_view(lines@) =~= lines_view(before_load).push(load));
                    assert(lines_view(lines@) =~= l0 + (added + seq![load]));
                    let (start_lsn, count) = offset_window_request(track, radius);
                    let ghost req = (start_lsn, count);
                    match read(start_lsn, count) {
                        Err(e) => {
                            proof {
                                let o0 = search_at(ar, lk, radius, idx as nat, st0, had0, did0, Seq::empty());
                                assert(o0 == (false, st2, seq![load], seq![req]));
                                assert(ws + Seq::<Seq<u8>>::empty() =~= ws);
                                let o = offset_search(ar, lk, ws);
                                assert(o == prepended(added, reqs, o0));
                                assert(o.3 =~= reqs.push(req));
                                assert(lines_view(lines@) =~= l0 + o.2);
                                assert(windows_answered(read_window, o.3, ws)) by {
                                    assert forall|k: int| 0 <= k < ws.len() implies #[trigger] window_answered(
                                        read_window,
                                        o.3[k],
                                        ws[k],
                                    ) by {
                                        assert(o.3[k] == reqs[k]);
                                        assert(window_answered(read_window, reqs[k], ws[k]));
                                    }
                                }
                                assert(offset_run_explained(
                                    Err::<OffsetSearch, RunWorkflowError>(e),
                                    ar_tracks@,
                                    *lookup,
                                    l0,
                                    lines_view(lines@),
                                    read_window,
                                ));
                            }
                            return Err(e);
                        },
                        Ok(window) => {
                            let ghost lb = lines_view(lines@);
                            let next = offset_search_track(st, idx, ar_tracks.len(), matches, radius, window.as_slice(), lines);
                            proof {
                                let tl = track_step(st2, idx as int, ar.len() as int, lk.track_matches@[idx as int], radius, window@).1;
                                assert(lines_view(lines@) =~= l0 + (added + (seq![load] + tl)));
                                assert(window_answered(read_window, req, window@));
                                let ws2 = ws.push(window@);
                                let reqs2 = reqs.push(req);
                                let added2 = added + (seq![load] + tl);
                                assert forall|k: int| 0 <= k < ws2.len() implies #[trigger] window_answered(
                                    read_window,
                                    reqs2[k],
                                    ws2[k],
                                ) by {
                                    if k < ws.len() {
                                        assert(reqs2[k] == reqs[k] && ws2[k] == ws[k]);
                                        assert(window_answered(read_window, reqs[k], ws[k]));
                                    }
                                }
                                assert forall|rest: Seq<Seq<u8>>| #[trigger] offset_search(ar, lk, ws2 + rest) == prepended(
                                    added2,
                                    reqs2,
                                    search_at(ar, lk, radius, (idx + 1) as nat, next, true, true, rest),
                                ) by {
                                    let rest2 = seq![window@] + rest;
                                    assert(ws2 + rest =~= ws + rest2);
                                    assert(offset_search(ar, lk, ws + rest2) == prepended(
                                        added,
                                        reqs,
                                        search_at(ar, lk, radius, idx as nat, st0, had0, did0, rest2),
                                    ));
                                    assert(rest2.drop_first() =~= rest);
                                    assert(rest2[0] == window@);
                                    let inner = search_at(ar, lk, radius, (idx + 1) as nat, next, true, true, rest);
                                    assert(search_at(ar, lk, radius, idx as nat, st0, had0, did0, rest2) == prepended(
                                        seq![load] + tl,
                                        seq![req],
                                        inner,
                                    ));
                                    assert(added + ((seq![load] + tl) + inner.2) =~= added2 + inner.2);
                                    assert(reqs + (seq![req] + inner.3) =~= reqs2 + inner.3);
                                }
                                ws = ws2;
                                reqs = reqs2;
                                added = added2;
                            }
                            st = next;
                        },
                    }
                } else {
                    proof {
                        assert(!offset_probed(ar, lk, idx as int, radius));
                        assert forall|rest: Seq<Seq<u8>>| #[trigger] offset_search(ar, lk, ws + rest) == prepended(
                            added,
                            reqs,
                            search_at(ar, lk, radius, (idx + 1) as nat, st, had_ar_this_radius, did_check_this_radius, rest),
                        ) by {
                            assert(search_at(ar, lk, radius, idx as nat, st0, had0, did0, rest) == search_at(
                                ar, lk, radius, (idx + 1) as nat, st, true, did0, rest));
                        }
                    }
                }
            } else {
                proof {
                    assert(!has_offset_records(ar, lk, idx as int));
                    assert forall|rest: Seq<Seq<u8>>| #[trigger] offset_search(ar, lk, ws + rest) == prepended(
                        added,
                        reqs,
                        search_at(ar, lk, radius, (idx + 1) as nat, st, had_ar_this_radius, did_check_this_radius, rest),
                    ) by {
                        assert(search_at(ar, lk, radius, idx as nat, st0, had0, did0, rest) == search_at(
                            ar, lk, radius, (idx + 1) as nat, st, had0, did0, rest));
                    }
                }
            }
            idx += 1;
        }
        match next_offset_radius(radius, st.confidence, had_ar_this_radius, did_check_this_radius) {
            None => {
                proof {
                    let e = search_at(ar, lk, radius, idx as nat, st, had_ar_this_radius, did_check_this_radius, Seq::empty());
                    assert(e == (true, st, Seq::<Seq<char>>::empty(), Seq::<(i32, usize)>::empty()));
                    assert(ws + Seq::<Seq<u8>>::empty() =~= ws);
                    let o = offset_search(ar, lk, ws);
                    assert(o == prepended(added, reqs, e));
                    assert(o.2 =~= added);
                    assert(o.3 =~= reqs);
                    assert(offset_run_explained(
                        Ok::<OffsetSearch, RunWorkflowError>(st),
                        ar_tracks@,
                        *lookup,
                        l0,
                        lines_view(lines@),
                        read_window,
                    ));
                }
                return Ok(st);
            },
            Some(next) => {
                let ghost before_line = lines@;
                lines.push(track_line("Was not able to find drive offset with a radius of ", radius,
                    " frames, trying again with a larger radius..."));
                proof {
                    let line = radius_line(radius);
                    assert(lines@.last()@ == line);
                    assert(lines_view(lines@) =~= lines_view(before_line).push(line));
                    assert(lines_view(lines@) =~= l0 + (added + seq![line]));
                    assert forall|rest: Seq<Seq<u8>>| #[trigger] offset_search(ar, lk, ws + rest) == prepended(
                        added + seq![line],
                        reqs,
                        search_at(ar, lk, next, 0, st, false, false, rest),
                    ) by {
                        let inner = search_at(ar, lk, next, 0, st, false, false, rest);
                        assert(search_at(ar, lk, radius, idx as nat, st, had_ar_this_radius, did_check_this_radius, rest)
                            == prepended(seq![line], Seq::empty(), inner));
                        assert(added + (seq![line] + inner.2) =~= (added + seq![line]) + inner.2);
                        assert(reqs + (Seq::<(i32, usize)>::empty() + inner.3) =~= reqs + inner.3);
                    }
                    added = added + seq![line];
                }
                radius = next;
            },
        }
    }
}

/// Searches the drive's offset as `find_drive_offset_with` does, reading
/// from the drive at `device_path`. This build has no drive backend, so
/// every read fails to open the drive: the search is the one with no window
/// read.
pub fn find_drive_offset_in_tracks(
    device_path: Option<&str>,
    ar_tracks: &[AccuRipTrackInput],
    lookup: &AccuRipLookupResult,
    lines: &mut Vec<String>,
) -> (r: Result<OffsetSearch, RunWorkflowError>)
    ensures
        ({
            let o = offset_search(ar_tracks@, *lookup, Seq::empty());
            &&& lines_view(final(lines)@) == lines_view(old(lines)@) + o.2
            &&& match r {
                Ok(s) => o.0 && o.1 == s,
                Err(e) => !o.0 && drive_open_failure(e),
            }
        }),
{
    let ghost l0 = lines_view(lines@);
    let read = |s: i32, c: usize| -> (w: Result<Vec<u8>, RunWorkflowError>)
        ensures
            w matches Err(e) && drive_open_failure(e),
        { read_drive_window(device_path, s, c) };
    let r = find_drive_offset_with(ar_tracks, lookup, lines, read);
    proof {
        let ws = choose|ws: Seq<Seq<u8>>| {
            let o = #[trigger] offset_search(ar_tracks@, *lookup, ws);
            &&& windows_answered(read, o.3, ws)
            &&& lines_view(lines@) == l0 + o.2
            &&& match r {
                Ok(s) => o.0 && o.1 == s && o.3.len() == ws.len(),
                Err(e) => !o.0 && o.3.len() == ws.len() + 1 && call_ensures(read, o.3.last(), Err::<Vec<u8>, RunWorkflowError>(e)),
            }
        };
        let o = offset_search(ar_tracks@, *lookup, ws);
        if ws.len() > 0 {
            assert(window_answered(read, o.3[0], ws[0]));
            assert(false);
        }
        assert(ws =~= Seq::<Seq<u8>>::empty());
    }
    r
}

/// After a round of the offset search at `radius`: the search ends when an
/// offset was found with confidence, when no track had AccurateRip records,
/// when no track was long enough to be read, or when the radius cannot
/// double; otherwise it goes on at twice the radius.
pub fn next_offset_radius(radius: usize, confidence: i32, had_records: bool, read_a_track: bool) -> (r:
    Option<usize>)
    ensures
        r == if confidence > 0 || !had_records || !read_a_track || radius > usize::MAX / 2 {
            None
        } else {
            Some((radius * 2) as usize)
        },
{
    if confidence > 0 || !had_records || !read_a_track {
        return None;
    }
    if radius > usize::MAX / 2 {
        return None;
    }
    Some(radius * 2)
}

} // verus!
