//! The metadata flow of a rip, step by step: the disc identifier, then the
//! MusicBrainz release, the cover images and the AccurateRip records, each
//! asked of a service by the caller and recorded here with the warnings
//! that a failed step leaves.
use vstd::prelude::*;

use crate::audio::PcmTrackData;
use crate::metadata::accurip::{
    best_confidence, find_accurip_confidence, AccuDbStatus, AccuRipDbEntry, AccuRipError,
    AccuRipLookupResult, AccuRipTrackInput,
};
use crate::metadata::coverart::{CoverArtError, CoverArtImage};
use crate::metadata::discid::{
    compute_discid, discid_info_matches, discid_toc_text, last_audio_before, span_in_range,
    valid_disc_tracks, DiscTrack, DiscidError, DiscidInfo,
};
use crate::hashing::{base64_standard, sha1_digest};
use crate::metadata::musicbrainz::{MusicBrainzError, MusicBrainzReleaseMeta, ReleaseSummary};
use crate::text::{chars_of, dec_int, push_dec_i64};
use crate::workflow::{accurip_v1_checksum_pcm, debug_quote, debug_quoted, track_v1_checksum, AppTrack};

verus! {

/// What the metadata flow found out about a disc.
#[derive(Debug, Clone, PartialEq)]
pub struct MetadataFlowResult {
    pub discid: Option<DiscidInfo>,
    pub musicbrainz: Option<MusicBrainzReleaseMeta>,
    pub cover_arts: Vec<CoverArtImage>,
    pub accurip_status: AccuDbStatus,
    pub accurip: Option<AccuRipLookupResult>,
    pub warnings: Vec<String>,
    /// Set when MusicBrainz found multiple releases and none was selected.
    pub musicbrainz_release_choices: Option<Vec<ReleaseSummary>>,
}

// ---------------------------------------------------------------------------
// Error texts (`{:?}`)
// ---------------------------------------------------------------------------

pub open spec fn discid_error_text(e: DiscidError) -> Seq<char> {
    match e {
        DiscidError::NoTracks => "NoTracks"@,
        DiscidError::NoAudioTracks => "NoAudioTracks"@,
        DiscidError::InvalidTrackData => "InvalidTrackData"@,
    }
}

pub fn discid_error_debug(e: DiscidError) -> (r: String)
    ensures
        r@ == discid_error_text(e),
{
    match e {
        DiscidError::NoTracks => String::from_str("NoTracks"),
        DiscidError::NoAudioTracks => String::from_str("NoAudioTracks"),
        DiscidError::InvalidTrackData => String::from_str("InvalidTrackData"),
    }
}

/// A variant that carries a message, as `{:?}` writes it.
pub open spec fn tuple_text(name: Seq<char>, m: Seq<char>) -> Seq<char> {
    name + "("@ + debug_quoted(m) + ")"@
}

fn tuple_debug(name: &str, m: &str) -> (r: String)
    ensures
        r@ == tuple_text(name@, m@),
{
    let mut out = String::from_str(name);
    out.append("(");
    let q = debug_quote(m);
    out.append(q.as_str());
    out.append(")");
    out
}

pub open spec fn pair_text(name: Seq<char>, requested: i32, available: i32) -> Seq<char> {
    name + " { requested: "@ + dec_int(requested as int) + ", available: "@ + dec_int(available as int)
        + " }"@
}

fn pair_debug(name: &str, requested: i32, available: i32) -> (r: String)
    ensures
        r@ == pair_text(name@, requested, available),
{
    let mut out = String::from_str(name);
    out.append(" { requested: ");
    push_dec_i64(&mut out, requested as i64);
    out.append(", available: ");
    push_dec_i64(&mut out, available as i64);
    out.append(" }");
    out
}

/// `{:?}` of a MusicBrainz error other than a choice of releases.
pub open spec fn musicbrainz_error_text(e: MusicBrainzError) -> Seq<char> {
    match e {
        MusicBrainzError::MissingDiscid => "MissingDiscid"@,
        MusicBrainzError::Http(m) => tuple_text("Http"@, m@),
        MusicBrainzError::Parse(m) => tuple_text("Parse"@, m@),
        MusicBrainzError::NotFound => "NotFound"@,
        MusicBrainzError::MultipleReleases(_) => "MultipleReleases"@,
        MusicBrainzError::InvalidReleaseIndex { requested, available } => pair_text(
            "InvalidReleaseIndex"@,
            requested,
            available,
        ),
        MusicBrainzError::ReleaseIdNotFound(m) => tuple_text("ReleaseIdNotFound"@, m@),
        MusicBrainzError::InvalidDiscNumber { requested, available } => pair_text(
            "InvalidDiscNumber"@,
            requested,
            available,
        ),
    }
}

fn musicbrainz_error_debug(e: &MusicBrainzError) -> (r: String)
    requires
        !(*e is MultipleReleases),
    ensures
        r@ == musicbrainz_error_text(*e),
{
    match e {
        MusicBrainzError::MissingDiscid => String::from_str("MissingDiscid"),
        MusicBrainzError::Http(m) => tuple_debug("Http", m.as_str()),
        MusicBrainzError::Parse(m) => tuple_debug("Parse", m.as_str()),
        MusicBrainzError::NotFound => String::from_str("NotFound"),
        MusicBrainzError::MultipleReleases(_) => String::from_str("MultipleReleases"),
        MusicBrainzError::InvalidReleaseIndex { requested, available } => pair_debug(
            "InvalidReleaseIndex",
            *requested,
            *available,
        ),
        MusicBrainzError::ReleaseIdNotFound(m) => tuple_debug("ReleaseIdNotFound", m.as_str()),
        MusicBrainzError::InvalidDiscNumber { requested, available } => pair_debug(
            "InvalidDiscNumber",
            *requested,
            *available,
        ),
    }
}

pub open spec fn accurip_error_text(e: AccuRipError) -> Seq<char> {
    match e {
        AccuRipError::NoAudioTracks => "NoAudioTracks"@,
        AccuRipError::ParseError(m) => tuple_text("ParseError"@, m@),
        AccuRipError::Http(m) => tuple_text("Http"@, m@),
    }
}

fn accurip_error_debug(e: &AccuRipError) -> (r: String)
    ensures
        r@ == accurip_error_text(*e),
{
    match e {
        AccuRipError::NoAudioTracks => String::from_str("NoAudioTracks"),
        AccuRipError::ParseError(m) => tuple_debug("ParseError", m.as_str()),
        AccuRipError::Http(m) => tuple_debug("Http", m.as_str()),
    }
}

pub open spec fn coverart_error_text(e: CoverArtError) -> Seq<char> {
    match e {
        CoverArtError::Http(m) => tuple_text("Http"@, m@),
    }
}

// ---------------------------------------------------------------------------
// The disc identifier
// ---------------------------------------------------------------------------

pub open spec fn disc_tracks_view(tracks: Seq<AppTrack>) -> Seq<DiscTrack> {
    tracks.map_values(
        |t: AppTrack|
            DiscTrack {
                number: t.number,
                start_lsn: t.start_lsn,
                end_lsn: t.end_lsn,
                track_is_data: t.track_is_data,
            },
    )
}

/// Why no disc identifier can be computed for `t`, if it cannot.
pub open spec fn discid_failure(t: Seq<DiscTrack>) -> Option<DiscidError> {
    if t.len() == 0 {
        Some(DiscidError::NoTracks)
    } else if !valid_disc_tracks(t) {
        Some(DiscidError::InvalidTrackData)
    } else if last_audio_before(t, t.len() as int) is None {
        Some(DiscidError::NoAudioTracks)
    } else {
        None
    }
}

/// The identifiers computed for `t`.
pub open spec fn discid_success(t: Seq<DiscTrack>, info: DiscidInfo) -> bool {
    let idx = last_audio_before(t, t.len() as int).unwrap();
    discid_info_matches(
        t,
        idx,
        base64_standard(sha1_digest(vstd::utf8::encode_utf8(discid_toc_text(t, idx)))),
        info,
    )
}

fn disc_tracks_of(tracks: &[AppTrack]) -> (r: Vec<DiscTrack>)
    ensures
        r@ == disc_tracks_view(tracks@),
{
    let mut out: Vec<DiscTrack> = Vec::new();
    let mut i: usize = 0;
    while i < tracks.len()
        invariant
            i <= tracks@.len(),
            out@ == disc_tracks_view(tracks@.take(i as int)),
        decreases tracks.len() - i,
    {
        let t = tracks[i];
        out.push(DiscTrack {
            number: t.number,
            start_lsn: t.start_lsn,
            end_lsn: t.end_lsn,
            track_is_data: t.track_is_data,
        });
        assert(disc_tracks_view(tracks@.take(i + 1)) =~= disc_tracks_view(tracks@.take(i as int)).push(
            DiscTrack {
                number: t.number,
                start_lsn: t.start_lsn,
                end_lsn: t.end_lsn,
                track_is_data: t.track_is_data,
            },
        ));
        i += 1;
    }
    assert(tracks@.take(tracks@.len() as int) == tracks@);
    out
}

/// The first step: the disc identifier, with a warning when it cannot be
/// computed and, unless MusicBrainz is disabled, one for the lookup that is
/// then skipped.
pub fn metadata_flow_start(tracks: &[AppTrack], disable_mb: bool) -> (r: (Option<DiscidInfo>, Vec<String>))
    requires
        span_in_range(disc_tracks_view(tracks@)),
    ensures
        ({
            let t = disc_tracks_view(tracks@);
            match discid_failure(t) {
                Some(e) => r.0 is None && r.1@.map_values(|w: String| w@) == seq![
                    "discid computation failed: "@ + discid_error_text(e),
                ] + if disable_mb {
                    Seq::<Seq<char>>::empty()
                } else {
                    seq!["musicbrainz lookup skipped: discid unavailable"@]
                },
                None => r.0 matches Some(info) && discid_success(t, info) && r.1@.len() == 0,
            }
        }),
{
    let dt = disc_tracks_of(tracks);
    let mut warnings: Vec<String> = Vec::new();
    match compute_discid(dt.as_slice()) {
        Ok(info) => (Some(info), warnings),
        Err(e) => {
            let mut w = String::from_str("discid computation failed: ");
            let d = discid_error_debug(e);
            w.append(d.as_str());
            warnings.push(w);
            if !disable_mb {
                warnings.push(String::from_str("musicbrainz lookup skipped: discid unavailable"));
            }
            assert(warnings@.map_values(|w: String| w@) =~= seq![
                "discid computation failed: "@ + discid_error_text(e),
            ] + if disable_mb {
                Seq::<Seq<char>>::empty()
            } else {
                seq!["musicbrainz lookup skipped: discid unavailable"@]
            });
            (None, warnings)
        },
    }
}

// ---------------------------------------------------------------------------
// MusicBrainz and cover images
// ---------------------------------------------------------------------------

/// The disc identifier to ask MusicBrainz about: none when lookups are
/// disabled or the disc has no identifier.
pub fn musicbrainz_lookup_discid(discid: &Option<DiscidInfo>, disable_mb: bool) -> (r: Option<String>)
    ensures
        match discid {
            Some(d) => if disable_mb {
                r is None
            } else {
                r matches Some(x) && x@ == d.musicbrainz_discid@
            },
            None => r is None,
        },
{
    if disable_mb {
        return None;
    }
    match discid {
        Some(d) => Some(d.musicbrainz_discid.clone()),
        None => None,
    }
}

/// The release whose cover images are filled in: the MusicBrainz release
/// found, if any.
pub fn coverart_release_id(musicbrainz: &Option<MusicBrainzReleaseMeta>) -> (r: Option<String>)
    ensures
        match musicbrainz {
            Some(m) => r matches Some(x) && x@ == m.musicbrainz_albumid@,
            None => r is None,
        },
{
    match musicbrainz {
        Some(m) => Some(m.musicbrainz_albumid.clone()),
        None => None,
    }
}

pub open spec fn warnings_view(v: Seq<String>) -> Seq<Seq<char>> {
    v.map_values(|w: String| w@)
}

fn push_warning(warnings: &mut Vec<String>, w: String)
    ensures
        warnings_view(final(warnings)@) == warnings_view(old(warnings)@).push(w@),
{
    let ghost before = warnings@;
    warnings.push(w);
    assert(warnings_view(warnings@) =~= warnings_view(before).push(w@));
}

/// Records a MusicBrainz answer: the release, or the releases to choose
/// from, or a warning.
pub fn record_musicbrainz_result(
    res: Result<MusicBrainzReleaseMeta, MusicBrainzError>,
    warnings: &mut Vec<String>,
) -> (r: (Option<MusicBrainzReleaseMeta>, Option<Vec<ReleaseSummary>>))
    ensures
        match res {
            Ok(v) => r.0 == Some(v) && r.1 is None && final(warnings)@ == old(warnings)@,
            Err(MusicBrainzError::MultipleReleases(c)) => r.0 is None && r.1 == Some(c)
                && warnings_view(final(warnings)@) == warnings_view(old(warnings)@).push(
                "musicbrainz lookup failed: multiple releases found, use -R to select one"@,
            ),
            Err(e) => r.0 is None && r.1 is None && warnings_view(final(warnings)@) == warnings_view(
                old(warnings)@,
            ).push("musicbrainz lookup failed: "@ + musicbrainz_error_text(e)),
        },
{
    match res {
        Ok(v) => (Some(v), None),
        Err(MusicBrainzError::MultipleReleases(c)) => {
            push_warning(
                warnings,
                String::from_str("musicbrainz lookup failed: multiple releases found, use -R to select one"),
            );
            (None, Some(c))
        },
        Err(e) => {
            let mut w = String::from_str("musicbrainz lookup failed: ");
            let d = musicbrainz_error_debug(&e);
            w.append(d.as_str());
            push_warning(warnings, w);
            (None, None)
        },
    }
}

/// Records the answer of the cover image lookup: a warning when it failed.
pub fn record_coverart_result(res: Result<(), CoverArtError>, warnings: &mut Vec<String>)
    ensures
        match res {
            Ok(()) => final(warnings)@ == old(warnings)@,
            Err(e) => warnings_view(final(warnings)@) == warnings_view(old(warnings)@).push(
                "coverart lookup failed: "@ + coverart_error_text(e),
            ),
        },
{
    match res {
        Ok(()) => {},
        Err(CoverArtError::Http(m)) => {
            let mut w = String::from_str("coverart lookup failed: ");
            let d = tuple_debug("Http", m.as_str());
            w.append(d.as_str());
            push_warning(warnings, w);
        },
    }
}

// ---------------------------------------------------------------------------
// AccurateRip
// ---------------------------------------------------------------------------

pub open spec fn hex_digit_value(c: char) -> Option<nat> {
    if '0' <= c && c <= '9' {
        Some((c as nat - '0' as nat) as nat)
    } else if 'a' <= c && c <= 'f' {
        Some((c as nat - 'a' as nat + 10) as nat)
    } else if 'A' <= c && c <= 'F' {
        Some((c as nat - 'A' as nat + 10) as nat)
    } else {
        None
    }
}

pub open spec fn hex_digits_value(s: Seq<char>) -> Option<nat>
    decreases s.len(),
{
    if s.len() == 0 {
        Some(0)
    } else {
        match (hex_digits_value(s.drop_last()), hex_digit_value(s.last())) {
            (Some(a), Some(b)) => Some(a * 16 + b),
            _ => None,
        }
    }
}

/// `u32::from_str_radix(s, 16)`: an optional `+`, then one or more
/// hexadecimal digits whose value fits.
pub open spec fn parse_hex_u32(s: Seq<char>) -> Option<u32> {
    let body = if s.len() > 0 && s[0] == '+' {
        s.drop_first()
    } else {
        s
    };
    if body.len() == 0 {
        None
    } else {
        match hex_digits_value(body) {
            Some(v) => if v <= u32::MAX {
                Some(v as u32)
            } else {
                None
            },
            None => None,
        }
    }
}

proof fn lemma_hex_prefix_grows(s: Seq<char>, i: int)
    requires
        0 <= i <= s.len(),
        hex_digits_value(s) is Some,
    ensures
        hex_digits_value(s.take(i)) is Some,
        hex_digits_value(s.take(i)).unwrap() <= hex_digits_value(s).unwrap(),
    decreases s.len(),
{
    if i < s.len() {
        assert(s.drop_last().take(i) == s.take(i));
        lemma_hex_prefix_grows(s.drop_last(), i);
    } else {
        assert(s.take(i) == s);
    }
}

pub fn parse_hex_u32_text(s: &str) -> (r: Option<u32>)
    ensures
        r == parse_hex_u32(s@),
{
    let c = chars_of(s);
    let start: usize = if c.len() > 0 && c[0] == '+' { 1 } else { 0 };
    let ghost body = if c@.len() > 0 && c@[0] == '+' {
        c@.drop_first()
    } else {
        c@
    };
    assert(body == c@.skip(start as int));
    if start >= c.len() {
        return None;
    }
    let mut acc: u64 = 0;
    let mut i = start;
    while i < c.len()
        invariant
            start <= i <= c@.len(),
            start < c@.len(),
            c@ == s@,
            body == c@.skip(start as int),
            body == if c@.len() > 0 && c@[0] == '+' {
                c@.drop_first()
            } else {
                c@
            },
            hex_digits_value(body.take(i - start)) == Some(acc as nat),
            acc <= u32::MAX,
        decreases c.len() - i,
    {
        let ch = c[i];
        let d: u64 = if '0' <= ch && ch <= '9' {
            (ch as u64) - ('0' as u64)
        } else if 'a' <= ch && ch <= 'f' {
            (ch as u64) - ('a' as u64) + 10
        } else if 'A' <= ch && ch <= 'F' {
            (ch as u64) - ('A' as u64) + 10
        } else {
            assert(body.take(i - start + 1).last() == ch);
            assert(body.take(i - start + 1).drop_last() == body.take(i - start));
            assert(hex_digit_value(ch) is None);
            assert(hex_digits_value(body.take(i - start + 1)) is None);
            proof {
                if hex_digits_value(body) is Some {
                    lemma_hex_prefix_grows(body, i - start + 1);
                }
            }
            assert(hex_digits_value(body) is None);
            return None;
        };
        assert(body.take(i - start + 1).last() == ch);
        assert(body.take(i - start + 1).drop_last() == body.take(i - start));
        let next = acc * 16 + d;
        assert(hex_digit_value(ch) == Some(d as nat));
        assert(hex_digits_value(body.take(i - start + 1)) == Some(next as nat));
        if next > 4294967295 {
            proof {
                if hex_digits_value(body) is Some {
                    lemma_hex_prefix_grows(body, i - start + 1);
                }
            }
            return None;
        }
        acc = next;
        i += 1;
    }
    assert(body.take(i - start) == body);
    Some(acc as u32)
}

/// The AccurateRip tracks of the disc's tracks.
pub open spec fn accurip_tracks_view(tracks: Seq<AppTrack>) -> Seq<AccuRipTrackInput> {
    tracks.map_values(
        |t: AppTrack|
            AccuRipTrackInput {
                number: t.number as u32,
                start_lsn: t.start_lsn as u32,
                end_lsn: t.end_lsn as u32,
                track_is_data: t.track_is_data,
            },
    )
}

pub open spec fn has_negative_lsn(tracks: Seq<AppTrack>) -> bool {
    exists|i: int| 0 <= i < tracks.len() && ((#[trigger] tracks[i]).start_lsn < 0 || tracks[i].end_lsn < 0)
}

/// The status the AccurateRip step starts from.
pub fn initial_accurip_status(disable_accurip: bool) -> (r: AccuDbStatus)
    ensures
        r == if disable_accurip {
            AccuDbStatus::Disabled
        } else {
            AccuDbStatus::Error
        },
{
    if disable_accurip {
        AccuDbStatus::Disabled
    } else {
        AccuDbStatus::Error
    }
}

/// The AccurateRip request to make, if any: none when disabled; otherwise
/// the tracks and the FreeDB identifier, or a warning when the identifier
/// is missing or unreadable or a track address is negative.
pub fn accurip_plan(
    discid: Option<&DiscidInfo>,
    tracks: &[AppTrack],
    disable_accurip: bool,
    warnings: &mut Vec<String>,
) -> (r: Option<(Vec<AccuRipTrackInput>, u32)>)
    ensures
        disable_accurip ==> r is None && final(warnings)@ == old(warnings)@,
        !disable_accurip ==> match discid {
            None => r is None && warnings_view(final(warnings)@) == warnings_view(old(warnings)@).push(
                "accurip lookup skipped: discid/cddb unavailable"@,
            ),
            Some(d) => match parse_hex_u32(d.cddb@) {
                None => r is None && warnings_view(final(warnings)@) == warnings_view(
                    old(warnings)@,
                ).push("accurip lookup failed: invalid cddb id"@),
                Some(c) => if has_negative_lsn(tracks@) {
                    r is None && warnings_view(final(warnings)@) == warnings_view(old(warnings)@).push(
                        "accurip lookup failed: negative LSN in track data"@,
                    )
                } else {
                    r matches Some((v, id)) && v@ == accurip_tracks_view(tracks@) && id == c
                        && final(warnings)@ == old(warnings)@
                },
            },
        },
{
    if disable_accurip {
        return None;
    }
    let d = match discid {
        Some(d) => d,
        None => {
            push_warning(warnings, String::from_str("accurip lookup skipped: discid/cddb unavailable"));
            return None;
        },
    };
    let cddb = match parse_hex_u32_text(d.cddb.as_str()) {
        Some(c) => c,
        None => {
            push_warning(warnings, String::from_str("accurip lookup failed: invalid cddb id"));
            return None;
        },
    };
    let mut out: Vec<AccuRipTrackInput> = Vec::new();
    let mut i: usize = 0;
    while i < tracks.len()
        invariant
            i <= tracks@.len(),
            !disable_accurip,
            discid == Some(d),
            parse_hex_u32(d.cddb@) == Some(cddb),
            warnings@ == old(warnings)@,
            out@ == accurip_tracks_view(tracks@.take(i as int)),
            forall|j: int| 0 <= j < i ==> !((#[trigger] tracks@[j]).start_lsn < 0 || tracks@[j].end_lsn < 0),
        decreases tracks.len() - i,
    {
        let t = tracks[i];
        if t.start_lsn < 0 || t.end_lsn < 0 {
            assert(has_negative_lsn(tracks@)) by {
                assert(tracks@[i as int] == t);
            }
            push_warning(warnings, String::from_str("accurip lookup failed: negative LSN in track data"));
            return None;
        }
        out.push(AccuRipTrackInput {
            number: t.number as u32,
            start_lsn: t.start_lsn as u32,
            end_lsn: t.end_lsn as u32,
            track_is_data: t.track_is_data,
        });
        assert(accurip_tracks_view(tracks@.take(i + 1)) =~= accurip_tracks_view(tracks@.take(i as int)).push(
            AccuRipTrackInput {
                number: t.number as u32,
                start_lsn: t.start_lsn as u32,
                end_lsn: t.end_lsn as u32,
                track_is_data: t.track_is_data,
            },
        ));
        i += 1;
    }
    assert(tracks@.take(tracks@.len() as int) == tracks@);
    assert(!has_negative_lsn(tracks@));
    Some((out, cddb))
}

/// Records the AccurateRip answer: its status and records, or `Error` and a
/// warning.
pub fn record_accurip_result(
    res: Result<AccuRipLookupResult, AccuRipError>,
    warnings: &mut Vec<String>,
) -> (r: (AccuDbStatus, Option<AccuRipLookupResult>))
    ensures
        match res {
            Ok(v) => r.0 == v.status && r.1 == Some(v) && final(warnings)@ == old(warnings)@,
            Err(e) => r.0 == AccuDbStatus::Error && r.1 is None && warnings_view(final(warnings)@)
                == warnings_view(old(warnings)@).push("accurip lookup failed: "@ + accurip_error_text(e)),
        },
{
    match res {
        Ok(v) => (v.status, Some(v)),
        Err(e) => {
            let mut w = String::from_str("accurip lookup failed: ");
            let d = accurip_error_debug(&e);
            w.append(d.as_str());
            push_warning(warnings, w);
            (AccuDbStatus::Error, None)
        },
    }
}


// ---------------------------------------------------------------------------
// AccurateRip confidence of a ripped track
// ---------------------------------------------------------------------------

/// The AccurateRip records the flow holds for a track (numbered from 1), when
/// the disc was found and the track has any.
pub open spec fn track_accurip_entries(track_number: u32, flow: Option<&MetadataFlowResult>) -> Option<
    Seq<AccuRipDbEntry>,
> {
    match flow {
        None => None,
        Some(mf) => if mf.accurip_status != AccuDbStatus::Found {
            None
        } else {
            match mf.accurip {
                None => None,
                Some(ar) => {
                    let idx: int = if track_number == 0 {
                        0
                    } else {
                        track_number - 1
                    };
                    if idx < ar.track_matches@.len() && ar.track_matches@[idx].entries@.len() > 0 {
                        Some(ar.track_matches@[idx].entries@)
                    } else {
                        None
                    }
                },
            }
        },
    }
}

/// The number of tracks the AccurateRip records cover (0 without records).
pub open spec fn accurip_track_count(flow: Option<&MetadataFlowResult>) -> int {
    match flow {
        Some(mf) => match mf.accurip {
            Some(ar) => ar.track_matches@.len() as int,
            None => 0,
        },
        None => 0,
    }
}

/// The best confidence the records give a track's checksum (-1 when none has
/// it), or `None` when there are no records for the track.
pub fn track_accurip_confidence_for_checksum(
    track_number: u32,
    checksum: u32,
    metadata_flow: Option<&MetadataFlowResult>,
) -> (r: Option<i32>)
    ensures
        r == match track_accurip_entries(track_number, metadata_flow) {
            Some(e) => Some(best_confidence(e, checksum, false) as i32),
            None => None::<i32>,
        },
{
    let mf = match metadata_flow {
        Some(mf) => mf,
        None => {
            return None;
        },
    };
    if mf.accurip_status != AccuDbStatus::Found {
        return None;
    }
    let ar = match &mf.accurip {
        Some(ar) => ar,
        None => {
            return None;
        },
    };
    let idx: usize = if track_number == 0 {
        0
    } else {
        (track_number - 1) as usize
    };
    if idx >= ar.track_matches.len() {
        return None;
    }
    let matches = &ar.track_matches[idx];
    if matches.entries.len() == 0 {
        return None;
    }
    Some(find_accurip_confidence(AccuDbStatus::Found, matches.entries.as_slice(), checksum, false))
}

/// The confidence of a ripped track: its AccurateRip v1 checksum (the first
/// and last track of the records skip their edges) looked up in the records.
pub fn track_accurip_confidence_for_pcm(
    track_number: u32,
    pcm: &PcmTrackData,
    metadata_flow: Option<&MetadataFlowResult>,
) -> (r: Option<i32>)
    ensures
        r == match track_accurip_entries(track_number, metadata_flow) {
            Some(e) => Some(
                best_confidence(
                    e,
                    track_v1_checksum(
                        pcm.interleaved_i16_samples@,
                        track_number == 1,
                        track_number == accurip_track_count(metadata_flow),
                    ),
                    false,
                ) as i32,
            ),
            None => None::<i32>,
        },
{
    let mf = match metadata_flow {
        Some(mf) => mf,
        None => {
            return None;
        },
    };
    if mf.accurip_status != AccuDbStatus::Found {
        return None;
    }
    let ar = match &mf.accurip {
        Some(ar) => ar,
        None => {
            return None;
        },
    };
    let idx: usize = if track_number == 0 {
        0
    } else {
        (track_number - 1) as usize
    };
    if idx >= ar.track_matches.len() {
        return None;
    }
    if ar.track_matches[idx].entries.len() == 0 {
        return None;
    }
    let is_first_track = track_number == 1;
    let is_last_track = track_number as usize == ar.track_matches.len();
    let checksum = accurip_v1_checksum_pcm(pcm, is_first_track, is_last_track);
    track_accurip_confidence_for_checksum(track_number, checksum, metadata_flow)
}

} // verus!
