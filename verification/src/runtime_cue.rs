//! The CUE sheet tracks of a ripped disc: the table of contents, completed
//! by the release, the pregap handling and the user's track entries.
use vstd::prelude::*;

use crate::cue::{CueFileType, CueTrack};
use crate::info_report::nonblank;
use crate::metadata::discid::DiscidInfo;
use crate::metadata::musicbrainz::{MusicBrainzReleaseMeta, MusicBrainzTrackMeta};
use crate::naming::{build_cue_relative_path, build_track_relative_path, scheme_path, trim, trim_bounds_pub, NamingContext};
use crate::tags::{keys_sorted, TagMap};
use crate::text::{chars_of, dec, dec_int, dec_pad, ostr, push_dec, push_dec_pad, strings_view, text_result};
use crate::track_meta::{
    album_meta_value, bool_field, cue_file_type_from_field, directive_text, entry_fields, named_file_type,
    opt_str, or_else, parse_album_metadata_map, parse_bool_field, parse_track_meta_entry,
    parse_u32_field, track_directive_text, track_entry_number, u32_field, unwrap_or,
};
use crate::workflow::{ascii_lower, find_meta, meta_for, InfoTocEntry};
use crate::{OutputFormat, PregapAction, SanitizeMethod};

verus! {

/// The settings that shape the CUE sheet of a rip.
#[derive(Debug, Clone)]
pub struct CueRuntimeSettings {
    pub outputs: Vec<OutputFormat>,
    pub album_metadata: Option<String>,
    pub track_metadata: Vec<String>,
    pub sanitize_method: SanitizeMethod,
    pub folder_name_scheme: String,
    pub track_name_scheme: String,
    pub cue_name_scheme: String,
    pub pregap_action: Vec<PregapAction>,
}

/// The folder suffix and file extension of the formats that are written.
pub open spec fn format_descriptor(f: OutputFormat) -> Option<(Seq<char>, Seq<char>)> {
    match f {
        OutputFormat::Wav => Some(("WAV"@, "wav"@)),
        OutputFormat::Flac => Some(("FLAC"@, "flac"@)),
        _ => None,
    }
}

pub fn output_format_descriptor(fmt_kind: OutputFormat) -> (r: Option<(&'static str, &'static str)>)
    ensures
        match format_descriptor(fmt_kind) {
            Some((a, b)) => r matches Some((x, y)) && x@ == a && y@ == b,
            None => r is None,
        },
{
    match fmt_kind {
        OutputFormat::Wav => Some(("WAV", "wav")),
        OutputFormat::Flac => Some(("FLAC", "flac")),
        _ => None,
    }
}

/// The suffix and extension used for the sheet: those of the first output,
/// or FLAC's.
pub open spec fn sheet_descriptor(outputs: Seq<OutputFormat>) -> (Seq<char>, Seq<char>) {
    if outputs.len() > 0 && format_descriptor(outputs[0]) is Some {
        format_descriptor(outputs[0]).unwrap()
    } else {
        ("FLAC"@, "flac"@)
    }
}

// ---------------------------------------------------------------------------
// Album tags
// ---------------------------------------------------------------------------

/// The album tags: the user's, completed by the release's album, album
/// artist, date and comment where those are not blank.
pub open spec fn runtime_album_value(
    raw: Option<Seq<char>>,
    release: Option<MusicBrainzReleaseMeta>,
    k: Seq<char>,
) -> Option<Seq<char>> {
    match album_meta_value(raw, k) {
        Some(v) => Some(v),
        None => match release {
            Some(r) => if k == "album"@ {
                Some(r.album@)
            } else if k == "album_artist"@ {
                nonblank(ostr(r.album_artist))
            } else if k == "date"@ {
                nonblank(ostr(r.date))
            } else if k == "releasecomment"@ {
                nonblank(ostr(r.releasecomment))
            } else {
                None
            },
            None => None,
        },
    }
}

fn is_blank(s: &str) -> (r: bool)
    ensures
        r == (trim(s@).len() == 0),
{
    let c = chars_of(s);
    let (a, b) = trim_bounds_pub(c.as_slice(), 0, c.len());
    assert(c@.subrange(0, c@.len() as int) == c@);
    a == b
}

/// Stores `value` under `key` unless a value is there.
fn insert_missing(m: &mut TagMap, key: &str, value: &str)
    ensures
        keys_sorted(old(m).pairs()) ==> keys_sorted(final(m).pairs()),
        forall|k: Seq<char>| #[trigger] final(m).get_spec(k) == if k == key@ && old(m).get_spec(k) is None {
            Some(value@)
        } else {
            old(m).get_spec(k)
        },
{
    if m.get(key).is_none() {
        m.insert(crate::text::copy_str(key), crate::text::copy_str(value));
    }
}

fn insert_missing_nonblank(m: &mut TagMap, key: &str, value: &Option<String>)
    ensures
        keys_sorted(old(m).pairs()) ==> keys_sorted(final(m).pairs()),
        forall|k: Seq<char>| #[trigger] final(m).get_spec(k) == if k == key@ && old(m).get_spec(k) is None {
            nonblank(ostr(*value))
        } else {
            old(m).get_spec(k)
        },
{
    match value {
        Some(v) => {
            if !is_blank(v.as_str()) {
                insert_missing(m, key, v.as_str());
            }
        },
        None => {},
    }
}

/// The album tags of a rip (see `runtime_album_value`).
pub fn runtime_album_meta(album_metadata: Option<&str>, release: Option<&MusicBrainzReleaseMeta>) -> (r: TagMap)
    ensures
        keys_sorted(r.pairs()),
        forall|k: Seq<char>| #[trigger] r.get_spec(k) == runtime_album_value(
            opt_str(album_metadata),
            match release {
                Some(x) => Some(*x),
                None => None,
            },
            k,
        ),
{
    let mut m = parse_album_metadata_map(album_metadata);
    if let Some(r) = release {
        let ghost m0 = m;
        insert_missing(&mut m, "album", r.album.as_str());
        let ghost m1 = m;
        insert_missing_nonblank(&mut m, "album_artist", &r.album_artist);
        let ghost m2 = m;
        insert_missing_nonblank(&mut m, "date", &r.date);
        let ghost m3 = m;
        insert_missing_nonblank(&mut m, "releasecomment", &r.releasecomment);
        proof {
            reveal_strlit("album");
            reveal_strlit("album_artist");
            reveal_strlit("date");
            reveal_strlit("releasecomment");
        }
        assert forall|k: Seq<char>| #[trigger] m.get_spec(k) == runtime_album_value(
            opt_str(album_metadata),
            Some(*r),
            k,
        ) by {
            assert(m0.get_spec(k) == album_meta_value(opt_str(album_metadata), k));
            let v1 = m1.get_spec(k);
            let v2 = m2.get_spec(k);
            let v3 = m3.get_spec(k);
            reveal_strlit("album");
            reveal_strlit("album_artist");
            reveal_strlit("date");
            reveal_strlit("releasecomment");
            assert("album"@.len() == 5 && "album_artist"@.len() == 12 && "date"@.len() == 4 && "releasecomment"@.len() == 14);
            assert("album"@ != "album_artist"@ && "album"@ != "date"@ && "album"@ != "releasecomment"@);
            assert("album_artist"@ != "date"@ && "album_artist"@ != "releasecomment"@ && "date"@ != "releasecomment"@);
            if k == "album"@ {
                assert(v1 == runtime_album_value(opt_str(album_metadata), Some(*r), k));
                assert(m.get_spec(k) == v1);
            } else if k == "album_artist"@ {
                assert(v1 == m0.get_spec(k));
            } else if k == "date"@ {
            } else if k == "releasecomment"@ {
            } else {
            }
        }
    }
    m
}

// ---------------------------------------------------------------------------
// Pregaps
// ---------------------------------------------------------------------------

pub open spec fn lsn_floor(x: i32) -> u32 {
    if x < 0 {
        0
    } else {
        x as u32
    }
}

/// The pregap action chosen for track `number`.
pub open spec fn action_for(actions: Seq<PregapAction>, number: u8) -> PregapAction {
    let ai: int = if number == 0 { 0 } else { number - 1 };
    if ai < actions.len() {
        actions[ai]
    } else {
        PregapAction::Default
    }
}

/// The pregap fields that the disc and the pregap action give track `i`:
/// pregap start, signal start, dropped pregap start, merged pregap end and
/// previous signal start.
pub open spec fn toc_pregap(toc: Seq<InfoTocEntry>, i: int, actions: Seq<PregapAction>) -> (
    Option<u32>,
    u32,
    Option<u32>,
    Option<u32>,
    Option<u32>,
) {
    let e = toc[i];
    let start = lsn_floor(e.start_lsn);
    let pregap = match e.pregap_lsn {
        Some(p) => if p >= 0 && (p as u32) < start {
            Some(p as u32)
        } else {
            None
        },
        None => None,
    };
    let prev = if i > 0 {
        Some(lsn_floor(toc[i - 1].start_lsn))
    } else {
        None
    };
    match pregap {
        Some(ps) => match action_for(actions, e.number) {
            PregapAction::Drop => (pregap, start, Some(ps), None, prev),
            PregapAction::Track => (pregap, start, None, None, prev),
            _ => (pregap, ps, None, Some(start), prev),
        },
        None => (pregap, start, None, None, prev),
    }
}

/// The pregap fields after the user's entry: explicit values replace
/// those of the disc, then a `pregap_mode` applies.
pub open spec fn user_pregap(
    f: spec_fn(Seq<char>) -> Option<Seq<char>>,
    start: u32,
    base: (Option<u32>, u32, Option<u32>, Option<u32>, Option<u32>),
) -> (Option<u32>, u32, Option<u32>, Option<u32>, Option<u32>) {
    let pregap = or_else(u32_field(f, "pregap_start_lsn"@), or_else(u32_field(f, "pregap_lsn"@), base.0));
    let sig = unwrap_or(u32_field(f, "start_lsn_sig"@), base.1);
    let dropped = or_else(u32_field(f, "dropped_pregap_start"@), base.2);
    let merged = or_else(u32_field(f, "merged_pregap_end"@), base.3);
    let prev = or_else(u32_field(f, "previous_start_lsn_sig"@), base.4);
    match f("pregap_mode"@) {
        Some(raw) => {
            let m = ascii_lower(trim(raw));
            if m == "drop"@ {
                match pregap {
                    Some(p) => (pregap, start, Some(p), None, prev),
                    None => (pregap, sig, dropped, merged, prev),
                }
            } else if m == "merge"@ || m == "default"@ {
                match pregap {
                    Some(p) => (pregap, p, None, Some(start), prev),
                    None => (pregap, sig, dropped, merged, prev),
                }
            } else if m == "track"@ || m == "append"@ {
                (
                    pregap,
                    start,
                    None,
                    None,
                    if prev is Some {
                        prev
                    } else {
                        Some(if start == 0 { 0u32 } else { (start - 1) as u32 })
                    },
                )
            } else {
                (pregap, sig, dropped, merged, prev)
            }
        },
        None => (pregap, sig, dropped, merged, prev),
    }
}

fn toc_pregap_fields(toc: &[InfoTocEntry], i: usize, actions: &Vec<PregapAction>) -> (r: (
    Option<u32>,
    u32,
    Option<u32>,
    Option<u32>,
    Option<u32>,
))
    requires
        i < toc@.len(),
    ensures
        r == toc_pregap(toc@, i as int, actions@),
{
    let e = toc[i];
    let start: u32 = if e.start_lsn < 0 { 0 } else { e.start_lsn as u32 };
    let pregap = match e.pregap_lsn {
        Some(p) => if p >= 0 && (p as u32) < start {
            Some(p as u32)
        } else {
            None
        },
        None => None,
    };
    let prev = if i > 0 {
        let ps = toc[i - 1].start_lsn;
        Some(if ps < 0 { 0u32 } else { ps as u32 })
    } else {
        None
    };
    let ai: usize = if e.number == 0 { 0 } else { (e.number - 1) as usize };
    let action = if ai < actions.len() { actions[ai] } else { PregapAction::Default };
    match pregap {
        Some(ps) => match action {
            PregapAction::Drop => (pregap, start, Some(ps), None, prev),
            PregapAction::Track => (pregap, start, None, None, prev),
            _ => (pregap, ps, None, Some(start), prev),
        },
        None => (pregap, start, None, None, prev),
    }
}

fn opt_or_u32(a: Option<u32>, b: Option<u32>) -> (r: Option<u32>)
    ensures
        r == or_else(a, b),
{
    if a.is_some() {
        a
    } else {
        b
    }
}

fn user_pregap_fields(
    fields: &TagMap,
    start: u32,
    base: (Option<u32>, u32, Option<u32>, Option<u32>, Option<u32>),
) -> (r: (Option<u32>, u32, Option<u32>, Option<u32>, Option<u32>))
    ensures
        r == user_pregap(|k: Seq<char>| fields.get_spec(k), start, base),
{
    let pregap = opt_or_u32(
        parse_u32_field(fields, "pregap_start_lsn"),
        opt_or_u32(parse_u32_field(fields, "pregap_lsn"), base.0),
    );
    let sig = match parse_u32_field(fields, "start_lsn_sig") {
        Some(v) => v,
        None => base.1,
    };
    let dropped = opt_or_u32(parse_u32_field(fields, "dropped_pregap_start"), base.2);
    let merged = opt_or_u32(parse_u32_field(fields, "merged_pregap_end"), base.3);
    let prev = opt_or_u32(parse_u32_field(fields, "previous_start_lsn_sig"), base.4);
    match fields.get("pregap_mode") {
        Some(raw) => {
            let m = crate::track_meta::folded_text(raw.as_str());
            let w = m.as_slice();
            if crate::track_meta::is_word(w, "drop") {
                match pregap {
                    Some(p) => (pregap, start, Some(p), None, prev),
                    None => (pregap, sig, dropped, merged, prev),
                }
            } else if crate::track_meta::is_word(w, "merge") || crate::track_meta::is_word(w, "default") {
                match pregap {
                    Some(p) => (pregap, p, None, Some(start), prev),
                    None => (pregap, sig, dropped, merged, prev),
                }
            } else if crate::track_meta::is_word(w, "track") || crate::track_meta::is_word(w, "append") {
                (
                    pregap,
                    start,
                    None,
                    None,
                    if prev.is_some() {
                        prev
                    } else {
                        Some(if start == 0 { 0u32 } else { start - 1 })
                    },
                )
            } else {
                (pregap, sig, dropped, merged, prev)
            }
        },
        None => (pregap, sig, dropped, merged, prev),
    }
}

// ---------------------------------------------------------------------------
// Tracks
// ---------------------------------------------------------------------------

/// The position of the last entry for track `n` before `end`.
pub open spec fn last_entry(es: Seq<Seq<char>>, n: u32, end: int) -> Option<int>
    decreases end,
{
    if end <= 0 || end > es.len() {
        None
    } else if track_entry_number(es[end - 1]) == Some(n) {
        Some(end - 1)
    } else {
        last_entry(es, n, end - 1)
    }
}

/// The fields of the user's last entry for track `n`, if any.
pub open spec fn user_fields(es: Seq<Seq<char>>, n: u32) -> Option<spec_fn(Seq<char>) -> Option<Seq<char>>> {
    match last_entry(es, n, es.len() as int) {
        Some(j) => Some(entry_fields(es[j])),
        None => None,
    }
}

fn find_track_entry(entries: &Vec<String>, n: u32) -> (r: Option<TagMap>)
    ensures
        match user_fields(strings_view(entries@), n) {
            Some(f) => r matches Some(m) && (|k: Seq<char>| m.get_spec(k)) =~= f,
            None => r is None,
        },
{
    let ghost es = strings_view(entries@);
    let mut end = entries.len();
    while end > 0
        invariant
            end <= entries@.len(),
            es == strings_view(entries@),
            last_entry(es, n, es.len() as int) == last_entry(es, n, end as int),
        decreases end,
    {
        assert(es[end - 1] == entries@[end - 1]@);
        match parse_track_meta_entry(entries[end - 1].as_str()) {
            Some((m, fields)) => {
                if m == n {
                    assert(last_entry(es, n, end as int) == Some(end - 1));
                    return Some(fields);
                }
            },
            None => {},
        }
        end -= 1;
    }
    None
}

proof fn lemma_last_entry_found(es: Seq<Seq<char>>, n: u32, end: int, j: int)
    requires
        0 <= j < end <= es.len(),
        track_entry_number(es[j]) == Some(n),
    ensures
        last_entry(es, n, end) is Some,
    decreases end,
{
    if track_entry_number(es[end - 1]) != Some(n) {
        lemma_last_entry_found(es, n, end - 1, j);
    }
}

proof fn lemma_last_entry_number(es: Seq<Seq<char>>, n: u32, end: int)
    ensures
        last_entry(es, n, end) matches Some(j) ==> 0 <= j < es.len() && track_entry_number(es[j])
            == Some(n),
    decreases end,
{
    if 0 < end <= es.len() && track_entry_number(es[end - 1]) != Some(n) {
        lemma_last_entry_number(es, n, end - 1);
    }
}

proof fn lemma_meta_for_push(m: Seq<(u32, TagMap)>, x: (u32, TagMap), n: u32)
    ensures
        meta_for(m.push(x), n) == match meta_for(m, n) {
            Some(t) => Some(t),
            None => if x.0 == n {
                Some(x.1)
            } else {
                None
            },
        },
    decreases m.len(),
{
    if m.len() > 0 {
        assert(m.push(x)[0] == m[0]);
        assert(m.push(x).drop_first() == m.drop_first().push(x));
        lemma_meta_for_push(m.drop_first(), x, n);
        assert(meta_for(m, n) == if m[0].0 == n {
            Some(m[0].1)
        } else {
            meta_for(m.drop_first(), n)
        });
    } else {
        assert(m.push(x)[0] == x);
        assert(m.push(x).drop_first() == Seq::<(u32, TagMap)>::empty());
        assert(meta_for(Seq::<(u32, TagMap)>::empty(), n) is None);
        assert(meta_for(m, n) is None);
    }
}

/// The user's track entries as a table: each track number with the fields of
/// its last entry.
pub fn track_meta_map_from_settings(track_metadata: &Vec<String>) -> (r: Vec<(u32, TagMap)>)
    ensures
        forall|n: u32|
            #![trigger meta_for(r@, n)]
            #![trigger user_fields(strings_view(track_metadata@), n)]
            match user_fields(strings_view(track_metadata@), n) {
            Some(f) => meta_for(r@, n) matches Some(t) && (|k: Seq<char>| t.get_spec(k)) =~= f,
            None => meta_for(r@, n) is None,
        },
{
    let ghost es = strings_view(track_metadata@);
    let mut out: Vec<(u32, TagMap)> = Vec::new();
    let mut i: usize = 0;
    while i < track_metadata.len()
        invariant
            i <= track_metadata@.len(),
            es == strings_view(track_metadata@),
            forall|n: u32| #![trigger meta_for(out@, n)] meta_for(out@, n) matches Some(t) ==> user_fields(es, n) matches Some(
                f,
            ) && (|k: Seq<char>| t.get_spec(k)) =~= f,
            forall|j: int, m: u32| #![trigger track_entry_number(es[j]), meta_for(out@, m)]
                0 <= j < i && track_entry_number(es[j]) == Some(m) ==> meta_for(out@, m) is Some,
        decreases track_metadata.len() - i,
    {
        assert(es[i as int] == track_metadata@[i as int]@);
        match parse_track_meta_entry(track_metadata[i].as_str()) {
            Some((m, _)) => {
                if find_meta(out.as_slice(), m).is_none() {
                    proof {
                        lemma_last_entry_found(es, m, es.len() as int, i as int);
                    }
                    match find_track_entry(track_metadata, m) {
                        Some(fields) => {
                            let ghost before = out@;
                            out.push((m, fields));
                            proof {
                                assert forall|n: u32| #![trigger meta_for(out@, n)] meta_for(out@, n) == match meta_for(before, n) {
                                    Some(t) => Some(t),
                                    None => if m == n {
                                        Some(fields)
                                    } else {
                                        None
                                    },
                                } by {
                                    lemma_meta_for_push(before, (m, fields), n);
                                }
                            }
                        },
                        None => {},
                    }
                }
            },
            None => {},
        }
        i += 1;
    }
    proof {
        assert forall|n: u32| #![trigger user_fields(es, n)] user_fields(es, n) is Some implies meta_for(out@, n) is Some by {
            lemma_last_entry_number(es, n, es.len() as int);
        }
    }
    out
}

/// The tags of track `n` for naming its files: the user's fields for it,
/// with the two-digit track number and a `Track NN` title where they give none.
pub fn track_meta_for_number(track_number: u32, track_meta_map: &[(u32, TagMap)]) -> (r: TagMap)
    ensures
        forall|k: Seq<char>| #[trigger] r.get_spec(k) == match meta_for(track_meta_map@, track_number) {
            Some(t) => match t.get_spec(k) {
                Some(v) => Some(v),
                None => track_default_tag(track_number, k),
            },
            None => track_default_tag(track_number, k),
        },
{
    let mut out = match find_meta(track_meta_map, track_number) {
        Some(t) => t.clone_map(),
        None => {
            let m = TagMap::new();
            assert forall|k: Seq<char>| #[trigger] m.get_spec(k) == None::<Seq<char>> by {}
            m
        },
    };
    proof {
        reveal_strlit("track");
        reveal_strlit("title");
    }
    if out.get("track").is_none() {
        let mut v = String::new();
        push_dec_pad(&mut v, track_number as u64, 2);
        out.insert(String::from_str("track"), v);
    }
    if out.get("title").is_none() {
        let mut v = String::from_str("Track ");
        push_dec_pad(&mut v, track_number as u64, 2);
        out.insert(String::from_str("title"), v);
    }
    out
}

/// The tags a track's files are named by when the user gives none.
pub open spec fn track_default_tag(n: u32, k: Seq<char>) -> Option<Seq<char>> {
    if k == "track"@ {
        Some(dec_pad(n as nat, 2))
    } else if k == "title"@ {
        Some("Track "@ + dec_pad(n as nat, 2))
    } else {
        None
    }
}

/// The track tags that name a track's file: its number, and its title and
/// artist when not blank.
pub open spec fn track_tag(number: u8, title: Option<Seq<char>>, performer: Option<Seq<char>>, k: Seq<char>) -> Option<Seq<char>> {
    if k == "track"@ {
        Some(dec(number as nat))
    } else if k == "title"@ {
        nonblank(title)
    } else if k == "artist"@ {
        nonblank(performer)
    } else {
        None
    }
}

pub open spec fn release_track(rel: Option<MusicBrainzReleaseMeta>, number: u8) -> Option<MusicBrainzTrackMeta> {
    match rel {
        Some(r) => {
            let j: int = if number == 0 { 0 } else { number - 1 };
            if j < r.tracks@.len() {
                Some(r.tracks@[j])
            } else {
                None
            }
        },
        None => None,
    }
}

/// A value given by the user, when not blank, in place of `dflt`.
pub open spec fn user_text(
    ff: Option<spec_fn(Seq<char>) -> Option<Seq<char>>>,
    key: Seq<char>,
    dflt: Option<Seq<char>>,
) -> Option<Seq<char>> {
    match ff {
        Some(f) => if nonblank(f(key)) is Some {
            f(key)
        } else {
            dflt
        },
        None => dflt,
    }
}

pub open spec fn user_flag(ff: Option<spec_fn(Seq<char>) -> Option<Seq<char>>>, a: Seq<char>, b: Seq<char>) -> bool {
    match ff {
        Some(f) => unwrap_or(or_else(bool_field(f, a), bool_field(f, b)), false),
        None => false,
    }
}

/// The track title of track `i`: the user's, else the release's.
pub open spec fn runtime_title(s: CueRuntimeSettings, toc: Seq<InfoTocEntry>, i: int, rel: Option<MusicBrainzReleaseMeta>) -> Option<Seq<char>> {
    let e = toc[i];
    let ff = user_fields(strings_view(s.track_metadata@), e.number as u32);
    user_text(ff, "title"@, match release_track(rel, e.number) {
        Some(x) => Some(x.title@),
        None => None,
    })
}

/// The performer of track `i`: the user's artist, else the release's.
pub open spec fn runtime_performer(s: CueRuntimeSettings, toc: Seq<InfoTocEntry>, i: int, rel: Option<MusicBrainzReleaseMeta>) -> Option<Seq<char>> {
    let e = toc[i];
    let ff = user_fields(strings_view(s.track_metadata@), e.number as u32);
    user_text(ff, "artist"@, match release_track(rel, e.number) {
        Some(x) => ostr(x.artist),
        None => None,
    })
}

/// The file of track `i` relative to the output root: named by the
/// schemes, or `NN - title.ext` when they cannot be rendered.
pub open spec fn runtime_file_path(
    s: CueRuntimeSettings,
    toc: Seq<InfoTocEntry>,
    i: int,
    rel: Option<MusicBrainzReleaseMeta>,
    album: TagMap,
    tm: TagMap,
) -> Seq<char> {
    let e = toc[i];
    let d = sheet_descriptor(s.outputs@);
    let ctx = NamingContext { sanitize_method: s.sanitize_method, nb_tracks: toc.len() as usize };
    match scheme_path(ctx, album, tm, s.folder_name_scheme@, s.track_name_scheme@, d.0, d.1) {
        Ok(p) => p,
        Err(_) => dec_pad(e.number as nat, 2) + " - "@ + match runtime_title(s, toc, i, rel) {
            Some(t) => t,
            None => "Track "@ + dec_pad(e.number as nat, 2),
        } + "."@ + d.1,
    }
}

/// The CUE track of disc track `i`.
pub open spec fn runtime_track_matches(
    s: CueRuntimeSettings,
    toc: Seq<InfoTocEntry>,
    i: int,
    rel: Option<MusicBrainzReleaseMeta>,
    album: TagMap,
    cue_rel: Seq<char>,
    t: CueTrack,
) -> bool {
    let e = toc[i];
    let ff = user_fields(strings_view(s.track_metadata@), e.number as u32);
    let start = lsn_floor(e.start_lsn);
    let base = toc_pregap(toc, i, s.pregap_action@);
    let pg = match ff {
        Some(f) => user_pregap(f, start, base),
        None => base,
    };
    let dflt_type = if e.track_is_data {
        CueFileType::Binary
    } else {
        CueFileType::Wave
    };
    &&& t.number == e.number as u32
    &&& t.index == e.number as u32
    &&& t.is_data == e.track_is_data
    &&& t.preemphasis == user_flag(ff, "flags_pre"@, "preemphasis"@)
    &&& ostr(t.title) == runtime_title(s, toc, i, rel)
    &&& ostr(t.performer) == runtime_performer(s, toc, i, rel)
    &&& ostr(t.songwriter) == match ff {
        Some(f) => directive_text(f, "songwriter"@),
        None => None,
    }
    &&& ostr(t.composer) == match ff {
        Some(f) => directive_text(f, "composer"@),
        None => None,
    }
    &&& ostr(t.arranger) == match ff {
        Some(f) => directive_text(f, "arranger"@),
        None => None,
    }
    &&& ostr(t.isrc) == match ff {
        Some(f) => nonblank(f("isrc"@)),
        None => None,
    }
    &&& t.start_lsn == start
    &&& t.pregap_lsn == pg.0
    &&& t.start_lsn_sig == pg.1
    &&& t.dropped_pregap_start == pg.2
    &&& t.merged_pregap_end == pg.3
    &&& t.previous_start_lsn_sig == pg.4
    &&& t.postgap_frames == match ff {
        Some(f) => or_else(u32_field(f, "postgap"@), u32_field(f, "postgap_frames"@)),
        None => None,
    }
    &&& t.flag_dcp == user_flag(ff, "flag_dcp"@, "dcp"@)
    &&& t.flag_4ch == user_flag(ff, "flag_4ch"@, "4ch"@)
    &&& t.flag_scms == user_flag(ff, "flag_scms"@, "scms"@)
    &&& t.file_type == match ff {
        Some(f) => unwrap_or(named_file_type(f), dflt_type),
        None => dflt_type,
    }
    &&& ostr(t.cue_path) == Some(cue_rel)
    &&& exists|tm: TagMap|
        {
            &&& keys_sorted(tm.pairs())
            &&& forall|k: Seq<char>| #[trigger] tm.get_spec(k) == track_tag(
                e.number,
                runtime_title(s, toc, i, rel),
                runtime_performer(s, toc, i, rel),
                k,
            )
            &&& t.file_path@ == runtime_file_path(s, toc, i, rel, album, tm)
        }
}

fn copy_string_opt(o: &Option<String>) -> (r: Option<String>)
    ensures
        ostr(r) == ostr(*o),
{
    match o {
        Some(v) => Some(crate::text::copy_str(v.as_str())),
        None => None,
    }
}

fn nonblank_copy(o: Option<&String>) -> (r: Option<String>)
    ensures
        ostr(r) == nonblank(match o {
            Some(v) => Some(v@),
            None => None,
        }),
{
    match o {
        Some(v) => if is_blank(v.as_str()) {
            None
        } else {
            Some(crate::text::copy_str(v.as_str()))
        },
        None => None,
    }
}

/// The tags that name a track's file.
fn track_naming_tags(number: u8, title: &Option<String>, performer: &Option<String>) -> (r: TagMap)
    ensures
        keys_sorted(r.pairs()),
        forall|k: Seq<char>| #[trigger] r.get_spec(k) == track_tag(number, ostr(*title), ostr(*performer), k),
{
    let mut tm = TagMap::new();
    let ghost m0 = tm;
    let mut num = String::new();
    push_dec(&mut num, number as u64);
    tm.insert(String::from_str("track"), num);
    let ghost m1 = tm;
    if let Some(t) = title {
        if !is_blank(t.as_str()) {
            tm.insert(String::from_str("title"), crate::text::copy_str(t.as_str()));
        }
    }
    let ghost m2 = tm;
    if let Some(a) = performer {
        if !is_blank(a.as_str()) {
            tm.insert(String::from_str("artist"), crate::text::copy_str(a.as_str()));
        }
    }
    proof {
        reveal_strlit("track");
        reveal_strlit("title");
        reveal_strlit("artist");
    }
    assert forall|k: Seq<char>| #[trigger] tm.get_spec(k) == track_tag(number, ostr(*title), ostr(*performer), k) by {
        reveal_strlit("track");
        reveal_strlit("title");
        reveal_strlit("artist");
        assert("track"@.len() == 5 && "title"@.len() == 5 && "artist"@.len() == 6);
        assert("track"@[1] == 'r' && "title"@[1] == 'i');
        assert("track"@ != "title"@ && "track"@ != "artist"@ && "title"@ != "artist"@);
        let a = m1.get_spec(k);
        let b = m2.get_spec(k);
        assert(m0.pairs().len() == 0);
        assert(m0.get_spec(k) is None);
    }
    tm
}

pub open spec fn rel_view(release: Option<&MusicBrainzReleaseMeta>) -> Option<MusicBrainzReleaseMeta> {
    match release {
        Some(x) => Some(*x),
        None => None,
    }
}

fn opt_bool_or(a: Option<bool>, b: Option<bool>) -> (r: bool)
    ensures
        r == unwrap_or(or_else(a, b), false),
{
    match a {
        Some(v) => v,
        None => match b {
            Some(v) => v,
            None => false,
        },
    }
}

#[verifier::spinoff_prover]
#[verifier::rlimit(60)]
fn runtime_cue_track(
    s: &CueRuntimeSettings,
    toc: &[InfoTocEntry],
    i: usize,
    release: Option<&MusicBrainzReleaseMeta>,
    album: &TagMap,
    ctx: &NamingContext,
    suffix: &str,
    ext: &str,
    cue_rel: &String,
) -> (t: CueTrack)
    requires
        i < toc@.len(),
        *ctx == (NamingContext { sanitize_method: s.sanitize_method, nb_tracks: toc@.len() as usize }),
        (suffix@, ext@) == sheet_descriptor(s.outputs@),
    ensures
        runtime_track_matches(*s, toc@, i as int, rel_view(release), *album, cue_rel@, t),
{
    let e = toc[i];
    let ghost es = strings_view(s.track_metadata@);
    let fields = find_track_entry(&s.track_metadata, e.number as u32);
    let ghost ff = user_fields(es, e.number as u32);
    let rt: Option<&MusicBrainzTrackMeta> = match release {
        Some(r) => {
            let j: usize = if e.number == 0 { 0 } else { (e.number - 1) as usize };
            if j < r.tracks.len() {
                Some(&r.tracks[j])
            } else {
                None
            }
        },
        None => None,
    };
    let title0: Option<String> = match rt {
        Some(x) => Some(crate::text::copy_str(x.title.as_str())),
        None => None,
    };
    let perf0: Option<String> = match rt {
        Some(x) => copy_string_opt(&x.artist),
        None => None,
    };
    let start: u32 = if e.start_lsn < 0 { 0 } else { e.start_lsn as u32 };
    let base = toc_pregap_fields(toc, i, &s.pregap_action);
    let dflt_type = if e.track_is_data {
        CueFileType::Binary
    } else {
        CueFileType::Wave
    };
    let mut title = title0;
    let mut performer = perf0;
    let mut preemphasis = false;
    let mut songwriter: Option<String> = None;
    let mut composer: Option<String> = None;
    let mut arranger: Option<String> = None;
    let mut isrc: Option<String> = None;
    let mut pg = base;
    let mut postgap_frames: Option<u32> = None;
    let mut flag_dcp = false;
    let mut flag_4ch = false;
    let mut flag_scms = false;
    let mut file_type = dflt_type;
    match &fields {
        Some(f) => {
            let ghost fv = |k: Seq<char>| f.get_spec(k);
            assert(ff == Some(fv));
            let t_over = nonblank_copy(f.get("title"));
            if t_over.is_some() {
                title = t_over;
            }
            let a_over = nonblank_copy(f.get("artist"));
            if a_over.is_some() {
                performer = a_over;
            }
            preemphasis = opt_bool_or(parse_bool_field(f, "flags_pre"), parse_bool_field(f, "preemphasis"));
            songwriter = track_directive_text(f, "songwriter");
            composer = track_directive_text(f, "composer");
            arranger = track_directive_text(f, "arranger");
            isrc = nonblank_copy(f.get("isrc"));
            pg = user_pregap_fields(f, start, base);
            postgap_frames = opt_or_u32(parse_u32_field(f, "postgap"), parse_u32_field(f, "postgap_frames"));
            flag_dcp = opt_bool_or(parse_bool_field(f, "flag_dcp"), parse_bool_field(f, "dcp"));
            flag_4ch = opt_bool_or(parse_bool_field(f, "flag_4ch"), parse_bool_field(f, "4ch"));
            flag_scms = opt_bool_or(parse_bool_field(f, "flag_scms"), parse_bool_field(f, "scms"));
            file_type = match cue_file_type_from_field(f) {
                Some(ft) => ft,
                None => dflt_type,
            };
        },
        None => {},
    }
    assert(ostr(title) == runtime_title(*s, toc@, i as int, rel_view(release)));
    assert(ostr(performer) == runtime_performer(*s, toc@, i as int, rel_view(release)));
    let tm = track_naming_tags(e.number, &title, &performer);
    let file_path = match build_track_relative_path(
        ctx,
        album,
        &tm,
        s.folder_name_scheme.as_str(),
        s.track_name_scheme.as_str(),
        suffix,
        ext,
    ) {
        Ok(p) => p,
        Err(_) => {
            let mut out = String::new();
            push_dec_pad(&mut out, e.number as u64, 2);
            out.append(" - ");
            let ghost h = out@;
            match &title {
                Some(t) => out.append(t.as_str()),
                None => {
                    out.append("Track ");
                    push_dec_pad(&mut out, e.number as u64, 2);
                },
            }
            let ghost h2 = out@;
            out.append(".");
            out.append(ext);
            assert(out@ =~= dec_pad(e.number as nat, 2) + " - "@ + match ostr(title) {
                Some(t) => t,
                None => "Track "@ + dec_pad(e.number as nat, 2),
            } + "."@ + ext@);
            out
        },
    };
    let t = CueTrack {
        number: e.number as u32,
        index: e.number as u32,
        is_data: e.track_is_data,
        preemphasis,
        file_path,
        cue_path: Some(crate::text::copy_str(cue_rel.as_str())),
        file_type,
        title,
        performer,
        songwriter,
        composer,
        arranger,
        isrc,
        pregap_lsn: pg.0,
        start_lsn: start,
        start_lsn_sig: pg.1,
        dropped_pregap_start: pg.2,
        merged_pregap_end: pg.3,
        previous_start_lsn_sig: pg.4,
        postgap_frames,
        flag_dcp,
        flag_4ch,
        flag_scms,
    };
    assert(t.file_path@ == runtime_file_path(*s, toc@, i as int, rel_view(release), *album, tm));
    t
}

/// Where the sheet goes: the cue scheme's path, or `disc.cue` when it
/// cannot be rendered.
pub open spec fn runtime_cue_path(s: CueRuntimeSettings, toc_len: nat, album: TagMap) -> Seq<char> {
    let d = sheet_descriptor(s.outputs@);
    let ctx = NamingContext { sanitize_method: s.sanitize_method, nb_tracks: toc_len as usize };
    match scheme_path(ctx, album, album, s.folder_name_scheme@, s.cue_name_scheme@, d.0, "cue"@) {
        Ok(p) => p,
        Err(_) => "disc.cue"@,
    }
}

/// The CUE tracks of a ripped disc, one per entry of its table of
/// contents, all pointing at the sheet's own path.
pub fn cue_tracks_from_runtime(
    settings: &CueRuntimeSettings,
    toc: &[InfoTocEntry],
    release: Option<&MusicBrainzReleaseMeta>,
) -> (r: Vec<CueTrack>)
    ensures
        r@.len() == toc@.len(),
        exists|album: TagMap|
            {
                &&& keys_sorted(album.pairs())
                &&& forall|k: Seq<char>| #[trigger] album.get_spec(k) == runtime_album_value(
                    match settings.album_metadata {
                        Some(a) => Some(a@),
                        None => None,
                    },
                    rel_view(release),
                    k,
                )
                &&& forall|i: int| 0 <= i < toc@.len() ==> runtime_track_matches(
                    *settings,
                    toc@,
                    i,
                    rel_view(release),
                    album,
                    runtime_cue_path(*settings, toc@.len(), album),
                    #[trigger] r@[i],
                )
            },
{
    let (suffix, ext): (&str, &str) = if settings.outputs.len() > 0 {
        match output_format_descriptor(settings.outputs[0]) {
            Some(d) => d,
            None => ("FLAC", "flac"),
        }
    } else {
        ("FLAC", "flac")
    };
    let am: Option<&str> = match &settings.album_metadata {
        Some(a) => Some(a.as_str()),
        None => None,
    };
    let album = runtime_album_meta(am, release);
    let ctx = NamingContext { sanitize_method: settings.sanitize_method, nb_tracks: toc.len() };
    let cue_rel = match build_cue_relative_path(
        &ctx,
        &album,
        settings.folder_name_scheme.as_str(),
        settings.cue_name_scheme.as_str(),
        suffix,
    ) {
        Ok(p) => p,
        Err(_) => String::from_str("disc.cue"),
    };
    assert(cue_rel@ == runtime_cue_path(*settings, toc@.len(), album));
    let mut out: Vec<CueTrack> = Vec::new();
    let mut i: usize = 0;
    while i < toc.len()
        invariant
            i <= toc@.len(),
            out@.len() == i,
            ctx == (NamingContext { sanitize_method: settings.sanitize_method, nb_tracks: toc@.len() as usize }),
            (suffix@, ext@) == sheet_descriptor(settings.outputs@),
            cue_rel@ == runtime_cue_path(*settings, toc@.len(), album),
            forall|j: int| 0 <= j < i ==> runtime_track_matches(
                *settings,
                toc@,
                j,
                rel_view(release),
                album,
                runtime_cue_path(*settings, toc@.len(), album),
                #[trigger] out@[j],
            ),
        decreases toc.len() - i,
    {
        let t = runtime_cue_track(settings, toc, i, release, &album, &ctx, suffix, ext, &cue_rel);
        out.push(t);
        i += 1;
    }
    out
}


// ---------------------------------------------------------------------------
// The sheet of the written files
// ---------------------------------------------------------------------------

/// The album tags with a value that is not blank.
pub open spec fn nonblank_pairs(ps: Seq<(Seq<char>, Seq<char>)>) -> Seq<(Seq<char>, Seq<char>)>
    decreases ps.len(),
{
    if ps.len() == 0 {
        Seq::empty()
    } else if trim(ps.last().1).len() > 0 {
        nonblank_pairs(ps.drop_last()).push(ps.last())
    } else {
        nonblank_pairs(ps.drop_last())
    }
}

/// The tags of the sheet: the album tags whose value is not blank.
pub fn cue_doc_meta_from_album_meta(album_meta: &TagMap) -> (r: TagMap)
    ensures
        forall|k: Seq<char>| #[trigger] r.get_spec(k) == crate::tags::lookup_last(
            nonblank_pairs(album_meta.pairs()),
            k,
        ),
{
    let ghost ps = album_meta.pairs();
    let mut out = TagMap::new();
    let mut i: usize = 0;
    assert(ps.take(0) == Seq::<(Seq<char>, Seq<char>)>::empty());
    assert forall|k: Seq<char>| #[trigger] out.get_spec(k) == crate::tags::lookup_last(
        nonblank_pairs(ps.take(0)),
        k,
    ) by {}
    while i < album_meta.len()
        invariant
            i <= ps.len(),
            ps == album_meta.pairs(),
            forall|k: Seq<char>| #[trigger] out.get_spec(k) == crate::tags::lookup_last(
                nonblank_pairs(ps.take(i as int)),
                k,
            ),
        decreases ps.len() - i,
    {
        assert(ps.take(i + 1).drop_last() == ps.take(i as int));
        assert(ps.take(i + 1).last() == ps[i as int]);
        let value = album_meta.value_at(i);
        let vc = chars_of(value.as_str());
        let (a, b) = trim_bounds_pub(vc.as_slice(), 0, vc.len());
        assert(vc@.subrange(0, vc@.len() as int) == vc@);
        let ghost prev = nonblank_pairs(ps.take(i as int));
        if a < b {
            let key = crate::text::copy_str(album_meta.key_at(i).as_str());
            out.insert(key, crate::text::copy_str(value.as_str()));
            assert(nonblank_pairs(ps.take(i + 1)) == prev.push(ps[i as int]));
            assert(prev.push(ps[i as int]).drop_last() == prev);
        } else {
            assert(nonblank_pairs(ps.take(i + 1)) == prev);
        }
        i += 1;
    }
    assert(ps.take(ps.len() as int) == ps);
    out
}

/// The sheet entry of a written track file: numbered as the track, its
/// title and artist from the track's tags, a WAVE file at `relative_path`
/// as seen from the sheet at `cue_relative_path`.
pub fn cue_track_from_written_file(
    track_number: u32,
    relative_path: &str,
    cue_relative_path: &str,
    track_meta: &TagMap,
) -> (r: CueTrack)
    ensures
        r.number == track_number,
        r.index == track_number,
        !r.is_data,
        r.preemphasis == crate::track_meta::has_preemphasis(|k: Seq<char>| track_meta.get_spec(k)),
        r.file_path@ == relative_path@,
        ostr(r.cue_path) == Some(cue_relative_path@),
        r.file_type == CueFileType::Wave,
        ostr(r.title) == track_meta.get_spec("title"@),
        ostr(r.performer) == track_meta.get_spec("artist"@),
        r.songwriter is None && r.composer is None && r.arranger is None && r.isrc is None,
        r.pregap_lsn is None,
        r.start_lsn == 0,
        r.start_lsn_sig == 0,
        r.dropped_pregap_start is None && r.merged_pregap_end is None,
        r.previous_start_lsn_sig is None && r.postgap_frames is None,
        !r.flag_dcp && !r.flag_4ch && !r.flag_scms,
{
    let title = crate::track_meta::copy_opt(track_meta.get("title"));
    let performer = crate::track_meta::copy_opt(track_meta.get("artist"));
    CueTrack {
        number: track_number,
        index: track_number,
        is_data: false,
        preemphasis: crate::track_meta::track_has_preemphasis(track_meta),
        file_path: crate::text::copy_str(relative_path),
        cue_path: Some(crate::text::copy_str(cue_relative_path)),
        file_type: CueFileType::Wave,
        title,
        performer,
        songwriter: None,
        composer: None,
        arranger: None,
        isrc: None,
        pregap_lsn: None,
        start_lsn: 0,
        start_lsn_sig: 0,
        dropped_pregap_start: None,
        merged_pregap_end: None,
        previous_start_lsn_sig: None,
        postgap_frames: None,
        flag_dcp: false,
        flag_4ch: false,
        flag_scms: false,
    }
}


// ---------------------------------------------------------------------------
// The disc tags of a sheet made without ripping
// ---------------------------------------------------------------------------

/// The text a tag value that is not blank gives.
pub open spec fn nonblank_of(o: Option<String>) -> Option<Seq<char>> {
    nonblank(ostr(o))
}

/// The disc tags of a CUE sheet made from the disc: its identifiers, the
/// media and the writer's comment, the release's tags (blank ones left out),
/// and the user's album, album artist and date over the release's.
pub open spec fn cue_runtime_value(
    raw: Option<Seq<char>>,
    decode_hdcd: bool,
    discid: Option<DiscidInfo>,
    release: Option<MusicBrainzReleaseMeta>,
    k: Seq<char>,
) -> Option<Seq<char>> {
    let user = album_meta_value(raw, k);
    if (k == "album"@ || k == "album_artist"@ || k == "date"@) && user is Some {
        user
    } else if k == "musicbrainz_discid"@ {
        match discid {
            Some(d) => Some(d.musicbrainz_discid@),
            None => None,
        }
    } else if k == "cddb"@ {
        match discid {
            Some(d) => Some(d.cddb@),
            None => None,
        }
    } else if k == "media"@ {
        Some(if decode_hdcd { "HDCD"@ } else { "CD"@ })
    } else if k == "comment"@ {
        Some("cyanrip 0.9.4-rc2"@)
    } else {
        match release {
            None => None,
            Some(r) => if k == "album"@ {
                Some(r.album@)
            } else if k == "album_artist"@ {
                nonblank_of(r.album_artist)
            } else if k == "date"@ {
                nonblank_of(r.date)
            } else if k == "musicbrainz_albumid"@ {
                Some(r.musicbrainz_albumid@)
            } else if k == "barcode"@ {
                nonblank_of(r.barcode)
            } else if k == "releasestatus"@ {
                nonblank_of(r.releasestatus)
            } else if k == "catalognumber"@ {
                nonblank_of(r.catalognumber)
            } else if k == "label"@ {
                nonblank_of(r.label)
            } else if k == "totaldiscs"@ {
                Some(dec_int(r.totaldiscs as int))
            } else if k == "disc"@ {
                match r.discnumber {
                    Some(d) => Some(dec_int(d as int)),
                    None => None,
                }
            } else if k == "format"@ {
                nonblank_of(r.format)
            } else {
                None
            },
        }
    }
}

/// The tags a release adds to the sheet beyond album, album artist and date.
pub open spec fn release_sheet_key(k: Seq<char>) -> bool {
    k == "musicbrainz_albumid"@ || k == "barcode"@ || k == "releasestatus"@ || k == "catalognumber"@
        || k == "label"@ || k == "totaldiscs"@ || k == "disc"@ || k == "format"@
}

/// The tags the disc itself gives the sheet.
pub open spec fn disc_sheet_key(k: Seq<char>) -> bool {
    k == "musicbrainz_discid"@ || k == "cddb"@ || k == "media"@ || k == "comment"@
}

pub open spec fn user_sheet_key(k: Seq<char>) -> bool {
    k == "album"@ || k == "album_artist"@ || k == "date"@
}

proof fn lemma_sheet_keys_distinct(k: Seq<char>)
    ensures
        user_sheet_key(k) ==> !release_sheet_key(k) && !disc_sheet_key(k),
        disc_sheet_key(k) ==> !release_sheet_key(k),
        k == "musicbrainz_discid"@ ==> k != "cddb"@ && k != "media"@ && k != "comment"@,
        k == "cddb"@ ==> k != "media"@ && k != "comment"@,
        k == "media"@ ==> k != "comment"@,
        k == "album"@ ==> k != "album_artist"@ && k != "date"@,
        k == "album_artist"@ ==> k != "date"@,
        k == "releasestatus"@ ==> k != "catalognumber"@,
        release_sheet_key(k) ==> (k == "musicbrainz_albumid"@ <==> k.len() == 19) && (k
            == "barcode"@ <==> k.len() == 7) && (k == "label"@ <==> k.len() == 5) && (k
            == "totaldiscs"@ <==> k.len() == 10) && (k == "disc"@ <==> k.len() == 4) && (k
            == "format"@ <==> k.len() == 6),
{
    reveal_strlit("album");
    reveal_strlit("album_artist");
    reveal_strlit("date");
    reveal_strlit("musicbrainz_discid");
    reveal_strlit("cddb");
    reveal_strlit("media");
    reveal_strlit("comment");
    reveal_strlit("musicbrainz_albumid");
    reveal_strlit("barcode");
    reveal_strlit("releasestatus");
    reveal_strlit("catalognumber");
    reveal_strlit("label");
    reveal_strlit("totaldiscs");
    reveal_strlit("disc");
    reveal_strlit("format");
    if k.len() > 0 {
        let c = k[0];
        if k.len() > 3 {
            let d = k[3];
        }
    }
}

/// Stores `value` under `key` when there is one.
fn set_opt(m: &mut TagMap, key: &str, v: Option<String>)
    ensures
        forall|k: Seq<char>| #[trigger] final(m).get_spec(k) == if k == key@ && v is Some {
            ostr(v)
        } else {
            old(m).get_spec(k)
        },
{
    match v {
        Some(x) => m.insert(crate::text::copy_str(key), x),
        None => {},
    }
}

/// The text of a tag value that is not blank.
fn nonblank_text(o: &Option<String>) -> (r: Option<String>)
    ensures
        ostr(r) == nonblank_of(*o),
{
    match o {
        Some(v) => if is_blank(v.as_str()) {
            None
        } else {
            Some(crate::text::copy_str(v.as_str()))
        },
        None => None,
    }
}

fn dec_string(n: i64) -> (r: String)
    ensures
        r@ == dec_int(n as int),
{
    let mut s = String::new();
    crate::text::push_dec_i64(&mut s, n);
    s
}

/// The disc tags of a CUE sheet made without ripping (see `cue_runtime_value`).
#[verifier::spinoff_prover]
#[verifier::rlimit(100)]
pub fn cue_meta_from_runtime(
    settings: &crate::Settings,
    discid: Option<&DiscidInfo>,
    release: Option<&MusicBrainzReleaseMeta>,
) -> (r: TagMap)
    ensures
        forall|k: Seq<char>| #[trigger] r.get_spec(k) == cue_runtime_value(
            ostr(settings.album_metadata),
            settings.decode_hdcd,
            match discid {
                Some(d) => Some(*d),
                None => None,
            },
            match release {
                Some(x) => Some(*x),
                None => None,
            },
            k,
        ),
{
    let raw: Option<&str> = match &settings.album_metadata {
        Some(s) => Some(s.as_str()),
        None => None,
    };
    let user = parse_album_metadata_map(raw);
    assert(opt_str(raw) == ostr(settings.album_metadata));
    let ghost rel = match release {
        Some(x) => Some(*x),
        None => None,
    };
    let ghost did = match discid {
        Some(d) => Some(*d),
        None => None,
    };
    let ghost raw_v = ostr(settings.album_metadata);
    let hdcd = settings.decode_hdcd;
    let mut m = TagMap::new();
    assert forall|k: Seq<char>| #[trigger] m.get_spec(k) == None::<Seq<char>> by {}
    let (id, cddb) = match discid {
        Some(d) => (Some(crate::text::copy_str(d.musicbrainz_discid.as_str())), Some(crate::text::copy_str(d.cddb.as_str()))),
        None => (None, None),
    };
    set_opt(&mut m, "musicbrainz_discid", id);
    set_opt(&mut m, "cddb", cddb);
    assert(ostr(id) == match did {
        Some(d) => Some(d.musicbrainz_discid@),
        None => None::<Seq<char>>,
    });
    assert(ostr(cddb) == match did {
        Some(d) => Some(d.cddb@),
        None => None::<Seq<char>>,
    });
    let media = if settings.decode_hdcd {
        String::from_str("HDCD")
    } else {
        String::from_str("CD")
    };
    assert(media@ == if hdcd { "HDCD"@ } else { "CD"@ });
    set_opt(&mut m, "media", Some(media));
    let comment = String::from_str("cyanrip 0.9.4-rc2");
    set_opt(&mut m, "comment", Some(comment));
    let ghost m1 = m;
    proof {
        assert forall|k: Seq<char>| #[trigger] disc_sheet_key(k) || m1.get_spec(k) is None by {}
        assert forall|k: Seq<char>| disc_sheet_key(k) implies #[trigger] m1.get_spec(k)
            == cue_runtime_value(raw_v, hdcd, did, rel, k) by {
            lemma_sheet_keys_distinct(k);
            assert(!user_sheet_key(k));
        }
    }
    let album = match user.get("album") {
        Some(v) => Some(crate::text::copy_str(v.as_str())),
        None => match release {
            Some(r) => Some(crate::text::copy_str(r.album.as_str())),
            None => None,
        },
    };
    let album_artist = match user.get("album_artist") {
        Some(v) => Some(crate::text::copy_str(v.as_str())),
        None => match release {
            Some(r) => nonblank_text(&r.album_artist),
            None => None,
        },
    };
    let date = match user.get("date") {
        Some(v) => Some(crate::text::copy_str(v.as_str())),
        None => match release {
            Some(r) => nonblank_text(&r.date),
            None => None,
        },
    };
    assert(user.get_spec("album"@) == album_meta_value(raw_v, "album"@));
    assert(user.get_spec("album_artist"@) == album_meta_value(raw_v, "album_artist"@));
    assert(user.get_spec("date"@) == album_meta_value(raw_v, "date"@));
    assert(ostr(album) == match album_meta_value(raw_v, "album"@) {
        Some(v) => Some(v),
        None => match rel {
            Some(r) => Some(r.album@),
            None => None,
        },
    });
    assert(ostr(album_artist) == match album_meta_value(raw_v, "album_artist"@) {
        Some(v) => Some(v),
        None => match rel {
            Some(r) => nonblank_of(r.album_artist),
            None => None,
        },
    });
    assert(ostr(date) == match album_meta_value(raw_v, "date"@) {
        Some(v) => Some(v),
        None => match rel {
            Some(r) => nonblank_of(r.date),
            None => None,
        },
    });
    set_opt(&mut m, "album", album);
    set_opt(&mut m, "album_artist", album_artist);
    set_opt(&mut m, "date", date);
    let ghost m2 = m;
    proof {
        assert forall|k: Seq<char>| !user_sheet_key(k) implies #[trigger] m2.get_spec(k) == m1.get_spec(k) by {}
        assert forall|k: Seq<char>| user_sheet_key(k) implies #[trigger] m2.get_spec(k)
            == cue_runtime_value(raw_v, hdcd, did, rel, k) by {
            lemma_sheet_keys_distinct(k);
            assert(!disc_sheet_key(k));
        }
    }
    match release {
        Some(r) => {
            let id = crate::text::copy_str(r.musicbrainz_albumid.as_str());
            set_opt(&mut m, "musicbrainz_albumid", Some(id));
            let v = nonblank_text(&r.barcode);
            set_opt(&mut m, "barcode", v);
            let v = nonblank_text(&r.releasestatus);
            set_opt(&mut m, "releasestatus", v);
            let v = nonblank_text(&r.catalognumber);
            set_opt(&mut m, "catalognumber", v);
            let v = nonblank_text(&r.label);
            set_opt(&mut m, "label", v);
            let t = dec_string(r.totaldiscs as i64);
            set_opt(&mut m, "totaldiscs", Some(t));
            let d = match r.discnumber {
                Some(d) => Some(dec_string(d as i64)),
                None => None,
            };
            set_opt(&mut m, "disc", d);
            let v = nonblank_text(&r.format);
            set_opt(&mut m, "format", v);
            proof {
                assert forall|k: Seq<char>| !release_sheet_key(k) implies #[trigger] m.get_spec(k)
                    == m2.get_spec(k) by {}
                assert(rel == Some(*r));
                assert forall|k: Seq<char>| release_sheet_key(k) implies #[trigger] m.get_spec(k)
                    == cue_runtime_value(raw_v, hdcd, did, rel, k) by {
                    lemma_sheet_keys_distinct(k);
                    assert(!user_sheet_key(k) && !disc_sheet_key(k));
                    reveal_strlit("musicbrainz_albumid");
                    reveal_strlit("barcode");
                    reveal_strlit("releasestatus");
                    reveal_strlit("catalognumber");
                    reveal_strlit("label");
                    reveal_strlit("totaldiscs");
                    reveal_strlit("disc");
                    reveal_strlit("format");
                    if k == "musicbrainz_albumid"@ {
                    } else if k == "barcode"@ {
                    } else if k == "releasestatus"@ {
                    } else if k == "catalognumber"@ {
                    } else if k == "label"@ {
                    } else if k == "totaldiscs"@ {
                    } else if k == "disc"@ {
                    } else {
                        assert(k == "format"@);
                    }
                }
            }
        },
        None => {},
    }
    proof {
        assert forall|k: Seq<char>| #[trigger] m.get_spec(k) == cue_runtime_value(raw_v, hdcd, did, rel, k) by {
            lemma_sheet_keys_distinct(k);
            if release_sheet_key(k) {
                if rel is None {
                    assert(m.get_spec(k) == m2.get_spec(k));
                    assert(m2.get_spec(k) == m1.get_spec(k));
                }
            } else if user_sheet_key(k) {
                assert(m.get_spec(k) == m2.get_spec(k));
            } else if disc_sheet_key(k) {
                assert(m.get_spec(k) == m2.get_spec(k));
                assert(m2.get_spec(k) == m1.get_spec(k));
            } else {
                assert(m.get_spec(k) == m2.get_spec(k));
                assert(m2.get_spec(k) == m1.get_spec(k));
                assert(m1.get_spec(k) is None);
            }
        }
    }
    m
}
} // verus!
