//! Album and track metadata given by the user: `key=value` pairs separated
//! by `:`, and the typed fields read from them.
use vstd::prelude::*;

use crate::cue::{cue_header, render_cue, track_times_valid, tracks_text, CueDoc, CueFileType, CueTrack};
use crate::lemma_find_char_from_bounds;
use crate::workflow::{ascii_lower, lower_ascii};
use crate::naming::{slice_chars, trim, trim_bounds_pub};
use crate::tags::{keys_sorted, lookup, TagMap};
use crate::text::{strings_view, dec_pad, push_dec_pad, ostr, chars_eq, chars_of, find_char, find_char_from, find_char_in, parse_u32, parse_u32_chars, string_of};

verus! {

// ---------------------------------------------------------------------------
// `k=v:k=v` lists
// ---------------------------------------------------------------------------

/// Where the `:`-separated piece that starts at `from` ends.
pub open spec fn piece_end(s: Seq<char>, from: int) -> int {
    match find_char_from(s, ':', from) {
        Some(i) => i,
        None => s.len() as int,
    }
}

/// The key and value of one piece: both sides of its first `=`, trimmed,
/// when neither is empty.
pub open spec fn kv_of(piece: Seq<char>) -> Option<(Seq<char>, Seq<char>)> {
    let p = trim(piece);
    match find_char(p, '=') {
        Some(i) => {
            let k = trim(p.subrange(0, i));
            let v = trim(p.subrange(i + 1, p.len() as int));
            if k.len() > 0 && v.len() > 0 {
                Some((k, v))
            } else {
                None
            }
        },
        None => None,
    }
}

/// The value that the pairs of `s` from `from` on give to `key`: that of
/// the last piece naming it.
pub open spec fn pairs_value(s: Seq<char>, from: int, key: Seq<char>) -> Option<Seq<char>>
    decreases s.len() - from,
{
    if from < 0 || from > s.len() {
        None
    } else {
        let end = piece_end(s, from);
        proof {
            lemma_find_char_from_bounds(s, ':', from);
        }
        let later = if end < s.len() {
            pairs_value(s, end + 1, key)
        } else {
            None
        };
        match later {
            Some(v) => Some(v),
            None => match kv_of(s.subrange(from, end)) {
                Some((k, v)) => if k == key {
                    Some(v)
                } else {
                    None
                },
                None => None,
            },
        }
    }
}

fn piece_pair(s: &[char], lo: usize, hi: usize) -> (r: Option<(String, String)>)
    requires
        lo <= hi <= s@.len(),
    ensures
        match kv_of(s@.subrange(lo as int, hi as int)) {
            Some((k, v)) => r matches Some((a, b)) && a@ == k && b@ == v,
            None => r is None,
        },
{
    let piece = slice_chars(s, lo, hi);
    let (a, b) = trim_bounds_pub(piece.as_slice(), 0, piece.len());
    assert(piece@.subrange(0, piece@.len() as int) == piece@);
    let p = slice_chars(piece.as_slice(), a, b);
    assert(p@ == trim(s@.subrange(lo as int, hi as int)));
    match find_char_in(p.as_slice(), '=', 0) {
        None => None,
        Some(i) => {
            proof {
                lemma_find_char_from_bounds(p@, '=', 0);
            }
            let (ka, kb) = trim_bounds_pub(p.as_slice(), 0, i);
            let (va, vb) = trim_bounds_pub(p.as_slice(), i + 1, p.len());
            if ka < kb && va < vb {
                Some((string_of(p.as_slice(), ka, kb), string_of(p.as_slice(), va, vb)))
            } else {
                None
            }
        },
    }
}

/// The pairs of `s` from `from` on, later pieces overriding earlier ones.
pub(crate) fn parse_pairs(s: &[char], from: usize) -> (r: TagMap)
    requires
        from <= s@.len(),
    ensures
        forall|k: Seq<char>| #[trigger] r.get_spec(k) == pairs_value(s@, from as int, k),
        keys_sorted(r.pairs()),
{
    let mut out = TagMap::new();
    let mut pos = from;
    assert forall|k: Seq<char>| #[trigger] out.get_spec(k) is None by {
        assert(out.pairs().len() == 0);
    }
    loop
        invariant
            from <= pos <= s@.len(),
            keys_sorted(out.pairs()),
            forall|k: Seq<char>|
                pairs_value(s@, from as int, k) == match #[trigger] pairs_value(s@, pos as int, k) {
                    Some(v) => Some(v),
                    None => out.get_spec(k),
                },
        decreases s@.len() - pos,
    {
        let end = match find_char_in(s, ':', pos) {
            Some(i) => i,
            None => s.len(),
        };
        proof {
            lemma_find_char_from_bounds(s@, ':', pos as int);
        }
        assert(end == piece_end(s@, pos as int));
        let ghost before = out;
        let pair = piece_pair(s, pos, end);
        match pair {
            Some((k, v)) => {
                out.insert(k, v);
            },
            None => {},
        }
        if end == s.len() {
            assert forall|k: Seq<char>| #[trigger] out.get_spec(k) == pairs_value(s@, from as int, k) by {
                assert(pairs_value(s@, pos as int, k) == match kv_of(s@.subrange(pos as int, end as int)) {
                    Some((k2, v)) => if k2 == k { Some(v) } else { None },
                    None => None,
                });
            }
            return out;
        }
        assert forall|k: Seq<char>|
            pairs_value(s@, from as int, k) == match #[trigger] pairs_value(s@, end + 1, k) {
                Some(v) => Some(v),
                None => out.get_spec(k),
            } by {
            assert(pairs_value(s@, pos as int, k) == match pairs_value(s@, end + 1, k) {
                Some(v) => Some(v),
                None => match kv_of(s@.subrange(pos as int, end as int)) {
                    Some((k2, v)) => if k2 == k { Some(v) } else { None },
                    None => None,
                },
            });
        }
        pos = end + 1;
    }
}

// ---------------------------------------------------------------------------
// Album and track entries
// ---------------------------------------------------------------------------

/// What an album metadata option gives to `key`.
pub open spec fn album_meta_value(raw: Option<Seq<char>>, key: Seq<char>) -> Option<Seq<char>> {
    match raw {
        Some(s) => pairs_value(s, 0, key),
        None => None,
    }
}

pub open spec fn opt_str(o: Option<&str>) -> Option<Seq<char>> {
    match o {
        Some(s) => Some(s@),
        None => None,
    }
}

/// The album metadata option as tags.
pub fn parse_album_metadata_map(raw: Option<&str>) -> (r: TagMap)
    ensures
        forall|k: Seq<char>| #[trigger] r.get_spec(k) == album_meta_value(opt_str(raw), k),
        keys_sorted(r.pairs()),
{
    match raw {
        None => {
            let m = TagMap::new();
            assert forall|k: Seq<char>| #[trigger] m.get_spec(k) == album_meta_value(opt_str(raw), k) by {
                assert(m.pairs().len() == 0);
            }
            m
        },
        Some(text) => {
            let v = chars_of(text);
            parse_pairs(v.as_slice(), 0)
        },
    }
}

/// The track number of a `N=k=v:...` entry: the text before the first `=`,
/// trimmed, as a number above zero.
pub open spec fn track_entry_number(e: Seq<char>) -> Option<u32> {
    match find_char(e, '=') {
        Some(i) => match parse_u32(trim(e.subrange(0, i))) {
            Some(n) => if n == 0 {
                None
            } else {
                Some(n)
            },
            None => None,
        },
        None => None,
    }
}

/// A track metadata entry: its track number and the pairs after the first
/// `=`.
pub fn parse_track_meta_entry(entry: &str) -> (r: Option<(u32, TagMap)>)
    ensures
        match track_entry_number(entry@) {
            None => r is None,
            Some(n) => r matches Some((m, fields)) && m == n && forall|k: Seq<char>| #[trigger]
                fields.get_spec(k) == pairs_value(entry@, find_char(entry@, '=').unwrap() + 1, k),
        },
{
    let e = chars_of(entry);
    let i = match find_char_in(e.as_slice(), '=', 0) {
        Some(i) => i,
        None => {
            return None;
        },
    };
    proof {
        lemma_find_char_from_bounds(e@, '=', 0);
    }
    let n = e.len();
    assert(i < n);
    let rest = i + 1;
    let (a, b) = trim_bounds_pub(e.as_slice(), 0, i);
    let idx_text = slice_chars(e.as_slice(), a, b);
    let idx = match parse_u32_chars(idx_text.as_slice()) {
        Some(n) => n,
        None => {
            return None;
        },
    };
    if idx == 0 {
        return None;
    }
    Some((idx, parse_pairs(e.as_slice(), rest)))
}

// ---------------------------------------------------------------------------
// Typed fields
// ---------------------------------------------------------------------------

/// A yes/no word: `1`, `true`, `yes`, `on` and `0`, `false`, `no`, `off`,
/// after trimming, in any ASCII case.
pub open spec fn boolish(raw: Seq<char>) -> Option<bool> {
    let n = ascii_lower(trim(raw));
    if n == "1"@ || n == "true"@ || n == "yes"@ || n == "on"@ {
        Some(true)
    } else if n == "0"@ || n == "false"@ || n == "no"@ || n == "off"@ {
        Some(false)
    } else {
        None
    }
}

pub(crate) fn is_word(n: &[char], w: &str) -> (r: bool)
    ensures
        r == (n@ == w@),
{
    let wv = chars_of(w);
    chars_eq(n, wv.as_slice())
}

/// `raw`, trimmed and in ASCII lower case.
pub(crate) fn folded_text(raw: &str) -> (r: Vec<char>)
    ensures
        r@ == ascii_lower(trim(raw@)),
{
    let v = chars_of(raw);
    let (a, b) = trim_bounds_pub(v.as_slice(), 0, v.len());
    assert(v@.subrange(0, v@.len() as int) == v@);
    let t = string_of(v.as_slice(), a, b);
    lower_ascii(t.as_str())
}

pub fn parse_boolish(raw: &str) -> (r: Option<bool>)
    ensures
        r == boolish(raw@),
{
    let n = folded_text(raw);
    let s = n.as_slice();
    if is_word(s, "1") || is_word(s, "true") || is_word(s, "yes") || is_word(s, "on") {
        Some(true)
    } else if is_word(s, "0") || is_word(s, "false") || is_word(s, "no") || is_word(s, "off") {
        Some(false)
    } else {
        None
    }
}

/// Whether a track's tags mark it as pre-emphasised.
pub open spec fn has_preemphasis(f: spec_fn(Seq<char>) -> Option<Seq<char>>) -> bool {
    match f("preemphasis"@) {
        Some(v) => boolish(v) == Some(true),
        None => false,
    }
}

pub fn track_has_preemphasis(track_meta: &TagMap) -> (r: bool)
    ensures
        r == has_preemphasis(|k: Seq<char>| track_meta.get_spec(k)),
{
    match track_meta.get("preemphasis") {
        Some(v) => parse_boolish(v.as_str()) == Some(true),
        None => false,
    }
}

/// A numeric field: the trimmed value as a `u32`.
pub open spec fn u32_field(f: spec_fn(Seq<char>) -> Option<Seq<char>>, key: Seq<char>) -> Option<u32> {
    match f(key) {
        Some(v) => parse_u32(trim(v)),
        None => None,
    }
}

/// A yes/no field.
pub open spec fn bool_field(f: spec_fn(Seq<char>) -> Option<Seq<char>>, key: Seq<char>) -> Option<bool> {
    match f(key) {
        Some(v) => boolish(v),
        None => None,
    }
}

pub(crate) fn parse_u32_field(fields: &TagMap, key: &str) -> (r: Option<u32>)
    ensures
        r == u32_field(|k: Seq<char>| fields.get_spec(k), key@),
{
    match fields.get(key) {
        Some(v) => {
            let c = chars_of(v.as_str());
            let (a, b) = trim_bounds_pub(c.as_slice(), 0, c.len());
            assert(c@.subrange(0, c@.len() as int) == c@);
            let t = slice_chars(c.as_slice(), a, b);
            parse_u32_chars(t.as_slice())
        },
        None => None,
    }
}

pub(crate) fn parse_bool_field(fields: &TagMap, key: &str) -> (r: Option<bool>)
    ensures
        r == bool_field(|k: Seq<char>| fields.get_spec(k), key@),
{
    match fields.get(key) {
        Some(v) => parse_boolish(v.as_str()),
        None => None,
    }
}

/// The file type a track names, under `cue_file_type` or else `file_type`.
pub open spec fn named_file_type(f: spec_fn(Seq<char>) -> Option<Seq<char>>) -> Option<CueFileType> {
    let raw = match f("cue_file_type"@) {
        Some(v) => Some(v),
        None => f("file_type"@),
    };
    match raw {
        Some(v) => {
            let n = ascii_lower(trim(v));
            if n == "wave"@ || n == "wav"@ {
                Some(CueFileType::Wave)
            } else if n == "binary"@ || n == "bin"@ {
                Some(CueFileType::Binary)
            } else if n == "mp3"@ {
                Some(CueFileType::Mp3)
            } else {
                None
            }
        },
        None => None,
    }
}

pub fn cue_file_type_from_field(fields: &TagMap) -> (r: Option<CueFileType>)
    ensures
        r == named_file_type(|k: Seq<char>| fields.get_spec(k)),
{
    let raw = match fields.get("cue_file_type") {
        Some(v) => Some(v),
        None => fields.get("file_type"),
    };
    match raw {
        Some(v) => {
            let n = folded_text(v.as_str());
            let s = n.as_slice();
            if is_word(s, "wave") || is_word(s, "wav") {
                Some(CueFileType::Wave)
            } else if is_word(s, "binary") || is_word(s, "bin") {
                Some(CueFileType::Binary)
            } else if is_word(s, "mp3") {
                Some(CueFileType::Mp3)
            } else {
                None
            }
        },
        None => None,
    }
}

/// A text directive: the trimmed value, when it is not empty.
pub open spec fn directive_text(f: spec_fn(Seq<char>) -> Option<Seq<char>>, key: Seq<char>) -> Option<Seq<char>> {
    match f(key) {
        Some(v) => if trim(v).len() > 0 {
            Some(trim(v))
        } else {
            None
        },
        None => None,
    }
}

pub fn track_directive_text(fields: &TagMap, key: &str) -> (r: Option<String>)
    ensures
        ostr(r) == directive_text(|k: Seq<char>| fields.get_spec(k), key@),
{
    match fields.get(key) {
        Some(v) => {
            let c = chars_of(v.as_str());
            let (a, b) = trim_bounds_pub(c.as_slice(), 0, c.len());
            assert(c@.subrange(0, c@.len() as int) == c@);
            if a < b {
                Some(string_of(c.as_slice(), a, b))
            } else {
                None
            }
        },
        None => None,
    }
}

// ---------------------------------------------------------------------------
// CUE tracks from track entries
// ---------------------------------------------------------------------------

pub open spec fn or_else<T>(a: Option<T>, b: Option<T>) -> Option<T> {
    if a is Some {
        a
    } else {
        b
    }
}

pub open spec fn unwrap_or<T>(a: Option<T>, d: T) -> T {
    match a {
        Some(v) => v,
        None => d,
    }
}

/// Whether an entry describes a data track: `data` or `is_data`, unless
/// `audio` says yes.
pub open spec fn entry_is_data(f: spec_fn(Seq<char>) -> Option<Seq<char>>) -> bool {
    if bool_field(f, "audio"@) == Some(true) {
        false
    } else {
        unwrap_or(or_else(bool_field(f, "data"@), bool_field(f, "is_data"@)), false)
    }
}

/// The pregap fields of an entry: pregap start, signal start, dropped
/// pregap start, merged pregap end and previous signal start. A
/// `pregap_start_lsn` sets the pregap start and, with a `pregap_mode` of
/// `drop`, `merge`/`default` or `track`/`append`, the fields that mode uses.
pub open spec fn entry_pregap(f: spec_fn(Seq<char>) -> Option<Seq<char>>) -> (
    Option<u32>,
    u32,
    Option<u32>,
    Option<u32>,
    Option<u32>,
) {
    let start = unwrap_or(u32_field(f, "start_lsn"@), 0u32);
    let sig0 = unwrap_or(u32_field(f, "start_lsn_sig"@), start);
    let dropped0 = u32_field(f, "dropped_pregap_start"@);
    let merged0 = u32_field(f, "merged_pregap_end"@);
    let prev0 = u32_field(f, "previous_start_lsn_sig"@);
    match u32_field(f, "pregap_start_lsn"@) {
        None => (u32_field(f, "pregap_lsn"@), sig0, dropped0, merged0, prev0),
        Some(ps) => match f("pregap_mode"@) {
            None => (Some(ps), sig0, dropped0, merged0, prev0),
            Some(raw) => {
                let m = ascii_lower(trim(raw));
                if m == "drop"@ {
                    (Some(ps), start, Some(ps), merged0, prev0)
                } else if m == "merge"@ || m == "default"@ {
                    (Some(ps), ps, dropped0, Some(start), prev0)
                } else if m == "track"@ || m == "append"@ {
                    let prev = if prev0 is Some {
                        prev0
                    } else {
                        Some(if start == 0 { 0u32 } else { (start - 1) as u32 })
                    };
                    (Some(ps), start, dropped0, merged0, prev)
                } else {
                    (Some(ps), sig0, dropped0, merged0, prev0)
                }
            },
        },
    }
}

/// The CUE track that a track entry `idx` with fields `f` describes.
pub open spec fn entry_track_matches(
    idx: u32,
    f: spec_fn(Seq<char>) -> Option<Seq<char>>,
    t: CueTrack,
) -> bool {
    let title = f("title"@);
    let base = match title {
        Some(v) => v,
        None => "Track "@ + dec_pad(idx as nat, 2),
    };
    let data = entry_is_data(f);
    let pg = entry_pregap(f);
    &&& t.number == idx
    &&& t.index == idx
    &&& t.is_data == data
    &&& t.preemphasis == match bool_field(f, "flags_pre"@) {
        Some(v) => v,
        None => unwrap_or(bool_field(f, "preemphasis"@), false),
    }
    &&& t.file_path@ == dec_pad(idx as nat, 2) + " - "@ + base + ".flac"@
    &&& t.cue_path is None
    &&& t.file_type == match named_file_type(f) {
        Some(ft) => ft,
        None => if data {
            CueFileType::Binary
        } else {
            CueFileType::Wave
        },
    }
    &&& ostr(t.title) == title
    &&& ostr(t.performer) == f("artist"@)
    &&& ostr(t.songwriter) == directive_text(f, "songwriter"@)
    &&& ostr(t.composer) == directive_text(f, "composer"@)
    &&& ostr(t.arranger) == directive_text(f, "arranger"@)
    &&& ostr(t.isrc) == f("isrc"@)
    &&& t.start_lsn == unwrap_or(u32_field(f, "start_lsn"@), 0u32)
    &&& t.pregap_lsn == pg.0
    &&& t.start_lsn_sig == pg.1
    &&& t.dropped_pregap_start == pg.2
    &&& t.merged_pregap_end == pg.3
    &&& t.previous_start_lsn_sig == pg.4
    &&& t.postgap_frames == or_else(u32_field(f, "postgap_frames"@), u32_field(f, "postgap"@))
    &&& t.flag_dcp == unwrap_or(or_else(bool_field(f, "flag_dcp"@), bool_field(f, "dcp"@)), false)
    &&& t.flag_4ch == unwrap_or(or_else(bool_field(f, "flag_4ch"@), bool_field(f, "4ch"@)), false)
    &&& t.flag_scms == unwrap_or(
        or_else(bool_field(f, "flag_scms"@), bool_field(f, "scms"@)),
        false,
    )
}

fn opt_or(a: Option<bool>, b: Option<bool>) -> (r: Option<bool>)
    ensures
        r == or_else(a, b),
{
    if a.is_some() {
        a
    } else {
        b
    }
}

pub(crate) fn copy_opt(o: Option<&String>) -> (r: Option<String>)
    ensures
        ostr(r) == match o {
            Some(v) => Some(v@),
            None => None::<Seq<char>>,
        },
{
    match o {
        Some(v) => Some(crate::text::copy_str(v.as_str())),
        None => None,
    }
}

/// The pregap fields of a track entry (see `entry_pregap`).
fn pregap_fields(fields: &TagMap) -> (r: (Option<u32>, u32, Option<u32>, Option<u32>, Option<u32>))
    ensures
        r == entry_pregap(|k: Seq<char>| fields.get_spec(k)),
{
    let start = match parse_u32_field(fields, "start_lsn") {
        Some(v) => v,
        None => 0,
    };
    let sig0 = match parse_u32_field(fields, "start_lsn_sig") {
        Some(v) => v,
        None => start,
    };
    let dropped0 = parse_u32_field(fields, "dropped_pregap_start");
    let merged0 = parse_u32_field(fields, "merged_pregap_end");
    let prev0 = parse_u32_field(fields, "previous_start_lsn_sig");
    match parse_u32_field(fields, "pregap_start_lsn") {
        None => (parse_u32_field(fields, "pregap_lsn"), sig0, dropped0, merged0, prev0),
        Some(ps) => match fields.get("pregap_mode") {
            None => (Some(ps), sig0, dropped0, merged0, prev0),
            Some(raw) => {
                let m = folded_text(raw.as_str());
                let w = m.as_slice();
                if is_word(w, "drop") {
                    (Some(ps), start, Some(ps), merged0, prev0)
                } else if is_word(w, "merge") || is_word(w, "default") {
                    (Some(ps), ps, dropped0, Some(start), prev0)
                } else if is_word(w, "track") || is_word(w, "append") {
                    let prev = if prev0.is_some() {
                        prev0
                    } else {
                        Some(if start == 0 { 0u32 } else { start - 1 })
                    };
                    (Some(ps), start, dropped0, merged0, prev)
                } else {
                    (Some(ps), sig0, dropped0, merged0, prev0)
                }
            },
        },
    }
}

/// The CUE track that track entry `idx` with `fields` describes, named
/// `NN - title.flac`.
pub fn cue_track_from_entry(idx: u32, fields: &TagMap) -> (t: CueTrack)
    ensures
        entry_track_matches(idx, |k: Seq<char>| fields.get_spec(k), t),
{
    let ghost f = |k: Seq<char>| fields.get_spec(k);
    let title = copy_opt(fields.get("title"));
    let performer = copy_opt(fields.get("artist"));
    let mut file_path = String::new();
    push_dec_pad(&mut file_path, idx as u64, 2);
    file_path.append(" - ");
    let ghost head = file_path@;
    let ghost base = match fields.get_spec("title"@) {
        Some(v) => v,
        None => "Track "@ + dec_pad(idx as nat, 2),
    };
    match &title {
        Some(t) => file_path.append(t.as_str()),
        None => {
            file_path.append("Track ");
            push_dec_pad(&mut file_path, idx as u64, 2);
        },
    }
    assert(file_path@ =~= head + base);
    file_path.append(".flac");
    assert(file_path@ =~= dec_pad(idx as nat, 2) + " - "@ + base + ".flac"@);
    let start_lsn = match parse_u32_field(fields, "start_lsn") {
        Some(v) => v,
        None => 0,
    };
    let preemphasis = match parse_bool_field(fields, "flags_pre") {
        Some(v) => v,
        None => match parse_bool_field(fields, "preemphasis") {
            Some(v) => v,
            None => false,
        },
    };
    let flag_dcp = match opt_or(parse_bool_field(fields, "flag_dcp"), parse_bool_field(fields, "dcp")) {
        Some(v) => v,
        None => false,
    };
    let flag_4ch = match opt_or(parse_bool_field(fields, "flag_4ch"), parse_bool_field(fields, "4ch")) {
        Some(v) => v,
        None => false,
    };
    let flag_scms = match opt_or(parse_bool_field(fields, "flag_scms"), parse_bool_field(fields, "scms")) {
        Some(v) => v,
        None => false,
    };
    let is_data = if parse_bool_field(fields, "audio") == Some(true) {
        false
    } else {
        match opt_or(parse_bool_field(fields, "data"), parse_bool_field(fields, "is_data")) {
            Some(v) => v,
            None => false,
        }
    };
    let file_type = match cue_file_type_from_field(fields) {
        Some(ft) => ft,
        None => if is_data {
            CueFileType::Binary
        } else {
            CueFileType::Wave
        },
    };
    let (pregap_lsn, start_lsn_sig, dropped_pregap_start, merged_pregap_end, previous_start_lsn_sig) =
        pregap_fields(fields);
    let postgap_frames = match parse_u32_field(fields, "postgap_frames") {
        Some(v) => Some(v),
        None => parse_u32_field(fields, "postgap"),
    };
    CueTrack {
        number: idx,
        index: idx,
        is_data,
        preemphasis,
        file_path,
        cue_path: None,
        file_type,
        title,
        performer,
        songwriter: track_directive_text(fields, "songwriter"),
        composer: track_directive_text(fields, "composer"),
        arranger: track_directive_text(fields, "arranger"),
        isrc: copy_opt(fields.get("isrc")),
        pregap_lsn,
        start_lsn,
        start_lsn_sig,
        dropped_pregap_start,
        merged_pregap_end,
        previous_start_lsn_sig,
        postgap_frames,
        flag_dcp,
        flag_4ch,
        flag_scms,
    }
}

// ---------------------------------------------------------------------------
// The CUE sheet preview
// ---------------------------------------------------------------------------

/// The fields of a track entry: the pairs after its first `=`.
pub open spec fn entry_fields(e: Seq<char>) -> spec_fn(Seq<char>) -> Option<Seq<char>> {
    |k: Seq<char>| pairs_value(e, find_char(e, '=').unwrap() + 1, k)
}

/// The number of the entry at position `j`.
pub open spec fn number_at(es: Seq<Seq<char>>, j: int) -> u32 {
    track_entry_number(es[j]).unwrap()
}

/// The first place in `order`, from `i` on, whose entry number is above `n`.
pub open spec fn first_above(es: Seq<Seq<char>>, order: Seq<int>, n: u32, i: int) -> int
    decreases order.len() - i,
{
    if i < 0 || i >= order.len() {
        order.len() as int
    } else if number_at(es, order[i]) > n {
        i
    } else {
        first_above(es, order, n, i + 1)
    }
}

proof fn lemma_first_above_bounds(es: Seq<Seq<char>>, order: Seq<int>, n: u32, i: int)
    requires
        0 <= i <= order.len(),
    ensures
        i <= first_above(es, order, n, i) <= order.len(),
    decreases order.len() - i,
{
    if i < order.len() && number_at(es, order[i]) <= n {
        lemma_first_above_bounds(es, order, n, i + 1);
    }
}

/// The positions of the valid entries among the first `count`, by track
/// number and, for equal numbers, by position.
pub open spec fn entry_order(es: Seq<Seq<char>>, count: int) -> Seq<int>
    decreases count,
{
    if count <= 0 {
        Seq::empty()
    } else {
        let prev = entry_order(es, count - 1);
        match track_entry_number(es[count - 1]) {
            Some(n) => prev.insert(first_above(es, prev, n, 0), count - 1),
            None => prev,
        }
    }
}

/// The CUE tracks of the valid entries, in entry order.
pub open spec fn entry_tracks_match(es: Seq<Seq<char>>, ts: Seq<CueTrack>) -> bool {
    let order = entry_order(es, es.len() as int);
    &&& ts.len() == order.len()
    &&& forall|i: int|
        0 <= i < ts.len() ==> entry_track_matches(
            number_at(es, order[i]),
            entry_fields(es[order[i]]),
            #[trigger] ts[i],
        )
}

/// Whether the times of an entry's track can be written: an appended
/// pregap starts after the previous signal, a dropped pregap before the
/// signal, and a merged pregap ends after it.
pub open spec fn entry_times_valid(f: spec_fn(Seq<char>) -> Option<Seq<char>>) -> bool {
    let pg = entry_pregap(f);
    let start = unwrap_or(u32_field(f, "start_lsn"@), 0u32);
    let appended = pg.0 is Some && pg.0 != Some(start) && pg.4 is Some && pg.2 is None
        && pg.3 is None;
    &&& (appended ==> pg.0.unwrap() >= pg.4.unwrap())
    &&& (pg.2 matches Some(d) ==> pg.1 >= d)
    &&& (pg.3 matches Some(m) ==> m >= pg.1)
}

/// The valid entries of `track_metadata` with their numbers and fields, by
/// number (stable).
fn sorted_entries(track_metadata: &[String]) -> (r: Vec<(u32, TagMap)>)
    ensures
        ({
            let es = strings_view(track_metadata@);
            let order = entry_order(es, es.len() as int);
            &&& r@.len() == order.len()
            &&& forall|i: int| 0 <= i < r@.len() ==> 0 <= #[trigger] order[i] < es.len()
                && track_entry_number(es[order[i]]) is Some
            &&& forall|i: int| 0 <= i < r@.len() ==> (#[trigger] r@[i]).0 == number_at(es, order[i])
            &&& forall|i: int, k: Seq<char>| 0 <= i < r@.len() ==> #[trigger] r@[i].1.get_spec(k)
                == pairs_value(es[order[i]], find_char(es[order[i]], '=').unwrap() + 1, k)
        }),
{
    let ghost es = strings_view(track_metadata@);
    let mut parsed: Vec<(u32, TagMap)> = Vec::new();
    let mut j: usize = 0;
    while j < track_metadata.len()
        invariant
            j <= track_metadata@.len(),
            es == strings_view(track_metadata@),
            es.len() == track_metadata@.len(),
            parsed@.len() == entry_order(es, j as int).len(),
            forall|i: int| 0 <= i < parsed@.len() ==> 0 <= #[trigger] entry_order(es, j as int)[i] < j
                && track_entry_number(es[entry_order(es, j as int)[i]]) is Some,
            forall|i: int| 0 <= i < parsed@.len() ==> (#[trigger] parsed@[i]).0 == number_at(
                es,
                entry_order(es, j as int)[i],
            ),
            forall|i: int, k: Seq<char>| 0 <= i < parsed@.len() ==> #[trigger] parsed@[i].1.get_spec(k)
                == pairs_value(
                es[entry_order(es, j as int)[i]],
                find_char(es[entry_order(es, j as int)[i]], '=').unwrap() + 1,
                k,
            ),
        decreases track_metadata.len() - j,
    {
        let ghost order = entry_order(es, j as int);
        assert(es[j as int] == track_metadata@[j as int]@);
        match parse_track_meta_entry(track_metadata[j].as_str()) {
            Some((idx, fields)) => {
                let mut q: usize = 0;
                proof {
                    lemma_first_above_bounds(es, order, idx, 0);
                }
                while q < parsed.len() && parsed[q].0 <= idx
                    invariant
                        q <= parsed@.len() == order.len(),
                        first_above(es, order, idx, 0) == first_above(es, order, idx, q as int),
                        forall|i: int| 0 <= i < parsed@.len() ==> (#[trigger] parsed@[i]).0 == number_at(
                            es,
                            order[i],
                        ),
                    decreases parsed.len() - q,
                {
                    q += 1;
                }
                assert(q as int == first_above(es, order, idx, q as int));
                let ghost new_order = order.insert(q as int, j as int);
                assert(new_order == entry_order(es, j + 1));
                parsed.insert(q, (idx, fields));
                assert forall|i: int| 0 <= i < parsed@.len() implies 0 <= #[trigger] entry_order(es, j + 1)[i] < j + 1
                    && track_entry_number(es[entry_order(es, j + 1)[i]]) is Some by {
                    if i > q {
                        assert(new_order[i] == order[i - 1]);
                    } else if i < q {
                        assert(new_order[i] == order[i]);
                    }
                }
                assert forall|i: int| 0 <= i < parsed@.len() implies (#[trigger] parsed@[i]).0 == number_at(
                    es,
                    entry_order(es, j + 1)[i],
                ) by {
                    if i > q {
                        assert(new_order[i] == order[i - 1]);
                    } else if i < q {
                        assert(new_order[i] == order[i]);
                    }
                }
                assert forall|i: int, k: Seq<char>| 0 <= i < parsed@.len() implies #[trigger] parsed@[i].1.get_spec(k)
                    == pairs_value(
                    es[entry_order(es, j + 1)[i]],
                    find_char(es[entry_order(es, j + 1)[i]], '=').unwrap() + 1,
                    k,
                ) by {
                    if i > q {
                        assert(new_order[i] == order[i - 1]);
                    } else if i < q {
                        assert(new_order[i] == order[i]);
                    }
                }
            },
            None => {
                assert(entry_order(es, j + 1) == order);
            },
        }
        j += 1;
    }
    parsed
}

/// The CUE sheet of the user-given metadata, headed by a title line; `None`
/// when a track's pregap times run backwards and cannot be written.
pub fn render_cue_only_preview(
    album_metadata: Option<&str>,
    track_metadata: &[String],
    deemphasis: bool,
    force_deemphasis: bool,
) -> (r: Option<String>)
    ensures
        ({
            let es = strings_view(track_metadata@);
            let order = entry_order(es, es.len() as int);
            &&& r is Some <==> forall|i: int| 0 <= i < order.len() ==> entry_times_valid(
                entry_fields(es[#[trigger] order[i]]),
            )
            &&& r matches Some(text) ==> exists|m: Seq<(Seq<char>, Seq<char>)>, ts: Seq<CueTrack>|
                {
                    &&& keys_sorted(m)
                    &&& forall|k: Seq<char>| #[trigger] lookup(m, k) == album_meta_value(
                        opt_str(album_metadata),
                        k,
                    )
                    &&& entry_tracks_match(es, ts)
                    &&& text@ == "cyanrip-rs cue-only preview\n"@ + cue_header(m) + tracks_text(
                        ts,
                        deemphasis,
                        force_deemphasis,
                    )
                }
        }),
{
    let ghost es = strings_view(track_metadata@);
    let ghost order = entry_order(es, es.len() as int);
    let parsed = sorted_entries(track_metadata);
    let mut tracks: Vec<CueTrack> = Vec::new();
    let mut i: usize = 0;
    while i < parsed.len()
        invariant
            i <= parsed@.len() == order.len(),
            tracks@.len() == i,
            forall|x: int| 0 <= x < parsed@.len() ==> 0 <= #[trigger] order[x] < es.len()
                && track_entry_number(es[order[x]]) is Some,
            forall|x: int| 0 <= x < parsed@.len() ==> (#[trigger] parsed@[x]).0 == number_at(es, order[x]),
            forall|x: int, k: Seq<char>| 0 <= x < parsed@.len() ==> #[trigger] parsed@[x].1.get_spec(k)
                == pairs_value(es[order[x]], find_char(es[order[x]], '=').unwrap() + 1, k),
            forall|x: int| 0 <= x < i ==> entry_track_matches(
                number_at(es, order[x]),
                entry_fields(es[order[x]]),
                #[trigger] tracks@[x],
            ),
        decreases parsed.len() - i,
    {
        let t = cue_track_from_entry(parsed[i].0, &parsed[i].1);
        proof {
            let f1 = |k: Seq<char>| parsed@[i as int].1.get_spec(k);
            assert(f1 =~= entry_fields(es[order[i as int]]));
        }
        tracks.push(t);
        i += 1;
    }
    let mut ok = true;
    let mut x: usize = 0;
    while x < tracks.len()
        invariant
            x <= tracks@.len() == order.len(),
            forall|y: int| 0 <= y < tracks@.len() ==> entry_track_matches(
                number_at(es, order[y]),
                entry_fields(es[order[y]]),
                #[trigger] tracks@[y],
            ),
            ok <==> forall|y: int| 0 <= y < x ==> track_times_valid(#[trigger] tracks@[y]),
        decreases tracks.len() - x,
    {
        let t = &tracks[x];
        let appended = t.pregap_lsn.is_some() && t.pregap_lsn != Some(t.start_lsn)
            && t.previous_start_lsn_sig.is_some() && t.dropped_pregap_start.is_none()
            && t.merged_pregap_end.is_none();
        let mut good = true;
        if appended {
            if t.pregap_lsn.unwrap() < t.previous_start_lsn_sig.unwrap() {
                good = false;
            }
        }
        match t.dropped_pregap_start {
            Some(d) => if t.start_lsn_sig < d {
                good = false;
            },
            None => {},
        }
        match t.merged_pregap_end {
            Some(m) => if m < t.start_lsn_sig {
                good = false;
            },
            None => {},
        }
        assert(good == track_times_valid(tracks@[x as int]));
        ok = ok && good;
        x += 1;
    }
    assert forall|y: int| 0 <= y < order.len() implies (entry_times_valid(entry_fields(es[#[trigger] order[y]]))
        <==> track_times_valid(tracks@[y])) by {
        assert(entry_track_matches(number_at(es, order[y]), entry_fields(es[order[y]]), tracks@[y]));
    }
    if !ok {
        return None;
    }
    let meta = parse_album_metadata_map(album_metadata);
    let doc = CueDoc { meta, tracks, deemphasis, force_deemphasis };
    let body = render_cue(&doc);
    let mut out = String::from_str("cyanrip-rs cue-only preview\n");
    out.append(body.as_str());
    proof {
        let m = doc.meta.pairs();
        assert forall|k: Seq<char>| #[trigger] lookup(m, k) == album_meta_value(opt_str(album_metadata), k) by {
            assert(doc.meta.get_spec(k) == lookup(m, k));
        }
        assert(entry_tracks_match(es, doc.tracks@));
        assert(out@ =~= "cyanrip-rs cue-only preview\n"@ + cue_header(m) + tracks_text(
            doc.tracks@,
            deemphasis,
            force_deemphasis,
        ));
    }
    Some(out)
}

} // verus!
