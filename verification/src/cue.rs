//! CUE sheet rendering.
use vstd::prelude::*;

use crate::tags::{lookup, TagMap};
use crate::text::{
    join, opt_line, ostr,
    chars_eq, chars_of, dec_pad, lemma_rfind_bounds, push_chars, push_dec_pad, rfind_char,
    rfind_char_in, string_of,
};

verus! {

/// A frame count as CUE `MM:SS:FF` (75 frames per second).
pub open spec fn cue_time(f: nat) -> Seq<char> {
    dec_pad(f / 4500, 2) + ":"@ + dec_pad((f % 4500) / 75, 2) + ":"@ + dec_pad(f % 75, 2)
}

pub fn frames_to_cue(frames: u32) -> (s: String)
    ensures
        s@ == cue_time(frames as nat),
{
    let min = frames / (75 * 60);
    let sec = (frames - (min * 75 * 60)) / 75;
    let left = frames - (min * 75 * 60) - (sec * 75);
    assert(sec == (frames % 4500) / 75 && left == frames % 75) by (nonlinear_arith)
        requires
            min == frames / 4500,
            sec == (frames - min * 4500) / 75,
            left == frames - min * 4500 - sec * 75,
    ;
    let mut s = String::new();
    push_dec_pad(&mut s, min as u64, 2);
    s.append(":");
    push_dec_pad(&mut s, sec as u64, 2);
    s.append(":");
    push_dec_pad(&mut s, left as u64, 2);
    s
}

#[derive(Debug, Clone, Copy, PartialEq, Eq, Structural)]
pub enum CueFileType {
    Mp3,
    Binary,
    Wave,
}

pub open spec fn cue_token(t: CueFileType) -> Seq<char> {
    match t {
        CueFileType::Mp3 => "MP3"@,
        CueFileType::Binary => "BINARY"@,
        CueFileType::Wave => "WAVE"@,
    }
}

impl CueFileType {
    pub fn as_cue_token(self) -> (r: &'static str)
        ensures
            r@ == cue_token(self),
    {
        match self {
            Self::Mp3 => "MP3",
            Self::Binary => "BINARY",
            Self::Wave => "WAVE",
        }
    }
}

#[derive(Debug, Clone)]
pub struct CueTrack {
    pub number: u32,
    pub index: u32,
    pub is_data: bool,
    pub preemphasis: bool,
    pub file_path: String,
    pub cue_path: Option<String>,
    pub file_type: CueFileType,
    pub title: Option<String>,
    pub performer: Option<String>,
    pub songwriter: Option<String>,
    pub composer: Option<String>,
    pub arranger: Option<String>,
    pub isrc: Option<String>,
    pub pregap_lsn: Option<u32>,
    pub start_lsn: u32,
    pub start_lsn_sig: u32,
    pub dropped_pregap_start: Option<u32>,
    pub merged_pregap_end: Option<u32>,
    pub previous_start_lsn_sig: Option<u32>,
    pub postgap_frames: Option<u32>,
    pub flag_dcp: bool,
    pub flag_4ch: bool,
    pub flag_scms: bool,
}

#[derive(Debug)]
pub struct CueDoc {
    pub meta: TagMap,
    pub tracks: Vec<CueTrack>,
    pub deemphasis: bool,
    pub force_deemphasis: bool,
}

pub open spec fn ascii_upper(s: Seq<char>) -> Seq<char> {
    s.map_values(|c: char| if 'a' <= c && c <= 'z' { ((c as u32) - 32) as char } else { c })
}

pub open spec fn reserved_meta_key(k: Seq<char>) -> bool {
    k == "musicbrainz_discid"@ || k == "cddb"@ || k == "disc_mcn"@ || k == "album_artist"@ || k
        == "album"@ || k == "title"@
}

/// A `REM KEY "value"` line for every tag that has no dedicated directive,
/// in key order.
pub open spec fn rem_lines(ps: Seq<(Seq<char>, Seq<char>)>) -> Seq<char>
    decreases ps.len(),
{
    if ps.len() == 0 {
        Seq::empty()
    } else {
        rem_lines(ps.drop_last()) + if reserved_meta_key(ps.last().0) {
            Seq::<char>::empty()
        } else {
            "REM "@ + ascii_upper(ps.last().0) + " \""@ + ps.last().1 + "\"\n"@
        }
    }
}

/// The disc-level lines of a CUE sheet.
pub open spec fn cue_header(ps: Seq<(Seq<char>, Seq<char>)>) -> Seq<char> {
    opt_line(lookup(ps, "musicbrainz_discid"@), "REM MUSICBRAINZ_DISCID \""@, "\"\n"@)
        + opt_line(lookup(ps, "cddb"@), "REM DISCID \""@, "\"\n"@)
        + rem_lines(ps)
        + opt_line(lookup(ps, "disc_mcn"@), "CATALOG "@, "\n"@)
        + opt_line(lookup(ps, "album_artist"@), "PERFORMER \""@, "\"\n"@)
        + opt_line(lookup(ps, "album"@), "TITLE \""@, "\"\n"@)
}

/// A track's file path relative to the directory of the CUE sheet, when the
/// sheet's directory is a prefix of it.
pub open spec fn relative_name(path: Seq<char>, cue: Option<Seq<char>>) -> Seq<char> {
    match cue {
        None => path,
        Some(c) => {
            let p = match rfind_char(c, '/') {
                Some(i) => i + 1,
                None => 0,
            };
            if p > 0 && path.len() >= p && path.take(p) == c.take(p) {
                path.skip(p)
            } else {
                path
            }
        },
    }
}

pub open spec fn track_tags(t: CueTrack) -> Seq<char> {
    opt_line(ostr(t.title), "    TITLE \""@, "\"\n"@) + opt_line(
        ostr(t.performer),
        "    PERFORMER \""@,
        "\"\n"@,
    ) + opt_line(ostr(t.songwriter), "    SONGWRITER \""@, "\"\n"@) + opt_line(
        ostr(t.composer),
        "    COMPOSER \""@,
        "\"\n"@,
    ) + opt_line(ostr(t.arranger), "    ARRANGER \""@, "\"\n"@)
}

/// A pregap appended to the previous track's file gets its own `TRACK`
/// entry ahead of the `FILE` line.
pub open spec fn appended_pregap(t: CueTrack) -> bool {
    &&& t.pregap_lsn is Some
    &&& t.pregap_lsn != Some(t.start_lsn)
    &&& t.previous_start_lsn_sig is Some
    &&& t.dropped_pregap_start is None
    &&& t.merged_pregap_end is None
}

pub open spec fn flag_words(t: CueTrack, deemphasis: bool, force: bool) -> Seq<Seq<char>> {
    (if t.preemphasis && !deemphasis && !force { seq!["PRE"@] } else { Seq::empty() }) + (if t.flag_dcp {
        seq!["DCP"@]
    } else {
        Seq::empty()
    }) + (if t.flag_4ch { seq!["4CH"@] } else { Seq::empty() }) + (if t.flag_scms {
        seq!["SCMS"@]
    } else {
        Seq::empty()
    })
}

pub open spec fn flags_line(t: CueTrack, deemphasis: bool, force: bool) -> Seq<char> {
    let w = flag_words(t, deemphasis, force);
    if w.len() == 0 {
        Seq::empty()
    } else {
        "    FLAGS "@ + join(w, " "@) + "\n"@
    }
}

pub open spec fn postgap_line(t: CueTrack) -> Seq<char> {
    match t.postgap_frames {
        Some(p) => "    POSTGAP "@ + cue_time(p as nat) + "\n"@,
        None => Seq::empty(),
    }
}

/// The `PREGAP`/`INDEX`/`POSTGAP` lines of a track.
pub open spec fn index_lines(t: CueTrack) -> Seq<char> {
    let time_00 = match t.dropped_pregap_start {
        Some(d) => cue_time((t.start_lsn_sig - d) as nat),
        None => match t.merged_pregap_end {
            Some(_) => cue_time(0),
            None => Seq::empty(),
        },
    };
    let time_01 = match t.dropped_pregap_start {
        Some(_) => cue_time(0),
        None => match t.merged_pregap_end {
            Some(m) => cue_time((m - t.start_lsn_sig) as nat),
            None => cue_time(0),
        },
    };
    if t.dropped_pregap_start is Some && t.dropped_pregap_start != Some(t.start_lsn) {
        "    PREGAP "@ + time_00 + "\n"@ + "    INDEX 01 "@ + time_01 + "\n"@ + postgap_line(t)
    } else if t.merged_pregap_end is Some {
        "    INDEX 00 "@ + time_00 + "\n"@ + "    INDEX 01 "@ + time_01 + "\n"@ + postgap_line(t)
    } else {
        "    INDEX 01 "@ + time_01 + "\n"@ + postgap_line(t)
    }
}

/// The entry of an appended pregap, ahead of the `FILE` line.
pub open spec fn pregap_entry(t: CueTrack) -> Seq<char> {
    if appended_pregap(t) {
        "  TRACK "@ + dec_pad(t.index as nat, 2) + " AUDIO\n"@ + track_tags(t) + "    INDEX 00 "@
            + cue_time((t.pregap_lsn.unwrap() - t.previous_start_lsn_sig.unwrap()) as nat) + "\n"@
    } else {
        Seq::empty()
    }
}

pub open spec fn file_line(t: CueTrack) -> Seq<char> {
    "FILE \""@ + relative_name(t.file_path@, ostr(t.cue_path)) + "\" "@ + cue_token(t.file_type)
        + "\n"@
}

pub open spec fn track_line(t: CueTrack) -> Seq<char> {
    if !appended_pregap(t) {
        "  TRACK "@ + dec_pad(t.number as nat, 2) + " "@ + (if t.is_data {
            "MODE1/2352"@
        } else {
            "AUDIO"@
        }) + "\n"@
    } else {
        Seq::empty()
    }
}

pub open spec fn audio_tags(t: CueTrack) -> Seq<char> {
    if !t.is_data && !appended_pregap(t) {
        track_tags(t) + opt_line(ostr(t.isrc), "    ISRC "@, "\n"@)
    } else {
        Seq::empty()
    }
}

/// All lines of one track.
#[verifier::opaque]
pub open spec fn track_text(t: CueTrack, deemphasis: bool, force: bool) -> Seq<char> {
    pregap_entry(t) + file_line(t) + track_line(t) + audio_tags(t) + flags_line(t, deemphasis, force)
        + index_lines(t)
}

pub open spec fn tracks_text(ts: Seq<CueTrack>, deemphasis: bool, force: bool) -> Seq<char>
    decreases ts.len(),
{
    if ts.len() == 0 {
        Seq::empty()
    } else {
        tracks_text(ts.drop_last(), deemphasis, force) + track_text(ts.last(), deemphasis, force)
    }
}

/// The frame differences a track's times are computed from are not negative.
pub open spec fn track_times_valid(t: CueTrack) -> bool {
    &&& (appended_pregap(t) ==> t.pregap_lsn.unwrap() >= t.previous_start_lsn_sig.unwrap())
    &&& (t.dropped_pregap_start matches Some(d) ==> t.start_lsn_sig >= d)
    &&& (t.merged_pregap_end matches Some(m) ==> m >= t.start_lsn_sig)
}

fn push_opt_line(out: &mut String, o: &Option<String>, pre: &str, post: &str)
    ensures
        final(out)@ == old(out)@ + opt_line(ostr(*o), pre@, post@),
{
    if let Some(v) = o {
        out.append(pre);
        out.append(v.as_str());
        out.append(post);
    }
}

fn push_meta_line(out: &mut String, meta: &TagMap, key: &str, pre: &str, post: &str)
    ensures
        final(out)@ == old(out)@ + opt_line(lookup(meta.pairs(), key@), pre@, post@),
{
    if let Some(v) = meta.get(key) {
        out.append(pre);
        out.append(v.as_str());
        out.append(post);
    }
}

fn relative_file_name(path: &str, cue_path: &Option<String>) -> (r: String)
    ensures
        r@ == relative_name(path@, ostr(*cue_path)),
{
    let cue = match cue_path {
        None => {
            return String::from_str(path);
        },
        Some(c) => c,
    };
    let pc = chars_of(path);
    let cc = chars_of(cue.as_str());
    proof {
        lemma_rfind_bounds(cc@, '/', cc@.len() as int);
    }
    let cn = cc.len();
    let plen = match rfind_char_in(cc.as_slice(), '/') {
        Some(i) => {
            assert(i < cn);
            i + 1
        },
        None => 0,
    };
    if plen > 0 && pc.len() >= plen {
        let a = string_of(pc.as_slice(), 0, plen);
        let b = string_of(cc.as_slice(), 0, plen);
        let ac = chars_of(a.as_str());
        let bc = chars_of(b.as_str());
        assert(pc@.subrange(0, plen as int) == pc@.take(plen as int));
        assert(cc@.subrange(0, plen as int) == cc@.take(plen as int));
        if chars_eq(ac.as_slice(), bc.as_slice()) {
            assert(pc@.subrange(plen as int, pc@.len() as int) == pc@.skip(plen as int));
            return string_of(pc.as_slice(), plen, pc.len());
        }
    }
    String::from_str(path)
}

fn push_track_tags(out: &mut String, t: &CueTrack)
    ensures
        final(out)@ == old(out)@ + track_tags(*t),
{
    let ghost o = out@;
    push_opt_line(out, &t.title, "    TITLE \"", "\"\n");
    push_opt_line(out, &t.performer, "    PERFORMER \"", "\"\n");
    push_opt_line(out, &t.songwriter, "    SONGWRITER \"", "\"\n");
    push_opt_line(out, &t.composer, "    COMPOSER \"", "\"\n");
    push_opt_line(out, &t.arranger, "    ARRANGER \"", "\"\n");
    assert(out@ =~= o + track_tags(*t));
}

fn write_appended_pregap(t: &CueTrack) -> (r: bool)
    ensures
        r == appended_pregap(*t),
{
    t.pregap_lsn.is_some() && !(t.pregap_lsn.is_some() && t.pregap_lsn.unwrap() == t.start_lsn)
        && t.previous_start_lsn_sig.is_some() && t.dropped_pregap_start.is_none()
        && t.merged_pregap_end.is_none()
}

fn push_flags(out: &mut String, t: &CueTrack, deemphasis: bool, force: bool)
    ensures
        final(out)@ == old(out)@ + flags_line(*t, deemphasis, force),
{
    let ghost o = out@;
    let mut words: Vec<&str> = Vec::new();
    if t.preemphasis && !deemphasis && !force {
        words.push("PRE");
    }
    if t.flag_dcp {
        words.push("DCP");
    }
    if t.flag_4ch {
        words.push("4CH");
    }
    if t.flag_scms {
        words.push("SCMS");
    }
    let ghost ws = words@.map_values(|w: &str| w@);
    assert(ws =~= flag_words(*t, deemphasis, force));
    if words.len() == 0 {
        return;
    }
    out.append("    FLAGS ");
    let ghost base = out@;
    let mut i: usize = 0;
    while i < words.len()
        invariant
            i <= words@.len(),
            ws == words@.map_values(|w: &str| w@),
            out@ == base + join(ws.take(i as int), " "@),
        decreases words.len() - i,
    {
        assert(ws.take(i + 1).drop_last() == ws.take(i as int));
        assert(ws.take(i + 1).last() == words@[i as int]@);
        if i > 0 {
            out.append(" ");
        } else {
            assert(ws.take(1) =~= seq![ws[0]]);
        }
        out.append(words[i]);
        i += 1;
    }
    assert(ws.take(words@.len() as int) == ws);
    out.append("\n");
    assert(out@ =~= o + flags_line(*t, deemphasis, force));
}

fn push_postgap(out: &mut String, t: &CueTrack)
    ensures
        final(out)@ == old(out)@ + postgap_line(*t),
{
    if let Some(p) = t.postgap_frames {
        out.append("    POSTGAP ");
        let s = frames_to_cue(p);
        out.append(s.as_str());
        out.append("\n");
    }
}

#[verifier::spinoff_prover]
#[verifier::rlimit(40)]
fn push_index_lines(out: &mut String, t: &CueTrack)
    requires
        track_times_valid(*t),
    ensures
        final(out)@ == old(out)@ + index_lines(*t),
{
    let ghost o = out@;
    let (time_00, time_01) = if let Some(drop_start) = t.dropped_pregap_start {
        (frames_to_cue(t.start_lsn_sig - drop_start), frames_to_cue(0))
    } else if let Some(merged_end) = t.merged_pregap_end {
        (frames_to_cue(0), frames_to_cue(merged_end - t.start_lsn_sig))
    } else {
        (String::new(), frames_to_cue(0))
    };
    if let Some(drop_start) = t.dropped_pregap_start {
        if drop_start != t.start_lsn {
            out.append("    PREGAP ");
            out.append(time_00.as_str());
            out.append("\n");
            out.append("    INDEX 01 ");
            out.append(time_01.as_str());
            out.append("\n");
            push_postgap(out, t);
            assert(out@ =~= o + index_lines(*t));
            return;
        }
    }
    if t.merged_pregap_end.is_some() {
        out.append("    INDEX 00 ");
        out.append(time_00.as_str());
        out.append("\n");
        out.append("    INDEX 01 ");
        out.append(time_01.as_str());
        out.append("\n");
    } else {
        out.append("    INDEX 01 ");
        out.append(time_01.as_str());
        out.append("\n");
    }
    push_postgap(out, t);
    assert(out@ =~= o + index_lines(*t));
}

fn push_pregap_entry(out: &mut String, t: &CueTrack)
    requires
        track_times_valid(*t),
    ensures
        final(out)@ == old(out)@ + pregap_entry(*t),
{
    let ghost o = out@;
    if write_appended_pregap(t) {
        out.append("  TRACK ");
        push_dec_pad(out, t.index as u64, 2);
        out.append(" AUDIO\n");
        push_track_tags(out, t);
        let pregap = t.pregap_lsn.unwrap();
        let prev = t.previous_start_lsn_sig.unwrap();
        out.append("    INDEX 00 ");
        let s = frames_to_cue(pregap - prev);
        out.append(s.as_str());
        out.append("\n");
    }
    assert(out@ =~= o + pregap_entry(*t));
}

fn push_file_line(out: &mut String, t: &CueTrack)
    ensures
        final(out)@ == old(out)@ + file_line(*t),
{
    let ghost o = out@;
    let name = relative_file_name(t.file_path.as_str(), &t.cue_path);
    out.append("FILE \"");
    out.append(name.as_str());
    out.append("\" ");
    out.append(t.file_type.as_cue_token());
    out.append("\n");
    assert(out@ =~= o + file_line(*t));
}

fn push_track_line(out: &mut String, t: &CueTrack)
    ensures
        final(out)@ == old(out)@ + track_line(*t),
{
    let ghost o = out@;
    if !write_appended_pregap(t) {
        out.append("  TRACK ");
        push_dec_pad(out, t.number as u64, 2);
        out.append(" ");
        out.append(if t.is_data { "MODE1/2352" } else { "AUDIO" });
        out.append("\n");
    }
    assert(out@ =~= o + track_line(*t));
}

fn push_audio_tags(out: &mut String, t: &CueTrack)
    ensures
        final(out)@ == old(out)@ + audio_tags(*t),
{
    let ghost o = out@;
    if !t.is_data && !write_appended_pregap(t) {
        push_track_tags(out, t);
        push_opt_line(out, &t.isrc, "    ISRC ", "\n");
    }
    assert(out@ =~= o + audio_tags(*t));
}

#[verifier::spinoff_prover]
#[verifier::rlimit(40)]
fn push_track(out: &mut String, t: &CueTrack, deemphasis: bool, force: bool)
    requires
        track_times_valid(*t),
    ensures
        final(out)@ == old(out)@ + track_text(*t, deemphasis, force),
{
    let ghost o = out@;
    push_pregap_entry(out, t);
    push_file_line(out, t);
    push_track_line(out, t);
    push_audio_tags(out, t);
    push_flags(out, t, deemphasis, force);
    push_index_lines(out, t);
    reveal(track_text);
    assert(out@ =~= o + track_text(*t, deemphasis, force));
}

pub fn render_cue(doc: &CueDoc) -> (out: String)
    requires
        forall|i: int| 0 <= i < doc.tracks@.len() ==> #[trigger] track_times_valid(doc.tracks@[i]),
    ensures
        out@ == cue_header(doc.meta.pairs()) + tracks_text(
            doc.tracks@,
            doc.deemphasis,
            doc.force_deemphasis,
        ),
{
    let mut out = String::new();
    let ghost o0 = out@;
    push_meta_line(&mut out, &doc.meta, "musicbrainz_discid", "REM MUSICBRAINZ_DISCID \"", "\"\n");
    push_meta_line(&mut out, &doc.meta, "cddb", "REM DISCID \"", "\"\n");
    let ghost before_rem = out@;
    let ghost ps = doc.meta.pairs();
    let n = doc.meta.len();
    let mut i: usize = 0;
    while i < n
        invariant
            i <= n == ps.len(),
            ps == doc.meta.pairs(),
            out@ == before_rem + rem_lines(ps.take(i as int)),
        decreases n - i,
    {
        let k = doc.meta.key_at(i);
        let v = doc.meta.value_at(i);
        assert(ps.take(i + 1).drop_last() == ps.take(i as int));
        assert(ps.take(i + 1).last() == ps[i as int]);
        push_rem_line(&mut out, k, v);
        i += 1;
    }
    assert(ps.take(n as int) == ps);
    let ghost o1 = out@;
    push_meta_line(&mut out, &doc.meta, "disc_mcn", "CATALOG ", "\n");
    push_meta_line(&mut out, &doc.meta, "album_artist", "PERFORMER \"", "\"\n");
    push_meta_line(&mut out, &doc.meta, "album", "TITLE \"", "\"\n");
    let ghost header = out@;
    assert(o0 =~= Seq::<char>::empty());
    assert(before_rem =~= opt_line(lookup(ps, "musicbrainz_discid"@), "REM MUSICBRAINZ_DISCID \""@, "\"\n"@)
        + opt_line(lookup(ps, "cddb"@), "REM DISCID \""@, "\"\n"@));
    assert(header =~= cue_header(ps));

    let mut j: usize = 0;
    while j < doc.tracks.len()
        invariant
            j <= doc.tracks@.len(),
            forall|i: int| 0 <= i < doc.tracks@.len() ==> #[trigger] track_times_valid(
                doc.tracks@[i],
            ),
            out@ == header + tracks_text(doc.tracks@.take(j as int), doc.deemphasis, doc.force_deemphasis),
        decreases doc.tracks.len() - j,
    {
        assert(doc.tracks@.take(j + 1).drop_last() == doc.tracks@.take(j as int));
        assert(doc.tracks@.take(j + 1).last() == doc.tracks@[j as int]);
        assert(track_times_valid(doc.tracks@[j as int]));
        let ghost prev = tracks_text(doc.tracks@.take(j as int), doc.deemphasis, doc.force_deemphasis);
        push_track(&mut out, &doc.tracks[j], doc.deemphasis, doc.force_deemphasis);
        assert(tracks_text(doc.tracks@.take(j + 1), doc.deemphasis, doc.force_deemphasis) == prev
            + track_text(doc.tracks@[j as int], doc.deemphasis, doc.force_deemphasis));
        assert(out@ =~= header + tracks_text(doc.tracks@.take(j + 1), doc.deemphasis, doc.force_deemphasis));
        j += 1;
    }
    assert(doc.tracks@.take(j as int) == doc.tracks@);
    out
}

fn push_rem_line(out: &mut String, k: &String, v: &String)
    ensures
        final(out)@ == old(out)@ + if reserved_meta_key(k@) {
            Seq::<char>::empty()
        } else {
            "REM "@ + ascii_upper(k@) + " \""@ + v@ + "\"\n"@
        },
{
    let ghost o = out@;
    let kc = chars_of(k.as_str());
    let reserved = crate::text::str_eq(k.as_str(), "musicbrainz_discid") || crate::text::str_eq(
        k.as_str(),
        "cddb",
    ) || crate::text::str_eq(k.as_str(), "disc_mcn") || crate::text::str_eq(
        k.as_str(),
        "album_artist",
    ) || crate::text::str_eq(k.as_str(), "album") || crate::text::str_eq(k.as_str(), "title");
    if !reserved {
        out.append("REM ");
        push_upper(out, kc.as_slice());
        out.append(" \"");
        out.append(v.as_str());
        out.append("\"\n");
        assert(out@ =~= o + ("REM "@ + ascii_upper(k@) + " \""@ + v@ + "\"\n"@));
    } else {
        assert(out@ =~= o + Seq::<char>::empty());
    }
}

pub(crate) fn push_upper(out: &mut String, s: &[char])
    ensures
        final(out)@ == old(out)@ + ascii_upper(s@),
{
    let ghost o = out@;
    let mut i: usize = 0;
    while i < s.len()
        invariant
            i <= s@.len(),
            out@ == o + ascii_upper(s@.take(i as int)),
        decreases s.len() - i,
    {
        let c = s[i];
        let u = if 'a' <= c && c <= 'z' { ((c as u32) - 32) as u8 as char } else { c };
        assert(u == if 'a' <= c && c <= 'z' { ((c as u32) - 32) as char } else { c });
        crate::text::push_char(out, u);
        assert(ascii_upper(s@.take(i + 1)) =~= ascii_upper(s@.take(i as int)).push(u));
        i += 1;
    }
    assert(s@.take(s@.len() as int) == s@);
}

} // verus!
