//! The command line as plain values, and the settings it makes: defaults,
//! validation in a fixed order, and the overrides of the special modes.
use vstd::prelude::*;

use crate::naming::{trim, trim_bounds_pub};
use crate::text::{
    chars_of, contains, copy_str, dec_int, ostr, parse_i32, parse_i32_chars, string_of,
    strings_view, strs_view,
};
use crate::{
    apply_pregap_entries, apply_pregap_spec, calc_over_under_read_frames, first_repeat,
    over_under_read_frames, paranoia_level_named, parse_cover_size, parse_disc, parse_disc_spec,
    parse_outputs, parse_outputs_spec, parse_paranoia, parse_release, parse_sanitize,
    parse_track_indices, sorted_i32, validate_folder_scheme, validate_mode_combo,
    all_default_pregaps, early_fields_default, late_fields_default, mode_fields_default,
    plain_fields_default, PregapAction, CoverArtLookupSize, OutputFormat, ReleaseSelection, SanitizeMethod,
    Settings, MAX_PARANOIA_LEVEL,
};

verus! {

/// What the program is asked to do once the options are read.
#[derive(Debug, Clone, Copy, PartialEq, Eq, Structural)]
pub enum CliAction {
    Run,
    ShowOutputsHelp,
    VerifyLog,
}

/// The text `-o help` prints.
pub const SUPPORTED_OUTPUTS_HELP: &'static str = "Supported output codecs:\n    flac\n    mp3\n    tta\n    opus\n    aac\n    aac_mp4\n    wavpack\n    vorbis\n    alac\n    alac_mp4\n    wav\n    opus_mp4\n    pcm";

/// The settings the command line makes, and what to do with them.
#[derive(Debug, Clone, PartialEq)]
pub struct CliConfig {
    pub settings: Settings,
    pub action: CliAction,
}

/// The command line options, each as given (the lossy bitrate, a float, is
/// handled by the program around this library).
#[derive(Debug, Clone, PartialEq)]
pub struct CliArgs {
    pub device: Option<String>,
    pub offset: Option<i32>,
    pub retries: i32,
    pub repeat_rips: i32,
    pub speed: i32,
    pub pregap: Vec<String>,
    pub paranoia: Option<String>,
    pub overread: bool,
    pub hdcd: bool,
    pub force_deemphasis: bool,
    pub no_deemphasis: bool,
    pub no_replaygain: bool,
    pub outputs: Option<String>,
    pub folder_scheme: String,
    pub track_scheme: String,
    pub log_scheme: String,
    pub cue_scheme: String,
    pub tracks: Option<String>,
    pub sanitize: Option<String>,
    pub info: bool,
    pub cue_only: bool,
    pub release: Option<String>,
    pub disc: Option<String>,
    pub album_meta: Option<String>,
    pub track_meta: Vec<String>,
    pub cover: Vec<String>,
    pub no_musicbrainz: bool,
    pub no_accurip: bool,
    pub no_coverart_db: bool,
    pub cover_size: i32,
    pub no_coverart_embed: bool,
    pub eject: bool,
    pub find_offset: bool,
    pub verify_log: Option<String>,
}

/// The options of a command line that gives none.
pub open spec fn cli_args_default(a: CliArgs) -> bool {
    &&& a.device is None
    &&& a.offset is None
    &&& a.retries == 10
    &&& a.repeat_rips == 0
    &&& a.speed == 0
    &&& a.pregap@.len() == 0
    &&& a.paranoia is None
    &&& !a.overread
    &&& !a.hdcd
    &&& !a.force_deemphasis
    &&& !a.no_deemphasis
    &&& !a.no_replaygain
    &&& a.outputs is None
    &&& a.folder_scheme@ == crate::default_folder_scheme()
    &&& a.track_scheme@ == crate::default_track_scheme()
    &&& a.log_scheme@ == crate::default_sheet_scheme()
    &&& a.cue_scheme@ == crate::default_sheet_scheme()
    &&& a.tracks is None
    &&& a.sanitize is None
    &&& !a.info
    &&& !a.cue_only
    &&& a.release is None
    &&& a.disc is None
    &&& a.album_meta is None
    &&& a.track_meta@.len() == 0
    &&& a.cover@.len() == 0
    &&& !a.no_musicbrainz
    &&& !a.no_accurip
    &&& !a.no_coverart_db
    &&& a.cover_size == -1
    &&& !a.no_coverart_embed
    &&& !a.eject
    &&& !a.find_offset
    &&& a.verify_log is None
}

impl Default for CliArgs {
    fn default() -> (a: Self)
        ensures
            cli_args_default(a),
    {
        CliArgs {
            device: None,
            offset: None,
            retries: 10,
            repeat_rips: 0,
            speed: 0,
            pregap: Vec::new(),
            paranoia: None,
            overread: false,
            hdcd: false,
            force_deemphasis: false,
            no_deemphasis: false,
            no_replaygain: false,
            outputs: None,
            folder_scheme: String::from_str(
                "{album}{if #releasecomment# > #0# (|releasecomment|)} [{format}]",
            ),
            track_scheme: String::from_str("{if #totaldiscs# > #1#|disc|.}{track} - {title}"),
            log_scheme: String::from_str("{album}{if #totaldiscs# > #1# CD|disc|}"),
            cue_scheme: String::from_str("{album}{if #totaldiscs# > #1# CD|disc|}"),
            tracks: None,
            sanitize: None,
            info: false,
            cue_only: false,
            release: None,
            disc: None,
            album_meta: None,
            track_meta: Vec::new(),
            cover: Vec::new(),
            no_musicbrainz: false,
            no_accurip: false,
            no_coverart_db: false,
            cover_size: -1,
            no_coverart_embed: false,
            eject: false,
            find_offset: false,
            verify_log: None,
        }
    }
}

// ---------------------------------------------------------------------------
// Comma separated lists
// ---------------------------------------------------------------------------

/// The pieces of `s` between the `c` separators, as `str::split` yields them.
pub open spec fn split_char(s: Seq<char>, c: char) -> Seq<Seq<char>>
    decreases s.len(),
{
    if s.len() == 0 {
        seq![Seq::<char>::empty()]
    } else {
        let init = split_char(s.drop_last(), c);
        if s.last() == c {
            init.push(Seq::<char>::empty())
        } else {
            init.update(init.len() - 1, init.last().push(s.last()))
        }
    }
}

/// The trimmed pieces among `fields` that are not empty once trimmed.
pub open spec fn nonblank_trimmed(fields: Seq<Seq<char>>) -> Seq<Seq<char>>
    decreases fields.len(),
{
    if fields.len() == 0 {
        Seq::empty()
    } else {
        let rest = nonblank_trimmed(fields.drop_last());
        let t = trim(fields.last());
        if t.len() > 0 {
            rest.push(t)
        } else {
            rest
        }
    }
}

/// The entries of a comma separated list: trimmed, blank ones left out.
#[verifier::opaque]
pub open spec fn csv_fields(s: Seq<char>) -> Seq<Seq<char>> {
    nonblank_trimmed(split_char(s, ','))
}

proof fn lemma_split_nonempty(s: Seq<char>, c: char)
    ensures
        split_char(s, c).len() >= 1,
    decreases s.len(),
{
    if s.len() > 0 {
        lemma_split_nonempty(s.drop_last(), c);
    }
}

/// The pieces of `raw` between the `c` separators (`str::split`).
pub(crate) fn split_pieces(raw: &str, c: char) -> (r: Vec<String>)
    ensures
        strings_view(r@) == split_char(raw@, c),
{
    let s = chars_of(raw);
    let n = s.len();
    let mut out: Vec<String> = Vec::new();
    let mut start: usize = 0;
    let mut i: usize = 0;
    proof {
        assert(s@.take(0) == Seq::<char>::empty());
    }
    while i < n
        invariant
            n == s@.len(),
            s@ == raw@,
            start <= i <= n,
            split_char(s@.take(i as int), c).len() >= 1,
            split_char(s@.take(i as int), c).last() == s@.subrange(start as int, i as int),
            strings_view(out@) == split_char(s@.take(i as int), c).drop_last(),
        decreases n - i,
    {
        let ghost f = split_char(s@.take(i as int), c);
        let ghost g = split_char(s@.take(i + 1), c);
        assert(s@.take(i + 1).drop_last() == s@.take(i as int));
        assert(s@.take(i + 1).last() == s@[i as int]);
        if s[i] == c {
            assert(g == f.push(Seq::<char>::empty()));
            assert(g.drop_last() == f);
            assert(f.drop_last().push(f.last()) == f);
            let piece = string_of(s.as_slice(), start, i);
            out.push(piece);
            assert(strings_view(out@) == strings_view(out@.drop_last()).push(piece@));
            start = i + 1;
        } else {
            assert(g == f.update(f.len() - 1, f.last().push(s@[i as int])));
            assert(g.drop_last() == f.drop_last());
            assert(s@.subrange(start as int, i + 1) == s@.subrange(start as int, i as int).push(
                s@[i as int],
            ));
        }
        i += 1;
    }
    proof {
        assert(s@.take(n as int) == s@);
        let f = split_char(s@, c);
        assert(f.drop_last().push(f.last()) == f);
    }
    let piece = string_of(s.as_slice(), start, n);
    out.push(piece);
    assert(strings_view(out@) == strings_view(out@.drop_last()).push(piece@));
    out
}

fn parse_csv(raw: &str) -> (r: Vec<String>)
    ensures
        strings_view(r@) == csv_fields(raw@),
{
    reveal(csv_fields);
    let s = chars_of(raw);
    let n = s.len();
    let mut out: Vec<String> = Vec::new();
    let mut start: usize = 0;
    let mut i: usize = 0;
    proof {
        assert(s@.take(0) == Seq::<char>::empty());
    }
    while i < n
        invariant
            n == s@.len(),
            s@ == raw@,
            start <= i <= n,
            split_char(s@.take(i as int), ',').len() >= 1,
            split_char(s@.take(i as int), ',').last() == s@.subrange(start as int, i as int),
            strings_view(out@) == nonblank_trimmed(split_char(s@.take(i as int), ',').drop_last()),
        decreases n - i,
    {
        let ghost f = split_char(s@.take(i as int), ',');
        let ghost g = split_char(s@.take(i + 1), ',');
        assert(s@.take(i + 1).drop_last() == s@.take(i as int));
        assert(s@.take(i + 1).last() == s@[i as int]);
        if s[i] == ',' {
            assert(g == f.push(Seq::<char>::empty()));
            assert(g.drop_last() == f);
            assert(f.drop_last().push(f.last()) == f);
            let (a, b) = trim_bounds_pub(s.as_slice(), start, i);
            if a < b {
                let piece = string_of(s.as_slice(), a, b);
                out.push(piece);
                assert(strings_view(out@) == strings_view(out@.drop_last()).push(piece@));
            }
            proof {
                assert(out@.len() == strings_view(out@).len());
            }
            start = i + 1;
        } else {
            assert(g == f.update(f.len() - 1, f.last().push(s@[i as int])));
            assert(g.drop_last() == f.drop_last());
            assert(s@.subrange(start as int, i + 1) == s@.subrange(start as int, i as int).push(
                s@[i as int],
            ));
        }
        i += 1;
    }
    proof {
        assert(s@.take(n as int) == s@);
        let f = split_char(s@, ',');
        assert(f.drop_last().push(f.last()) == f);
    }
    let (a, b) = trim_bounds_pub(s.as_slice(), start, n);
    if a < b {
        let piece = string_of(s.as_slice(), a, b);
        out.push(piece);
        assert(strings_view(out@) == strings_view(out@.drop_last()).push(piece@));
    }
    out
}


/// The integers of a track list; the first entry that is not one is the error.
pub open spec fn track_index_list(fields: Seq<Seq<char>>) -> Result<Seq<i32>, Seq<char>>
    decreases fields.len(),
{
    if fields.len() == 0 {
        Ok(Seq::empty())
    } else {
        match track_index_list(fields.drop_last()) {
            Err(m) => Err(m),
            Ok(v) => match parse_i32(fields.last()) {
                None => Err("Invalid track index "@ + fields.last()),
                Some(x) => Ok(v.push(x)),
            },
        }
    }
}

proof fn lemma_track_list_error_stays(f: Seq<Seq<char>>, j: int)
    requires
        0 <= j <= f.len(),
        track_index_list(f.take(j)) is Err,
    ensures
        track_index_list(f) == track_index_list(f.take(j)),
    decreases f.len(),
{
    if j == f.len() {
        assert(f.take(j) == f);
    } else {
        assert(f.drop_last().take(j) == f.take(j));
        lemma_track_list_error_stays(f.drop_last(), j);
    }
}

fn parse_track_list(fields: &Vec<String>) -> (r: Result<Vec<i32>, String>)
    ensures
        match r {
            Ok(v) => track_index_list(strings_view(fields@)) == Ok::<Seq<i32>, Seq<char>>(v@),
            Err(m) => track_index_list(strings_view(fields@)) == Err::<Seq<i32>, Seq<char>>(m@),
        },
{
    let ghost names = strings_view(fields@);
    let mut out: Vec<i32> = Vec::new();
    let mut i: usize = 0;
    proof {
        assert(names.take(0) == Seq::<Seq<char>>::empty());
    }
    while i < fields.len()
        invariant
            i <= fields@.len(),
            names == strings_view(fields@),
            track_index_list(names.take(i as int)) == Ok::<Seq<i32>, Seq<char>>(out@),
        decreases fields.len() - i,
    {
        assert(names.take(i + 1).drop_last() == names.take(i as int));
        assert(names.take(i + 1).last() == fields@[i as int]@);
        let cs = chars_of(fields[i].as_str());
        match parse_i32_chars(cs.as_slice()) {
            None => {
                let mut msg = String::from_str("Invalid track index ");
                msg.append(fields[i].as_str());
                proof {
                    lemma_track_list_error_stays(names, i + 1);
                }
                return Err(msg);
            },
            Some(x) => {
                out.push(x);
            },
        }
        i += 1;
    }
    assert(names.take(fields@.len() as int) == names);
    Ok(out)
}

/// The `&str` views of a list of strings.
fn str_refs<'a>(v: &'a Vec<String>) -> (r: Vec<&'a str>)
    ensures
        strs_view(r@) == strings_view(v@),
{
    let mut out: Vec<&'a str> = Vec::new();
    let mut i: usize = 0;
    while i < v.len()
        invariant
            i <= v@.len(),
            strs_view(out@) == strings_view(v@.take(i as int)),
        decreases v.len() - i,
    {
        out.push(v[i].as_str());
        assert(strs_view(out@) == strs_view(out@.drop_last()).push(v@[i as int]@));
        assert(v@.take(i + 1).drop_last() == v@.take(i as int));
        assert(strings_view(v@.take(i + 1)) == strings_view(v@.take(i as int)).push(v@[i as int]@));
        i += 1;
    }
    assert(v@.take(v@.len() as int) == v@);
    out
}

fn copy_strings(v: &Vec<String>) -> (r: Vec<String>)
    ensures
        strings_view(r@) == strings_view(v@),
{
    let mut out: Vec<String> = Vec::new();
    let mut i: usize = 0;
    while i < v.len()
        invariant
            i <= v@.len(),
            strings_view(out@) == strings_view(v@.take(i as int)),
        decreases v.len() - i,
    {
        let c = copy_str(v[i].as_str());
        out.push(c);
        assert(strings_view(out@) == strings_view(out@.drop_last()).push(c@));
        assert(v@.take(i + 1).drop_last() == v@.take(i as int));
        assert(strings_view(v@.take(i + 1)) == strings_view(v@.take(i as int)).push(v@[i as int]@));
        i += 1;
    }
    assert(v@.take(v@.len() as int) == v@);
    out
}

fn copy_opt_string(o: &Option<String>) -> (r: Option<String>)
    ensures
        ostr(r) == ostr(*o),
{
    match o {
        Some(s) => Some(copy_str(s.as_str())),
        None => None,
    }
}


// ---------------------------------------------------------------------------
// What the options make of the settings
// ---------------------------------------------------------------------------

/// The drive offset given, 0 without `-s`.
pub open spec fn cli_offset(a: CliArgs) -> i32 {
    match a.offset {
        Some(o) => o,
        None => 0,
    }
}

/// The paranoia level `-P` names before its range is checked.
pub open spec fn cli_paranoia(a: CliArgs) -> i32 {
    match a.paranoia {
        Some(p) => paranoia_level_named(p@, MAX_PARANOIA_LEVEL),
        None => MAX_PARANOIA_LEVEL,
    }
}

pub open spec fn cover_size_named(size: i32) -> Option<CoverArtLookupSize> {
    if size == -1 {
        Some(CoverArtLookupSize::Original)
    } else if size == 250 {
        Some(CoverArtLookupSize::Px250)
    } else if size == 500 {
        Some(CoverArtLookupSize::Px500)
    } else if size == 1200 {
        Some(CoverArtLookupSize::Px1200)
    } else {
        None
    }
}

pub open spec fn sanitize_named(t: Seq<char>) -> Option<SanitizeMethod> {
    if t == "simple"@ {
        Some(SanitizeMethod::Simple)
    } else if t == "os_simple"@ {
        Some(SanitizeMethod::OsSimple)
    } else if t == "unicode"@ {
        Some(SanitizeMethod::Unicode)
    } else if t == "os_unicode"@ {
        Some(SanitizeMethod::OsUnicode)
    } else {
        None
    }
}

/// What `-o` gives: its formats or its error (`None` without `-o`).
#[verifier::opaque]
pub open spec fn cli_outputs(a: CliArgs) -> Option<Result<Seq<OutputFormat>, Seq<char>>> {
    match a.outputs {
        Some(o) => Some(parse_outputs_spec(csv_fields(o@))),
        None => None,
    }
}

/// `-o help`: list the formats and stop.
pub open spec fn asks_outputs_help(a: CliArgs) -> bool {
    cli_outputs(a) == Some(Ok::<Seq<OutputFormat>, Seq<char>>(Seq::empty()))
}

/// The output formats of a run.
pub open spec fn cli_output_formats(a: CliArgs) -> Seq<OutputFormat> {
    match cli_outputs(a) {
        Some(Ok(v)) => if v.len() > 0 {
            v
        } else {
            seq![OutputFormat::Flac]
        },
        _ => seq![OutputFormat::Flac],
    }
}

/// What `-l` gives: its track numbers or its error (`None` without `-l`).
#[verifier::opaque]
pub open spec fn cli_tracks(a: CliArgs) -> Option<Result<Seq<i32>, Seq<char>>> {
    match a.tracks {
        Some(t) => Some(track_index_list(csv_fields(t@))),
        None => None,
    }
}

/// The pregap actions the `-p` entries set, and the first bad entry's error.
#[verifier::opaque]
pub open spec fn cli_pregaps(a: CliArgs) -> (Seq<PregapAction>, Option<Seq<char>>) {
    apply_pregap_spec(all_default_pregaps(), strings_view(a.pregap@), 0)
}

pub open spec fn paranoia_error(level: i32) -> Seq<char> {
    "Invalid paranoia level "@ + dec_int(level as int) + " must be between 0 and "@ + dec_int(
        MAX_PARANOIA_LEVEL as int,
    )
}

pub open spec fn cover_size_error(size: i32) -> Seq<char> {
    "Invalid max coverart size "@ + dec_int(size as int) + " (must be 250, 500, 1200 or -1)"@
}

pub open spec fn outputs_error(a: CliArgs) -> Option<Seq<char>> {
    match cli_outputs(a) {
        Some(Err(m)) => Some(m),
        _ => None,
    }
}

pub open spec fn tracks_error(a: CliArgs) -> Option<Seq<char>> {
    match cli_tracks(a) {
        Some(Err(m)) => Some(m),
        Some(Ok(v)) => match first_repeat(v) {
            Some(idx) => Some("Duplicated rip idx "@ + dec_int(idx as int)),
            None => None,
        },
        None => None,
    }
}

pub open spec fn sanitize_error(a: CliArgs) -> Option<Seq<char>> {
    match a.sanitize {
        Some(t) => if sanitize_named(t@) is Some {
            None
        } else {
            Some("Invalid sanitation method "@ + t@)
        },
        None => None,
    }
}

pub open spec fn release_error(a: CliArgs) -> Option<Seq<char>> {
    match a.release {
        Some(v) => match parse_i32(v@) {
            Some(i) => if i > 0 {
                None
            } else {
                Some("Invalid release index "@ + dec_int(i as int) + "!"@)
            },
            None => None,
        },
        None => None,
    }
}

pub open spec fn disc_error(a: CliArgs) -> Option<Seq<char>> {
    match a.disc {
        Some(d) => match parse_disc_spec(d@) {
            Err(m) => Some(m),
            Ok(_) => None,
        },
        None => None,
    }
}

/// The checks after the outputs, in the order they are made.
pub open spec fn late_error(a: CliArgs) -> Option<Seq<char>> {
    if tracks_error(a) is Some {
        tracks_error(a)
    } else if cli_pregaps(a).1 is Some {
        cli_pregaps(a).1
    } else if cli_output_formats(a).len() > 1 && !contains(a.folder_scheme@, "{format}"@) {
        Some("Directory name scheme must contain {format} with multiple output formats!"@)
    } else if a.info && a.cue_only {
        Some("-J (only generate a CUE sheet) cannot be used with -I (only print info)!"@)
    } else if release_error(a) is Some {
        release_error(a)
    } else {
        disc_error(a)
    }
}

/// The first error the options give, if any. `-Y` skips every check, and
/// `-o help` the checks after the outputs.
pub open spec fn cli_error(a: CliArgs) -> Option<Seq<char>> {
    if a.verify_log is Some {
        None
    } else if !(0 <= cli_paranoia(a) <= MAX_PARANOIA_LEVEL) {
        Some(paranoia_error(cli_paranoia(a)))
    } else if cover_size_named(a.cover_size) is None {
        Some(cover_size_error(a.cover_size))
    } else if sanitize_error(a) is Some {
        sanitize_error(a)
    } else if outputs_error(a) is Some {
        outputs_error(a)
    } else if asks_outputs_help(a) {
        None
    } else {
        late_error(a)
    }
}

/// The settings taken from the options as they are.
#[verifier::opaque]
pub open spec fn copied_fields(a: CliArgs, s: Settings) -> bool {
    &&& ostr(s.dev_path) == ostr(a.device)
    &&& ostr(s.verify_log) == ostr(a.verify_log)
    &&& s.folder_name_scheme@ == a.folder_scheme@
    &&& s.track_name_scheme@ == a.track_scheme@
    &&& s.log_name_scheme@ == a.log_scheme@
    &&& s.cue_name_scheme@ == a.cue_scheme@
    &&& s.speed == a.speed
    &&& s.max_retries == a.retries
    &&& s.ripping_retries == a.repeat_rips
    &&& s.offset_is_set == a.offset is Some
    &&& s.print_info_only == a.info
    &&& s.decode_hdcd == a.hdcd
    &&& s.deemphasis == !a.no_deemphasis
    &&& s.force_deemphasis == a.force_deemphasis
    &&& s.overread_leadinout == a.overread
    &&& s.disable_coverart_embedding == a.no_coverart_embed
    &&& s.enable_replaygain == !a.no_replaygain
    &&& s.generate_cue_only == a.cue_only
    &&& s.find_drive_offset == a.find_offset
    &&& ostr(s.album_metadata) == ostr(a.album_meta)
    &&& strings_view(s.track_metadata@) == strings_view(a.track_meta@)
    &&& strings_view(s.cover_specs@) == strings_view(a.cover@)
}

/// The mode flags and the offset as given, before any mode overrides them.
#[verifier::opaque]
pub open spec fn given_mode_fields(a: CliArgs, s: Settings) -> bool {
    &&& s.disable_mb == a.no_musicbrainz
    &&& s.disable_accurip == a.no_accurip
    &&& s.disable_coverart_db == a.no_coverart_db
    &&& s.eject_on_success_rip == a.eject
    &&& s.offset == cli_offset(a)
    &&& s.over_under_read_frames == over_under_read_frames(cli_offset(a) as int)
}

/// The mode flags and the offset once the modes have had their say: `-J`
/// needs no AccurateRip or cover art lookup, `-I` never ejects, and `-f`
/// looks up AccurateRip alone, at offset zero, without ejecting.
#[verifier::opaque]
pub open spec fn final_mode_fields(a: CliArgs, s: Settings) -> bool {
    if a.find_offset {
        &&& !s.disable_accurip
        &&& s.disable_mb
        &&& s.disable_coverart_db
        &&& !s.eject_on_success_rip
        &&& s.offset == 0
        &&& s.over_under_read_frames == 0
    } else {
        &&& s.disable_mb == a.no_musicbrainz
        &&& s.disable_accurip == (a.no_accurip || a.cue_only)
        &&& s.disable_coverart_db == (a.no_coverart_db || a.cue_only)
        &&& s.eject_on_success_rip == (a.eject && !a.info)
        &&& s.offset == cli_offset(a)
        &&& s.over_under_read_frames == over_under_read_frames(cli_offset(a) as int)
    }
}

/// Paranoia level, cover art size and sanitation as the options name them.
#[verifier::opaque]
pub open spec fn early_fields(a: CliArgs, s: Settings) -> bool {
    &&& s.paranoia_level == cli_paranoia(a)
    &&& cover_size_named(a.cover_size) == Some(s.coverart_lookup_size)
    &&& match a.sanitize {
        Some(t) => sanitize_named(t@) == Some(s.sanitize_method),
        None => s.sanitize_method == SanitizeMethod::Unicode,
    }
}

/// Outputs, tracks (sorted), pregaps, release and disc as the options name them.
#[verifier::opaque]
pub open spec fn late_fields(a: CliArgs, s: Settings) -> bool {
    &&& s.outputs@ == cli_output_formats(a)
    &&& match cli_tracks(a) {
        Some(Ok(v)) => {
            &&& sorted_i32(s.rip_indices@)
            &&& s.rip_indices@.to_multiset() == v.to_multiset()
            &&& s.rip_indices@.len() == v.len()
            &&& s.rip_indices_count == v.len() as i32
        },
        _ => s.rip_indices@.len() == 0 && s.rip_indices_count == -1,
    }
    &&& s.pregap_action@ == cli_pregaps(a).0
    &&& match a.release {
        Some(v) => match parse_i32(v@) {
            Some(i) => s.release == Some(ReleaseSelection::Index(i)),
            None => s.release matches Some(ReleaseSelection::Id(id)) && id@ == v@,
        },
        None => s.release is None,
    }
    &&& match a.disc {
        Some(d) => parse_disc_spec(d@) == Ok::<(i32, i32), Seq<char>>((s.discnumber, s.totaldiscs)),
        None => s.discnumber == 0 && s.totaldiscs == 0,
    }
}

/// The configuration that error-free options make.
pub open spec fn cli_config_of(a: CliArgs, c: CliConfig) -> bool {
    if a.verify_log is Some {
        &&& c.action == CliAction::VerifyLog
        &&& ostr(c.settings.dev_path) == ostr(a.device)
        &&& ostr(c.settings.verify_log) == ostr(a.verify_log)
        &&& plain_fields_default(c.settings)
        &&& mode_fields_default(c.settings)
        &&& early_fields_default(c.settings)
        &&& late_fields_default(c.settings)
    } else if asks_outputs_help(a) {
        &&& c.action == CliAction::ShowOutputsHelp
        &&& copied_fields(a, c.settings)
        &&& given_mode_fields(a, c.settings)
        &&& early_fields(a, c.settings)
        &&& late_fields_default(c.settings)
    } else {
        &&& c.action == CliAction::Run
        &&& copied_fields(a, c.settings)
        &&& final_mode_fields(a, c.settings)
        &&& early_fields(a, c.settings)
        &&& late_fields(a, c.settings)
    }
}

/// An offset whose frame count the settings can hold.
pub open spec fn offset_in_range(a: CliArgs) -> bool {
    -2147483060 <= cli_offset(a) <= 2147483060
}


/// The settings the options give, with the early values parsed, before the
/// later values are parsed and checked.
fn given_settings(a: &CliArgs, level: i32, size: CoverArtLookupSize, method: SanitizeMethod) -> (s:
    Settings)
    requires
        offset_in_range(*a),
        level == cli_paranoia(*a),
        cover_size_named(a.cover_size) == Some(size),
        match a.sanitize {
            Some(t) => sanitize_named(t@) == Some(method),
            None => method == SanitizeMethod::Unicode,
        },
    ensures
        copied_fields(*a, s),
        given_mode_fields(*a, s),
        early_fields(*a, s),
        late_fields_default(s),
{
    reveal(copied_fields);
    reveal(given_mode_fields);
    reveal(early_fields);
    let offset: i32 = match a.offset {
        Some(o) => o,
        None => 0,
    };
    let defaults = Settings::default();
    Settings {
        dev_path: copy_opt_string(&a.device),
        verify_log: copy_opt_string(&a.verify_log),
        offset,
        offset_is_set: a.offset.is_some(),
        over_under_read_frames: calc_over_under_read_frames(offset),
        max_retries: a.retries,
        ripping_retries: a.repeat_rips,
        speed: a.speed,
        overread_leadinout: a.overread,
        decode_hdcd: a.hdcd,
        force_deemphasis: a.force_deemphasis,
        deemphasis: !a.no_deemphasis,
        enable_replaygain: !a.no_replaygain,
        disable_mb: a.no_musicbrainz,
        disable_accurip: a.no_accurip,
        disable_coverart_db: a.no_coverart_db,
        disable_coverart_embedding: a.no_coverart_embed,
        print_info_only: a.info,
        generate_cue_only: a.cue_only,
        eject_on_success_rip: a.eject,
        find_drive_offset: a.find_offset,
        album_metadata: copy_opt_string(&a.album_meta),
        track_metadata: copy_strings(&a.track_meta),
        cover_specs: copy_strings(&a.cover),
        folder_name_scheme: copy_str(a.folder_scheme.as_str()),
        track_name_scheme: copy_str(a.track_scheme.as_str()),
        log_name_scheme: copy_str(a.log_scheme.as_str()),
        cue_name_scheme: copy_str(a.cue_scheme.as_str()),
        paranoia_level: level,
        coverart_lookup_size: size,
        sanitize_method: method,
        ..defaults
    }
}

/// The sorted track numbers of `-l` (`None` without it), or its error.
fn track_selection(a: &CliArgs) -> (r: Result<Option<Vec<i32>>, String>)
    ensures
        match r {
            Ok(None) => cli_tracks(*a) is None,
            Ok(Some(v)) => tracks_error(*a) is None && match cli_tracks(*a) {
                Some(Ok(t)) => sorted_i32(v@) && v@.to_multiset() == t.to_multiset() && v@.len()
                    == t.len(),
                _ => false,
            },
            Err(m) => tracks_error(*a) == Some(m@),
        },
{
    reveal(cli_tracks);
    match &a.tracks {
        Some(raw) => {
            let list = parse_csv(raw.as_str());
            let ints = match parse_track_list(&list) {
                Ok(v) => v,
                Err(m) => {
                    return Err(m);
                },
            };
            match parse_track_indices(ints.as_slice()) {
                Ok(v) => Ok(Some(v)),
                Err(m) => Err(m),
            }
        },
        None => Ok(None),
    }
}

/// The pregap actions of the `-p` entries, or the first bad entry's error.
fn pregap_selection(a: &CliArgs) -> (r: Result<[PregapAction; 198], String>)
    ensures
        match r {
            Ok(p) => cli_pregaps(*a).1 is None && p@ == cli_pregaps(*a).0,
            Err(m) => cli_pregaps(*a).1 == Some(m@),
        },
{
    reveal(cli_pregaps);
    let mut pregap: [PregapAction; 198] = [PregapAction::Default; 198];
    assert(pregap@ == all_default_pregaps());
    if a.pregap.len() > 0 {
        let refs = str_refs(&a.pregap);
        match apply_pregap_entries(&mut pregap, refs.as_slice()) {
            Ok(()) => Ok(pregap),
            Err(m) => Err(m),
        }
    } else {
        assert(strings_view(a.pregap@) == Seq::<Seq<char>>::empty());
        Ok(pregap)
    }
}

/// The release `-R` selects (`None` without it), or its error.
fn release_selection(a: &CliArgs) -> (r: Result<Option<ReleaseSelection>, String>)
    ensures
        match r {
            Ok(rel) => release_error(*a) is None && match a.release {
                Some(v) => match parse_i32(v@) {
                    Some(i) => rel == Some(ReleaseSelection::Index(i)),
                    None => rel matches Some(ReleaseSelection::Id(id)) && id@ == v@,
                },
                None => rel is None,
            },
            Err(m) => release_error(*a) == Some(m@),
        },
{
    match &a.release {
        Some(v) => match parse_release(v.as_str()) {
            Ok(rel) => Ok(Some(rel)),
            Err(m) => Err(m),
        },
        None => Ok(None),
    }
}

/// Disc number and total of `-c` (zeros without it), or its error.
fn disc_selection(a: &CliArgs) -> (r: Result<(i32, i32), String>)
    ensures
        match r {
            Ok((d, t)) => disc_error(*a) is None && match a.disc {
                Some(v) => parse_disc_spec(v@) == Ok::<(i32, i32), Seq<char>>((d, t)),
                None => d == 0 && t == 0,
            },
            Err(m) => disc_error(*a) == Some(m@),
        },
{
    match &a.disc {
        Some(v) => parse_disc(v.as_str()),
        None => Ok((0, 0)),
    }
}

/// The settings of a run: those given, the parsed values, and the overrides of
/// the modes.
#[verifier::spinoff_prover]
fn run_settings(
    a: &CliArgs,
    base: Settings,
    outputs: Vec<OutputFormat>,
    tracks: Option<Vec<i32>>,
    pregap: [PregapAction; 198],
    release: Option<ReleaseSelection>,
    disc: (i32, i32),
) -> (s: Settings)
    requires
        copied_fields(*a, base),
        given_mode_fields(*a, base),
        early_fields(*a, base),
        outputs@ == cli_output_formats(*a),
        match tracks {
            Some(v) => match cli_tracks(*a) {
                Some(Ok(t)) => sorted_i32(v@) && v@.to_multiset() == t.to_multiset() && v@.len()
                    == t.len(),
                _ => false,
            },
            None => cli_tracks(*a) is None,
        },
        pregap@ == cli_pregaps(*a).0,
        match a.release {
            Some(v) => match parse_i32(v@) {
                Some(i) => release == Some(ReleaseSelection::Index(i)),
                None => release matches Some(ReleaseSelection::Id(id)) && id@ == v@,
            },
            None => release is None,
        },
        match a.disc {
            Some(v) => parse_disc_spec(v@) == Ok::<(i32, i32), Seq<char>>(disc),
            None => disc.0 == 0 && disc.1 == 0,
        },
    ensures
        copied_fields(*a, s),
        final_mode_fields(*a, s),
        early_fields(*a, s),
        late_fields(*a, s),
{
    let find = base.find_drive_offset;
    let disable_accurip = if find {
        false
    } else {
        base.disable_accurip || base.generate_cue_only
    };
    let disable_coverart_db = find || base.disable_coverart_db || base.generate_cue_only;
    let disable_mb = find || base.disable_mb;
    let eject = !find && base.eject_on_success_rip && !base.print_info_only;
    let offset = if find {
        0
    } else {
        base.offset
    };
    let over_under_read_frames = if find {
        0
    } else {
        base.over_under_read_frames
    };
    let (rip_indices, rip_indices_count) = match tracks {
        Some(v) => {
            let n = v.len() as i32;
            (v, n)
        },
        None => (Vec::new(), -1),
    };
    let ghost b = base;
    let s = Settings {
        disable_accurip,
        disable_coverart_db,
        disable_mb,
        eject_on_success_rip: eject,
        offset,
        over_under_read_frames,
        outputs,
        rip_indices,
        rip_indices_count,
        pregap_action: pregap,
        release,
        discnumber: disc.0,
        totaldiscs: disc.1,
        ..base
    };
    assert(copied_fields(*a, s)) by {
        reveal(copied_fields);
    }
    assert(early_fields(*a, s)) by {
        reveal(early_fields);
    }
    assert(final_mode_fields(*a, s)) by {
        reveal(copied_fields);
        reveal(given_mode_fields);
        reveal(final_mode_fields);
    }
    assert(late_fields(*a, s)) by {
        reveal(late_fields);
    }
    s
}

/// The checks after the outputs, for a run: the first failing one's error, or
/// the settings.
fn finish_run(a: &CliArgs, base: Settings, outputs: Vec<OutputFormat>) -> (r: Result<CliConfig, String>)
    requires
        a.verify_log is None,
        !asks_outputs_help(*a),
        copied_fields(*a, base),
        given_mode_fields(*a, base),
        early_fields(*a, base),
        outputs@ == cli_output_formats(*a),
    ensures
        match r {
            Ok(c) => late_error(*a) is None && c.action == CliAction::Run && copied_fields(
                *a,
                c.settings,
            ) && final_mode_fields(*a, c.settings) && early_fields(*a, c.settings) && late_fields(
                *a,
                c.settings,
            ),
            Err(m) => late_error(*a) == Some(m@),
        },
{
    let tracks = match track_selection(a) {
        Ok(t) => t,
        Err(m) => {
            return Err(m);
        },
    };
    let pregap = match pregap_selection(a) {
        Ok(p) => p,
        Err(m) => {
            return Err(m);
        },
    };
    match validate_folder_scheme(outputs.len(), a.folder_scheme.as_str()) {
        Ok(()) => {},
        Err(m) => {
            return Err(m);
        },
    }
    match validate_mode_combo(a.info, a.cue_only) {
        Ok(()) => {},
        Err(m) => {
            return Err(m);
        },
    }
    let release = match release_selection(a) {
        Ok(rel) => rel,
        Err(m) => {
            return Err(m);
        },
    };
    let disc = match disc_selection(a) {
        Ok(d) => d,
        Err(m) => {
            return Err(m);
        },
    };
    let settings = run_settings(a, base, outputs, tracks, pregap, release, disc);
    Ok(CliConfig { settings, action: CliAction::Run })
}

/// Paranoia level, cover art size and sanitation, or the first of their errors.
fn early_selection(a: &CliArgs) -> (r: Result<(i32, CoverArtLookupSize, SanitizeMethod), String>)
    ensures
        match r {
            Ok((level, size, method)) => {
                &&& 0 <= cli_paranoia(*a) <= MAX_PARANOIA_LEVEL
                &&& level == cli_paranoia(*a)
                &&& cover_size_named(a.cover_size) == Some(size)
                &&& sanitize_error(*a) is None
                &&& match a.sanitize {
                    Some(t) => sanitize_named(t@) == Some(method),
                    None => method == SanitizeMethod::Unicode,
                }
            },
            Err(m) => if !(0 <= cli_paranoia(*a) <= MAX_PARANOIA_LEVEL) {
                m@ == paranoia_error(cli_paranoia(*a))
            } else if cover_size_named(a.cover_size) is None {
                m@ == cover_size_error(a.cover_size)
            } else {
                sanitize_error(*a) == Some(m@)
            },
        },
{
    let level = match &a.paranoia {
        Some(p) => match parse_paranoia(p.as_str(), MAX_PARANOIA_LEVEL) {
            Ok(level) => level,
            Err(m) => {
                return Err(m);
            },
        },
        None => MAX_PARANOIA_LEVEL,
    };
    let size = match parse_cover_size(a.cover_size) {
        Ok(size) => size,
        Err(m) => {
            return Err(m);
        },
    };
    let method = match &a.sanitize {
        Some(t) => match parse_sanitize(t.as_str()) {
            Ok(method) => method,
            Err(m) => {
                return Err(m);
            },
        },
        None => SanitizeMethod::Unicode,
    };
    Ok((level, size, method))
}

/// The formats `-o` names (empty for `help`; `None` without `-o`), or its error.
fn output_selection(a: &CliArgs) -> (r: Result<Option<Vec<OutputFormat>>, String>)
    ensures
        match r {
            Ok(None) => cli_outputs(*a) is None,
            Ok(Some(v)) => cli_outputs(*a) == Some(Ok::<Seq<OutputFormat>, Seq<char>>(v@)),
            Err(m) => outputs_error(*a) == Some(m@),
        },
{
    reveal(cli_outputs);
    match &a.outputs {
        Some(raw) => {
            let list = parse_csv(raw.as_str());
            let refs = str_refs(&list);
            match parse_outputs(refs.as_slice()) {
                Ok(v) => Ok(Some(v)),
                Err(m) => Err(m),
            }
        },
        None => Ok(None),
    }
}

impl CliArgs {
    /// The settings and the action the options ask for, or the first error.
    #[verifier::spinoff_prover]
    pub fn to_config(&self) -> (r: Result<CliConfig, String>)
        requires
            self.verify_log is None ==> offset_in_range(*self),
        ensures
            match r {
                Ok(c) => cli_error(*self) is None && cli_config_of(*self, c),
                Err(m) => cli_error(*self) == Some(m@),
            },
    {
        if self.verify_log.is_some() {
            let mut settings = Settings::default();
            settings.dev_path = copy_opt_string(&self.device);
            settings.verify_log = copy_opt_string(&self.verify_log);
            return Ok(CliConfig { settings, action: CliAction::VerifyLog });
        }
        let (level, size, method) = match early_selection(self) {
            Ok(e) => e,
            Err(m) => {
                return Err(m);
            },
        };
        let outputs = match output_selection(self) {
            Ok(o) => o,
            Err(m) => {
                return Err(m);
            },
        };
        let settings = given_settings(self, level, size, method);
        match outputs {
            Some(v) => {
                if v.len() == 0 {
                    assert(v@ == Seq::<OutputFormat>::empty());
                    return Ok(CliConfig { settings, action: CliAction::ShowOutputsHelp });
                }
                finish_run(self, settings, v)
            },
            None => {
                let mut v: Vec<OutputFormat> = Vec::new();
                v.push(OutputFormat::Flac);
                finish_run(self, settings, v)
            },
        }
    }
}

} // verus!
