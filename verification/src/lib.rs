//! Verified core of a CD ripper: option parsing, naming schemes, CUE sheets,
//! rip reports, the paranoia re-read engine, disc identifiers and checksums.
use vstd::prelude::*;

pub mod audio;
pub mod cdda;
pub mod cli;
pub mod cue;
pub mod cue_round_trip;
pub mod full_rip;
pub mod path_trim_law;
pub mod pregap_law;
pub mod hashing;
pub mod info_report;
pub mod find_offset;
pub mod fun512;
pub mod log_report;
pub mod metadata;
pub mod naming;
pub mod runtime_cue;
pub mod tags;
pub mod text;
pub mod track_meta;
pub mod track_output;
pub mod track_read;
pub mod workflow;

use crate::text::{
    chars_of, contains, copy_str, dec, dec_int, digits_value, find_char, find_char_from,
    find_char_in, is_digit, is_space, msg_view, parse_i32, parse_i32_chars, parse_usize,
    parse_usize_chars, push_dec, push_dec_i64, str_contains, str_ends_with, str_eq,
    str_starts_with, string_of, strs_view,
};

verus! {

pub const MAX_TRACKS: usize = 198;

pub const MAX_OUTPUTS: usize = 32;

pub const MAX_PARANOIA_LEVEL: i32 = 3;

const CD_FRAMESIZE_RAW_DIV4: i32 = 588;

#[derive(Debug, Clone, Copy, PartialEq, Eq, Structural)]
pub enum DriverKind {
    BinCue,
    Cue,
    Nrg,
    CdrDao,
    Unknown,
}

#[derive(Debug, Clone, Copy, PartialEq, Eq, Structural)]
pub enum OutputFormat {
    Flac,
    Mp3,
    Tta,
    Opus,
    Aac,
    AacMp4,
    Wavpack,
    Vorbis,
    Alac,
    AlacMp4,
    Wav,
    OpusMp4,
    Pcm,
}

/// The command-line name of each output format.
pub open spec fn output_format_cli_name(f: OutputFormat) -> Seq<char> {
    match f {
        OutputFormat::Flac => "flac"@,
        OutputFormat::Mp3 => "mp3"@,
        OutputFormat::Tta => "tta"@,
        OutputFormat::Opus => "opus"@,
        OutputFormat::Aac => "aac"@,
        OutputFormat::AacMp4 => "aac_mp4"@,
        OutputFormat::Wavpack => "wavpack"@,
        OutputFormat::Vorbis => "vorbis"@,
        OutputFormat::Alac => "alac"@,
        OutputFormat::AlacMp4 => "alac_mp4"@,
        OutputFormat::Wav => "wav"@,
        OutputFormat::OpusMp4 => "opus_mp4"@,
        OutputFormat::Pcm => "pcm"@,
    }
}

/// The format whose command-line name is `name`, if any.
pub open spec fn output_format_named(name: Seq<char>) -> Option<OutputFormat> {
    if name == "flac"@ {
        Some(OutputFormat::Flac)
    } else if name == "mp3"@ {
        Some(OutputFormat::Mp3)
    } else if name == "tta"@ {
        Some(OutputFormat::Tta)
    } else if name == "opus"@ {
        Some(OutputFormat::Opus)
    } else if name == "aac"@ {
        Some(OutputFormat::Aac)
    } else if name == "aac_mp4"@ {
        Some(OutputFormat::AacMp4)
    } else if name == "wavpack"@ {
        Some(OutputFormat::Wavpack)
    } else if name == "vorbis"@ {
        Some(OutputFormat::Vorbis)
    } else if name == "alac"@ {
        Some(OutputFormat::Alac)
    } else if name == "alac_mp4"@ {
        Some(OutputFormat::AlacMp4)
    } else if name == "wav"@ {
        Some(OutputFormat::Wav)
    } else if name == "opus_mp4"@ {
        Some(OutputFormat::OpusMp4)
    } else if name == "pcm"@ {
        Some(OutputFormat::Pcm)
    } else {
        None
    }
}

impl OutputFormat {
    pub fn from_cli_name(name: &str) -> (r: Option<Self>)
        ensures
            r == output_format_named(name@),
    {
        if str_eq(name, "flac") {
            Some(Self::Flac)
        } else if str_eq(name, "mp3") {
            Some(Self::Mp3)
        } else if str_eq(name, "tta") {
            Some(Self::Tta)
        } else if str_eq(name, "opus") {
            Some(Self::Opus)
        } else if str_eq(name, "aac") {
            Some(Self::Aac)
        } else if str_eq(name, "aac_mp4") {
            Some(Self::AacMp4)
        } else if str_eq(name, "wavpack") {
            Some(Self::Wavpack)
        } else if str_eq(name, "vorbis") {
            Some(Self::Vorbis)
        } else if str_eq(name, "alac") {
            Some(Self::Alac)
        } else if str_eq(name, "alac_mp4") {
            Some(Self::AlacMp4)
        } else if str_eq(name, "wav") {
            Some(Self::Wav)
        } else if str_eq(name, "opus_mp4") {
            Some(Self::OpusMp4)
        } else if str_eq(name, "pcm") {
            Some(Self::Pcm)
        } else {
            None
        }
    }

    /// The name of the format on the command line.
    pub fn cli_name(self) -> (r: &'static str)
        ensures
            r@ == output_format_cli_name(self),
    {
        match self {
            Self::Flac => "flac",
            Self::Mp3 => "mp3",
            Self::Tta => "tta",
            Self::Opus => "opus",
            Self::Aac => "aac",
            Self::AacMp4 => "aac_mp4",
            Self::Wavpack => "wavpack",
            Self::Vorbis => "vorbis",
            Self::Alac => "alac",
            Self::AlacMp4 => "alac_mp4",
            Self::Wav => "wav",
            Self::OpusMp4 => "opus_mp4",
            Self::Pcm => "pcm",
        }
    }
}

#[derive(Debug, Clone, Copy, PartialEq, Eq, Structural)]
pub enum SanitizeMethod {
    Simple,
    OsSimple,
    Unicode,
    OsUnicode,
}

#[derive(Debug, Clone, Copy, PartialEq, Eq, Structural)]
pub enum PregapAction {
    Default,
    Drop,
    Merge,
    Track,
}

#[derive(Debug, Clone, Copy, PartialEq, Eq, Structural)]
pub enum CoverArtLookupSize {
    Original,
    Px250,
    Px500,
    Px1200,
}

#[derive(Debug, Clone, PartialEq, Eq)]
pub enum ReleaseSelection {
    Index(i32),
    Id(String),
}

/// Everything a rip is configured with.
#[derive(Debug, Clone, PartialEq)]
pub struct Settings {
    pub dev_path: Option<String>,
    pub folder_name_scheme: String,
    pub track_name_scheme: String,
    pub log_name_scheme: String,
    pub cue_name_scheme: String,
    pub sanitize_method: SanitizeMethod,
    pub speed: i32,
    pub max_retries: i32,
    pub over_under_read_frames: i32,
    pub offset: i32,
    pub offset_is_set: bool,
    pub ripping_retries: i32,
    pub print_info_only: bool,
    pub disable_mb: bool,
    pub disable_coverart_db: bool,
    pub coverart_lookup_size: CoverArtLookupSize,
    pub decode_hdcd: bool,
    pub deemphasis: bool,
    pub force_deemphasis: bool,
    pub overread_leadinout: bool,
    pub rip_indices_count: i32,
    pub disable_accurip: bool,
    pub eject_on_success_rip: bool,
    pub outputs: Vec<OutputFormat>,
    pub disable_coverart_embedding: bool,
    pub enable_replaygain: bool,
    pub paranoia_level: i32,
    pub pregap_action: [PregapAction; MAX_TRACKS],
    pub rip_indices: Vec<i32>,
    pub release: Option<ReleaseSelection>,
    pub discnumber: i32,
    pub totaldiscs: i32,
    pub generate_cue_only: bool,
    pub find_drive_offset: bool,
    pub verify_log: Option<String>,
    pub album_metadata: Option<String>,
    pub track_metadata: Vec<String>,
    pub cover_specs: Vec<String>,
}

pub open spec fn default_folder_scheme() -> Seq<char> {
    "{album}{if #releasecomment# > #0# (|releasecomment|)} [{format}]"@
}

pub open spec fn default_track_scheme() -> Seq<char> {
    "{if #totaldiscs# > #1#|disc|.}{track} - {title}"@
}

/// The default name scheme of the log and of the CUE sheet.
pub open spec fn default_sheet_scheme() -> Seq<char> {
    "{album}{if #totaldiscs# > #1# CD|disc|}"@
}

/// No pregap handling was asked for on any track.
pub open spec fn all_default_pregaps() -> Seq<PregapAction> {
    Seq::new(MAX_TRACKS as nat, |i: int| PregapAction::Default)
}

/// The name schemes and the values copied from the command line are the defaults
/// (the device and the log to verify aside).
pub open spec fn plain_fields_default(s: Settings) -> bool {
    &&& s.folder_name_scheme@ == default_folder_scheme()
    &&& s.track_name_scheme@ == default_track_scheme()
    &&& s.log_name_scheme@ == default_sheet_scheme()
    &&& s.cue_name_scheme@ == default_sheet_scheme()
    &&& s.speed == 0
    &&& s.max_retries == 10
    &&& s.ripping_retries == 0
    &&& !s.offset_is_set
    &&& !s.print_info_only
    &&& !s.decode_hdcd
    &&& s.deemphasis
    &&& !s.force_deemphasis
    &&& !s.overread_leadinout
    &&& !s.disable_coverart_embedding
    &&& s.enable_replaygain
    &&& !s.generate_cue_only
    &&& !s.find_drive_offset
    &&& s.album_metadata is None
    &&& s.track_metadata@.len() == 0
    &&& s.cover_specs@.len() == 0
}

/// The flags that the modes override, and the drive offset, are the defaults.
pub open spec fn mode_fields_default(s: Settings) -> bool {
    &&& !s.disable_mb
    &&& !s.disable_accurip
    &&& !s.disable_coverart_db
    &&& !s.eject_on_success_rip
    &&& s.offset == 0
    &&& s.over_under_read_frames == 0
}

/// The values parsed first (paranoia, cover size, sanitation) are the defaults.
pub open spec fn early_fields_default(s: Settings) -> bool {
    &&& s.paranoia_level == MAX_PARANOIA_LEVEL
    &&& s.coverart_lookup_size == CoverArtLookupSize::Original
    &&& s.sanitize_method == SanitizeMethod::Unicode
}

/// The values parsed last (outputs, tracks, pregaps, release, disc) are the defaults.
pub open spec fn late_fields_default(s: Settings) -> bool {
    &&& s.outputs@ == seq![OutputFormat::Flac]
    &&& s.rip_indices@.len() == 0
    &&& s.rip_indices_count == -1
    &&& s.pregap_action@ == all_default_pregaps()
    &&& s.release is None
    &&& s.discnumber == 0
    &&& s.totaldiscs == 0
}

pub open spec fn settings_default(s: Settings) -> bool {
    &&& s.dev_path is None
    &&& s.verify_log is None
    &&& plain_fields_default(s)
    &&& mode_fields_default(s)
    &&& early_fields_default(s)
    &&& late_fields_default(s)
}

impl Default for Settings {
    fn default() -> (s: Self)
        ensures
            settings_default(s),
    {
        let pregap_action: [PregapAction; MAX_TRACKS] = [PregapAction::Default; 198];
        assert(pregap_action@ == all_default_pregaps());
        let mut outputs: Vec<OutputFormat> = Vec::new();
        outputs.push(OutputFormat::Flac);
        Settings {
            dev_path: None,
            folder_name_scheme: String::from_str(
                "{album}{if #releasecomment# > #0# (|releasecomment|)} [{format}]",
            ),
            track_name_scheme: String::from_str("{if #totaldiscs# > #1#|disc|.}{track} - {title}"),
            log_name_scheme: String::from_str("{album}{if #totaldiscs# > #1# CD|disc|}"),
            cue_name_scheme: String::from_str("{album}{if #totaldiscs# > #1# CD|disc|}"),
            sanitize_method: SanitizeMethod::Unicode,
            speed: 0,
            max_retries: 10,
            over_under_read_frames: 0,
            offset: 0,
            offset_is_set: false,
            ripping_retries: 0,
            print_info_only: false,
            disable_mb: false,
            disable_coverart_db: false,
            coverart_lookup_size: CoverArtLookupSize::Original,
            decode_hdcd: false,
            deemphasis: true,
            force_deemphasis: false,
            overread_leadinout: false,
            rip_indices_count: -1,
            disable_accurip: false,
            eject_on_success_rip: false,
            outputs,
            disable_coverart_embedding: false,
            enable_replaygain: true,
            paranoia_level: MAX_PARANOIA_LEVEL,
            pregap_action,
            rip_indices: Vec::new(),
            release: None,
            discnumber: 0,
            totaldiscs: 0,
            generate_cue_only: false,
            find_drive_offset: false,
            verify_log: None,
            album_metadata: None,
            track_metadata: Vec::new(),
            cover_specs: Vec::new(),
        }
    }
}

pub fn ends_with(input: &str, suffix: &str) -> (r: bool)
    ensures
        r == text::ends_with(input@, suffix@),
{
    str_ends_with(input, suffix)
}

/// The image driver selected by a device path's extension.
pub open spec fn dev_kind_of(path: Seq<char>) -> DriverKind {
    if text::ends_with(path, ".bin"@) {
        DriverKind::BinCue
    } else if text::ends_with(path, ".cue"@) {
        DriverKind::Cue
    } else if text::ends_with(path, ".nrg"@) {
        DriverKind::Nrg
    } else if text::ends_with(path, ".toc"@) {
        DriverKind::CdrDao
    } else {
        DriverKind::Unknown
    }
}

pub fn open_dev_kind(dev_path: &str) -> (r: DriverKind)
    ensures
        r == dev_kind_of(dev_path@),
{
    if ends_with(dev_path, ".bin") {
        DriverKind::BinCue
    } else if ends_with(dev_path, ".cue") {
        DriverKind::Cue
    } else if ends_with(dev_path, ".nrg") {
        DriverKind::Nrg
    } else if ends_with(dev_path, ".toc") {
        DriverKind::CdrDao
    } else {
        DriverKind::Unknown
    }
}

/// Whole frames (of 588 stereo samples) needed to cover `offset` samples,
/// rounded away from zero and carrying the offset's sign.
pub open spec fn over_under_read_frames(offset: int) -> int {
    if offset == 0 {
        0
    } else if offset < 0 {
        -((-offset + 587) / 588)
    } else {
        (offset + 587) / 588
    }
}

pub fn calc_over_under_read_frames(offset: i32) -> (r: i32)
    requires
        -2147483060 <= offset <= 2147483060,
    ensures
        r == over_under_read_frames(offset as int),
{
    if offset == 0 {
        return 0;
    }
    let sign: i32 = if offset < 0 { -1 } else { 1 };
    let abs: i32 = if offset < 0 { -offset } else { offset };
    let frames = (abs + (CD_FRAMESIZE_RAW_DIV4 - 1)) / CD_FRAMESIZE_RAW_DIV4;
    sign * frames
}

// ---------------------------------------------------------------------------
// strtol-like paranoia level parsing
// ---------------------------------------------------------------------------

/// End of the run of whitespace starting at `i`.
pub open spec fn space_run_end(s: Seq<char>, i: int) -> int
    decreases s.len() - i,
{
    if 0 <= i < s.len() && is_space(s[i]) {
        space_run_end(s, i + 1)
    } else {
        i
    }
}

/// End of the run of ASCII digits starting at `i`.
pub open spec fn digit_run_end(s: Seq<char>, i: int) -> int
    decreases s.len() - i,
{
    if 0 <= i < s.len() && is_digit(s[i]) {
        digit_run_end(s, i + 1)
    } else {
        i
    }
}

pub open spec fn clamp_i32(v: int) -> i32 {
    if v > i32::MAX {
        i32::MAX
    } else if v < i32::MIN {
        i32::MIN
    } else {
        v as i32
    }
}

/// C's `strtol` restricted to `int`: skip leading whitespace, an optional
/// sign, then the longest run of digits (none gives 0), saturating at the
/// bounds of `i32`.
pub open spec fn strtol_i32(s: Seq<char>) -> i32 {
    let a = space_run_end(s, 0);
    let neg = a < s.len() && s[a] == '-';
    let b = if a < s.len() && (s[a] == '-' || s[a] == '+') { a + 1 } else { a };
    let e = digit_run_end(s, b);
    let v = digits_value(s.subrange(b, e)) as int;
    clamp_i32(if neg { -v } else { v })
}

pub proof fn lemma_run_ends_bounded(s: Seq<char>, i: int)
    requires
        0 <= i <= s.len(),
    ensures
        i <= space_run_end(s, i) <= s.len(),
        i <= digit_run_end(s, i) <= s.len(),
        forall|j: int| i <= j < digit_run_end(s, i) ==> #[trigger] is_digit(s[j]),
    decreases s.len() - i,
{
    if i < s.len() {
        lemma_run_ends_bounded(s, i + 1);
    }
}

fn c_style_strtol_i32(input: &str) -> (r: i32)
    ensures
        r == strtol_i32(input@),
{
    let s = chars_of(input);
    let n = s.len();
    let mut a: usize = 0;
    while a < n && is_whitespace_char(s[a])
        invariant
            a <= n == s@.len(),
            space_run_end(s@, 0) == space_run_end(s@, a as int),
        decreases n - a,
    {
        a += 1;
    }
    let neg = a < n && s[a] == '-';
    let b: usize = if a < n && (s[a] == '-' || s[a] == '+') { a + 1 } else { a };
    let big: u64 = 0x100_0000_0000u64;
    let mut v: u64 = 0;
    let mut e = b;
    while e < n && '0' <= s[e] && s[e] <= '9'
        invariant
            b <= e <= n == s@.len(),
            big == 0x100_0000_0000u64,
            digit_run_end(s@, b as int) == digit_run_end(s@, e as int),
            digits_value(s@.subrange(b as int, e as int)) < big ==> v == digits_value(
                s@.subrange(b as int, e as int),
            ),
            digits_value(s@.subrange(b as int, e as int)) >= big ==> v >= big,
            v <= big * 10 + 9,
        decreases n - e,
    {
        let d = (s[e] as u32 - 48) as u64;
        let ghost prev = s@.subrange(b as int, e as int);
        let ghost cur = s@.subrange(b as int, e + 1);
        assert(cur.drop_last() == prev);
        assert(digits_value(cur) == digits_value(prev) * 10 + d);
        if v < big {
            v = v * 10 + d;
        }
        e += 1;
    }
    let vi: i64 = if neg { -(v as i64) } else { v as i64 };
    if vi > 2147483647 {
        2147483647
    } else if vi < -2147483648 {
        -2147483648
    } else {
        vi as i32
    }
}

/// `char::is_whitespace`.
pub fn is_whitespace_char(c: char) -> (r: bool)
    ensures
        r == is_space(c),
{
    let u = c as u32;
    (0x09 <= u && u <= 0x0D) || u == 0x20 || u == 0x85 || u == 0xA0 || u == 0x1680 || (0x2000
        <= u && u <= 0x200A) || u == 0x2028 || u == 0x2029 || u == 0x202F || u == 0x205F || u
        == 0x3000
}

/// The paranoia level named by a `-Z` argument before range checking.
pub open spec fn paranoia_level_named(input: Seq<char>, max_level: i32) -> i32 {
    if input == "none"@ {
        0
    } else if input == "max"@ {
        max_level
    } else {
        strtol_i32(input)
    }
}

pub fn parse_paranoia(input: &str, max_level: i32) -> (r: Result<i32, String>)
    ensures
        ({
            let level = paranoia_level_named(input@, max_level);
            msg_view(r) == if 0 <= level <= max_level {
                Ok::<i32, Seq<char>>(level)
            } else {
                Err("Invalid paranoia level "@ + dec_int(level as int) + " must be between 0 and "@
                    + dec_int(max_level as int))
            }
        }),
{
    let level = if str_eq(input, "none") {
        0
    } else if str_eq(input, "max") {
        max_level
    } else {
        c_style_strtol_i32(input)
    };
    if 0 <= level && level <= max_level {
        Ok(level)
    } else {
        let mut msg = String::from_str("Invalid paranoia level ");
        push_dec_i64(&mut msg, level as i64);
        msg.append(" must be between 0 and ");
        push_dec_i64(&mut msg, max_level as i64);
        Err(msg)
    }
}

pub fn parse_cover_size(size: i32) -> (r: Result<CoverArtLookupSize, String>)
    ensures
        msg_view(r) == if size == -1 {
            Ok::<CoverArtLookupSize, Seq<char>>(CoverArtLookupSize::Original)
        } else if size == 250 {
            Ok(CoverArtLookupSize::Px250)
        } else if size == 500 {
            Ok(CoverArtLookupSize::Px500)
        } else if size == 1200 {
            Ok(CoverArtLookupSize::Px1200)
        } else {
            Err("Invalid max coverart size "@ + dec_int(size as int)
                + " (must be 250, 500, 1200 or -1)"@)
        },
{
    if size == -1 {
        Ok(CoverArtLookupSize::Original)
    } else if size == 250 {
        Ok(CoverArtLookupSize::Px250)
    } else if size == 500 {
        Ok(CoverArtLookupSize::Px500)
    } else if size == 1200 {
        Ok(CoverArtLookupSize::Px1200)
    } else {
        let mut msg = String::from_str("Invalid max coverart size ");
        push_dec_i64(&mut msg, size as i64);
        msg.append(" (must be 250, 500, 1200 or -1)");
        Err(msg)
    }
}

pub fn parse_sanitize(input: &str) -> (r: Result<SanitizeMethod, String>)
    ensures
        msg_view(r) == if input@ == "simple"@ {
            Ok::<SanitizeMethod, Seq<char>>(SanitizeMethod::Simple)
        } else if input@ == "os_simple"@ {
            Ok(SanitizeMethod::OsSimple)
        } else if input@ == "unicode"@ {
            Ok(SanitizeMethod::Unicode)
        } else if input@ == "os_unicode"@ {
            Ok(SanitizeMethod::OsUnicode)
        } else {
            Err("Invalid sanitation method "@ + input@)
        },
{
    if str_eq(input, "simple") {
        Ok(SanitizeMethod::Simple)
    } else if str_eq(input, "os_simple") {
        Ok(SanitizeMethod::OsSimple)
    } else if str_eq(input, "unicode") {
        Ok(SanitizeMethod::Unicode)
    } else if str_eq(input, "os_unicode") {
        Ok(SanitizeMethod::OsUnicode)
    } else {
        let mut msg = String::from_str("Invalid sanitation method ");
        msg.append(input);
        Err(msg)
    }
}

/// `-d N[/M]`: the disc number and, when given, the total number of discs
/// (0 when absent). Only the first two `/`-separated parts are read.
pub open spec fn parse_disc_spec(s: Seq<char>) -> Result<(i32, i32), Seq<char>> {
    let p1 = match find_char(s, '/') {
        Some(i) => i,
        None => s.len() as int,
    };
    match parse_i32(s.take(p1)) {
        None => Err("Invalid discnumber 0"@),
        Some(d) => if d <= 0 {
            Err("Invalid discnumber "@ + dec_int(d as int))
        } else if p1 == s.len() {
            Ok((d, 0i32))
        } else {
            let p2 = match find_char_from(s, '/', p1 + 1) {
                Some(j) => j,
                None => s.len() as int,
            };
            match parse_i32(s.subrange(p1 + 1, p2)) {
                None => Err("Invalid totaldiscs 0"@),
                Some(t) => if t <= 0 {
                    Err("Invalid totaldiscs "@ + dec_int(t as int))
                } else if d > t {
                    Err("discnumber "@ + dec_int(d as int) + " is larger than totaldiscs "@
                        + dec_int(t as int))
                } else {
                    Ok((d, t))
                },
            }
        },
    }
}

pub proof fn lemma_find_char_from_bounds(s: Seq<char>, c: char, from: int)
    ensures
        find_char_from(s, c, from) matches Some(i) ==> from <= i < s.len() && s[i] == c,
    decreases s.len() - from,
{
    if 0 <= from < s.len() && s[from] != c {
        lemma_find_char_from_bounds(s, c, from + 1);
    }
}

pub fn parse_disc(input: &str) -> (r: Result<(i32, i32), String>)
    ensures
        msg_view(r) == parse_disc_spec(input@),
{
    let s = chars_of(input);
    let n = s.len();
    proof {
        lemma_find_char_from_bounds(s@, '/', 0);
    }
    let p1 = match find_char_in(s.as_slice(), '/', 0) {
        Some(i) => i,
        None => n,
    };
    let first = string_of(s.as_slice(), 0, p1);
    let first_chars = chars_of(first.as_str());
    assert(s@.subrange(0, p1 as int) == s@.take(p1 as int));
    let d = match parse_i32_chars(first_chars.as_slice()) {
        None => {
            return Err(String::from_str("Invalid discnumber 0"));
        },
        Some(d) => d,
    };
    if d <= 0 {
        let mut msg = String::from_str("Invalid discnumber ");
        push_dec_i64(&mut msg, d as i64);
        return Err(msg);
    }
    if p1 == n {
        return Ok((d, 0));
    }
    proof {
        lemma_find_char_from_bounds(s@, '/', p1 + 1);
    }
    let p2 = match find_char_in(s.as_slice(), '/', p1 + 1) {
        Some(j) => j,
        None => n,
    };
    let second = string_of(s.as_slice(), p1 + 1, p2);
    let second_chars = chars_of(second.as_str());
    let t = match parse_i32_chars(second_chars.as_slice()) {
        None => {
            return Err(String::from_str("Invalid totaldiscs 0"));
        },
        Some(t) => t,
    };
    if t <= 0 {
        let mut msg = String::from_str("Invalid totaldiscs ");
        push_dec_i64(&mut msg, t as i64);
        return Err(msg);
    }
    if d > t {
        let mut msg = String::from_str("discnumber ");
        push_dec_i64(&mut msg, d as i64);
        msg.append(" is larger than totaldiscs ");
        push_dec_i64(&mut msg, t as i64);
        return Err(msg);
    }
    Ok((d, t))
}

pub fn parse_release(input: &str) -> (r: Result<ReleaseSelection, String>)
    ensures
        match parse_i32(input@) {
            Some(index) => if index > 0 {
                r == Ok::<ReleaseSelection, String>(ReleaseSelection::Index(index))
            } else {
                r matches Err(m) && m@ == "Invalid release index "@ + dec_int(index as int) + "!"@
            },
            None => r matches Ok(ReleaseSelection::Id(id)) && id@ == input@,
        },
{
    let s = chars_of(input);
    match parse_i32_chars(s.as_slice()) {
        Some(index) => {
            if index > 0 {
                Ok(ReleaseSelection::Index(index))
            } else {
                let mut msg = String::from_str("Invalid release index ");
                push_dec_i64(&mut msg, index as i64);
                msg.append("!");
                Err(msg)
            }
        },
        None => Ok(ReleaseSelection::Id(copy_str(input))),
    }
}

/// Left-to-right scan of output names: the first unknown or repeated name is
/// the error, otherwise the formats in order.
pub open spec fn scan_outputs(names: Seq<Seq<char>>, i: int, acc: Seq<OutputFormat>) -> Result<
    Seq<OutputFormat>,
    Seq<char>,
>
    decreases names.len() - i,
{
    if i < 0 || i >= names.len() {
        Ok(acc)
    } else {
        match output_format_named(names[i]) {
            None => Err("Invalid format \""@ + names[i] + "\""@),
            Some(f) => if acc.contains(f) {
                Err("Duplicated format \""@ + names[i] + "\""@)
            } else {
                scan_outputs(names, i + 1, acc.push(f))
            },
        }
    }
}

/// `-o`: no entries means FLAC, `help` lists the formats (empty result),
/// otherwise the first `MAX_OUTPUTS` names are read.
pub open spec fn parse_outputs_spec(names: Seq<Seq<char>>) -> Result<Seq<OutputFormat>, Seq<char>> {
    if names.len() == 0 {
        Ok(seq![OutputFormat::Flac])
    } else if names[0] == "help"@ {
        Ok(Seq::empty())
    } else {
        scan_outputs(names.take(if names.len() < 32 { names.len() as int } else { 32 }), 0, Seq::empty())
    }
}

pub open spec fn no_duplicates<T>(s: Seq<T>) -> bool {
    forall|i: int, j: int| 0 <= i < j < s.len() ==> s[i] != s[j]
}

proof fn lemma_scan_outputs_distinct(names: Seq<Seq<char>>, i: int, acc: Seq<OutputFormat>)
    requires
        0 <= i <= names.len(),
        no_duplicates(acc),
        acc.len() + names.len() - i <= 32,
    ensures
        scan_outputs(names, i, acc) matches Ok(v) ==> no_duplicates(v) && v.len() <= 32,
    decreases names.len() - i,
{
    if i < names.len() {
        if let Some(f) = output_format_named(names[i]) {
            if !acc.contains(f) {
                assert forall|a: int, b: int| 0 <= a < b < acc.push(f).len() implies acc.push(f)[a]
                    != acc.push(f)[b] by {
                    if b == acc.len() {
                        assert(acc[a] == acc.push(f)[a]);
                    }
                }
                lemma_scan_outputs_distinct(names, i + 1, acc.push(f));
            }
        }
    }
}

pub fn parse_outputs(entries: &[&str]) -> (r: Result<Vec<OutputFormat>, String>)
    ensures
        match r {
            Ok(v) => parse_outputs_spec(strs_view(entries@)) == Ok::<Seq<OutputFormat>, Seq<char>>(v@),
            Err(m) => parse_outputs_spec(strs_view(entries@)) == Err::<Seq<OutputFormat>, Seq<char>>(m@),
        },
        r matches Ok(v) ==> no_duplicates(v@) && v@.len() <= MAX_OUTPUTS,
{
    let ghost names = strs_view(entries@);
    if entries.len() == 0 {
        let mut v = Vec::new();
        v.push(OutputFormat::Flac);
        assert(v@ == seq![OutputFormat::Flac]);
        return Ok(v);
    }
    if str_eq(entries[0], "help") {
        assert(names[0] == entries@[0]@);
        return Ok(Vec::new());
    }
    assert(names[0] == entries@[0]@);
    let limit: usize = if entries.len() < MAX_OUTPUTS { entries.len() } else { MAX_OUTPUTS };
    let ghost lim_names = names.take(limit as int);
    assert(names.len() == entries@.len());
    assert(parse_outputs_spec(names) == scan_outputs(lim_names, 0, Seq::empty()));
    let mut outputs: Vec<OutputFormat> = Vec::new();
    let mut i: usize = 0;
    proof {
        lemma_scan_outputs_distinct(lim_names, 0, Seq::empty());
    }
    while i < limit
        invariant
            i <= limit <= entries@.len(),
            limit <= 32,
            names == strs_view(entries@),
            lim_names == names.take(limit as int),
            scan_outputs(lim_names, 0, Seq::empty()) == scan_outputs(lim_names, i as int, outputs@),
            parse_outputs_spec(names) == scan_outputs(lim_names, 0, Seq::empty()),
        decreases limit - i,
    {
        let entry = entries[i];
        assert(lim_names[i as int] == entry@);
        match OutputFormat::from_cli_name(entry) {
            None => {
                let mut msg = String::from_str("Invalid format \"");
                msg.append(entry);
                msg.append("\"");
                return Err(msg);
            },
            Some(fmt) => {
                let mut dup = false;
                let mut j: usize = 0;
                while j < outputs.len()
                    invariant
                        j <= outputs@.len(),
                        dup == exists|k: int| 0 <= k < j && outputs@[k] == fmt,
                    decreases outputs.len() - j,
                {
                    if outputs[j] == fmt {
                        dup = true;
                    }
                    j += 1;
                }
                if dup {
                    let mut msg = String::from_str("Duplicated format \"");
                    msg.append(entry);
                    msg.append("\"");
                    return Err(msg);
                }
                assert(!outputs@.contains(fmt));
                outputs.push(fmt);
            },
        }
        i += 1;
    }
    Ok(outputs)
}

pub open spec fn first_repeat_from(s: Seq<i32>, j: int) -> Option<i32>
    decreases s.len() - j,
{
    if j < 0 || j >= s.len() {
        None
    } else if s.take(j).contains(s[j]) {
        Some(s[j])
    } else {
        first_repeat_from(s, j + 1)
    }
}

/// The first index value that repeats an earlier one, scanning left to right.
pub open spec fn first_repeat(s: Seq<i32>) -> Option<i32> {
    first_repeat_from(s, 0)
}

pub open spec fn sorted_i32(s: Seq<i32>) -> bool {
    forall|i: int, j: int| 0 <= i < j < s.len() ==> s[i] <= s[j]
}

/// Sorts `v` in place (insertion sort).
pub fn sort_i32(v: &mut Vec<i32>)
    ensures
        final(v)@.to_multiset() == old(v)@.to_multiset(),
        final(v)@.len() == old(v)@.len(),
        sorted_i32(final(v)@),
{
    broadcast use vstd::seq_lib::group_to_multiset_ensures;
    let n = v.len();
    let mut i: usize = 1;
    if n == 0 {
        return;
    }
    while i < n
        invariant
            1 <= i <= n == v@.len(),
            v@.to_multiset() == old(v)@.to_multiset(),
            sorted_i32(v@.take(i as int)),
        decreases n - i,
    {
        let mut j = i;
        assert forall|a: int, b: int| 0 <= a < b <= i && b != j && a != j implies v@[a] <= v@[b] by {
            assert(v@.take(i as int)[a] == v@[a]);
            assert(v@.take(i as int)[b] == v@[b]);
        }
        while j > 0 && v[j - 1] > v[j]
            invariant
                0 <= j <= i < n == v@.len(),
                v@.to_multiset() == old(v)@.to_multiset(),
                forall|a: int, b: int| 0 <= a < b <= i && b != j && a != j ==> v@[a] <= v@[b],
                forall|a: int, b: int| 0 <= a < b <= i && a == j ==> v@[a] <= v@[b],
            decreases j,
        {
            let x = v[j - 1];
            let y = v[j];
            let ghost before = v@;
            v.set(j - 1, y);
            v.set(j, x);
            proof {
                assert(v@ == before.update(j - 1, y).update(j as int, x));
                before.to_multiset_ensures();
                lemma_swap_multiset(before, j - 1, j as int);
            }
            j -= 1;
        }
        assert forall|a: int, b: int| 0 <= a < b < v@.take(i + 1).len() implies #[trigger] v@.take(i + 1)[a]
            <= #[trigger] v@.take(i + 1)[b] by {
            if b == j && a < j {
                assert(v@[a] <= v@[j - 1]);
            }
        }
        i += 1;
    }
    assert(v@.take(n as int) == v@);
}

proof fn lemma_swap_multiset(s: Seq<i32>, a: int, b: int)
    requires
        0 <= a < b < s.len(),
    ensures
        s.update(a, s[b]).update(b, s[a]).to_multiset() == s.to_multiset(),
{
    broadcast use vstd::seq_lib::group_to_multiset_ensures;
    let t = s.update(a, s[b]);
    s.to_multiset_ensures();
    t.to_multiset_ensures();
    assert(t.to_multiset() == s.to_multiset().remove(s[a]).insert(s[b]));
    assert(t.update(b, s[a]).to_multiset() == t.to_multiset().remove(t[b]).insert(s[a]));
}

pub fn parse_track_indices(indices: &[i32]) -> (r: Result<Vec<i32>, String>)
    ensures
        match first_repeat(indices@) {
            Some(idx) => r matches Err(m) && m@ == "Duplicated rip idx "@ + dec_int(idx as int),
            None => r matches Ok(v) && v@.to_multiset() == indices@.to_multiset() && sorted_i32(
                v@,
            ) && v@.len() == indices@.len(),
        },
{
    let mut out: Vec<i32> = Vec::new();
    let mut i: usize = 0;
    while i < indices.len()
        invariant
            i <= indices@.len(),
            out@ == indices@.take(i as int),
            first_repeat(indices@) == first_repeat_from(indices@, i as int),
        decreases indices.len() - i,
    {
        let idx = indices[i];
        let mut found = false;
        let mut k: usize = 0;
        while k < out.len()
            invariant
                k <= out@.len(),
                found == exists|m: int| 0 <= m < k && out@[m] == idx,
            decreases out.len() - k,
        {
            if out[k] == idx {
                found = true;
            }
            k += 1;
        }
        if found {
            assert(out@.contains(idx));
            let mut msg = String::from_str("Duplicated rip idx ");
            push_dec_i64(&mut msg, idx as i64);
            return Err(msg);
        }
        assert(indices@.take(i + 1) == out@.push(idx));
        out.push(idx);
        i += 1;
    }
    assert(indices@.take(indices@.len() as int) == indices@);
    sort_i32(&mut out);
    Ok(out)
}

/// The pregap action whose name starts the text after `=`.
pub open spec fn pregap_action_named(s: Seq<char>) -> Option<PregapAction> {
    if text::starts_with(s, "default"@) {
        Some(PregapAction::Default)
    } else if text::starts_with(s, "drop"@) {
        Some(PregapAction::Drop)
    } else if text::starts_with(s, "merge"@) {
        Some(PregapAction::Merge)
    } else if text::starts_with(s, "track"@) {
        Some(PregapAction::Track)
    } else {
        None
    }
}

/// `--pregap N=action`: zero-based track index and action.
pub open spec fn parse_pregap_spec(s: Seq<char>) -> Result<(usize, PregapAction), Seq<char>> {
    match find_char(s, '=') {
        None => Err("Missing pregap action"@),
        Some(eq) => match parse_usize(s.take(eq)) {
            None => Err("Invalid track idx for pregap: 0"@),
            Some(idx) => if !(1 <= idx <= 197) {
                Err("Invalid track idx for pregap: "@ + dec(idx as nat))
            } else {
                match pregap_action_named(s.skip(eq + 1)) {
                    None => Err("Invalid pregap action "@ + s.skip(eq + 1)),
                    Some(a) => Ok(((idx - 1) as usize, a)),
                }
            },
        },
    }
}

pub fn parse_pregap_entry(entry: &str) -> (r: Result<(usize, PregapAction), String>)
    ensures
        msg_view(r) == parse_pregap_spec(entry@),
{
    let s = chars_of(entry);
    let n = s.len();
    proof {
        lemma_find_char_from_bounds(s@, '=', 0);
    }
    let eq = match find_char_in(s.as_slice(), '=', 0) {
        None => {
            return Err(String::from_str("Missing pregap action"));
        },
        Some(eq) => eq,
    };
    let idx_raw = string_of(s.as_slice(), 0, eq);
    let idx_chars = chars_of(idx_raw.as_str());
    assert(s@.subrange(0, eq as int) == s@.take(eq as int));
    let idx = match parse_usize_chars(idx_chars.as_slice()) {
        None => {
            return Err(String::from_str("Invalid track idx for pregap: 0"));
        },
        Some(idx) => idx,
    };
    if !(1 <= idx && idx <= 197) {
        let mut msg = String::from_str("Invalid track idx for pregap: ");
        push_dec(&mut msg, idx as u64);
        return Err(msg);
    }
    let action_raw = string_of(s.as_slice(), eq + 1, n);
    assert(s@.subrange(eq + 1, n as int) == s@.skip(eq + 1));
    let action = if str_starts_with(action_raw.as_str(), "default") {
        PregapAction::Default
    } else if str_starts_with(action_raw.as_str(), "drop") {
        PregapAction::Drop
    } else if str_starts_with(action_raw.as_str(), "merge") {
        PregapAction::Merge
    } else if str_starts_with(action_raw.as_str(), "track") {
        PregapAction::Track
    } else {
        let mut msg = String::from_str("Invalid pregap action ");
        msg.append(action_raw.as_str());
        return Err(msg);
    };
    Ok((idx - 1, action))
}

/// Applies the entries in order; the first invalid entry stops the scan and
/// leaves the earlier ones applied.
pub open spec fn apply_pregap_spec(p: Seq<PregapAction>, entries: Seq<Seq<char>>, i: int) -> (
    Seq<PregapAction>,
    Option<Seq<char>>,
)
    decreases entries.len() - i,
{
    if i < 0 || i >= entries.len() {
        (p, None)
    } else {
        match parse_pregap_spec(entries[i]) {
            Err(m) => (p, Some(m)),
            Ok((idx, a)) => apply_pregap_spec(p.update(idx as int, a), entries, i + 1),
        }
    }
}

pub fn apply_pregap_entries(pregap: &mut [PregapAction; MAX_TRACKS], entries: &[&str]) -> (r:
    Result<(), String>)
    ensures
        ({
            let (p, e) = apply_pregap_spec(old(pregap)@, strs_view(entries@), 0);
            &&& final(pregap)@ == p
            &&& match e {
                None => r is Ok,
                Some(m) => r matches Err(rm) && rm@ == m,
            }
        }),
{
    let ghost names = strs_view(entries@);
    let mut i: usize = 0;
    while i < entries.len()
        invariant
            i <= entries@.len(),
            names == strs_view(entries@),
            pregap@.len() == MAX_TRACKS,
            apply_pregap_spec(old(pregap)@, names, 0) == apply_pregap_spec(pregap@, names, i as int),
        decreases entries.len() - i,
    {
        assert(names[i as int] == entries@[i as int]@);
        match parse_pregap_entry(entries[i]) {
            Err(m) => {
                return Err(m);
            },
            Ok((idx, action)) => {
                pregap[idx] = action;
            },
        }
        i += 1;
    }
    Ok(())
}

pub fn validate_folder_scheme(outputs_num: usize, folder_name_scheme: &str) -> (r: Result<(), String>)
    ensures
        msg_view(r) == if outputs_num > 1 && !contains(folder_name_scheme@, "{format}"@) {
            Err::<(), Seq<char>>(
                "Directory name scheme must contain {format} with multiple output formats!"@,
            )
        } else {
            Ok(())
        },
{
    if outputs_num > 1 && !str_contains(folder_name_scheme, "{format}") {
        return Err(
            String::from_str(
                "Directory name scheme must contain {format} with multiple output formats!",
            ),
        );
    }
    Ok(())
}

pub fn validate_mode_combo(print_info_only: bool, generate_cue_only: bool) -> (r: Result<(), String>)
    ensures
        msg_view(r) == if print_info_only && generate_cue_only {
            Err::<(), Seq<char>>(
                "-J (only generate a CUE sheet) cannot be used with -I (only print info)!"@,
            )
        } else {
            Ok(())
        },
{
    if print_info_only && generate_cue_only {
        return Err(
            String::from_str(
                "-J (only generate a CUE sheet) cannot be used with -I (only print info)!",
            ),
        );
    }
    Ok(())
}

} // verus!
