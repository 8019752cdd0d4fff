//! The report of the information-only mode: the settings, then the disc's
//! table of contents with what is known of each track.
use vstd::prelude::*;

use crate::log_report::{abs_nat, ints_view, pick, push_joined_ints, push_opt};
use crate::metadata::musicbrainz::{MusicBrainzReleaseMeta, MusicBrainzTrackMeta};
use crate::naming::{trim, trim_bounds_pub};
use crate::text::{
    chars_of, dec, dec_int, dec_pad, join, opt_line, ostr, push_dec, push_dec_i64, push_dec_pad,
};
use crate::workflow::{clamp_to_i32, format_msf_from_frames, positive_indices, selected_track_numbers, msf_text, InfoTocEntry};
use crate::{clamp_i32, output_format_cli_name, OutputFormat};

verus! {

/// The settings that the information report shows.
#[derive(Debug, Clone, PartialEq, Eq)]
pub struct InfoReportSettings {
    pub version: String,
    pub dev_path: Option<String>,
    pub offset: i32,
    pub over_under_read_frames: i32,
    pub overread_leadinout: bool,
    pub paranoia_level: i32,
    pub max_retries: i32,
    pub decode_hdcd: bool,
    pub outputs: Vec<OutputFormat>,
    pub disable_accurip: bool,
    pub rip_indices: Vec<i32>,
}

// ---------------------------------------------------------------------------
// The settings lines
// ---------------------------------------------------------------------------

pub open spec fn output_names(v: Seq<OutputFormat>) -> Seq<Seq<char>> {
    v.map_values(|o: OutputFormat| output_format_cli_name(o))
}

pub open spec fn info_paranoia_text(level: i32) -> Seq<char> {
    if level == 0 {
        "none"@
    } else if level >= 3 {
        "max"@
    } else {
        dec_int(level as int)
    }
}

/// Version, drive and device lines.
pub open spec fn info_device_lines(s: InfoReportSettings, drive_used: Option<Seq<char>>) -> Seq<char> {
    "cyanrip-rs "@ + s.version@ + "\n"@ + opt_line(drive_used, "Drive used:     "@, "\n"@)
        + "System device:  "@ + match s.dev_path {
        Some(d) => d@,
        None => "<default>"@,
    } + "\n"@
}

pub open spec fn info_offset_line(s: InfoReportSettings) -> Seq<char> {
    let o = abs_nat(s.offset);
    "Offset:         "@ + pick(s.offset >= 0, "+"@, "-"@) + dec(o) + " "@ + pick(
        o == 1,
        "sample"@,
        "samples"@,
    ) + "\n"@
}

pub open spec fn info_overread_lines(s: InfoReportSettings) -> Seq<char> {
    let f = abs_nat(s.over_under_read_frames);
    let under = s.over_under_read_frames < 0;
    pick(under, "Underread:      "@, "Overread:       "@) + pick(!under, "+"@, "-"@) + dec(f) + " "@
        + pick(f == 1, "frame"@, "frames"@) + "\n"@ + pick(
        under,
        "Underread mode: "@,
        "Overread mode:  "@,
    ) + pick(
        s.overread_leadinout,
        "read in lead-in/lead-out"@,
        "fill with silence in lead-in/lead-out"@,
    ) + "\n"@
}

/// Offset and over/underread lines.
pub open spec fn info_read_lines(s: InfoReportSettings) -> Seq<char> {
    info_offset_line(s) + info_overread_lines(s)
}

pub open spec fn info_paranoia_lines(s: InfoReportSettings) -> Seq<char> {
    "Speed:          default (unchangeable)\n"@ + "Paranoia level: "@ + info_paranoia_text(
        s.paranoia_level,
    ) + "\n"@ + "Frame retries:  "@ + dec_int(s.max_retries as int) + "\n"@
}

pub open spec fn info_output_lines(s: InfoReportSettings) -> Seq<char> {
    "HDCD decoding:  "@ + pick(s.decode_hdcd, "enabled"@, "disabled"@) + "\n"@ + "Outputs:        "@
        + if s.outputs@.len() == 0 {
        "none"@
    } else {
        join(output_names(s.outputs@), ", "@)
    } + "\n"@ + "AccurateRip:    "@ + pick(s.disable_accurip, "disabled"@, "enabled"@)
}

/// Speed, paranoia, retries, HDCD, outputs and AccurateRip lines.
pub open spec fn info_option_lines(s: InfoReportSettings) -> Seq<char> {
    info_paranoia_lines(s) + info_output_lines(s)
}

/// The settings lines, joined by line breaks, without a final one.
pub open spec fn info_header_text(s: InfoReportSettings, drive_used: Option<Seq<char>>) -> Seq<char> {
    info_device_lines(s, drive_used) + info_read_lines(s) + info_option_lines(s)
}

fn push_abs(out: &mut String, x: i32)
    ensures
        final(out)@ == old(out)@ + dec(abs_nat(x)),
{
    let a: u64 = if x < 0 {
        (-(x as i64)) as u64
    } else {
        x as u64
    };
    push_dec(out, a);
}

fn push_output_names(out: &mut String, v: &Vec<OutputFormat>)
    ensures
        final(out)@ == old(out)@ + join(output_names(v@), ", "@),
{
    let ghost o = out@;
    let ghost ws = output_names(v@);
    let mut i: usize = 0;
    assert(ws.take(0) =~= Seq::<Seq<char>>::empty());
    assert(o + Seq::<char>::empty() == o);
    while i < v.len()
        invariant
            i <= v@.len(),
            ws == output_names(v@),
            out@ == o + join(ws.take(i as int), ", "@),
        decreases v.len() - i,
    {
        if i > 0 {
            out.append(", ");
        }
        out.append(v[i].cli_name());
        assert(ws.take(i + 1).drop_last() == ws.take(i as int));
        assert(ws.take(i + 1).last() == output_format_cli_name(v@[i as int]));
        proof {
            if i == 0 {
                assert(ws.take(1).len() == 1);
            }
        }
        assert(out@ =~= o + join(ws.take(i + 1), ", "@));
        i += 1;
    }
    assert(ws.take(v@.len() as int) == ws);
}

pub open spec fn opt_str_view(o: Option<&str>) -> Option<Seq<char>> {
    match o {
        Some(s) => Some(s@),
        None => None,
    }
}

fn push_device_lines(out: &mut String, settings: &InfoReportSettings, drive_used: Option<&str>)
    ensures
        final(out)@ == old(out)@ + info_device_lines(*settings, opt_str_view(drive_used)),
{
    let ghost o = out@;
    out.append("cyanrip-rs ");
    out.append(settings.version.as_str());
    out.append("\n");
    if let Some(d) = drive_used {
        out.append("Drive used:     ");
        out.append(d);
        out.append("\n");
    }
    out.append("System device:  ");
    match &settings.dev_path {
        Some(d) => out.append(d.as_str()),
        None => out.append("<default>"),
    }
    out.append("\n");
    assert(out@ =~= o + info_device_lines(*settings, opt_str_view(drive_used)));
}

fn push_offset_line(out: &mut String, settings: &InfoReportSettings)
    ensures
        final(out)@ == old(out)@ + info_offset_line(*settings),
{
    let ghost o = out@;
    out.append("Offset:         ");
    out.append(if settings.offset >= 0 { "+" } else { "-" });
    push_abs(out, settings.offset);
    out.append(" ");
    let o1 = settings.offset == 1 || settings.offset == -1;
    assert(o1 == (abs_nat(settings.offset) == 1));
    out.append(if o1 { "sample" } else { "samples" });
    out.append("\n");
    assert(out@ =~= o + info_offset_line(*settings));
}

fn push_overread_lines(out: &mut String, settings: &InfoReportSettings)
    ensures
        final(out)@ == old(out)@ + info_overread_lines(*settings),
{
    let ghost o = out@;
    let ouf = settings.over_under_read_frames;
    out.append(if ouf < 0 { "Underread:      " } else { "Overread:       " });
    out.append(if ouf >= 0 { "+" } else { "-" });
    push_abs(out, ouf);
    out.append(" ");
    let f1 = ouf == 1 || ouf == -1;
    assert(f1 == (abs_nat(ouf) == 1));
    out.append(if f1 { "frame" } else { "frames" });
    out.append("\n");
    let ghost mid = out@;
    out.append(if ouf < 0 { "Underread mode: " } else { "Overread mode:  " });
    out.append(
        if settings.overread_leadinout {
            "read in lead-in/lead-out"
        } else {
            "fill with silence in lead-in/lead-out"
        },
    );
    out.append("\n");
    assert(out@ =~= o + info_overread_lines(*settings));
}

fn push_read_lines(out: &mut String, settings: &InfoReportSettings)
    ensures
        final(out)@ == old(out)@ + info_read_lines(*settings),
{
    let ghost o = out@;
    push_offset_line(out, settings);
    push_overread_lines(out, settings);
    assert(out@ =~= o + info_read_lines(*settings));
}

fn push_paranoia_lines(out: &mut String, settings: &InfoReportSettings)
    ensures
        final(out)@ == old(out)@ + info_paranoia_lines(*settings),
{
    let ghost o = out@;
    out.append("Speed:          default (unchangeable)\n");
    out.append("Paranoia level: ");
    let ghost a = out@;
    if settings.paranoia_level == 0 {
        out.append("none");
    } else if settings.paranoia_level >= 3 {
        out.append("max");
    } else {
        push_dec_i64(out, settings.paranoia_level as i64);
    }
    assert(out@ =~= a + info_paranoia_text(settings.paranoia_level));
    out.append("\n");
    out.append("Frame retries:  ");
    push_dec_i64(out, settings.max_retries as i64);
    out.append("\n");
    assert(out@ =~= o + info_paranoia_lines(*settings));
}

fn push_output_lines(out: &mut String, settings: &InfoReportSettings)
    ensures
        final(out)@ == old(out)@ + info_output_lines(*settings),
{
    let ghost o = out@;
    out.append("HDCD decoding:  ");
    out.append(if settings.decode_hdcd { "enabled" } else { "disabled" });
    out.append("\n");
    out.append("Outputs:        ");
    let ghost a = out@;
    if settings.outputs.len() == 0 {
        out.append("none");
    } else {
        push_output_names(out, &settings.outputs);
    }
    let ghost b = out@;
    out.append("\n");
    out.append("AccurateRip:    ");
    out.append(if settings.disable_accurip { "disabled" } else { "enabled" });
    assert(out@ =~= o + info_output_lines(*settings));
}

fn push_option_lines(out: &mut String, settings: &InfoReportSettings)
    ensures
        final(out)@ == old(out)@ + info_option_lines(*settings),
{
    let ghost o = out@;
    push_paranoia_lines(out, settings);
    push_output_lines(out, settings);
    assert(out@ =~= o + info_option_lines(*settings));
}

/// The settings part of the information report.
pub fn render_info_only_report(settings: &InfoReportSettings, drive_used: Option<&str>) -> (r: String)
    ensures
        r@ == info_header_text(*settings, opt_str_view(drive_used)),
{
    let mut out = String::new();
    push_device_lines(&mut out, settings, drive_used);
    push_read_lines(&mut out, settings);
    push_option_lines(&mut out, settings);
    assert(out@ =~= info_header_text(*settings, opt_str_view(drive_used)));
    out
}

// ---------------------------------------------------------------------------
// The tracks
// ---------------------------------------------------------------------------

/// The frames of a track: `end - start + 1`, each step saturating.
pub open spec fn entry_frames(t: InfoTocEntry) -> i32 {
    clamp_i32(clamp_i32(t.end_lsn - t.start_lsn) + 1)
}

fn frames_of(t: &InfoTocEntry) -> (r: i32)
    ensures
        r == entry_frames(*t),
{
    let d = clamp_to_i32(t.end_lsn as i64 - t.start_lsn as i64);
    clamp_to_i32(d as i64 + 1)
}

/// Hundredths of a mebibyte, rounded to the nearest, ties to even.
pub open spec fn mib_hundredths(bytes: nat) -> nat {
    let q = bytes * 100 / 1048576;
    let r = bytes * 100 % 1048576;
    if r * 2 > 1048576 || (r * 2 == 1048576 && q % 2 == 1) {
        q + 1
    } else {
        q
    }
}

/// A byte count in mebibytes with two decimals.
pub open spec fn mib_text(bytes: nat) -> Seq<char> {
    let h = mib_hundredths(bytes);
    dec(h / 100) + "."@ + dec_pad(h % 100, 2)
}

fn push_mib(out: &mut String, bytes: u64)
    requires
        bytes <= 0x10_0000_0000_0000,
    ensures
        final(out)@ == old(out)@ + mib_text(bytes as nat),
{
    let q = bytes * 100 / 1048576;
    let r = bytes * 100 % 1048576;
    let h = if r * 2 > 1048576 || (r * 2 == 1048576 && q % 2 == 1) {
        q + 1
    } else {
        q
    };
    assert(h == mib_hundredths(bytes as nat));
    push_dec(out, h / 100);
    out.append(".");
    push_dec_pad(out, h % 100, 2);
}

pub open spec fn data_size_lines(frames: i32) -> Seq<char> {
    "    Data bytes:  "@ + dec((frames * 2352) as nat) + " ("@ + mib_text((frames * 2352) as nat)
        + " Mib)\n"@ + "    Frames:      "@ + dec_int(frames as int) + "\n"@
}

pub open spec fn audio_size_lines(frames: i32) -> Seq<char> {
    "    Duration:    "@ + msf_text(frames) + "\n"@ + "    Samples:     "@ + dec((frames * 588) as nat)
        + "\n"@ + "    Frames:      "@ + dec_int(frames as int) + "\n"@ + "    Sample peak: 0.000000\n"@
}

/// Size or duration lines of a track.
pub open spec fn track_size_lines(t: InfoTocEntry) -> Seq<char> {
    if t.track_is_data {
        data_size_lines(entry_frames(t))
    } else {
        audio_size_lines(entry_frames(t))
    }
}

/// Pregap and address lines of a track.
pub open spec fn track_address_lines(t: InfoTocEntry) -> Seq<char> {
    (match t.pregap_lsn {
        Some(p) => "    Pregap LSN:  "@ + dec_int(p as int) + " (duration: "@ + msf_text(
            clamp_i32(t.start_lsn - p),
        ) + ")\n"@,
        None => "    Pregap LSN:  none\n"@,
    }) + "    Start LSN:   "@ + dec_int(t.start_lsn as int) + "\n"@ + "    End LSN:     "@ + dec_int(
        t.end_lsn as int,
    ) + "\n"@
}

/// The properties of a track: size or duration, pregap and addresses.
pub open spec fn track_properties(t: InfoTocEntry) -> Seq<char> {
    track_size_lines(t) + track_address_lines(t)
}

fn push_data_lines(out: &mut String, frames: i32)
    requires
        frames >= 0,
    ensures
        final(out)@ == old(out)@ + data_size_lines(frames),
{
    let ghost o = out@;
    let data_bytes = frames as u64 * 2352;
    out.append("    Data bytes:  ");
    push_dec(out, data_bytes);
    out.append(" (");
    push_mib(out, data_bytes);
    out.append(" Mib)\n");
    out.append("    Frames:      ");
    push_dec_i64(out, frames as i64);
    out.append("\n");
    assert(out@ =~= o + data_size_lines(frames));
}

fn push_audio_lines(out: &mut String, frames: i32)
    requires
        frames >= 0,
    ensures
        final(out)@ == old(out)@ + audio_size_lines(frames),
{
    let ghost o = out@;
    let samples = frames as u64 * 588;
    out.append("    Duration:    ");
    let d = format_msf_from_frames(frames);
    out.append(d.as_str());
    out.append("\n");
    out.append("    Samples:     ");
    push_dec(out, samples);
    out.append("\n");
    out.append("    Frames:      ");
    push_dec_i64(out, frames as i64);
    out.append("\n");
    out.append("    Sample peak: 0.000000\n");
    assert(out@ =~= o + audio_size_lines(frames));
}

fn push_address_lines(out: &mut String, t: &InfoTocEntry)
    ensures
        final(out)@ == old(out)@ + track_address_lines(*t),
{
    let ghost o = out@;
    match t.pregap_lsn {
        Some(p) => {
            out.append("    Pregap LSN:  ");
            push_dec_i64(out, p as i64);
            out.append(" (duration: ");
            let d = format_msf_from_frames(clamp_to_i32(t.start_lsn as i64 - p as i64));
            out.append(d.as_str());
            out.append(")\n");
        },
        None => {
            out.append("    Pregap LSN:  none\n");
        },
    }
    let ghost mid = out@;
    out.append("    Start LSN:   ");
    push_dec_i64(out, t.start_lsn as i64);
    out.append("\n");
    out.append("    End LSN:     ");
    push_dec_i64(out, t.end_lsn as i64);
    out.append("\n");
    assert(out@ =~= o + track_address_lines(*t));
}

fn push_properties(out: &mut String, t: &InfoTocEntry)
    requires
        entry_frames(*t) >= 0,
    ensures
        final(out)@ == old(out)@ + track_properties(*t),
{
    let ghost o = out@;
    let frames = frames_of(t);
    if t.track_is_data {
        push_data_lines(out, frames);
    } else {
        push_audio_lines(out, frames);
    }
    push_address_lines(out, t);
    assert(out@ =~= o + track_properties(*t));
}

// ---------------------------------------------------------------------------
// Release metadata of a track
// ---------------------------------------------------------------------------

/// An optional text unless it is blank.
pub open spec fn nonblank(o: Option<Seq<char>>) -> Option<Seq<char>> {
    match o {
        Some(v) => if trim(v).len() > 0 {
            Some(v)
        } else {
            None
        },
        None => None,
    }
}

pub open spec fn opt_int_line(o: Option<i32>, pre: Seq<char>) -> Seq<char> {
    match o {
        Some(v) => pre + dec_int(v as int) + "\n"@,
        None => Seq::empty(),
    }
}

/// Track, disc and tool lines of a track's metadata.
pub open spec fn meta_block_head(
    number: u8,
    toc_len: nat,
    discid: Seq<char>,
    cddb: Seq<char>,
    r: MusicBrainzReleaseMeta,
    tm: MusicBrainzTrackMeta,
) -> Seq<char> {
    "\n  Metadata:\n"@ + opt_line(ostr(tm.mbid), "    mbid:                "@, "\n"@)
        + "    title:               "@ + tm.title@ + "\n"@ + opt_line(
        ostr(tm.artist),
        "    artist:              "@,
        "\n"@,
    ) + "    track:               "@ + dec(number as nat) + "\n"@ + "    tracktotal:          "@
        + dec(toc_len) + "\n"@ + "    disc_mcn:            0000000000000\n"@
        + "    musicbrainz_discid:  "@ + discid + "\n"@ + "    cddb:                "@ + cddb
        + "\n"@ + opt_line(ostr(r.format), "    media:               "@, "\n"@)
        + "    comment:             cyanrip 0.9.4-rc2\n"@
}

/// Release lines of a track's metadata.
pub open spec fn meta_block_release(r: MusicBrainzReleaseMeta) -> Seq<char> {
    opt_line(nonblank(ostr(r.date)), "    date:                "@, "\n"@)
        + "    musicbrainz_albumid: "@ + r.musicbrainz_albumid@ + "\n"@ + "    album:               "@
        + r.album@ + "\n"@ + opt_line(ostr(r.barcode), "    barcode:             "@, "\n"@)
        + opt_line(ostr(r.packaging), "    packaging:           "@, "\n"@) + opt_line(
        ostr(r.country),
        "    country:             "@,
        "\n"@,
    ) + opt_line(ostr(r.releasestatus), "    releasestatus:       "@, "\n"@) + opt_line(
        ostr(r.catalognumber),
        "    catalognumber:       "@,
        "\n"@,
    ) + opt_line(ostr(r.label), "    label:               "@, "\n"@) + opt_line(
        ostr(r.album_artist),
        "    album_artist:        "@,
        "\n"@,
    ) + "    totaldiscs:          "@ + dec_int(r.totaldiscs as int) + "\n"@ + opt_int_line(
        r.discnumber,
        "    disc:                "@,
    ) + opt_line(ostr(r.format), "    format:              "@, "\n"@)
}

fn push_nonblank(out: &mut String, o: &Option<String>, pre: &str, post: &str)
    ensures
        final(out)@ == old(out)@ + opt_line(nonblank(ostr(*o)), pre@, post@),
{
    if let Some(v) = o {
        let c = chars_of(v.as_str());
        let (a, b) = trim_bounds_pub(c.as_slice(), 0, c.len());
        assert(c@.subrange(0, c@.len() as int) == c@);
        if a < b {
            out.append(pre);
            out.append(v.as_str());
            out.append(post);
        }
    }
}

fn push_opt_int(out: &mut String, o: Option<i32>, pre: &str)
    ensures
        final(out)@ == old(out)@ + opt_int_line(o, pre@),
{
    if let Some(v) = o {
        out.append(pre);
        push_dec_i64(out, v as i64);
        out.append("\n");
    }
}

#[verifier::spinoff_prover]
#[verifier::rlimit(80)]
fn push_meta_head(
    out: &mut String,
    number: u8,
    toc_len: usize,
    discid: &str,
    cddb: &str,
    r: &MusicBrainzReleaseMeta,
    tm: &MusicBrainzTrackMeta,
)
    ensures
        final(out)@ == old(out)@ + meta_block_head(number, toc_len as nat, discid@, cddb@, *r, *tm),
{
    let ghost o = out@;
    out.append("\n  Metadata:\n");
    push_opt(out, &tm.mbid, "    mbid:                ", "\n");
    out.append("    title:               ");
    out.append(tm.title.as_str());
    out.append("\n");
    push_opt(out, &tm.artist, "    artist:              ", "\n");
    out.append("    track:               ");
    push_dec(out, number as u64);
    out.append("\n");
    out.append("    tracktotal:          ");
    push_dec(out, toc_len as u64);
    out.append("\n");
    out.append("    disc_mcn:            0000000000000\n");
    out.append("    musicbrainz_discid:  ");
    out.append(discid);
    out.append("\n");
    out.append("    cddb:                ");
    out.append(cddb);
    out.append("\n");
    push_opt(out, &r.format, "    media:               ", "\n");
    out.append("    comment:             cyanrip 0.9.4-rc2\n");
    assert(out@ =~= o + meta_block_head(number, toc_len as nat, discid@, cddb@, *r, *tm));
}

#[verifier::spinoff_prover]
#[verifier::rlimit(80)]
fn push_meta_release(out: &mut String, r: &MusicBrainzReleaseMeta)
    ensures
        final(out)@ == old(out)@ + meta_block_release(*r),
{
    let ghost o = out@;
    push_nonblank(out, &r.date, "    date:                ", "\n");
    out.append("    musicbrainz_albumid: ");
    out.append(r.musicbrainz_albumid.as_str());
    out.append("\n");
    out.append("    album:               ");
    out.append(r.album.as_str());
    out.append("\n");
    push_opt(out, &r.barcode, "    barcode:             ", "\n");
    push_opt(out, &r.packaging, "    packaging:           ", "\n");
    push_opt(out, &r.country, "    country:             ", "\n");
    push_opt(out, &r.releasestatus, "    releasestatus:       ", "\n");
    push_opt(out, &r.catalognumber, "    catalognumber:       ", "\n");
    push_opt(out, &r.label, "    label:               ", "\n");
    push_opt(out, &r.album_artist, "    album_artist:        ", "\n");
    let ghost mid = out@;
    out.append("    totaldiscs:          ");
    push_dec_i64(out, r.totaldiscs as i64);
    out.append("\n");
    push_opt_int(out, r.discnumber, "    disc:                ");
    push_opt(out, &r.format, "    format:              ", "\n");
    assert(out@ =~= o + meta_block_release(*r));
}

// ---------------------------------------------------------------------------
// The disc section
// ---------------------------------------------------------------------------

pub open spec fn discid_view(o: Option<(&str, &str, &str)>) -> Option<(Seq<char>, Seq<char>, Seq<char>)> {
    match o {
        Some((d, c, u)) => Some((d@, c@, u@)),
        None => None,
    }
}

/// The release metadata of a track, when the release and the disc
/// identifiers are known and the release lists the track.
pub open spec fn track_meta_part(
    t: InfoTocEntry,
    toc_len: nat,
    discid: Option<(Seq<char>, Seq<char>, Seq<char>)>,
    mb: Option<MusicBrainzReleaseMeta>,
) -> Seq<char> {
    match (mb, discid) {
        (Some(r), Some((d, c, _u))) => {
            let i: int = if t.number == 0 { 0 } else { t.number - 1 };
            if i < r.tracks@.len() {
                meta_block_head(t.number, toc_len, d, c, r, r.tracks@[i]) + meta_block_release(r)
            } else {
                Seq::empty()
            }
        },
        _ => Seq::empty(),
    }
}

/// What the report says of one track.
#[verifier::opaque]
pub open spec fn track_block(
    disable_accurip: bool,
    t: InfoTocEntry,
    toc_len: nat,
    discid: Option<(Seq<char>, Seq<char>, Seq<char>)>,
    mb: Option<MusicBrainzReleaseMeta>,
) -> Seq<char> {
    "Track "@ + dec(t.number as nat) + " info:\n"@ + "  Preemphasis:   none detected\n"@
        + "\n  Properties:\n"@ + track_properties(t) + "  Accurip:       "@ + pick(
        disable_accurip,
        "disabled"@,
        "enabled"@,
    ) + "\n"@ + track_meta_part(t, toc_len, discid, mb) + "\n"@
}

/// Whether the report shows a track: every track without a selection,
/// otherwise the selected ones.
pub open spec fn shown(sel: Seq<u32>, t: InfoTocEntry) -> bool {
    sel.len() == 0 || sel.contains(t.number as u32)
}

/// The blocks of the shown tracks of `ts`, in order.
pub open spec fn track_blocks(
    disable_accurip: bool,
    sel: Seq<u32>,
    ts: Seq<InfoTocEntry>,
    toc_len: nat,
    discid: Option<(Seq<char>, Seq<char>, Seq<char>)>,
    mb: Option<MusicBrainzReleaseMeta>,
) -> Seq<char>
    decreases ts.len(),
{
    if ts.len() == 0 {
        Seq::empty()
    } else {
        track_blocks(disable_accurip, sel, ts.drop_last(), toc_len, discid, mb) + if shown(
            sel,
            ts.last(),
        ) {
            track_block(disable_accurip, ts.last(), toc_len, discid, mb)
        } else {
            Seq::<char>::empty()
        }
    }
}

/// The frames of all tracks.
pub open spec fn toc_total(ts: Seq<InfoTocEntry>) -> int
    decreases ts.len(),
{
    if ts.len() == 0 {
        0
    } else {
        toc_total(ts.drop_last()) + entry_frames(ts.last())
    }
}

/// Track count and selection lines.
pub open spec fn summary_counts(s: InfoReportSettings, toc_len: nat) -> Seq<char> {
    "\nDisc tracks:    "@ + dec(toc_len) + "\n"@ + "Tracks to rip:  "@ + (if s.rip_indices@.len() == 0 {
        "all"@
    } else {
        join(ints_view(s.rip_indices@), ", "@)
    }) + "\n"@
}

/// Identifier lines.
pub open spec fn summary_ids(
    discid: Option<(Seq<char>, Seq<char>, Seq<char>)>,
    mb: Option<MusicBrainzReleaseMeta>,
) -> Seq<char> {
    match discid {
        Some((d, c, u)) => "\nMusicBrainz URL:\n"@ + u + "\n"@ + "DiscID:         "@ + d + "\n"@
            + (match mb {
            Some(r) => "Release ID:     "@ + r.musicbrainz_albumid@ + "\n"@,
            None => Seq::<char>::empty(),
        }) + "CDDB ID:        "@ + c + "\n"@,
        None => Seq::<char>::empty(),
    }
}

/// Release lines.
pub open spec fn summary_release(mb: Option<MusicBrainzReleaseMeta>) -> Seq<char> {
    match mb {
        Some(r) => "Album:          "@ + r.album@ + "\n"@ + opt_line(
            ostr(r.album_artist),
            "Album artist:   "@,
            "\n"@,
        ) + opt_int_line(r.discnumber, "Disc number:    "@) + "Total discs:    "@ + dec_int(
            r.totaldiscs as int,
        ) + "\n"@,
        None => Seq::<char>::empty(),
    }
}

/// Disc summary lines above the tracks.
pub open spec fn toc_summary(
    s: InfoReportSettings,
    toc: Seq<InfoTocEntry>,
    discid: Option<(Seq<char>, Seq<char>, Seq<char>)>,
    mb: Option<MusicBrainzReleaseMeta>,
) -> Seq<char> {
    summary_counts(s, toc.len()) + summary_ids(discid, mb) + summary_release(mb) + "Total time:     "@
        + msf_text(toc_total(toc) as i32) + "\n"@
}

/// The information report: the settings, then, for a disc with tracks, its
/// summary and the shown tracks.
pub open spec fn info_report_text(
    s: InfoReportSettings,
    drive_used: Option<Seq<char>>,
    toc: Seq<InfoTocEntry>,
    discid: Option<(Seq<char>, Seq<char>, Seq<char>)>,
    mb: Option<MusicBrainzReleaseMeta>,
) -> Seq<char> {
    info_header_text(s, drive_used) + if toc.len() == 0 {
        Seq::<char>::empty()
    } else {
        toc_summary(s, toc, discid, mb) + "\nTracks:\n"@ + track_blocks(
            s.disable_accurip,
            positive_indices(s.rip_indices@),
            toc,
            toc.len(),
            discid,
            mb,
        )
    }
}

/// What the report needs of the table of contents: every running total of
/// frames fits in an `i32`, and every shown track has no negative length.
pub open spec fn toc_reportable(sel: Seq<u32>, toc: Seq<InfoTocEntry>) -> bool {
    &&& forall|n: int| 0 <= n <= toc.len() ==> i32::MIN <= #[trigger] toc_total(toc.take(n)) <= i32::MAX
    &&& forall|i: int| 0 <= i < toc.len() && shown(sel, #[trigger] toc[i]) ==> entry_frames(toc[i]) >= 0
}

fn push_meta_part(
    out: &mut String,
    t: &InfoTocEntry,
    toc_len: usize,
    discid: Option<(&str, &str, &str)>,
    mb: Option<&MusicBrainzReleaseMeta>,
)
    ensures
        final(out)@ == old(out)@ + track_meta_part(
            *t,
            toc_len as nat,
            discid_view(discid),
            match mb {
                Some(r) => Some(*r),
                None => None,
            },
        ),
{
    match (mb, discid) {
        (Some(r), Some((d, c, _u))) => {
            let i: usize = if t.number == 0 { 0 } else { (t.number - 1) as usize };
            if i < r.tracks.len() {
                let ghost o = out@;
                push_meta_head(out, t.number, toc_len, d, c, r, &r.tracks[i]);
                push_meta_release(out, r);
                assert(out@ =~= o + meta_block_head(t.number, toc_len as nat, d@, c@, *r, r.tracks@[i as int]) + meta_block_release(*r));
            }
        },
        _ => {},
    }
}

#[verifier::spinoff_prover]
#[verifier::rlimit(80)]
fn push_track_block(
    out: &mut String,
    disable_accurip: bool,
    t: &InfoTocEntry,
    toc_len: usize,
    discid: Option<(&str, &str, &str)>,
    mb: Option<&MusicBrainzReleaseMeta>,
)
    requires
        entry_frames(*t) >= 0,
    ensures
        final(out)@ == old(out)@ + track_block(
            disable_accurip,
            *t,
            toc_len as nat,
            discid_view(discid),
            match mb {
                Some(r) => Some(*r),
                None => None,
            },
        ),
{
    let ghost o = out@;
    out.append("Track ");
    push_dec(out, t.number as u64);
    out.append(" info:\n");
    out.append("  Preemphasis:   none detected\n");
    out.append("\n  Properties:\n");
    push_properties(out, t);
    out.append("  Accurip:       ");
    out.append(if disable_accurip { "disabled" } else { "enabled" });
    out.append("\n");
    push_meta_part(out, t, toc_len, discid, mb);
    out.append("\n");
    reveal(track_block);
    assert(out@ =~= o + track_block(
        disable_accurip,
        *t,
        toc_len as nat,
        discid_view(discid),
        match mb {
            Some(r) => Some(*r),
            None => None,
        },
    ));
}

fn contains_u32(v: &Vec<u32>, x: u32) -> (r: bool)
    ensures
        r == v@.contains(x),
{
    let mut i: usize = 0;
    while i < v.len()
        invariant
            i <= v@.len(),
            forall|j: int| 0 <= j < i ==> v@[j] != x,
        decreases v.len() - i,
    {
        if v[i] == x {
            assert(v@[i as int] == x);
            return true;
        }
        i += 1;
    }
    false
}

fn push_counts(out: &mut String, settings: &InfoReportSettings, toc_len: usize)
    ensures
        final(out)@ == old(out)@ + summary_counts(*settings, toc_len as nat),
{
    let ghost o = out@;
    out.append("\nDisc tracks:    ");
    push_dec(out, toc_len as u64);
    out.append("\n");
    out.append("Tracks to rip:  ");
    let ghost a = out@;
    if settings.rip_indices.len() == 0 {
        out.append("all");
    } else {
        push_joined_ints(out, &settings.rip_indices, ", ");
    }
    out.append("\n");
    assert(out@ =~= o + summary_counts(*settings, toc_len as nat));
}

fn push_ids(out: &mut String, discid: Option<(&str, &str, &str)>, mb: Option<&MusicBrainzReleaseMeta>)
    ensures
        final(out)@ == old(out)@ + summary_ids(
            discid_view(discid),
            match mb {
                Some(r) => Some(*r),
                None => None,
            },
        ),
{
    let ghost o = out@;
    if let Some((d, c, u)) = discid {
        out.append("\nMusicBrainz URL:\n");
        out.append(u);
        out.append("\n");
        out.append("DiscID:         ");
        out.append(d);
        out.append("\n");
        let ghost a = out@;
        if let Some(r) = mb {
            out.append("Release ID:     ");
            out.append(r.musicbrainz_albumid.as_str());
            out.append("\n");
        }
        let ghost b = out@;
        out.append("CDDB ID:        ");
        out.append(c);
        out.append("\n");
    }
    assert(out@ =~= o + summary_ids(
        discid_view(discid),
        match mb {
            Some(r) => Some(*r),
            None => None,
        },
    ));
}

fn push_release_summary(out: &mut String, mb: Option<&MusicBrainzReleaseMeta>)
    ensures
        final(out)@ == old(out)@ + summary_release(
            match mb {
                Some(r) => Some(*r),
                None => None,
            },
        ),
{
    let ghost o = out@;
    if let Some(r) = mb {
        out.append("Album:          ");
        out.append(r.album.as_str());
        out.append("\n");
        push_opt(out, &r.album_artist, "Album artist:   ", "\n");
        push_opt_int(out, r.discnumber, "Disc number:    ");
        out.append("Total discs:    ");
        push_dec_i64(out, r.totaldiscs as i64);
        out.append("\n");
    }
    assert(out@ =~= o + summary_release(
        match mb {
            Some(r) => Some(*r),
            None => None,
        },
    ));
}

fn push_summary(
    out: &mut String,
    settings: &InfoReportSettings,
    toc: &[InfoTocEntry],
    total: i32,
    discid: Option<(&str, &str, &str)>,
    mb: Option<&MusicBrainzReleaseMeta>,
)
    requires
        total as int == toc_total(toc@),
    ensures
        final(out)@ == old(out)@ + toc_summary(
            *settings,
            toc@,
            discid_view(discid),
            match mb {
                Some(r) => Some(*r),
                None => None,
            },
        ),
{
    let ghost o = out@;
    push_counts(out, settings, toc.len());
    push_ids(out, discid, mb);
    push_release_summary(out, mb);
    out.append("Total time:     ");
    let t = format_msf_from_frames(total);
    out.append(t.as_str());
    out.append("\n");
    assert(out@ =~= o + toc_summary(
        *settings,
        toc@,
        discid_view(discid),
        match mb {
            Some(r) => Some(*r),
            None => None,
        },
    ));
}

/// The information report with the table of contents: the settings, then,
/// for a disc with tracks, its identifiers, release, total time and each
/// track that is to be ripped.
#[verifier::spinoff_prover]
#[verifier::rlimit(80)]
pub fn render_info_only_report_with_toc(
    settings: &InfoReportSettings,
    drive_used: Option<&str>,
    toc: &[InfoTocEntry],
    discid: Option<(&str, &str, &str)>,
    musicbrainz: Option<&MusicBrainzReleaseMeta>,
) -> (r: String)
    requires
        toc_reportable(positive_indices(settings.rip_indices@), toc@),
    ensures
        r@ == info_report_text(
            *settings,
            opt_str_view(drive_used),
            toc@,
            discid_view(discid),
            match musicbrainz {
                Some(m) => Some(*m),
                None => None,
            },
        ),
{
    let mut out = render_info_only_report(settings, drive_used);
    if toc.len() == 0 {
        assert(out@ =~= out@ + Seq::<char>::empty());
        return out;
    }
    let ghost o = out@;
    let ghost mbv = match musicbrainz {
        Some(m) => Some(*m),
        None => None,
    };
    let selected = selected_track_numbers(settings.rip_indices.as_slice());
    let mut total: i32 = 0;
    let mut i: usize = 0;
    while i < toc.len()
        invariant
            i <= toc@.len(),
            toc_reportable(positive_indices(settings.rip_indices@), toc@),
            total as int == toc_total(toc@.take(i as int)),
        decreases toc.len() - i,
    {
        assert(toc@.take(i + 1).drop_last() == toc@.take(i as int));
        assert(i32::MIN <= toc_total(toc@.take(i + 1)) <= i32::MAX);
        let f = frames_of(&toc[i]);
        total = total + f;
        i += 1;
    }
    assert(toc@.take(toc@.len() as int) == toc@);
    push_summary(&mut out, settings, toc, total, discid, musicbrainz);
    out.append("\nTracks:\n");
    let ghost before = out@;
    let mut j: usize = 0;
    while j < toc.len()
        invariant
            j <= toc@.len(),
            selected@ == positive_indices(settings.rip_indices@),
            toc_reportable(selected@, toc@),
            mbv == match musicbrainz {
                Some(m) => Some(*m),
                None => None,
            },
            out@ == before + track_blocks(
                settings.disable_accurip,
                selected@,
                toc@.take(j as int),
                toc@.len(),
                discid_view(discid),
                mbv,
            ),
        decreases toc.len() - j,
    {
        assert(toc@.take(j + 1).drop_last() == toc@.take(j as int));
        assert(toc@.take(j + 1).last() == toc@[j as int]);
        let show = selected.len() == 0 || contains_u32(&selected, toc[j].number as u32);
        assert(show == shown(selected@, toc@[j as int]));
        let ghost prev = out@;
        let ghost piece = if shown(selected@, toc@[j as int]) {
            track_block(settings.disable_accurip, toc@[j as int], toc@.len(), discid_view(discid), mbv)
        } else {
            Seq::<char>::empty()
        };
        assert(track_blocks(
            settings.disable_accurip,
            selected@,
            toc@.take(j + 1),
            toc@.len(),
            discid_view(discid),
            mbv,
        ) == track_blocks(
            settings.disable_accurip,
            selected@,
            toc@.take(j as int),
            toc@.len(),
            discid_view(discid),
            mbv,
        ) + piece);
        if show {
            push_track_block(&mut out, settings.disable_accurip, &toc[j], toc.len(), discid, musicbrainz);
        } else {
            assert(out@ =~= prev + piece);
        }
        assert(out@ =~= before + track_blocks(
            settings.disable_accurip,
            selected@,
            toc@.take(j + 1),
            toc@.len(),
            discid_view(discid),
            mbv,
        ));
        j += 1;
    }
    assert(toc@.take(toc@.len() as int) == toc@);
    assert(out@ =~= info_report_text(
        *settings,
        opt_str_view(drive_used),
        toc@,
        discid_view(discid),
        mbv,
    ));
    out
}


/// The entries of `toc` the report shows, in order.
pub open spec fn visible_entries(sel: Seq<u32>, toc: Seq<InfoTocEntry>) -> Seq<InfoTocEntry>
    decreases toc.len(),
{
    if toc.len() == 0 {
        Seq::empty()
    } else {
        let rest = visible_entries(sel, toc.drop_last());
        if shown(sel, toc.last()) {
            rest.push(toc.last())
        } else {
            rest
        }
    }
}

/// The tracks of the table of contents the report shows: all when none is
/// selected, else the selected ones.
pub fn filter_info_tracks<'a>(toc: &'a [InfoTocEntry], selected_tracks: &[u32]) -> (r: Vec<
    &'a InfoTocEntry,
>)
    ensures
        r@.map_values(|t: &InfoTocEntry| *t) == visible_entries(selected_tracks@, toc@),
{
    let mut sel: Vec<u32> = Vec::new();
    let mut k: usize = 0;
    while k < selected_tracks.len()
        invariant
            k <= selected_tracks@.len(),
            sel@ == selected_tracks@.take(k as int),
        decreases selected_tracks.len() - k,
    {
        sel.push(selected_tracks[k]);
        assert(selected_tracks@.take(k + 1) == selected_tracks@.take(k as int).push(selected_tracks@[k as int]));
        k += 1;
    }
    assert(selected_tracks@.take(selected_tracks@.len() as int) == selected_tracks@);
    let mut out: Vec<&'a InfoTocEntry> = Vec::new();
    let mut i: usize = 0;
    assert(toc@.take(0) == Seq::<InfoTocEntry>::empty());
    while i < toc.len()
        invariant
            i <= toc@.len(),
            sel@ == selected_tracks@,
            out@.map_values(|t: &InfoTocEntry| *t) == visible_entries(sel@, toc@.take(i as int)),
        decreases toc.len() - i,
    {
        assert(toc@.take(i + 1).drop_last() == toc@.take(i as int));
        assert(toc@.take(i + 1).last() == toc@[i as int]);
        let show = sel.len() == 0 || contains_u32(&sel, toc[i].number as u32);
        if show {
            let ghost before = out@;
            out.push(&toc[i]);
            assert(out@.map_values(|t: &InfoTocEntry| *t) =~= before.map_values(|t: &InfoTocEntry| *t).push(toc@[i as int]));
        }
        i += 1;
    }
    assert(toc@.take(toc@.len() as int) == toc@);
    out
}

} // verus!
