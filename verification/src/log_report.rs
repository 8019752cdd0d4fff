//! The rip log: the report written before ripping starts and the summary
//! written when it ends.
use vstd::prelude::*;

use crate::text::{dec, dec_int, join, opt_line, ostr, push_dec, push_dec_i64, repeat, strings_view};

verus! {

#[derive(Debug, Clone, Copy, PartialEq, Eq, Structural)]
pub enum ArDbStatus {
    Error,
    NotFound,
    Found,
    Mismatch,
    Disabled,
}

#[derive(Debug, Clone, Copy, PartialEq, Eq, Structural)]
pub enum ParanoiaStatus {
    Read,
    Verify,
    FixupEdge,
    FixupAtom,
    Scratch,
    Repair,
    Skip,
    Drift,
    Backoff,
    Overlap,
    FixupDropped,
    FixupDuped,
    ReadErr,
    CacheErr,
    Wrote,
    Finished,
}

/// The log label of a paranoia status.
pub open spec fn paranoia_label(s: ParanoiaStatus) -> Seq<char> {
    match s {
        ParanoiaStatus::Read => "READ"@,
        ParanoiaStatus::Verify => "VERIFY"@,
        ParanoiaStatus::FixupEdge => "FIXUP_EDGE"@,
        ParanoiaStatus::FixupAtom => "FIXUP_ATOM"@,
        ParanoiaStatus::Scratch => "SCRATCH"@,
        ParanoiaStatus::Repair => "REPAIR"@,
        ParanoiaStatus::Skip => "SKIP"@,
        ParanoiaStatus::Drift => "DRIFT"@,
        ParanoiaStatus::Backoff => "BACKOFF"@,
        ParanoiaStatus::Overlap => "OVERLAP"@,
        ParanoiaStatus::FixupDropped => "FIXUP_DROPPED"@,
        ParanoiaStatus::FixupDuped => "FIXUP_DUPED"@,
        ParanoiaStatus::ReadErr => "READERR"@,
        ParanoiaStatus::CacheErr => "CACHEERR"@,
        ParanoiaStatus::Wrote => "WROTE"@,
        ParanoiaStatus::Finished => "FINISHED"@,
    }
}

impl ParanoiaStatus {
    pub fn as_label(self) -> (r: &'static str)
        ensures
            r@ == paranoia_label(self),
    {
        match self {
            ParanoiaStatus::Read => "READ",
            ParanoiaStatus::Verify => "VERIFY",
            ParanoiaStatus::FixupEdge => "FIXUP_EDGE",
            ParanoiaStatus::FixupAtom => "FIXUP_ATOM",
            ParanoiaStatus::Scratch => "SCRATCH",
            ParanoiaStatus::Repair => "REPAIR",
            ParanoiaStatus::Skip => "SKIP",
            ParanoiaStatus::Drift => "DRIFT",
            ParanoiaStatus::Backoff => "BACKOFF",
            ParanoiaStatus::Overlap => "OVERLAP",
            ParanoiaStatus::FixupDropped => "FIXUP_DROPPED",
            ParanoiaStatus::FixupDuped => "FIXUP_DUPED",
            ParanoiaStatus::ReadErr => "READERR",
            ParanoiaStatus::CacheErr => "CACHEERR",
            ParanoiaStatus::Wrote => "WROTE",
            ParanoiaStatus::Finished => "FINISHED",
        }
    }
}

#[derive(Debug, Clone, PartialEq, Eq)]
pub struct StartReportInput {
    pub version: String,
    pub vcstag: String,
    pub drive_used: Option<String>,
    pub system_device: String,
    pub device_model: Option<String>,
    pub offset: i32,
    pub over_under_read_frames: i32,
    pub overread_leadinout: bool,
    pub speed: i32,
    pub drive_speed_changeable: bool,
    pub c2_supported: bool,
    pub paranoia_level: i32,
    pub max_paranoia_level: i32,
    pub frame_retries: i32,
    pub hdcd_decoding: bool,
    pub album_art: Vec<String>,
    pub outputs: Vec<String>,
    pub disc_number: Option<String>,
    pub total_discs: Option<String>,
    pub disc_tracks: i32,
    pub tracks_to_rip: Option<Vec<i32>>,
    pub musicbrainz_discid: Option<String>,
    pub release_id: Option<String>,
    pub cddb_id: Option<String>,
    pub disc_mcn: Option<String>,
    pub album: Option<String>,
    pub album_artist: Option<String>,
    pub accuraterip_status: ArDbStatus,
    pub total_time: String,
}

#[derive(Debug, Clone, PartialEq, Eq)]
pub struct FinishReportInput {
    pub tracks_ripped_accurately: Option<(i32, i32)>,
    pub tracks_ripped_partially_accurately: Option<(i32, i32)>,
    pub paranoia_status_counts: Vec<(ParanoiaStatus, u64)>,
    pub ripping_errors: i32,
    pub finished_at: String,
}

// ---------------------------------------------------------------------------
// The start report
// ---------------------------------------------------------------------------

pub open spec fn abs_nat(x: i32) -> nat {
    if x < 0 {
        (-x) as nat
    } else {
        x as nat
    }
}

pub open spec fn pick(b: bool, yes: Seq<char>, no: Seq<char>) -> Seq<char> {
    if b {
        yes
    } else {
        no
    }
}

/// Version, drive and device lines.
pub open spec fn report_drive_lines(i: StartReportInput) -> Seq<char> {
    "cyanrip "@ + i.version@ + " ("@ + i.vcstag@ + ")\n"@ + match i.drive_used {
        Some(d) => "Drive used:     "@ + d@ + "\n"@,
        None => "Drive used:     error retrieving drive info\n"@,
    } + "System device:  "@ + i.system_device@ + "\n"@ + opt_line(
        ostr(i.device_model),
        "Device model:   "@,
        "\n"@,
    )
}

pub open spec fn offset_line(i: StartReportInput) -> Seq<char> {
    let o = abs_nat(i.offset);
    "Offset:         "@ + pick(i.offset >= 0, "+"@, "-"@) + dec(o) + " "@ + pick(
        o == 1,
        "sample"@,
        "samples"@,
    ) + "\n"@
}

pub open spec fn overread_line(i: StartReportInput) -> Seq<char> {
    let f = abs_nat(i.over_under_read_frames);
    let under = i.over_under_read_frames < 0;
    pick(under, "Underread:      "@, "Overread:       "@) + pick(!under, "+"@, "-"@) + dec(f)
        + " "@ + pick(f == 1, "frame"@, "frames"@) + "\n"@
}

pub open spec fn overread_mode_line(i: StartReportInput) -> Seq<char> {
    pick(i.over_under_read_frames < 0, "Underread mode: "@, "Overread mode:  "@) + pick(
        i.overread_leadinout,
        "read in lead-in/lead-out"@,
        "fill with silence in lead-in/lead-out"@,
    ) + "\n"@
}

pub open spec fn speed_line(i: StartReportInput) -> Seq<char> {
    if i.speed != 0 && i.drive_speed_changeable {
        "Speed:          "@ + dec_int(i.speed as int) + "x\n"@
    } else {
        "Speed:          default ("@ + pick(
            i.drive_speed_changeable,
            "changeable"@,
            "unchangeable"@,
        ) + ")\n"@
    }
}

pub open spec fn c2_line(i: StartReportInput) -> Seq<char> {
    "C2 errors:      "@ + pick(i.c2_supported, "supported"@, "unsupported"@) + " by drive\n"@
}

/// Offset, over/underread, speed and C2 lines.
pub open spec fn report_read_lines(i: StartReportInput) -> Seq<char> {
    offset_line(i) + overread_line(i) + overread_mode_line(i) + speed_line(i) + c2_line(i)
}

pub open spec fn paranoia_line(i: StartReportInput) -> Seq<char> {
    if i.paranoia_level == i.max_paranoia_level {
        "Paranoia level: max\n"@
    } else if i.paranoia_level == 0 {
        "Paranoia level: none\n"@
    } else {
        "Paranoia level: "@ + dec_int(i.paranoia_level as int) + "\n"@
    }
}

pub open spec fn art_line(i: StartReportInput) -> Seq<char> {
    if i.album_art@.len() == 0 {
        "Album Art:      none\n"@
    } else {
        "Album Art:      "@ + join(strings_view(i.album_art@), ", "@) + "\n"@
    }
}

/// Paranoia, retries, HDCD, album art and output lines.
pub open spec fn report_option_lines(i: StartReportInput) -> Seq<char> {
    paranoia_line(i) + "Frame retries:  "@ + dec_int(i.frame_retries as int) + "\n"@
        + "HDCD decoding:  "@ + pick(i.hdcd_decoding, "enabled"@, "disabled"@) + "\n"@ + art_line(i)
        + "Outputs:        "@ + join(strings_view(i.outputs@), ", "@) + "\n"@
}

/// Decimal text of each number.
pub open spec fn ints_view(v: Seq<i32>) -> Seq<Seq<char>> {
    v.map_values(|x: i32| dec_int(x as int))
}

/// Disc and track selection lines.
pub open spec fn report_disc_lines(i: StartReportInput) -> Seq<char> {
    opt_line(ostr(i.disc_number), "Disc number:    "@, "\n"@) + opt_line(
        ostr(i.total_discs),
        "Total discs:    "@,
        "\n"@,
    ) + "Disc tracks:    "@ + dec_int(i.disc_tracks as int) + "\n"@ + match i.tracks_to_rip {
        None => "Tracks to rip:  all\n"@,
        Some(v) => if v@.len() == 0 {
            "Tracks to rip:  none\n"@
        } else {
            "Tracks to rip:  "@ + join(ints_view(v@), ", "@) + "\n"@
        },
    }
}

pub open spec fn ar_status_text(s: ArDbStatus) -> Seq<char> {
    match s {
        ArDbStatus::Error => "error"@,
        ArDbStatus::NotFound => "not found"@,
        ArDbStatus::Found => "found"@,
        ArDbStatus::Mismatch => "mismatch"@,
        ArDbStatus::Disabled => "disabled"@,
    }
}

/// Identifier, album and closing lines.
pub open spec fn report_id_lines(i: StartReportInput) -> Seq<char> {
    opt_line(ostr(i.musicbrainz_discid), "DiscID:         "@, "\n"@) + opt_line(
        ostr(i.release_id),
        "Release ID:     "@,
        "\n"@,
    ) + opt_line(ostr(i.cddb_id), "CDDB ID:        "@, "\n"@) + opt_line(
        ostr(i.disc_mcn),
        "Disc MCN:       "@,
        "\n"@,
    ) + opt_line(ostr(i.album), "Album:          "@, "\n"@) + opt_line(
        ostr(i.album_artist),
        "Album artist:   "@,
        "\n"@,
    ) + "AccurateRip:    "@ + ar_status_text(i.accuraterip_status) + "\n"@ + "Total time:     "@
        + i.total_time@ + "\n"@ + "\n"@
}

/// The report written before ripping starts.
pub open spec fn start_report_text(i: StartReportInput) -> Seq<char> {
    report_drive_lines(i) + report_read_lines(i) + report_option_lines(i) + report_disc_lines(i)
        + report_id_lines(i)
}

pub(crate) fn push_opt(out: &mut String, o: &Option<String>, pre: &str, post: &str)
    ensures
        final(out)@ == old(out)@ + opt_line(ostr(*o), pre@, post@),
{
    if let Some(v) = o {
        out.append(pre);
        out.append(v.as_str());
        out.append(post);
    }
}

fn push_joined_strings(out: &mut String, v: &Vec<String>, sep: &str)
    ensures
        final(out)@ == old(out)@ + join(strings_view(v@), sep@),
{
    let ghost o = out@;
    let ghost ws = strings_view(v@);
    let mut i: usize = 0;
    assert(ws.take(0) =~= Seq::<Seq<char>>::empty());
    assert(o + Seq::<char>::empty() == o);
    while i < v.len()
        invariant
            i <= v@.len(),
            ws == strings_view(v@),
            out@ == o + join(ws.take(i as int), sep@),
        decreases v.len() - i,
    {
        if i > 0 {
            out.append(sep);
        }
        out.append(v[i].as_str());
        assert(ws.take(i + 1).drop_last() == ws.take(i as int));
        assert(ws.take(i + 1).last() == v@[i as int]@);
        proof {
            if i == 0 {
                assert(ws.take(1).len() == 1);
            }
        }
        assert(out@ =~= o + join(ws.take(i + 1), sep@));
        i += 1;
    }
    assert(ws.take(v@.len() as int) == ws);
}

pub(crate) fn push_joined_ints(out: &mut String, v: &Vec<i32>, sep: &str)
    ensures
        final(out)@ == old(out)@ + join(ints_view(v@), sep@),
{
    let ghost o = out@;
    let ghost ws = ints_view(v@);
    let mut i: usize = 0;
    assert(ws.take(0) =~= Seq::<Seq<char>>::empty());
    assert(o + Seq::<char>::empty() == o);
    while i < v.len()
        invariant
            i <= v@.len(),
            ws == ints_view(v@),
            out@ == o + join(ws.take(i as int), sep@),
        decreases v.len() - i,
    {
        if i > 0 {
            out.append(sep);
        }
        push_dec_i64(out, v[i] as i64);
        assert(ws.take(i + 1).drop_last() == ws.take(i as int));
        assert(ws.take(i + 1).last() == dec_int(v@[i as int] as int));
        proof {
            if i == 0 {
                assert(ws.take(1).len() == 1);
            }
        }
        assert(out@ =~= o + join(ws.take(i + 1), sep@));
        i += 1;
    }
    assert(ws.take(v@.len() as int) == ws);
}

fn push_drive_lines(out: &mut String, input: &StartReportInput)
    ensures
        final(out)@ == old(out)@ + report_drive_lines(*input),
{
    let ghost o = out@;
    out.append("cyanrip ");
    out.append(input.version.as_str());
    out.append(" (");
    out.append(input.vcstag.as_str());
    out.append(")\n");
    if let Some(drive) = &input.drive_used {
        out.append("Drive used:     ");
        out.append(drive.as_str());
        out.append("\n");
    } else {
        out.append("Drive used:     error retrieving drive info\n");
    }
    out.append("System device:  ");
    out.append(input.system_device.as_str());
    out.append("\n");
    push_opt(out, &input.device_model, "Device model:   ", "\n");
    assert(out@ =~= o + report_drive_lines(*input));
}

fn push_offset_line(out: &mut String, input: &StartReportInput)
    requires
        input.offset != i32::MIN,
    ensures
        final(out)@ == old(out)@ + offset_line(*input),
{
    let ghost o = out@;
    let off_abs: u64 = if input.offset < 0 {
        (0 - input.offset) as u64
    } else {
        input.offset as u64
    };
    out.append("Offset:         ");
    out.append(if input.offset >= 0 { "+" } else { "-" });
    push_dec(out, off_abs);
    out.append(" ");
    out.append(if off_abs == 1 { "sample" } else { "samples" });
    out.append("\n");
    assert(out@ =~= o + offset_line(*input));
}

fn push_overread_line(out: &mut String, input: &StartReportInput)
    requires
        input.over_under_read_frames != i32::MIN,
    ensures
        final(out)@ == old(out)@ + overread_line(*input),
{
    let ghost o = out@;
    let ou = input.over_under_read_frames;
    let ou_abs: u64 = if ou < 0 {
        (0 - ou) as u64
    } else {
        ou as u64
    };
    out.append(if ou < 0 { "Underread:      " } else { "Overread:       " });
    out.append(if ou >= 0 { "+" } else { "-" });
    push_dec(out, ou_abs);
    out.append(" ");
    out.append(if ou_abs == 1 { "frame" } else { "frames" });
    out.append("\n");
    assert(out@ =~= o + overread_line(*input));
}

fn push_mode_speed_c2(out: &mut String, input: &StartReportInput)
    ensures
        final(out)@ == old(out)@ + overread_mode_line(*input) + speed_line(*input) + c2_line(*input),
{
    let ghost o = out@;
    out.append(if input.over_under_read_frames < 0 { "Underread mode: " } else { "Overread mode:  " });
    out.append(
        if input.overread_leadinout {
            "read in lead-in/lead-out"
        } else {
            "fill with silence in lead-in/lead-out"
        },
    );
    out.append("\n");
    let ghost o2 = out@;
    assert(o2 =~= o + overread_mode_line(*input));
    if input.speed != 0 && input.drive_speed_changeable {
        out.append("Speed:          ");
        push_dec_i64(out, input.speed as i64);
        out.append("x\n");
    } else {
        out.append("Speed:          default (");
        out.append(if input.drive_speed_changeable { "changeable" } else { "unchangeable" });
        out.append(")\n");
    }
    let ghost o3 = out@;
    assert(o3 =~= o2 + speed_line(*input));
    out.append("C2 errors:      ");
    out.append(if input.c2_supported { "supported" } else { "unsupported" });
    out.append(" by drive\n");
    assert(out@ =~= o3 + c2_line(*input));
}

fn push_read_lines(out: &mut String, input: &StartReportInput)
    requires
        input.offset != i32::MIN,
        input.over_under_read_frames != i32::MIN,
    ensures
        final(out)@ == old(out)@ + report_read_lines(*input),
{
    let ghost o = out@;
    push_offset_line(out, input);
    push_overread_line(out, input);
    push_mode_speed_c2(out, input);
    assert(out@ =~= o + report_read_lines(*input));
}

fn push_paranoia_line(out: &mut String, input: &StartReportInput)
    ensures
        final(out)@ == old(out)@ + paranoia_line(*input),
{
    let ghost o = out@;
    if input.paranoia_level == input.max_paranoia_level {
        out.append("Paranoia level: max\n");
    } else if input.paranoia_level == 0 {
        out.append("Paranoia level: none\n");
    } else {
        out.append("Paranoia level: ");
        push_dec_i64(out, input.paranoia_level as i64);
        out.append("\n");
    }
    assert(out@ =~= o + paranoia_line(*input));
}

fn push_art_line(out: &mut String, input: &StartReportInput)
    ensures
        final(out)@ == old(out)@ + art_line(*input),
{
    let ghost o = out@;
    if input.album_art.len() == 0 {
        out.append("Album Art:      none\n");
    } else {
        out.append("Album Art:      ");
        push_joined_strings(out, &input.album_art, ", ");
        out.append("\n");
    }
    assert(out@ =~= o + art_line(*input));
}

fn push_option_lines(out: &mut String, input: &StartReportInput)
    ensures
        final(out)@ == old(out)@ + report_option_lines(*input),
{
    let ghost o = out@;
    push_paranoia_line(out, input);
    let ghost o1 = out@;
    out.append("Frame retries:  ");
    push_dec_i64(out, input.frame_retries as i64);
    out.append("\n");
    out.append("HDCD decoding:  ");
    out.append(if input.hdcd_decoding { "enabled" } else { "disabled" });
    out.append("\n");
    let ghost o2 = out@;
    assert(o2 =~= o1 + "Frame retries:  "@ + dec_int(input.frame_retries as int) + "\n"@
        + "HDCD decoding:  "@ + pick(input.hdcd_decoding, "enabled"@, "disabled"@) + "\n"@);
    push_art_line(out, input);
    let ghost o3 = out@;
    out.append("Outputs:        ");
    push_joined_strings(out, &input.outputs, ", ");
    out.append("\n");
    assert(out@ =~= o3 + "Outputs:        "@ + join(strings_view(input.outputs@), ", "@) + "\n"@);
    assert(out@ =~= o + report_option_lines(*input));
}

fn push_disc_lines(out: &mut String, input: &StartReportInput)
    ensures
        final(out)@ == old(out)@ + report_disc_lines(*input),
{
    let ghost o = out@;
    push_opt(out, &input.disc_number, "Disc number:    ", "\n");
    push_opt(out, &input.total_discs, "Total discs:    ", "\n");
    out.append("Disc tracks:    ");
    push_dec_i64(out, input.disc_tracks as i64);
    out.append("\n");
    match &input.tracks_to_rip {
        None => out.append("Tracks to rip:  all\n"),
        Some(indices) => {
            if indices.len() == 0 {
                out.append("Tracks to rip:  none\n");
            } else {
                out.append("Tracks to rip:  ");
                push_joined_ints(out, indices, ", ");
                out.append("\n");
            }
        },
    }
    assert(out@ =~= o + report_disc_lines(*input));
}

#[verifier::spinoff_prover]
#[verifier::rlimit(60)]
fn push_id_lines(out: &mut String, input: &StartReportInput)
    ensures
        final(out)@ == old(out)@ + report_id_lines(*input),
{
    let ghost o = out@;
    push_opt(out, &input.musicbrainz_discid, "DiscID:         ", "\n");
    push_opt(out, &input.release_id, "Release ID:     ", "\n");
    push_opt(out, &input.cddb_id, "CDDB ID:        ", "\n");
    push_opt(out, &input.disc_mcn, "Disc MCN:       ", "\n");
    push_opt(out, &input.album, "Album:          ", "\n");
    push_opt(out, &input.album_artist, "Album artist:   ", "\n");
    out.append("AccurateRip:    ");
    out.append(
        match input.accuraterip_status {
            ArDbStatus::Error => "error",
            ArDbStatus::NotFound => "not found",
            ArDbStatus::Found => "found",
            ArDbStatus::Mismatch => "mismatch",
            ArDbStatus::Disabled => "disabled",
        },
    );
    out.append("\n");
    out.append("Total time:     ");
    out.append(input.total_time.as_str());
    out.append("\n");
    out.append("\n");
    assert(out@ =~= o + report_id_lines(*input));
}

/// The report written before ripping starts: drive, read settings,
/// options, disc, identifiers and totals, one labelled line each.
pub fn render_start_report(input: &StartReportInput) -> (r: String)
    requires
        input.offset != i32::MIN,
        input.over_under_read_frames != i32::MIN,
    ensures
        r@ == start_report_text(*input),
{
    let mut out = String::new();
    push_drive_lines(&mut out, input);
    push_read_lines(&mut out, input);
    push_option_lines(&mut out, input);
    push_disc_lines(&mut out, input);
    push_id_lines(&mut out, input);
    assert(out@ =~= start_report_text(*input));
    out
}

// ---------------------------------------------------------------------------
// The finish report
// ---------------------------------------------------------------------------

/// The width status labels are padded to.
pub open spec fn label_width() -> nat {
    13
}

/// One line per status with a non-zero count, values aligned.
pub open spec fn status_lines(counts: Seq<(ParanoiaStatus, u64)>) -> Seq<char>
    decreases counts.len(),
{
    if counts.len() == 0 {
        Seq::empty()
    } else {
        let (s, n) = counts.last();
        let label = paranoia_label(s);
        status_lines(counts.drop_last()) + if n == 0 {
            Seq::<char>::empty()
        } else {
            "  "@ + label + ": "@ + repeat(
                ' ',
                if label.len() < label_width() {
                    (label_width() - label.len()) as nat
                } else {
                    0
                },
            ) + dec(n as nat) + "\n"@
        }
    }
}

/// Whether some status has a non-zero count.
pub open spec fn any_status(counts: Seq<(ParanoiaStatus, u64)>) -> bool {
    exists|i: int| 0 <= i < counts.len() && (#[trigger] counts[i]).1 != 0
}

/// The summary written when ripping ends.
pub open spec fn finish_report_text(i: FinishReportInput) -> Seq<char> {
    (match i.tracks_ripped_accurately {
        Some((ok, total)) => "Tracks ripped accurately: "@ + dec_int(ok as int) + "/"@ + dec_int(
            total as int,
        ) + "\n"@ + match i.tracks_ripped_partially_accurately {
            Some((p, pt)) => "Tracks ripped partially accurately: "@ + dec_int(p as int) + "/"@
                + dec_int(pt as int) + "\n"@,
            None => Seq::empty(),
        } + "\n"@,
        None => Seq::empty(),
    }) + "Paranoia status counts:\n"@ + status_lines(i.paranoia_status_counts@) + (if any_status(
        i.paranoia_status_counts@,
    ) {
        "\n"@
    } else {
        "  none\n\n"@
    }) + "Ripping errors: "@ + dec_int(i.ripping_errors as int) + "\n"@ + "Ripping finished at "@
        + i.finished_at@ + "\n"@
}

fn push_status_lines(out: &mut String, counts: &Vec<(ParanoiaStatus, u64)>) -> (any: bool)
    ensures
        final(out)@ == old(out)@ + status_lines(counts@),
        any == any_status(counts@),
{
    let ghost o = out@;
    let mut has_status = false;
    let mut i: usize = 0;
    assert(counts@.take(0) =~= Seq::<(ParanoiaStatus, u64)>::empty());
    assert(o + Seq::<char>::empty() == o);
    while i < counts.len()
        invariant
            i <= counts@.len(),
            out@ == o + status_lines(counts@.take(i as int)),
            has_status == exists|j: int| 0 <= j < i && (#[trigger] counts@[j]).1 != 0,
        decreases counts.len() - i,
    {
        let (status, count) = counts[i];
        let ghost before = out@;
        assert(counts@.take(i + 1).drop_last() == counts@.take(i as int));
        assert(counts@.take(i + 1).last() == counts@[i as int]);
        if count != 0 {
            has_status = true;
            let label = status.as_label();
            let len = label.unicode_len();
            let padding: usize = if len < 13 { 13 - len } else { 0 };
            out.append("  ");
            out.append(label);
            out.append(": ");
            crate::text::push_repeat(out, ' ', padding);
            push_dec(out, count);
            out.append("\n");
            assert(out@ =~= o + status_lines(counts@.take(i + 1)));
        } else {
            assert(out@ =~= o + status_lines(counts@.take(i + 1)));
        }
        i += 1;
    }
    assert(counts@.take(counts@.len() as int) == counts@);
    has_status
}

/// The summary written when ripping ends: accuracy, paranoia status counts,
/// errors and the finishing time.
#[verifier::spinoff_prover]
#[verifier::rlimit(60)]
pub fn render_finish_report(input: &FinishReportInput) -> (r: String)
    ensures
        r@ == finish_report_text(*input),
{
    let mut out = String::new();
    if let Some((ok, total)) = input.tracks_ripped_accurately {
        out.append("Tracks ripped accurately: ");
        push_dec_i64(&mut out, ok as i64);
        out.append("/");
        push_dec_i64(&mut out, total as i64);
        out.append("\n");
        if let Some((partial, partial_total)) = input.tracks_ripped_partially_accurately {
            out.append("Tracks ripped partially accurately: ");
            push_dec_i64(&mut out, partial as i64);
            out.append("/");
            push_dec_i64(&mut out, partial_total as i64);
            out.append("\n");
        }
        out.append("\n");
    }
    let ghost head = out@;
    out.append("Paranoia status counts:\n");
    let has_status = push_status_lines(&mut out, &input.paranoia_status_counts);
    if has_status {
        out.append("\n");
    } else {
        out.append("  none\n\n");
    }
    out.append("Ripping errors: ");
    push_dec_i64(&mut out, input.ripping_errors as i64);
    out.append("\n");
    out.append("Ripping finished at ");
    out.append(input.finished_at.as_str());
    out.append("\n");
    assert(out@ =~= finish_report_text(*input));
    out
}

} // verus!
