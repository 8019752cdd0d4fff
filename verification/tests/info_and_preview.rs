use cyanrip_rs::cue::CueFileType;
use cyanrip_rs::info_report::{
    render_info_only_report, render_info_only_report_with_toc, InfoReportSettings,
};
use cyanrip_rs::metadata::musicbrainz::{MusicBrainzReleaseMeta, MusicBrainzTrackMeta};
use cyanrip_rs::track_meta::{
    cue_file_type_from_field, parse_album_metadata_map, parse_boolish, parse_track_meta_entry,
    render_cue_only_preview, track_directive_text, track_has_preemphasis,
};
use cyanrip_rs::workflow::InfoTocEntry;
use cyanrip_rs::OutputFormat;

fn info_settings() -> InfoReportSettings {
    InfoReportSettings {
        version: "0.1.0".to_string(),
        dev_path: None,
        offset: 0,
        over_under_read_frames: 0,
        overread_leadinout: false,
        paranoia_level: 3,
        max_retries: 10,
        decode_hdcd: false,
        outputs: vec![OutputFormat::Flac],
        disable_accurip: false,
        rip_indices: Vec::new(),
    }
}

fn two_track_toc() -> Vec<InfoTocEntry> {
    vec![
        InfoTocEntry {
            number: 1,
            start_lsn: 0,
            end_lsn: 149,
            track_is_data: false,
            pregap_lsn: None,
        },
        InfoTocEntry {
            number: 2,
            start_lsn: 200,
            end_lsn: 349,
            track_is_data: true,
            pregap_lsn: Some(192),
        },
    ]
}

#[test]
fn info_only_report_lists_settings() {
    let mut settings = info_settings();
    settings.offset = -1;
    settings.outputs = vec![OutputFormat::Flac, OutputFormat::Wav];
    let report = render_info_only_report(&settings, Some("PLEXTOR PX-891SAF (revision 1.00)"));
    assert_eq!(
        report,
        "cyanrip-rs 0.1.0\n\
Drive used:     PLEXTOR PX-891SAF (revision 1.00)\n\
System device:  <default>\n\
Offset:         -1 sample\n\
Overread:       +0 frames\n\
Overread mode:  fill with silence in lead-in/lead-out\n\
Speed:          default (unchangeable)\n\
Paranoia level: max\n\
Frame retries:  10\n\
HDCD decoding:  disabled\n\
Outputs:        flac, wav\n\
AccurateRip:    enabled"
    );
}

#[test]
fn info_only_report_with_toc_lists_tracks() {
    let toc = two_track_toc();
    let report = render_info_only_report_with_toc(&info_settings(), None, &toc, None, None);
    assert!(report.contains("Disc tracks:    2"));
    assert!(report.contains("Track 1 info:"));
    assert!(report.contains("    Duration:    00:02.00"));
    assert!(report.contains("    Samples:     88200"));
    assert!(report.contains("    Pregap LSN:  none"));
    assert!(report.contains("    Start LSN:   0"));
    assert!(report.contains("    End LSN:     149"));
    assert!(report.contains("Track 2 info:"));
    assert!(report.contains("    Data bytes:  "));
    assert!(report.contains("    Pregap LSN:  192 (duration: 00:00.08)"));
    assert!(report.contains("    Data bytes:  352800 (0.34 Mib)\n"));
    assert!(report.contains("Total time:     00:04.00\n"));
}

#[test]
fn info_only_report_with_toc_filters_to_selected_tracks() {
    let mut settings = info_settings();
    settings.rip_indices = vec![2];
    let toc = two_track_toc();
    let report = render_info_only_report_with_toc(&settings, None, &toc, None, None);
    assert!(report.contains("Tracks to rip:  2"));
    assert!(!report.contains("Track 1 info:"));
    assert!(report.contains("Track 2 info:"));
}

#[test]
fn info_only_report_with_release_includes_metadata_block() {
    let toc = vec![InfoTocEntry {
        number: 1,
        start_lsn: 0,
        end_lsn: 149,
        track_is_data: false,
        pregap_lsn: None,
    }];
    let release = MusicBrainzReleaseMeta {
        musicbrainz_albumid: "rel-1".to_string(),
        releasecomment: None,
        date: Some("1994".to_string()),
        album: "Album One".to_string(),
        barcode: Some("1234567890123".to_string()),
        packaging: Some("Other".to_string()),
        country: Some("US".to_string()),
        releasestatus: Some("Official".to_string()),
        catalognumber: Some("15 848".to_string()),
        label: Some("Label X".to_string()),
        album_artist: Some("Various Artists".to_string()),
        discname: None,
        format: Some("CD".to_string()),
        discnumber: Some(3),
        totaldiscs: 10,
        tracks: vec![MusicBrainzTrackMeta {
            mbid: Some("track-1-mbid".to_string()),
            title: "Ride of the Valkyries".to_string(),
            artist: Some("Richard Wagner".to_string()),
        }],
    };

    let report = render_info_only_report_with_toc(
        &info_settings(),
        None,
        &toc,
        Some((
            "BKkzOxbdODYWFIOEEZ3b.b_nm64-",
            "8E0F310A",
            "https://musicbrainz.org/cdtoc/attach?toc=...",
        )),
        Some(&release),
    );

    assert!(report.contains("Release ID:     rel-1"));
    assert!(report.contains("Album:          Album One"));
    assert!(report.contains("Disc number:    3"));
    assert!(report.contains("Total discs:    10"));
    assert!(report.contains("  Metadata:"));
    assert!(report.contains("    mbid:                track-1-mbid"));
    assert!(report.contains("    disc_mcn:            0000000000000"));
    assert!(report.contains("    comment:             cyanrip 0.9.4-rc2"));
    assert!(report.contains("    date:                1994"));
    assert!(report.contains("    musicbrainz_albumid: rel-1"));
    assert!(report.contains("    packaging:           Other"));
    assert!(report.contains("    totaldiscs:          10"));
    assert!(report.contains("    disc:                3"));

    let comment_pos = report
        .find("    comment:             cyanrip 0.9.4-rc2")
        .expect("comment line should exist");
    let albumid_pos = report
        .find("    musicbrainz_albumid: rel-1")
        .expect("musicbrainz_albumid line should exist");
    assert!(comment_pos < albumid_pos, "comment should be before musicbrainz_albumid");
}

#[test]
fn info_report_without_tracks_is_the_settings_alone() {
    let settings = info_settings();
    assert_eq!(
        render_info_only_report_with_toc(&settings, None, &[], None, None),
        render_info_only_report(&settings, None)
    );
}

#[test]
fn album_metadata_pairs_are_trimmed_and_later_ones_win() {
    let m = parse_album_metadata_map(Some(" album = One : artist=A:bad:=x:album=Two: k= "));
    assert_eq!(m.get("album").map(|s| s.as_str()), Some("Two"));
    assert_eq!(m.get("artist").map(|s| s.as_str()), Some("A"));
    assert_eq!(m.get("k"), None);
    assert_eq!(m.len(), 2);
    assert_eq!(parse_album_metadata_map(None).len(), 0);
}

#[test]
fn track_entries_need_a_positive_number() {
    let (n, fields) = parse_track_meta_entry(" 3 =title=Lead:artist=Singer").unwrap();
    assert_eq!(n, 3);
    assert_eq!(fields.get("title").map(|s| s.as_str()), Some("Lead"));
    assert!(parse_track_meta_entry("0=title=x").is_none());
    assert!(parse_track_meta_entry("x=title=x").is_none());
    assert!(parse_track_meta_entry("no separator").is_none());
}

#[test]
fn yes_no_words_and_field_readers() {
    assert_eq!(parse_boolish(" YES "), Some(true));
    assert_eq!(parse_boolish("off"), Some(false));
    assert_eq!(parse_boolish("maybe"), None);

    let (_, fields) = parse_track_meta_entry(
        "1=preemphasis=On:file_type= BIN :songwriter=  Writer :composer=   ",
    )
    .unwrap();
    assert!(track_has_preemphasis(&fields));
    assert_eq!(cue_file_type_from_field(&fields), Some(CueFileType::Binary));
    assert_eq!(
        track_directive_text(&fields, "songwriter"),
        Some("Writer".to_string())
    );
    assert_eq!(track_directive_text(&fields, "composer"), None);
}

#[test]
fn cue_only_preview_ingests_extended_track_fields() {
    let entries = vec![
        "1=title=Lead:artist=Singer:isrc=USAAA9912345:preemphasis=1:start_lsn=200:dropped_pregap_start=50:songwriter=Writer:composer=Composer:arranger=Arranger:flag_dcp=1:flag_4ch=1:flag_scms=1:postgap_frames=150".to_string(),
        "2=title=Data Cut:data=1:cue_file_type=binary".to_string(),
    ];

    let cue = render_cue_only_preview(
        Some("album=Extended Album:album_artist=Extended Artist"),
        &entries,
        false,
        false,
    )
    .expect("times are consistent");
    assert!(cue.contains("ISRC USAAA9912345"));
    assert!(cue.contains("FLAGS PRE"));
    assert!(cue.contains("FLAGS PRE DCP 4CH SCMS"));
    assert!(cue.contains("SONGWRITER \"Writer\""));
    assert!(cue.contains("COMPOSER \"Composer\""));
    assert!(cue.contains("ARRANGER \"Arranger\""));
    assert!(cue.contains("PREGAP 00:02:00"));
    assert!(cue.contains("POSTGAP 00:02:00"));
    assert!(cue.contains("FILE \"02 - Data Cut.flac\" BINARY"));
    assert!(cue.contains("TRACK 02 MODE1/2352"));
}

#[test]
fn cue_only_preview_orders_tracks_and_titles_the_album() {
    let entries = vec![
        "2=title=Outro".to_string(),
        "bogus".to_string(),
        "1=artist=Someone".to_string(),
    ];
    let cue = render_cue_only_preview(Some("album=Example Album"), &entries, true, false).unwrap();
    assert!(cue.starts_with("cyanrip-rs cue-only preview\n"));
    assert!(cue.contains("TITLE \"Example Album\""));
    let one = cue.find("FILE \"01 - Track 01.flac\" WAVE").expect("track 1 file line");
    let two = cue.find("FILE \"02 - Outro.flac\" WAVE").expect("track 2 file line");
    assert!(one < two);
}

#[test]
fn cue_only_preview_refuses_backwards_pregap_times() {
    let entries = vec!["1=start_lsn=10:dropped_pregap_start=50".to_string()];
    assert_eq!(render_cue_only_preview(None, &entries, false, false), None);
}
