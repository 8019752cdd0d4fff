use cyanrip_rs::log_report::{
    render_finish_report, render_start_report, ArDbStatus, FinishReportInput, ParanoiaStatus,
    StartReportInput,
};

fn sample_start() -> StartReportInput {
    StartReportInput {
        version: "0.1.0".to_string(),
        vcstag: "abc123".to_string(),
        drive_used: Some("PLEXTOR PX-891SAF (revision 1.00)".to_string()),
        system_device: "/dev/sr0".to_string(),
        device_model: Some("PLEXTOR PX-891SAF".to_string()),
        offset: 6,
        over_under_read_frames: 1,
        overread_leadinout: false,
        speed: 0,
        drive_speed_changeable: true,
        c2_supported: false,
        paranoia_level: 3,
        max_paranoia_level: 3,
        frame_retries: 10,
        hdcd_decoding: false,
        album_art: vec!["Front (From: coverartarchive)".to_string()],
        outputs: vec!["flac".to_string(), "wav".to_string()],
        disc_number: Some("1".to_string()),
        total_discs: Some("2".to_string()),
        disc_tracks: 12,
        tracks_to_rip: Some(vec![1, 2, 4]),
        musicbrainz_discid: Some("mb-discid-123".to_string()),
        release_id: Some("release-xyz".to_string()),
        cddb_id: Some("cddb-789".to_string()),
        disc_mcn: Some("0123456789012".to_string()),
        album: Some("Example Album".to_string()),
        album_artist: Some("Example Artist".to_string()),
        accuraterip_status: ArDbStatus::Found,
        total_time: "00:42:13".to_string(),
    }
}

#[test]
fn start_report_tracks_to_rip_all_and_none() {
    let mut all = sample_start();
    all.tracks_to_rip = None;
    assert!(render_start_report(&all).contains("Tracks to rip:  all\n"));

    let mut none = sample_start();
    none.tracks_to_rip = Some(Vec::new());
    assert!(render_start_report(&none).contains("Tracks to rip:  none\n"));
}

#[test]
fn start_report_lists_settings_in_order() {
    let report = render_start_report(&sample_start());
    assert!(report.contains("Offset:         +6 samples\n"));
    assert!(report.contains("Overread:       +1 frame\n"));
    assert!(report.contains("Overread mode:  fill with silence in lead-in/lead-out\n"));
    assert!(report.contains("Speed:          default (changeable)\n"));
    assert!(report.contains("C2 errors:      unsupported by drive\n"));
    assert!(report.contains("Paranoia level: max\n"));
    assert!(report.contains("Frame retries:  10\n"));
    assert!(report.contains("Album Art:      Front (From: coverartarchive)\n"));
    assert!(report.contains("Outputs:        flac, wav\n"));
    assert!(report.contains("Tracks to rip:  1, 2, 4\n"));
    assert!(report.contains("AccurateRip:    found\n"));
    assert!(report.ends_with("Total time:     00:42:13\n\n"));
    let offset_at = report.find("Offset:").unwrap();
    let outputs_at = report.find("Outputs:").unwrap();
    assert!(offset_at < outputs_at);
}

#[test]
fn start_report_underread_and_speed_lines() {
    let mut input = sample_start();
    input.offset = -1;
    input.over_under_read_frames = -2;
    input.overread_leadinout = true;
    input.speed = 8;
    input.paranoia_level = 0;
    input.album_art = Vec::new();
    let report = render_start_report(&input);
    assert!(report.contains("Offset:         -1 sample\n"));
    assert!(report.contains("Underread:      -2 frames\n"));
    assert!(report.contains("Underread mode: read in lead-in/lead-out\n"));
    assert!(report.contains("Speed:          8x\n"));
    assert!(report.contains("Paranoia level: none\n"));
    assert!(report.contains("Album Art:      none\n"));
}

#[test]
fn finish_report_no_status_lines_emits_none() {
    let input = FinishReportInput {
        tracks_ripped_accurately: None,
        tracks_ripped_partially_accurately: None,
        paranoia_status_counts: vec![(ParanoiaStatus::Read, 0), (ParanoiaStatus::Verify, 0)],
        ripping_errors: 3,
        finished_at: "2026-08-18T20:50:00".to_string(),
    };

    let rendered = render_finish_report(&input);
    assert!(rendered.contains("Paranoia status counts:\n  none\n\n"));
    assert!(rendered.contains("Ripping errors: 3\n"));
}

#[test]
fn finish_report_pads_status_labels_and_counts_accuracy() {
    let input = FinishReportInput {
        tracks_ripped_accurately: Some((10, 12)),
        tracks_ripped_partially_accurately: Some((1, 2)),
        paranoia_status_counts: vec![
            (ParanoiaStatus::Read, 512),
            (ParanoiaStatus::Verify, 511),
            (ParanoiaStatus::FixupDropped, 2),
        ],
        ripping_errors: 0,
        finished_at: "2026-08-18T20:44:00".to_string(),
    };

    let expected = "Tracks ripped accurately: 10/12\n\
Tracks ripped partially accurately: 1/2\n\
\n\
Paranoia status counts:\n\
\x20 READ:          512\n\
\x20 VERIFY:        511\n\
\x20 FIXUP_DROPPED: 2\n\
\n\
Ripping errors: 0\n\
Ripping finished at 2026-08-18T20:44:00\n";
    assert_eq!(render_finish_report(&input), expected);
}
