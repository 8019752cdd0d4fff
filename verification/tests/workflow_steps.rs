use cyanrip_rs::audio::{PcmSpec, PcmTrackData};
use cyanrip_rs::cdda::paranoia::{RipEvent, RipState};
use cyanrip_rs::cdda::reader::{CddaReadError, CDDA_FRAME_BYTES};
use cyanrip_rs::metadata::musicbrainz::ReleaseSummary;
use cyanrip_rs::tags::TagMap;
use cyanrip_rs::workflow::{
    accurip_v1_checksum, accurip_v1_checksum_pcm, app_tracks_from_image_boundaries,
    apply_offset_frame_adjustment, format_msf_from_frames,
    format_musicbrainz_multiple_releases_message, image_disc_range_from_boundaries,
    map_toc_preflight_error, paranoia_run_did_not_converge, parse_cue_index_01_lsn,
    parse_cue_track_starts, parse_track_number, resolve_requested_audio_tracks,
    resolve_track_boundaries, selected_track_numbers,
    validate_requested_track_indices_against_toc, InfoTocEntry, RunWorkflowError, TrackBoundary,
};

fn tags(pairs: &[(&str, &str)]) -> TagMap {
    let mut m = TagMap::new();
    for (k, v) in pairs {
        m.insert(k.to_string(), v.to_string());
    }
    m
}

fn stereo(samples: Vec<i16>) -> PcmTrackData {
    PcmTrackData {
        spec: PcmSpec {
            channels: 2,
            sample_rate: 44_100,
            bits_per_sample: 16,
        },
        interleaved_i16_samples: samples,
    }
}

#[test]
fn toc_preflight_mapper_returns_clear_no_medium_message() {
    let err = CddaReadError::ReadFailed("invalid TOC values returned by drive".to_string());
    assert_eq!(
        map_toc_preflight_error(&err),
        RunWorkflowError::Runtime("Drive has no readable audio medium inserted".to_string())
    );

    let err_no_medium =
        CddaReadError::ReadFailed("error in ioctl CDROMREADTOCHDR: No medium found".to_string());
    assert_eq!(
        map_toc_preflight_error(&err_no_medium),
        RunWorkflowError::Runtime("Drive has no readable audio medium inserted".to_string())
    );
}

#[test]
fn toc_preflight_mapper_keeps_generic_toc_message_for_other_errors() {
    let err = CddaReadError::ReadFailed("permission denied".to_string());
    assert_eq!(
        map_toc_preflight_error(&err),
        RunWorkflowError::Runtime("TOC read failed: ReadFailed(\"permission denied\")".to_string())
    );
}

#[test]
fn toc_preflight_mapper_quotes_seek_errors_with_escapes() {
    let err = CddaReadError::SeekFailed("bad \"lsn\"".to_string());
    assert_eq!(
        map_toc_preflight_error(&err),
        RunWorkflowError::Runtime("TOC read failed: SeekFailed(\"bad \\\"lsn\\\"\")".to_string())
    );
}

#[test]
fn format_msf_from_frames_uses_mm_ss_ff() {
    assert_eq!(format_msf_from_frames(0), "00:00.00");
    assert_eq!(format_msf_from_frames(75), "00:01.00");
    assert_eq!(format_msf_from_frames(150), "00:02.00");
    assert_eq!(format_msf_from_frames(4510), "01:00.10");
}

#[test]
fn format_msf_reads_negative_counts_as_zero() {
    assert_eq!(format_msf_from_frames(-5), "00:00.00");
    assert_eq!(format_msf_from_frames(75 * 60 * 100 + 74), "100:00.74");
}

#[test]
fn validate_requested_track_indices_against_toc_rejects_out_of_range_and_zero() {
    let toc = vec![
        InfoTocEntry {
            number: 1,
            start_lsn: 0,
            end_lsn: 149,
            track_is_data: false,
            pregap_lsn: None,
        },
        InfoTocEntry {
            number: 2,
            start_lsn: 150,
            end_lsn: 299,
            track_is_data: false,
            pregap_lsn: None,
        },
    ];

    let err = validate_requested_track_indices_against_toc(&toc, &[0, 3])
        .expect_err("invalid selection should fail");
    match err {
        RunWorkflowError::Runtime(msg) => {
            assert_eq!(msg, "Invalid rip index 0, list has 2 tracks!");
        }
        other => panic!("unexpected error: {other:?}"),
    }
    assert!(validate_requested_track_indices_against_toc(&toc, &[2, 1]).is_ok());
}

#[test]
fn resolve_requested_audio_tracks_rejects_invalid_selection() {
    let err = resolve_requested_audio_tracks(&[1, 99], &[1, 2, 3], 10)
        .expect_err("invalid selected track should fail");

    match err {
        RunWorkflowError::Runtime(msg) => {
            assert_eq!(msg, "Invalid rip index 99, list has 10 tracks!");
        }
        other => panic!("unexpected error: {other:?}"),
    }
}

#[test]
fn resolve_requested_audio_tracks_defaults_to_all_available() {
    assert_eq!(
        resolve_requested_audio_tracks(&[], &[1, 2, 3], 3).unwrap(),
        vec![1, 2, 3]
    );
    assert_eq!(
        resolve_requested_audio_tracks(&[3, 1], &[1, 2, 3], 3).unwrap(),
        vec![3, 1]
    );
}

#[test]
fn formats_musicbrainz_multiple_release_prompt_for_info_mode() {
    let releases = vec![
        ReleaseSummary {
            id: "id-1".to_string(),
            album: "Album One".to_string(),
            disambiguation: None,
            country: Some("US".to_string()),
            date: Some("1994".to_string()),
            num_cds: 1,
        },
        ReleaseSummary {
            id: "id-2".to_string(),
            album: "Album Two".to_string(),
            disambiguation: None,
            country: Some("US".to_string()),
            date: None,
            num_cds: 10,
        },
    ];

    let msg = format_musicbrainz_multiple_releases_message("TESTDISC", &releases);
    assert!(msg.contains("Multiple releases found in database for DiscID TESTDISC:"));
    assert!(msg.contains("1 (ID: id-1): Album One (US) (1994)"));
    assert!(msg.contains("2 (ID: id-2): Album Two (US) (10 CDs)"));
    assert!(msg.contains("Please specify which release to use by adding the -R argument"));
}

#[test]
fn selected_track_numbers_default_to_empty_selection() {
    assert!(selected_track_numbers(&[]).is_empty());
}

#[test]
fn selected_track_numbers_keep_positive_indices_in_order() {
    assert_eq!(selected_track_numbers(&[3, 1]), vec![3, 1]);
}

#[test]
fn apply_offset_frame_adjustment_matches_upstream_coarse_shift() {
    let boundary = TrackBoundary {
        track_number: 1,
        start_lsn: 0,
        frame_count: 100,
    };

    let got_pos = apply_offset_frame_adjustment(boundary, 1);
    assert_eq!(got_pos.start_lsn, 0);
    assert_eq!(got_pos.frame_count, 101);

    let got_neg = apply_offset_frame_adjustment(boundary, -2);
    assert_eq!(got_neg.start_lsn, -2);
    assert_eq!(got_neg.frame_count, 101);

    let unchanged = apply_offset_frame_adjustment(boundary, 0);
    assert_eq!(unchanged, boundary);
}

#[test]
fn app_tracks_from_image_boundaries_maps_lsn_and_marks_audio_only() {
    let boundaries = vec![
        TrackBoundary {
            track_number: 1,
            start_lsn: 0,
            frame_count: 100,
        },
        TrackBoundary {
            track_number: 2,
            start_lsn: 100,
            frame_count: 50,
        },
    ];

    let tracks = app_tracks_from_image_boundaries(&boundaries);
    assert_eq!(tracks.len(), 2);
    assert_eq!(tracks[0].number, 1);
    assert_eq!(tracks[0].start_lsn, 0);
    assert_eq!(tracks[0].end_lsn, 99);
    assert!(!tracks[0].track_is_data);
    assert_eq!(tracks[1].number, 2);
    assert_eq!(tracks[1].start_lsn, 100);
    assert_eq!(tracks[1].end_lsn, 149);
    assert!(!tracks[1].track_is_data);

    assert_eq!(image_disc_range_from_boundaries(&boundaries), (0, 149));
}

#[test]
fn paranoia_precheck_treats_retry_limit_as_failure() {
    assert!(paranoia_run_did_not_converge(
        RipState::TrackComplete,
        &[RipEvent::RetryLimitReached]
    ));
    assert!(paranoia_run_did_not_converge(RipState::Aborted, &[]));
    assert!(!paranoia_run_did_not_converge(
        RipState::TrackComplete,
        &[RipEvent::ChecksumSatisfied]
    ));
}

#[test]
fn accurip_pcm_checksum_matches_word_weighted_formula() {
    let bytes = [1u8, 2, 3, 4, 5, 6, 7, 8];
    let mut samples = Vec::new();
    for pair in bytes.chunks_exact(2) {
        samples.push(i16::from_le_bytes([pair[0], pair[1]]));
    }

    let pcm = stereo(samples);

    let expected = u32::from_le_bytes([1, 2, 3, 4])
        .wrapping_mul(1)
        .wrapping_add(u32::from_le_bytes([5, 6, 7, 8]).wrapping_mul(2));
    assert_eq!(accurip_v1_checksum_pcm(&pcm, false, false), expected);
    assert_eq!(accurip_v1_checksum(&bytes), expected);
}

#[test]
fn accurip_pcm_checksum_trims_first_and_last_track_boundary_frames() {
    let samples_per_frame = CDDA_FRAME_BYTES / 4;
    let untrimmed_words = samples_per_frame * 6;
    let mut samples = Vec::new();
    for w in 0..untrimmed_words {
        samples.push(w as i16);
        samples.push(0i16);
    }
    let pcm = stereo(samples);

    let checksum_first_track = accurip_v1_checksum_pcm(&pcm, true, false);
    let checksum_middle_track = accurip_v1_checksum_pcm(&pcm, false, false);
    assert_ne!(
        checksum_first_track, checksum_middle_track,
        "trimming the first-track lead-in must change the checksum"
    );
}

#[test]
fn resolve_track_boundaries_prefers_metadata_over_defaults() {
    let track_numbers = vec![2u32, 4u32];
    let meta = vec![
        (2u32, tags(&[("start_lsn", "20"), ("frames", "10")])),
        (4u32, tags(&[("start_lsn", "100"), ("end_lsn", "115")])),
    ];

    let got = resolve_track_boundaries(&track_numbers, &meta, 32, None);
    assert_eq!(got.len(), 2);
    assert_eq!(got[0].track_number, 2);
    assert_eq!(got[0].start_lsn, 20);
    assert_eq!(got[0].frame_count, 10);
    assert_eq!(got[1].track_number, 4);
    assert_eq!(got[1].start_lsn, 100);
    assert_eq!(got[1].frame_count, 16);
}

#[test]
fn resolve_track_boundaries_prefers_image_toc_over_metadata() {
    let track_numbers = vec![2u32, 4u32];
    let meta = vec![(2u32, tags(&[("start_lsn", "20"), ("frames", "10")]))];
    let toc = vec![(2u32, 500i32, 25usize), (4u32, 800i32, 30usize)];

    let got = resolve_track_boundaries(&track_numbers, &meta, 32, Some(&toc));

    assert_eq!(got.len(), 2);
    assert_eq!(got[0].track_number, 2);
    assert_eq!(got[0].start_lsn, 500);
    assert_eq!(got[0].frame_count, 25);
    assert_eq!(got[1].track_number, 4);
    assert_eq!(got[1].start_lsn, 800);
    assert_eq!(got[1].frame_count, 30);
}

#[test]
fn parse_cue_track_starts_reads_index_01_values() {
    let cue = r#"
FILE "disc.bin" BINARY
  TRACK 01 AUDIO
    INDEX 01 00:00:00
  TRACK 02 AUDIO
    INDEX 00 00:00:07
    INDEX 01 00:00:10
  TRACK 03 MODE1/2352
    INDEX 01 00:01:00
"#;

    let got = parse_cue_track_starts(cue);
    assert_eq!(got, vec![(1, 0), (2, 10), (3, 75)]);
}

#[test]
fn cue_line_parsers_read_track_numbers_and_index_times() {
    assert_eq!(parse_track_number("  TRACK 07 AUDIO"), Some(7));
    assert_eq!(parse_track_number("INDEX 01 00:00:00"), None);
    assert_eq!(parse_cue_index_01_lsn("    INDEX 01 01:02:03"), Some(60 * 75 + 2 * 75 + 3));
    assert_eq!(parse_cue_index_01_lsn("    INDEX 00 01:02:03"), None);
}
