use cyanrip_rs::find_offset::{
    find_drive_offset_in_tracks, find_drive_offset_with, offset_window_request, read_drive_window, OffsetSearch,
};
use cyanrip_rs::metadata::accurip::AccuRipTrackInput;
use cyanrip_rs::track_read::acquire_track_pcm_from_physical_reader;
use cyanrip_rs::workflow::RunWorkflowError;
use cyanrip_rs::audio::{PcmSpec, PcmTrackData};
use cyanrip_rs::cdda::reader::CDDA_FRAME_BYTES;
use cyanrip_rs::info_report::filter_info_tracks;
use cyanrip_rs::metadata::accurip::{
    AccuDbStatus, AccuRipDbEntry, AccuRipDiscIds, AccuRipLookupResult, AccuRipTrackMatches,
};
use cyanrip_rs::metadata::flow::{
    track_accurip_confidence_for_checksum, track_accurip_confidence_for_pcm, MetadataFlowResult,
};
use cyanrip_rs::track_read::{
    acquire_tracks_pcm_from_image_reader, apply_drive_offset_crop, build_synthetic_frames,
    build_track_read_plans, plan_track_read,
};
use cyanrip_rs::workflow::{
    default_media_value, format_duration_from_frames, full_rip_source_from_settings,
    image_toc_overrides_from_settings, parse_image_toc_from_cue_text, parse_image_toc_value,
    samples_from_frames, should_attempt_eject_on_success, toc_value_fits_check, FullRipSource,
    InfoTocEntry, TrackBoundary,
};
use cyanrip_rs::{calc_over_under_read_frames, OutputFormat, PregapAction, Settings};

#[test]
fn eject_gate_requires_flag_and_physical_source() {
    let mut settings = Settings::default();
    assert!(!should_attempt_eject_on_success(&settings, FullRipSource::Physical));
    assert!(!should_attempt_eject_on_success(&settings, FullRipSource::Image));

    settings.eject_on_success_rip = true;
    assert!(should_attempt_eject_on_success(&settings, FullRipSource::Physical));
    assert!(!should_attempt_eject_on_success(&settings, FullRipSource::Image));
}

#[test]
fn run_workflow_selects_image_source_for_default_and_cue_paths() {
    let mut settings_default = Settings::default();
    settings_default.outputs = vec![OutputFormat::Flac];
    assert_eq!(full_rip_source_from_settings(&settings_default, false), FullRipSource::Image);
    assert_eq!(full_rip_source_from_settings(&settings_default, true), FullRipSource::Physical);

    let mut settings_cue = Settings::default();
    settings_cue.dev_path = Some("disc.cue".to_string());
    assert_eq!(full_rip_source_from_settings(&settings_cue, false), FullRipSource::Image);
    assert_eq!(full_rip_source_from_settings(&settings_cue, true), FullRipSource::Image);
}

#[test]
fn run_workflow_selects_physical_source_for_device_like_paths() {
    let mut settings = Settings::default();
    settings.dev_path = Some("/dev/cdrom".to_string());
    assert_eq!(full_rip_source_from_settings(&settings, true), FullRipSource::Physical);
    assert_eq!(full_rip_source_from_settings(&settings, false), FullRipSource::Physical);
}

#[test]
fn defaults_match_c_main() {
    let s = Settings::default();
    assert_eq!(s.max_retries, 10);
    assert_eq!(s.offset, 0);
    assert_eq!(s.outputs, vec![OutputFormat::Flac]);
    assert_eq!(s.paranoia_level, 3);
    assert_eq!(s.pregap_action[0], PregapAction::Default);
    assert!(s.enable_replaygain);
    assert!(s.deemphasis);
}

#[test]
fn apply_drive_offset_crop_realigns_samples_by_exact_sample_offset() {
    let boundary = TrackBoundary { track_number: 1, start_lsn: 100, frame_count: 10 };
    let offset = 103;
    let plan = plan_track_read(boundary, calc_over_under_read_frames(offset), true, 0, 100_000);
    assert_eq!(plan.frame_count, 11, "positive sub-frame offset should overread by one whole frame");
    assert_eq!(plan.original_frame_count, 10);

    let i16_per_cd_frame = CDDA_FRAME_BYTES / 2;
    let total_i16 = plan.frame_count * i16_per_cd_frame;
    let samples: Vec<i16> = (0..total_i16).map(|i| i as i16).collect();
    let pcm = PcmTrackData {
        spec: PcmSpec { channels: 2, sample_rate: 44_100, bits_per_sample: 16 },
        interleaved_i16_samples: samples,
    };

    let cropped = apply_drive_offset_crop(pcm, &plan, offset);
    let expected_len = plan.original_frame_count * i16_per_cd_frame;
    assert_eq!(cropped.interleaved_i16_samples.len(), expected_len);
    assert_eq!(cropped.interleaved_i16_samples[0], 206);
    assert_eq!(*cropped.interleaved_i16_samples.last().unwrap(), (206 + expected_len - 1) as i16);
}

#[test]
fn plan_track_read_clips_and_adds_silence_when_overread_disabled() {
    let boundary = TrackBoundary { track_number: 1, start_lsn: 0, frame_count: 100 };
    let plan = plan_track_read(boundary, -2, false, 0, 1000);
    assert_eq!(plan.read_start_lsn, 0);
    assert_eq!(plan.read_frame_count, 99);
    assert_eq!(plan.silence_before_frames, 2);
    assert_eq!(plan.silence_after_frames, 0);
    assert_eq!(plan.frame_count, 101);
}

#[test]
fn plan_track_read_keeps_out_of_range_reads_when_overread_enabled() {
    let boundary = TrackBoundary { track_number: 1, start_lsn: 0, frame_count: 100 };
    let plan = plan_track_read(boundary, -2, true, 0, 1000);
    assert_eq!(plan.read_start_lsn, -2);
    assert_eq!(plan.read_frame_count, 101);
    assert_eq!(plan.silence_before_frames, 0);
    assert_eq!(plan.silence_after_frames, 0);
    assert_eq!(plan.frame_count, 101);
}

#[test]
fn synthetic_frames_follow_their_byte_pattern() {
    let frames = build_synthetic_frames(3);
    assert_eq!(frames.len(), 3);
    assert_eq!(frames[0].len(), CDDA_FRAME_BYTES);
    assert_eq!(frames[0][0], 0);
    assert_eq!(frames[0][1], 17);
    assert_eq!(frames[2][0], 62);
    assert_eq!(frames[2][5], ((2 * 31 + 5 * 17) % 256) as u8);
}

#[test]
fn image_reader_acquisition_gives_one_cropped_track_per_plan() {
    let boundaries = vec![
        TrackBoundary { track_number: 1, start_lsn: 0, frame_count: 10 },
        TrackBoundary { track_number: 2, start_lsn: 10, frame_count: 6 },
    ];
    let plans = build_track_read_plans(&boundaries, 0, false, 0, 15);
    let got = acquire_tracks_pcm_from_image_reader(3, 0, 10, 0, &plans).unwrap();
    assert_eq!(got.len(), 2);
    assert_eq!(got[0].0, 1);
    assert_eq!(got[1].0, 2);
    assert_eq!(got[0].1.interleaved_i16_samples.len(), 10 * 1176);
    assert_eq!(got[1].1.interleaved_i16_samples.len(), 6 * 1176);
    assert_eq!(got[0].1.spec.sample_rate, 44_100);
    // frame 0 starts with bytes 0, 17: little-endian sample 17 * 256
    assert_eq!(got[0].1.interleaved_i16_samples[0], 17 * 256);

    let no_paranoia = acquire_tracks_pcm_from_image_reader(0, 0, 10, 0, &plans).unwrap();
    assert_eq!(no_paranoia[0].1, got[0].1);
}

#[test]
fn durations_and_sample_counts_of_frames() {
    assert_eq!(format_duration_from_frames(0), "00:00.00");
    assert_eq!(format_duration_from_frames(4500 + 75 * 2 + 30), "01:02.40");
    assert_eq!(samples_from_frames(10), 5880);
    assert_eq!(samples_from_frames(usize::MAX), usize::MAX);
}

#[test]
fn media_tag_follows_hdcd_decoding() {
    let mut s = Settings::default();
    assert_eq!(default_media_value(&s), "CD");
    s.decode_hdcd = true;
    assert_eq!(default_media_value(&s), "HDCD");
}

#[test]
fn image_toc_text_keeps_the_last_entry_of_a_track() {
    let toc = parse_image_toc_value("2:500-524, 4:800-829,bad,0:1-2,2:600-609,5:9-3");
    let find = |n: u32| toc.iter().find(|e| e.0 == n).map(|e| (e.1, e.2));
    assert_eq!(find(2), Some((600, 10)));
    assert_eq!(find(4), Some((800, 30)));
    assert_eq!(find(0), None);
    assert_eq!(find(5), None);
    assert!(toc_value_fits_check("2:500-524"));
    assert!(!toc_value_fits_check("1:0-2147483647"));
}

#[test]
fn cue_text_gives_track_starts_and_lengths() {
    let cue = "FILE \"disc.bin\" BINARY\n  TRACK 01 AUDIO\n    INDEX 01 00:00:00\n  TRACK 02 AUDIO\n    INDEX 01 00:00:10\n";
    let toc = parse_image_toc_from_cue_text(cue, 32);
    assert_eq!(toc, vec![(1, 0, 10), (2, 10, 32)]);

    let merged = image_toc_overrides_from_settings(Some(cue), Some("2:500-524"), 32);
    let find = |n: u32| merged.iter().find(|e| e.0 == n).map(|e| (e.1, e.2));
    assert_eq!(find(2), Some((500, 25)));
    assert_eq!(find(1), Some((0, 10)));
}

#[test]
fn info_tracks_are_filtered_by_selection() {
    let toc: Vec<InfoTocEntry> = (1..=3)
        .map(|n| InfoTocEntry {
            number: n,
            start_lsn: 100 * n as i32,
            end_lsn: 100 * n as i32 + 99,
            track_is_data: false,
            pregap_lsn: None,
        })
        .collect();
    assert_eq!(filter_info_tracks(&toc, &[]).len(), 3);
    let picked = filter_info_tracks(&toc, &[3, 1]);
    assert_eq!(picked.len(), 2);
    assert_eq!(picked[0].number, 1);
    assert_eq!(picked[1].number, 3);
}

fn flow_with_entries(entries: Vec<AccuRipDbEntry>) -> MetadataFlowResult {
    MetadataFlowResult {
        discid: None,
        musicbrainz: None,
        cover_arts: Vec::new(),
        accurip_status: AccuDbStatus::Found,
        accurip: Some(AccuRipLookupResult {
            status: AccuDbStatus::Found,
            request_url: String::new(),
            disc_ids: AccuRipDiscIds { audio_tracks: 2, id_type_1: 0, id_type_2: 0 },
            track_matches: vec![
                AccuRipTrackMatches { entries, max_confidence: 7 },
                AccuRipTrackMatches { entries: Vec::new(), max_confidence: 0 },
            ],
        }),
        warnings: Vec::new(),
        musicbrainz_release_choices: None,
    }
}

#[test]
fn accurip_confidence_of_a_checksum() {
    let mf = flow_with_entries(vec![
        AccuRipDbEntry { confidence: 3, checksum: 0xAB, checksum_450: 0 },
        AccuRipDbEntry { confidence: 9, checksum: 0xAB, checksum_450: 0 },
    ]);
    assert_eq!(track_accurip_confidence_for_checksum(1, 0xAB, Some(&mf)), Some(9));
    assert_eq!(track_accurip_confidence_for_checksum(1, 0xCD, Some(&mf)), Some(-1));
    assert_eq!(track_accurip_confidence_for_checksum(2, 0xAB, Some(&mf)), None);
    assert_eq!(track_accurip_confidence_for_checksum(3, 0xAB, Some(&mf)), None);
    assert_eq!(track_accurip_confidence_for_checksum(1, 0xAB, None), None);
    let mut not_found = mf.clone();
    not_found.accurip_status = AccuDbStatus::NotFound;
    assert_eq!(track_accurip_confidence_for_checksum(1, 0xAB, Some(&not_found)), None);
}

#[test]
fn accurip_confidence_of_ripped_samples() {
    let pcm = PcmTrackData {
        spec: PcmSpec { channels: 2, sample_rate: 44_100, bits_per_sample: 16 },
        interleaved_i16_samples: vec![0; 1176 * 10],
    };
    let silent = flow_with_entries(vec![AccuRipDbEntry { confidence: 5, checksum: 0, checksum_450: 0 }]);
    assert_eq!(track_accurip_confidence_for_pcm(1, &pcm, Some(&silent)), Some(5));
    let other = flow_with_entries(vec![AccuRipDbEntry { confidence: 5, checksum: 1, checksum_450: 0 }]);
    assert_eq!(track_accurip_confidence_for_pcm(1, &pcm, Some(&other)), Some(-1));
}

const UNAVAILABLE_DEBUG: &str = "ReadFailed(\"linux physical-drive backend is unavailable; enable backend-libcdio-sys or backend-libcdio-rs\")";

fn offset_lookup(entry_counts: &[usize]) -> AccuRipLookupResult {
    AccuRipLookupResult {
        status: AccuDbStatus::Found,
        request_url: String::new(),
        disc_ids: AccuRipDiscIds { audio_tracks: entry_counts.len(), id_type_1: 0, id_type_2: 0 },
        track_matches: entry_counts
            .iter()
            .map(|&n| AccuRipTrackMatches {
                entries: vec![AccuRipDbEntry { confidence: 2, checksum: 1, checksum_450: 2 }; n],
                max_confidence: 2,
            })
            .collect(),
    }
}

fn ar_track(number: u32, start_lsn: u32, end_lsn: u32) -> AccuRipTrackInput {
    AccuRipTrackInput { number, start_lsn, end_lsn, track_is_data: false }
}

#[test]
fn physical_track_read_reports_the_missing_backend() {
    let err = acquire_track_pcm_from_physical_reader(None, 1, 2, 3, 10, 0, 1).unwrap_err();
    assert_eq!(
        err,
        RunWorkflowError::Runtime(format!("physical paranoia run failed: {UNAVAILABLE_DEBUG}"))
    );
    let err = acquire_track_pcm_from_physical_reader(Some("/dev/sr1"), 0, 0, 0, 10, 0, 1).unwrap_err();
    assert_eq!(
        err,
        RunWorkflowError::Runtime(format!("physical drive open failed: {UNAVAILABLE_DEBUG}"))
    );
}

#[test]
fn drive_window_read_reports_the_missing_backend() {
    let err = read_drive_window(None, 444, 13).unwrap_err();
    assert_eq!(
        err,
        RunWorkflowError::Runtime(format!("physical drive open failed: {UNAVAILABLE_DEBUG}"))
    );
}

#[test]
fn offset_search_without_a_long_enough_track_reads_nothing() {
    let tracks = vec![ar_track(1, 0, 400), ar_track(2, 400, 455)];
    let lookup = offset_lookup(&[1, 1]);
    let mut lines = vec!["header".to_string()];
    let st = find_drive_offset_in_tracks(None, &tracks, &lookup, &mut lines).unwrap();
    assert_eq!(
        st,
        OffsetSearch {
            offset_found_samples: 0,
            confidence: 0,
            had_any_ar: true,
            had_any_eligible_track: false,
        }
    );
    assert_eq!(lines, vec!["header".to_string()]);

    let st = find_drive_offset_in_tracks(None, &tracks, &offset_lookup(&[0, 0]), &mut lines).unwrap();
    assert!(!st.had_any_ar);
}

#[test]
fn offset_search_reads_the_first_long_enough_track() {
    let tracks = vec![ar_track(1, 0, 455), ar_track(2, 455, 2000), ar_track(3, 2000, 4000)];
    let lookup = offset_lookup(&[1, 0, 1]);
    let mut lines = Vec::new();
    let err = find_drive_offset_in_tracks(None, &tracks, &lookup, &mut lines).unwrap_err();
    assert_eq!(
        err,
        RunWorkflowError::Runtime(format!("physical drive open failed: {UNAVAILABLE_DEBUG}"))
    );
    assert_eq!(lines, vec!["Loading data for track 3...".to_string()]);
}

fn probe_window() -> Vec<u8> {
    let mut x: u32 = 12345;
    (0..13 * CDDA_FRAME_BYTES)
        .map(|_| {
            x = x.wrapping_mul(1103515245).wrapping_add(12345);
            (x >> 16) as u8
        })
        .collect()
}

fn matching_lookup(checksum_450: u32) -> AccuRipLookupResult {
    let entry = AccuRipDbEntry { confidence: 2, checksum: 1, checksum_450 };
    AccuRipLookupResult {
        status: AccuDbStatus::Found,
        request_url: String::new(),
        disc_ids: AccuRipDiscIds { audio_tracks: 2, id_type_1: 0, id_type_2: 0 },
        track_matches: vec![
            AccuRipTrackMatches { entries: vec![entry], max_confidence: 2 },
            AccuRipTrackMatches { entries: vec![entry], max_confidence: 2 },
        ],
    }
}

#[test]
fn offset_window_is_centred_on_the_450th_frame() {
    assert_eq!(offset_window_request(ar_track(1, 2000, 4000), 6), (2444, 13));
    assert_eq!(offset_window_request(ar_track(1, 0, 4000), 500), (0, 1001));
}

#[test]
fn offset_search_confirms_an_offset_across_tracks() {
    let window = probe_window();
    let at = 6 * CDDA_FRAME_BYTES + 5 * 4;
    let centre = &window[at..at + CDDA_FRAME_BYTES];
    let lookup = matching_lookup(cyanrip_rs::workflow::accurip_v1_checksum(centre));
    let tracks = vec![ar_track(1, 0, 2000), ar_track(2, 2000, 4000)];
    let mut asked: Vec<(i32, usize)> = Vec::new();
    let mut lines = Vec::new();
    let st = find_drive_offset_with(&tracks, &lookup, &mut lines, |s, c| {
        asked.push((s, c));
        Ok(probe_window())
    })
    .unwrap();
    assert_eq!(
        st,
        OffsetSearch { offset_found_samples: 5, confidence: 2, had_any_ar: true, had_any_eligible_track: true }
    );
    assert_eq!(asked, vec![(444, 13), (2444, 13)]);
    assert_eq!(
        lines,
        vec![
            "Loading data for track 1...".to_string(),
            "Data loaded, searching for offsets...".to_string(),
            "Offset of +5 found in track 1, trying to confirm with another track".to_string(),
            "Loading data for track 2...".to_string(),
            "Data loaded, searching for offsets...".to_string(),
            "Offset of +5 confirmed (confidence: 2) in track 2".to_string(),
        ]
    );
}

#[test]
fn offset_search_widens_the_radius_and_stops_on_a_failed_read() {
    let lookup = matching_lookup(7);
    let tracks = vec![ar_track(1, 0, 2000)];
    let mut asked: Vec<(i32, usize)> = Vec::new();
    let mut lines = Vec::new();
    let err = find_drive_offset_with(&tracks, &lookup, &mut lines, |s, c| {
        asked.push((s, c));
        if asked.len() == 1 {
            Ok(vec![0u8; c * CDDA_FRAME_BYTES])
        } else {
            Err(RunWorkflowError::Runtime("gone".to_string()))
        }
    })
    .unwrap_err();
    assert_eq!(err, RunWorkflowError::Runtime("gone".to_string()));
    assert_eq!(asked, vec![(444, 13), (438, 25)]);
    assert_eq!(
        lines,
        vec![
            "Loading data for track 1...".to_string(),
            "Data loaded, searching for offsets...".to_string(),
            "Nothing found for track 1".to_string(),
            "Was not able to find drive offset with a radius of 6 frames, trying again with a larger radius..."
                .to_string(),
            "Loading data for track 1...".to_string(),
        ]
    );
}
