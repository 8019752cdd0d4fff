use cyanrip_rs::cdda::paranoia::{RipEvent, RipState};
use cyanrip_rs::cdda::reader::{ParanoiaCallbackCounters, ParanoiaTrackRunResult, CDDA_FRAME_BYTES};
use cyanrip_rs::find_offset::next_offset_radius;
use cyanrip_rs::full_rip::{
    accurip_track_attempt, full_rip_album_meta, full_rip_summary_head, full_rip_track_summary, track_attempt_limit,
    track_attempt_line,
};
use cyanrip_rs::metadata::discid::DiscidInfo;
use cyanrip_rs::metadata::flow::{coverart_release_id, musicbrainz_lookup_discid};
use cyanrip_rs::metadata::musicbrainz::MusicBrainzReleaseMeta;
use cyanrip_rs::tags::tag_map_from_pairs;
use cyanrip_rs::track_read::pcm_from_drive_run;
use cyanrip_rs::workflow::{FullRipSource, RunWorkflowError, TrackBoundary};
use cyanrip_rs::Settings;

fn discid() -> DiscidInfo {
    DiscidInfo {
        musicbrainz_discid: "disc-1".to_string(),
        cddb: "a50b1c0d".to_string(),
        mb_submission_url: String::new(),
        last_audio_track_index: 0,
    }
}

fn release() -> MusicBrainzReleaseMeta {
    MusicBrainzReleaseMeta {
        musicbrainz_albumid: "rel-9".to_string(),
        releasecomment: None,
        date: Some("1999-01-02".to_string()),
        album: "Found Album".to_string(),
        barcode: None,
        packaging: None,
        country: None,
        releasestatus: None,
        catalognumber: None,
        label: None,
        album_artist: None,
        discname: None,
        format: None,
        discnumber: None,
        totaldiscs: 1,
        tracks: Vec::new(),
    }
}

fn value(m: &cyanrip_rs::tags::TagMap, k: &str) -> Option<String> {
    m.get(k).cloned()
}

#[test]
fn album_tags_prefer_given_then_found_then_defaults() {
    let mut settings = Settings::default();
    settings.album_metadata = Some("album=Given:date=2001".to_string());
    let d = discid();
    let r = release();
    let m = full_rip_album_meta(&settings, Some(&d), Some(&r));
    assert_eq!(value(&m, "album").as_deref(), Some("Given"));
    assert_eq!(value(&m, "date").as_deref(), Some("2001"));
    assert_eq!(value(&m, "musicbrainz_discid").as_deref(), Some("disc-1"));
    assert_eq!(value(&m, "cddb").as_deref(), Some("a50b1c0d"));
    assert_eq!(value(&m, "musicbrainz_albumid").as_deref(), Some("rel-9"));
    assert_eq!(value(&m, "album_artist").as_deref(), Some("Runtime Artist"));
    assert_eq!(value(&m, "media").as_deref(), Some("CD"));

    let plain = full_rip_album_meta(&Settings::default(), None, None);
    assert_eq!(value(&plain, "album").as_deref(), Some("Runtime Album"));
    assert_eq!(value(&plain, "musicbrainz_discid"), None);
}

#[test]
fn track_summary_lists_properties_tags_and_files() {
    let b = TrackBoundary { track_number: 2, start_lsn: 150, frame_count: 75 };
    let meta = tag_map_from_pairs(&[("artist", "Someone"), ("comment", "  "), ("title", "Song")]);
    let files = vec!["Album/02 - Song.flac".to_string()];
    let text = full_rip_track_summary(&b, Some("12 ms"), Some(&meta), &files);
    let expected = [
        "TRACK 2 START_LSN 150 FRAMES 75\n",
        "Track 2 ripped and encoded successfully!\n",
        "Track 2 summary:\n",
        "  Properties:\n",
        "    Duration:    00:01.00\n",
        "    Samples:     44100\n",
        "    Frames:      75\n",
        "    Start LSN:   150\n",
        "    End LSN:     224\n",
        "    Benchmark:   12 ms\n",
        "\n  Metadata:\n",
        "    artist                         Someone\n",
        "    title                          Song\n",
        "\n  File(s):\n",
        "    Album/02 - Song.flac\n\n",
    ]
    .concat();
    assert_eq!(text, expected);
    let none = full_rip_track_summary(&b, None, None, &[]);
    assert!(none.contains("\n  Metadata:\n    none\n\n  File(s):\n\n"));
}

#[test]
fn summary_head_names_source_root_and_count() {
    assert_eq!(
        full_rip_summary_head(FullRipSource::Image, "/out", 3, None),
        "cyanrip-rs full-rip bridge mode\nSource: image\nOutput root: /out\nWritten files: 3\n"
    );
    assert!(full_rip_summary_head(FullRipSource::Physical, "x", 0, Some("1.0 MiB"))
        .ends_with("Peak RSS:      1.0 MiB\n"));
}

fn run(state: RipState, events: Vec<RipEvent>, frames: Option<Vec<Vec<u8>>>) -> ParanoiaTrackRunResult {
    ParanoiaTrackRunResult {
        state,
        events,
        passes: 1,
        callback_counters: ParanoiaCallbackCounters::default(),
        final_frames: frames,
    }
}

#[test]
fn drive_run_gives_audio_or_says_why_not() {
    let mut frame = vec![0u8; CDDA_FRAME_BYTES];
    frame[0] = 1;
    frame[3] = 0xFF;
    let ok = pcm_from_drive_run(&run(RipState::TrackComplete, vec![], Some(vec![frame])), 1).unwrap();
    assert_eq!(ok.interleaved_i16_samples.len(), 1176);
    assert_eq!(&ok.interleaved_i16_samples[..2], &[1, -256]);

    assert_eq!(
        pcm_from_drive_run(&run(RipState::Failed, vec![], None), 4),
        Err(RunWorkflowError::Runtime(
            "physical paranoia run did not complete track: Failed".to_string()
        ))
    );
    assert_eq!(
        pcm_from_drive_run(
            &run(RipState::Aborted, vec![RipEvent::RetryLimitReached, RipEvent::QuitRequested], None),
            7
        ),
        Err(RunWorkflowError::Runtime(
            "physical paranoia run produced no finalized frames for track 7: state Aborted, retry-limit-reached true"
                .to_string()
        ))
    );
}

#[test]
fn offset_search_doubles_the_radius_only_without_a_result() {
    assert_eq!(next_offset_radius(6, 0, true, true), Some(12));
    assert_eq!(next_offset_radius(6, 3, true, true), None);
    assert_eq!(next_offset_radius(6, 0, false, true), None);
    assert_eq!(next_offset_radius(6, 0, true, false), None);
    assert_eq!(next_offset_radius(usize::MAX / 2 + 1, 0, true, true), None);
}

#[test]
fn metadata_steps_pick_the_ids_to_ask_about() {
    let d = Some(discid());
    assert_eq!(musicbrainz_lookup_discid(&d, false).as_deref(), Some("disc-1"));
    assert_eq!(musicbrainz_lookup_discid(&d, true), None);
    assert_eq!(musicbrainz_lookup_discid(&None, false), None);
    assert_eq!(coverart_release_id(&Some(release())).as_deref(), Some("rel-9"));
    assert_eq!(coverart_release_id(&None), None);
}

#[test]
fn accurip_mismatch_retries_then_fails_the_rip() {
    assert_eq!(track_attempt_limit(0), 1);
    assert_eq!(track_attempt_limit(3), 3);
    assert_eq!(track_attempt_line(2, 1, 3), "Track 2 read attempt 1 of 3...");

    let (lines, v) = accurip_track_attempt(2, 1, 3, Some(5));
    assert_eq!(lines, vec!["AccurateRip verified for track 2 on attempt 1 with confidence 5.".to_string()]);
    assert_eq!(v, Ok(true));

    let (lines, v) = accurip_track_attempt(2, 1, 3, None);
    assert_eq!(lines, vec!["AccurateRip verification unavailable for track 2 on attempt 1.".to_string()]);
    assert_eq!(v, Ok(true));

    let (lines, v) = accurip_track_attempt(2, 1, 3, Some(-1));
    assert_eq!(
        lines,
        vec!["AccurateRip mismatch on track 2 (attempt 1 of 3), retrying track read...".to_string()]
    );
    assert_eq!(v, Ok(false));

    let (lines, v) = accurip_track_attempt(2, 3, 3, Some(-1));
    assert!(lines.is_empty());
    assert_eq!(
        v,
        Err(RunWorkflowError::Runtime(
            "AccurateRip mismatch persisted on track 2 after 3 attempt(s)".to_string()
        ))
    );

    let (lines, v) = accurip_track_attempt(2, 1, 3, Some(0));
    assert_eq!(lines, vec!["AccurateRip status found but confidence is 0 for track 2 on attempt 1.".to_string()]);
    assert_eq!(v, Ok(true));
}
