use cyanrip_rs::cdda::paranoia::{RetryPolicy, RipEvent, RipState};
use cyanrip_rs::cdda::reader::{
    run_track_with_paranoia, run_track_with_paranoia_heuristics,
    run_track_with_paranoia_heuristics_interruptible, CddaFrameReader, CddaReadError,
    conclude_pass, on_frame_read, FrameReadStep, ParanoiaCallbackCounters,
    FaultInjectedImageReader, ParanoiaCallbackKind, ParanoiaHeuristicConfig, CDDA_FRAME_BYTES,
};

#[derive(Debug, Clone)]
struct PassVariantReader {
    frames_per_pass: Vec<Vec<Vec<u8>>>,
    pass: usize,
    cursor: usize,
}

impl PassVariantReader {
    fn new(frames_per_pass: Vec<Vec<Vec<u8>>>) -> Self {
        Self {
            frames_per_pass,
            pass: 0,
            cursor: 0,
        }
    }
}

impl CddaFrameReader for PassVariantReader {
    fn seek_frame(&mut self, lsn: i32) -> Result<(), CddaReadError> {
        if lsn != 0 {
            return Err(CddaReadError::SeekFailed(
                "test reader supports lsn=0 only".to_string(),
            ));
        }
        self.cursor = 0;
        Ok(())
    }

    fn read_frame(&mut self) -> Result<Vec<u8>, CddaReadError> {
        let pass_idx = self.pass.min(self.frames_per_pass.len().saturating_sub(1));
        let frames = &self.frames_per_pass[pass_idx];
        let frame = frames
            .get(self.cursor)
            .ok_or_else(|| CddaReadError::ReadFailed("end of test pass".to_string()))?
            .clone();
        self.cursor = self.cursor.saturating_add(1);
        if self.cursor >= frames.len() {
            self.pass = self.pass.saturating_add(1);
        }
        Ok(frame)
    }

    fn media_changed(&self) -> bool {
        false
    }
}

fn sample_frame(seed: u8) -> Vec<u8> {
    vec![seed; CDDA_FRAME_BYTES]
}

fn sample_frames() -> Vec<Vec<u8>> {
    vec![sample_frame(1), sample_frame(2), sample_frame(3)]
}

#[test]
fn fake_image_reader_reads_frames_in_order() {
    let mut r = FaultInjectedImageReader::new(sample_frames());
    r.seek_frame(0).expect("seek should work");

    assert_eq!(r.read_frame().expect("frame 1"), sample_frame(1));
    assert_eq!(r.read_frame().expect("frame 2"), sample_frame(2));
    assert_eq!(r.read_frame().expect("frame 3"), sample_frame(3));
}

#[test]
fn run_track_emits_retry_events_until_checksum_converges() {
    let mut r = FaultInjectedImageReader::new(sample_frames());
    let mut policy = RetryPolicy::new(1, 4);

    let out = run_track_with_paranoia(&mut r, 0, 3, 1, &mut policy, |pass, _| match pass {
        0 => 100,
        1 => 200,
        _ => 200,
    })
    .expect("track run should succeed");

    assert_eq!(out.state, RipState::TrackComplete);
    assert_eq!(out.passes, 3);
    assert!(out.events.contains(&RipEvent::ChecksumMismatch));
    assert!(out.events.contains(&RipEvent::RetryReady));
    assert!(out.events.contains(&RipEvent::ChecksumSatisfied));
    assert_eq!(out.callback_counters.get(ParanoiaCallbackKind::Finished), 1);
    assert_eq!(out.final_frames.as_ref().map(Vec::len), Some(3));
}

#[test]
fn run_track_handles_injected_read_faults_with_frame_retries() {
    let mut r = FaultInjectedImageReader::new(sample_frames()).with_fail_on_attempts(&[1, 4]);
    let mut policy = RetryPolicy::disabled();

    let out = run_track_with_paranoia(&mut r, 0, 3, 2, &mut policy, |_pass, _| 42)
        .expect("faults should be absorbed by retries");

    assert_eq!(out.state, RipState::TrackComplete);
    assert!(out.events.contains(&RipEvent::FrameReadError));
    assert!(out.events.contains(&RipEvent::FrameReadOk));
    assert!(out.callback_counters.get(ParanoiaCallbackKind::ReadErr) >= 1);
    assert!(out.callback_counters.get(ParanoiaCallbackKind::Backoff) >= 1);
}

#[test]
fn run_track_substitutes_silence_when_frame_retries_are_exhausted() {
    let mut r = FaultInjectedImageReader::new(sample_frames()).with_fail_on_attempts(&[3, 4]);
    let mut policy = RetryPolicy::disabled();

    let out = run_track_with_paranoia(&mut r, 0, 3, 1, &mut policy, |_pass, _| 7)
        .expect("unrecoverable frame should not fail the track");

    assert_eq!(out.state, RipState::TrackComplete);
    assert!(out.events.contains(&RipEvent::FrameSubstitutedSilence));
    assert!(!out.events.contains(&RipEvent::FatalDecodeOrEncodeError));
    let frames = out.final_frames.expect("track should still finalize frames");
    assert_eq!(frames.len(), 3);
    assert_eq!(frames[2], vec![0u8; CDDA_FRAME_BYTES]);
    assert_ne!(frames[0], vec![0u8; CDDA_FRAME_BYTES]);
    assert_ne!(frames[1], vec![0u8; CDDA_FRAME_BYTES]);
}

#[test]
fn run_track_aborts_when_media_changes() {
    let mut r = FaultInjectedImageReader::new(sample_frames()).with_media_change_at_attempt(2);
    let mut policy = RetryPolicy::disabled();

    let out = run_track_with_paranoia(&mut r, 0, 3, 1, &mut policy, |_pass, _| 1)
        .expect("media change should be reported as aborted result");

    assert_eq!(out.state, RipState::Aborted);
    assert!(out.events.contains(&RipEvent::MediaChanged));
    assert!(out.callback_counters.get(ParanoiaCallbackKind::Skip) >= 1);
    assert!(out.final_frames.is_none());
}

#[test]
fn run_track_emits_retry_limit_reached_when_checksums_do_not_converge() {
    let mut r = FaultInjectedImageReader::new(sample_frames());
    let mut policy = RetryPolicy::new(3, 2);

    let out = run_track_with_paranoia(&mut r, 0, 3, 1, &mut policy, |pass, _| pass + 1)
        .expect("run should finalize after retry limit");

    assert_eq!(out.state, RipState::TrackComplete);
    assert!(out.events.contains(&RipEvent::RetryLimitReached));
    assert!(out.callback_counters.get(ParanoiaCallbackKind::Repair) >= 1);
}

#[test]
fn overlap_verify_heuristics_force_retry_when_edges_drift() {
    let pass1 = vec![sample_frame(1), sample_frame(2), sample_frame(3)];
    let mut pass2 = pass1.clone();
    pass2[0][0] = 9;

    let mut r = PassVariantReader::new(vec![pass1, pass2]);
    let mut policy = RetryPolicy::new(1, 2);

    let out = run_track_with_paranoia_heuristics(
        &mut r,
        0,
        3,
        0,
        &mut policy,
        ParanoiaHeuristicConfig {
            overlap_frames: 1,
            verify_overlap: true,
        },
        |_pass, _| 0xDEAD_BEEF,
    )
    .expect("run should finalize at retry limit after overlap drift");

    assert_eq!(out.state, RipState::TrackComplete);
    assert!(out.events.contains(&RipEvent::RetryLimitReached));
    assert!(out.callback_counters.get(ParanoiaCallbackKind::Verify) >= 1);
    assert!(out.callback_counters.get(ParanoiaCallbackKind::Overlap) >= 1);
    assert!(out.callback_counters.get(ParanoiaCallbackKind::Drift) >= 1);
}

#[test]
fn run_track_aborts_when_interrupted() {
    let mut r = FaultInjectedImageReader::new(sample_frames());
    let mut policy = RetryPolicy::disabled();
    let mut checks = 0usize;

    let out = run_track_with_paranoia_heuristics_interruptible(
        &mut r,
        0,
        3,
        1,
        &mut policy,
        ParanoiaHeuristicConfig::default(),
        || {
            checks = checks.saturating_add(1);
            checks >= 2
        },
        |_pass, _| 0,
    )
    .expect("interrupt should return aborted result");

    assert_eq!(out.state, RipState::Aborted);
    assert!(out.events.contains(&RipEvent::QuitRequested));
    assert!(out.callback_counters.get(ParanoiaCallbackKind::Skip) >= 1);
}

#[test]
fn disabled_policy_finishes_after_one_pass_with_every_frame() {
    let mut r = FaultInjectedImageReader::new(sample_frames());
    let mut policy = RetryPolicy::disabled();

    let out = run_track_with_paranoia(&mut r, 0, 3, 0, &mut policy, |_pass, _| 5)
        .expect("a clean image should rip");

    assert_eq!(out.state, RipState::TrackComplete);
    assert_eq!(out.passes, 1);
    assert_eq!(out.final_frames, Some(sample_frames()));
}

#[test]
fn seek_outside_the_image_is_rejected() {
    let mut r = FaultInjectedImageReader::new(sample_frames());
    assert!(r.seek_frame(4).is_err());
    assert!(r.seek_frame(-1).is_err());
    assert!(r.seek_frame(3).is_ok());
    assert!(r.read_frame().is_err());
    assert!(r.seek_frame(2).is_ok());
    assert_eq!(r.read_frame().expect("last frame"), sample_frame(3));
    assert!(r.read_frame().is_err());
}

#[test]
fn run_track_fails_only_on_a_refused_seek() {
    let mut r = FaultInjectedImageReader::new(sample_frames()).with_fail_on_attempts(&[1, 2, 3, 4, 5, 6]);
    let mut policy = RetryPolicy::disabled();
    let out = run_track_with_paranoia(&mut r, 3, 5, 0, &mut policy, |_pass, _| 9)
        .expect("a seek to the end of the image is accepted; failed reads become silence");
    assert_eq!(out.state, RipState::TrackComplete);
    assert_eq!(out.final_frames.as_ref().map(Vec::len), Some(5));

    let mut r = FaultInjectedImageReader::new(sample_frames());
    let mut policy = RetryPolicy::disabled();
    let err = run_track_with_paranoia(&mut r, 4, 1, 0, &mut policy, |_pass, _| 9)
        .expect_err("a seek past the image is refused");
    assert_eq!(err, CddaReadError::SeekFailed("lsn 4 beyond frame count 3".to_string()));

    let mut r = FaultInjectedImageReader::new(sample_frames());
    let mut policy = RetryPolicy::disabled();
    let err = run_track_with_paranoia(&mut r, -1, 1, 0, &mut policy, |_pass, _| 9).unwrap_err();
    assert_eq!(err, CddaReadError::SeekFailed("negative lsn".to_string()));
}

fn started_log() -> (Vec<RipEvent>, RipState, ParanoiaCallbackCounters) {
    (vec![RipEvent::StartTrack], RipState::Reading, ParanoiaCallbackCounters::default())
}

#[test]
fn frame_read_step_takes_retries_substitutes_and_aborts() {
    let (mut events, mut state, mut counters) = started_log();
    let step = on_frame_read(&mut events, &mut state, &mut counters, Ok(sample_frame(5)), false, 0, 1);
    assert_eq!(step, FrameReadStep::Frame(sample_frame(5)));
    assert_eq!(events, vec![RipEvent::StartTrack, RipEvent::FrameReadOk]);
    assert_eq!(state, RipState::Reading);

    let err = || Err(CddaReadError::ReadFailed("bad sector".to_string()));
    let step = on_frame_read(&mut events, &mut state, &mut counters, err(), false, 0, 1);
    assert_eq!(step, FrameReadStep::Retry);
    let step = on_frame_read(&mut events, &mut state, &mut counters, err(), false, 1, 1);
    assert_eq!(step, FrameReadStep::Frame(vec![0u8; CDDA_FRAME_BYTES]));
    assert_eq!(
        events,
        vec![
            RipEvent::StartTrack,
            RipEvent::FrameReadOk,
            RipEvent::FrameReadError,
            RipEvent::FrameReadError,
            RipEvent::FrameSubstitutedSilence,
        ]
    );
    assert_eq!(counters.get(ParanoiaCallbackKind::ReadErr), 2);
    assert_eq!(counters.get(ParanoiaCallbackKind::Backoff), 2);
    assert_eq!(counters.get(ParanoiaCallbackKind::Skip), 0);

    let step = on_frame_read(&mut events, &mut state, &mut counters, err(), true, 0, 3);
    assert_eq!(step, FrameReadStep::Aborted);
    assert_eq!(state, RipState::Aborted);
    assert_eq!(events.last(), Some(&RipEvent::MediaChanged));
    assert_eq!(counters.get(ParanoiaCallbackKind::Skip), 1);
}

#[test]
fn pass_conclusion_follows_the_retry_policy() {
    let (mut events, mut state, mut counters) = started_log();
    let mut policy = RetryPolicy::new(1, 4);
    let mut previous = None;
    let frames = sample_frames();
    let heuristics = ParanoiaHeuristicConfig::default();

    let done = conclude_pass(&mut events, &mut state, &mut counters, &mut policy, &mut previous,
        heuristics, 0, &frames, 100);
    assert!(!done);
    assert_eq!(state, RipState::Reading);
    assert_eq!(policy.prior_checksums, vec![100]);
    assert_eq!(policy.total_attempts, 1);
    assert_eq!(&events[1..], &[RipEvent::ChecksumMismatch, RipEvent::RetryReady]);
    assert_eq!(counters.get(ParanoiaCallbackKind::Repair), 1);

    let done = conclude_pass(&mut events, &mut state, &mut counters, &mut policy, &mut previous,
        heuristics, 1, &frames, 100);
    assert!(done);
    assert_eq!(state, RipState::TrackComplete);
    assert_eq!(
        &events[3..],
        &[RipEvent::ChecksumSatisfied, RipEvent::FlushEncoders, RipEvent::EncoderFlushDone]
    );
    assert_eq!(counters.get(ParanoiaCallbackKind::Finished), 1);
    assert_eq!(counters.get(ParanoiaCallbackKind::Wrote), 1);
    assert_eq!(previous, None);
}

#[test]
fn pass_conclusion_counts_edge_drift_and_the_retry_limit() {
    let (mut events, mut state, mut counters) = started_log();
    let mut policy = RetryPolicy::new(1, 2);
    let mut previous = None;
    let heuristics = ParanoiaHeuristicConfig { overlap_frames: 1, verify_overlap: true };
    let first = sample_frames();
    let mut second = sample_frames();
    second[0][0] = 9;

    let done = conclude_pass(&mut events, &mut state, &mut counters, &mut policy, &mut previous,
        heuristics, 0, &first, 0xDEAD_BEEF);
    assert!(!done);
    assert!(previous.is_some());
    let done = conclude_pass(&mut events, &mut state, &mut counters, &mut policy, &mut previous,
        heuristics, 1, &second, 0xDEAD_BEEF);
    assert!(done);
    assert_eq!(counters.get(ParanoiaCallbackKind::Verify), 2);
    assert_eq!(counters.get(ParanoiaCallbackKind::Overlap), 1);
    assert_eq!(counters.get(ParanoiaCallbackKind::Drift), 1);
    assert!(events.contains(&RipEvent::RetryLimitReached));
    assert!(!events.contains(&RipEvent::ChecksumSatisfied));
    assert_eq!(policy.total_attempts, 2);
}
