use cyanrip_rs::cdda::paranoia::{
    next_rip_state, paranoia_mode_from_level, ParanoiaMode, RetryDecision, RetryPolicy, RipEvent,
    RipState,
};

#[test]
fn maps_paranoia_level_to_mode_like_upstream() {
    assert_eq!(paranoia_mode_from_level(0).unwrap(), ParanoiaMode::Disable);
    assert_eq!(paranoia_mode_from_level(1).unwrap(), ParanoiaMode::Overlap);
    assert_eq!(paranoia_mode_from_level(2).unwrap(), ParanoiaMode::OverlapVerify);
    assert_eq!(paranoia_mode_from_level(3).unwrap(), ParanoiaMode::FullXorNeverSkip);
    assert!(paranoia_mode_from_level(4).is_err());
}

#[test]
fn retries_until_checksum_match_threshold() {
    let mut p = RetryPolicy::new(2, 10);

    assert_eq!(p.on_checksum(0x1111_1111), RetryDecision::RetryNow);
    assert_eq!(p.on_checksum(0x1111_1111), RetryDecision::RetryAndStartEncoding);
    assert_eq!(p.on_checksum(0x1111_1111), RetryDecision::Complete);
}

#[test]
fn stops_on_retry_limit_when_no_matches() {
    let mut p = RetryPolicy::new(3, 2);

    assert_eq!(p.on_checksum(0xAAAA_0001), RetryDecision::RetryAndStartEncoding);
    assert_eq!(p.on_checksum(0xBBBB_0002), RetryDecision::Complete);
}

#[test]
fn disabled_policy_completes_at_once() {
    let mut p = RetryPolicy::disabled();
    assert_eq!(p.on_checksum(0x1234_5678), RetryDecision::Complete);
}

#[test]
fn state_machine_reaches_track_complete_happy_path() {
    let s0 = RipState::Idle;
    let s1 = next_rip_state(s0, RipEvent::StartTrack);
    let s2 = next_rip_state(s1, RipEvent::FrameReadOk);
    let s3 = next_rip_state(s2, RipEvent::ChecksumSatisfied);
    let s4 = next_rip_state(s3, RipEvent::FlushEncoders);
    let s5 = next_rip_state(s4, RipEvent::EncoderFlushDone);

    assert_eq!(s1, RipState::Reading);
    assert_eq!(s2, RipState::Reading);
    assert_eq!(s3, RipState::Finalizing);
    assert_eq!(s4, RipState::Finalizing);
    assert_eq!(s5, RipState::TrackComplete);
}

#[test]
fn state_machine_retries_then_finalizes_at_limit() {
    let s1 = next_rip_state(RipState::Reading, RipEvent::ChecksumMismatch);
    let s2 = next_rip_state(s1, RipEvent::RetryReady);
    let s3 = next_rip_state(s2, RipEvent::ChecksumMismatch);
    let s4 = next_rip_state(s3, RipEvent::RetryLimitReached);

    assert_eq!(s1, RipState::RetryPending);
    assert_eq!(s2, RipState::Reading);
    assert_eq!(s3, RipState::RetryPending);
    assert_eq!(s4, RipState::Finalizing);
}

#[test]
fn state_machine_aborts_on_media_change_or_quit() {
    assert_eq!(next_rip_state(RipState::Reading, RipEvent::MediaChanged), RipState::Aborted);
    assert_eq!(next_rip_state(RipState::Finalizing, RipEvent::QuitRequested), RipState::Aborted);
}

#[test]
fn state_machine_fails_on_fatal_pipeline_error() {
    assert_eq!(
        next_rip_state(RipState::Reading, RipEvent::FatalDecodeOrEncodeError),
        RipState::Failed
    );
}

#[test]
fn terminal_states_stay_put() {
    for e in [RipEvent::StartTrack, RipEvent::FrameReadOk, RipEvent::EncoderFlushDone] {
        assert_eq!(next_rip_state(RipState::TrackComplete, e), RipState::TrackComplete);
        assert_eq!(next_rip_state(RipState::Failed, e), RipState::Failed);
    }
}
