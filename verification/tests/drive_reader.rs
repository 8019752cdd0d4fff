use std::cell::RefCell;
use std::collections::{HashMap, HashSet};
use std::rc::Rc;

use cyanrip_rs::cdda::linux_drive::{
    heuristics_for_paranoia_level, media_changed_from_code, open_linux_physical_drive,
    run_paranoia_on_linux_drive, run_paranoia_on_linux_drive_interruptible,
    run_paranoia_on_linux_drive_with_defaults_for_level, run_paranoia_on_opened_linux_drive,
    run_paranoia_on_linux_drive_with_backend, run_paranoia_on_linux_drive_with_backend_heuristics,
    run_paranoia_on_linux_drive_with_backend_heuristics_interruptible, LinuxDriveBackend,
    LinuxPhysicalDriveReader,
};
use cyanrip_rs::cdda::paranoia::{RetryPolicy, RipEvent, RipState};
use cyanrip_rs::cdda::reader::{
    CddaFrameReader, CddaReadError, ParanoiaCallbackKind, ParanoiaHeuristicConfig,
    CDDA_FRAME_BYTES,
};

#[derive(Debug, Default)]
struct MockState {
    reads: Vec<i32>,
    read_calls: usize,
    destroyed: bool,
}

#[derive(Clone)]
struct MockBackend {
    state: Rc<RefCell<MockState>>,
    frames: HashMap<i32, [u8; CDDA_FRAME_BYTES]>,
    fail_lsns: HashSet<i32>,
    fail_on_read_calls: HashSet<usize>,
    media_changed_code: i32,
    unsupported_code: i32,
}

impl MockBackend {
    fn new() -> (Self, Rc<RefCell<MockState>>) {
        let state = Rc::new(RefCell::new(MockState::default()));
        (
            Self {
                state: state.clone(),
                frames: HashMap::new(),
                fail_lsns: HashSet::new(),
                fail_on_read_calls: HashSet::new(),
                media_changed_code: 0,
                unsupported_code: -2,
            },
            state,
        )
    }
}

impl LinuxDriveBackend for MockBackend {
    type Handle = usize;

    fn open(&mut self, _device_path: Option<&str>) -> Result<Self::Handle, CddaReadError> {
        Ok(1)
    }

    fn destroy(&mut self, _handle: Self::Handle) {
        self.state.borrow_mut().destroyed = true;
    }

    fn read_audio_sector(
        &mut self,
        _handle: Self::Handle,
        lsn: i32,
        out: &mut [u8; CDDA_FRAME_BYTES],
    ) -> Result<(), CddaReadError> {
        let mut state = self.state.borrow_mut();
        state.reads.push(lsn);
        state.read_calls = state.read_calls.saturating_add(1);
        let call = state.read_calls;
        drop(state);

        if self.fail_on_read_calls.contains(&call) {
            return Err(CddaReadError::ReadFailed(format!(
                "mock transient read fail at call {call}"
            )));
        }
        if self.fail_lsns.contains(&lsn) {
            return Err(CddaReadError::ReadFailed(format!("mock read fail at {lsn}")));
        }
        let frame = self
            .frames
            .get(&lsn)
            .ok_or_else(|| CddaReadError::ReadFailed(format!("missing frame for {lsn}")))?;
        out.copy_from_slice(frame);
        Ok(())
    }

    fn get_media_changed_code(&self, _handle: Self::Handle) -> i32 {
        self.media_changed_code
    }

    fn media_changed_unsupported_code(&self) -> i32 {
        self.unsupported_code
    }
}

#[test]
fn media_changed_mapping_matches_upstream_rule() {
    assert!(!media_changed_from_code(0, -2));
    assert!(!media_changed_from_code(-2, -2));
    assert!(media_changed_from_code(1, -2));
}

#[test]
fn reader_reads_by_seek_position_and_advances_lsn() {
    let (mut backend, state) = MockBackend::new();
    backend.frames.insert(100, [7u8; CDDA_FRAME_BYTES]);
    backend.frames.insert(101, [9u8; CDDA_FRAME_BYTES]);

    let mut reader =
        LinuxPhysicalDriveReader::new(backend, Some("/dev/cdrom")).expect("mock open should work");
    reader.seek_frame(100).expect("seek should work");

    let a = reader.read_frame().expect("read 100");
    let b = reader.read_frame().expect("read 101");

    assert_eq!(a[0], 7);
    assert_eq!(b[0], 9);
    assert_eq!(a.len(), CDDA_FRAME_BYTES);
    assert_eq!(state.borrow().reads, vec![100, 101]);
}

#[test]
fn reader_propagates_read_error() {
    let (mut backend, _state) = MockBackend::new();
    backend.frames.insert(10, [1u8; CDDA_FRAME_BYTES]);
    backend.fail_lsns.insert(10);

    let mut reader =
        LinuxPhysicalDriveReader::new(backend, Some("/dev/cdrom")).expect("mock open should work");
    reader.seek_frame(10).expect("seek should work");

    let err = reader.read_frame().expect_err("read should fail");
    assert!(matches!(err, CddaReadError::ReadFailed(_)));
}

#[test]
fn reader_uses_media_changed_codes_from_backend() {
    let (mut backend, _state) = MockBackend::new();
    backend.media_changed_code = 5;

    let reader = LinuxPhysicalDriveReader::new(backend, Some("/dev/cdrom")).expect("mock open");
    assert!(reader.media_changed());
}

#[test]
fn reader_drop_calls_destroy() {
    let (backend, state) = MockBackend::new();
    {
        let reader = LinuxPhysicalDriveReader::new(backend, Some("/dev/cdrom")).expect("mock open");
        reader.close();
    }
    assert!(state.borrow().destroyed);
}

#[test]
fn paranoia_runner_wires_retries_and_flush_transitions() {
    let (mut backend, state) = MockBackend::new();
    backend.frames.insert(0, [1u8; CDDA_FRAME_BYTES]);
    backend.frames.insert(1, [2u8; CDDA_FRAME_BYTES]);
    backend.frames.insert(2, [3u8; CDDA_FRAME_BYTES]);
    backend.fail_on_read_calls.insert(1);

    let mut policy = RetryPolicy::disabled();
    let out = run_paranoia_on_linux_drive_with_backend(
        backend,
        Some("/dev/cdrom"),
        0,
        3,
        1,
        &mut policy,
        |_pass, _frames| 0xABCD_1234,
    )
    .expect("retry path should succeed");

    assert_eq!(out.state, RipState::TrackComplete);
    assert_eq!(out.passes, 1);
    assert!(out.events.contains(&RipEvent::FrameReadError));
    assert!(out.events.contains(&RipEvent::FlushEncoders));
    assert!(out.events.contains(&RipEvent::EncoderFlushDone));
    assert!(state.borrow().destroyed);
}

#[test]
fn paranoia_runner_aborts_on_media_change() {
    let (mut backend, _state) = MockBackend::new();
    backend.media_changed_code = 1;

    let mut policy = RetryPolicy::disabled();
    let out = run_paranoia_on_linux_drive_with_backend(
        backend,
        Some("/dev/cdrom"),
        0,
        1,
        0,
        &mut policy,
        |_pass, _frames| 0,
    )
    .expect("media-change path should return aborted result");

    assert_eq!(out.state, RipState::Aborted);
    assert!(out.events.contains(&RipEvent::MediaChanged));
}

#[test]
fn level_based_defaults_enable_verify_overlap_for_higher_levels() {
    assert_eq!(heuristics_for_paranoia_level(0), ParanoiaHeuristicConfig::default());
    assert_eq!(heuristics_for_paranoia_level(1), ParanoiaHeuristicConfig::default());
    assert_eq!(
        heuristics_for_paranoia_level(2),
        ParanoiaHeuristicConfig {
            overlap_frames: 1,
            verify_overlap: true,
        }
    );

    let (mut backend, _state) = MockBackend::new();
    backend.frames.insert(0, [1u8; CDDA_FRAME_BYTES]);

    let mut retry = RetryPolicy::new(1, 2);
    let out = run_paranoia_on_linux_drive_with_backend_heuristics(
        backend,
        Some("/dev/cdrom"),
        0,
        1,
        0,
        &mut retry,
        heuristics_for_paranoia_level(2),
        |_pass, _| 0x1234,
    )
    .expect("run should complete");
    assert!(out.callback_counters.get(ParanoiaCallbackKind::Verify) >= 1);
}

#[test]
fn paranoia_runner_aborts_on_interrupt_request() {
    let (mut backend, _state) = MockBackend::new();
    backend.frames.insert(0, [1u8; CDDA_FRAME_BYTES]);
    backend.frames.insert(1, [2u8; CDDA_FRAME_BYTES]);

    let mut checks = 0usize;
    let mut policy = RetryPolicy::disabled();
    let out = run_paranoia_on_linux_drive_with_backend_heuristics_interruptible(
        backend,
        Some("/dev/cdrom"),
        0,
        2,
        0,
        &mut policy,
        ParanoiaHeuristicConfig::default(),
        || {
            checks = checks.saturating_add(1);
            checks >= 2
        },
        |_pass, _| 0,
    )
    .expect("interrupt should abort run");

    assert_eq!(out.state, RipState::Aborted);
    assert!(out.events.contains(&RipEvent::QuitRequested));
}

#[test]
fn unsupported_backend_returns_actionable_error() {
    let err = match open_linux_physical_drive(Some("/dev/cdrom")) {
        Ok(_) => panic!("expected backend-unavailable error"),
        Err(err) => err,
    };
    let msg = match err {
        CddaReadError::ReadFailed(msg) => msg,
        CddaReadError::SeekFailed(msg) => msg,
    };
    assert!(msg.contains("backend-libcdio-sys") || msg.contains("backend-libcdio-rs"));
}

#[test]
fn heuristics_for_level_three_match_level_two() {
    assert_eq!(heuristics_for_paranoia_level(3), heuristics_for_paranoia_level(2));
    assert_eq!(heuristics_for_paranoia_level(-1), ParanoiaHeuristicConfig::default());
}

const UNAVAILABLE: &str =
    "linux physical-drive backend is unavailable; enable backend-libcdio-sys or backend-libcdio-rs";

#[test]
fn opened_drive_run_completes_from_a_valid_start() {
    let (mut backend, state) = MockBackend::new();
    backend.frames.insert(5, [4u8; CDDA_FRAME_BYTES]);
    backend.frames.insert(6, [5u8; CDDA_FRAME_BYTES]);
    let reader = LinuxPhysicalDriveReader::new(backend, None).expect("mock open");
    let mut policy = RetryPolicy::disabled();
    let out = run_paranoia_on_opened_linux_drive(
        reader,
        5,
        2,
        0,
        &mut policy,
        ParanoiaHeuristicConfig::default(),
        || false,
        |_pass, _| 7,
    )
    .expect("a start that is not negative is accepted");
    assert_eq!(out.state, RipState::TrackComplete);
    let frames = out.final_frames.expect("frames");
    assert_eq!(frames.len(), 2);
    assert_eq!(frames[0][0], 4);
    assert_eq!(frames[1][0], 5);
    assert_eq!(state.borrow().reads, vec![5, 6]);
    assert!(state.borrow().destroyed);
}

#[test]
fn opened_drive_run_refuses_a_negative_start() {
    let (backend, state) = MockBackend::new();
    let reader = LinuxPhysicalDriveReader::new(backend, None).expect("mock open");
    let mut policy = RetryPolicy::new(2, 3);
    let before = policy.clone();
    let err = run_paranoia_on_opened_linux_drive(
        reader,
        -1,
        1,
        0,
        &mut policy,
        ParanoiaHeuristicConfig::default(),
        || false,
        |_pass, _| 7,
    )
    .expect_err("negative start");
    assert_eq!(err, CddaReadError::SeekFailed("negative lsn".to_string()));
    assert_eq!(policy, before);
    assert!(state.borrow().reads.is_empty());
    assert!(state.borrow().destroyed);
}

#[test]
fn default_backend_runs_fail_with_the_unavailable_message() {
    let expected = CddaReadError::ReadFailed(UNAVAILABLE.to_string());
    assert_eq!(open_linux_physical_drive(None).err(), Some(expected.clone()));

    let mut policy = RetryPolicy::new(2, 4);
    let before = policy.clone();
    let err = run_paranoia_on_linux_drive(Some("/dev/sr0"), 0, 3, 1, &mut policy, |_p, _| 1)
        .expect_err("no drive backend");
    assert_eq!(err, expected);
    assert_eq!(policy, before);

    let err = run_paranoia_on_linux_drive_interruptible(
        None,
        0,
        3,
        1,
        &mut policy,
        || false,
        |_p, _| 1,
    )
    .expect_err("no drive backend");
    assert_eq!(err, expected);

    let err = run_paranoia_on_linux_drive_with_defaults_for_level(
        None,
        2,
        0,
        3,
        1,
        &mut policy,
        |_p, _| 1,
    )
    .expect_err("no drive backend");
    assert_eq!(err, expected);
    assert_eq!(policy, before);
}
