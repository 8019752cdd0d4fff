//! A frame reader over a physical drive backend, and the entry points that
//! run the paranoia engine on a drive.
use vstd::prelude::*;

use crate::cdda::paranoia::{RetryPolicy, RipEvent, RipState};
use crate::cdda::reader::{
    last_pass_checksummed, run_result_wf, run_track_with_paranoia_heuristics_interruptible, CddaFrameReader,
    CddaReadError, ParanoiaHeuristicConfig, ParanoiaTrackRunResult, CDDA_FRAME_BYTES,
};

verus! {

#[derive(Debug, Clone, Copy, PartialEq, Eq)]
pub struct DriveTrackTocEntry {
    pub number: u8,
    pub start_lsn: i32,
    pub end_lsn: i32,
    pub track_is_data: bool,
    /// LSN of the first frame of the pregap, None if no pregap or unavailable.
    pub pregap_lsn: Option<i32>,
}

/// Hardware identification strings returned by the drive.
#[derive(Debug, Clone)]
pub struct DriveHwInfo {
    pub vendor: String,
    pub model: String,
    pub revision: String,
}

/// Low-level access to a drive, implemented by the users of the reader.
pub trait LinuxDriveBackend {
    type Handle: Copy;

    fn open(&mut self, device_path: Option<&str>) -> Result<Self::Handle, CddaReadError>;

    fn destroy(&mut self, handle: Self::Handle);

    fn read_audio_sector(
        &mut self,
        handle: Self::Handle,
        lsn: i32,
        out: &mut [u8; CDDA_FRAME_BYTES],
    ) -> Result<(), CddaReadError>;

    fn get_media_changed_code(&self, handle: Self::Handle) -> i32;

    fn media_changed_unsupported_code(&self) -> i32;
}

/// A drive reports a media change with any code other than 0 and its
/// "unsupported" code.
pub fn media_changed_from_code(code: i32, unsupported_code: i32) -> (r: bool)
    ensures
        r == (code != 0 && code != unsupported_code),
{
    code != 0 && code != unsupported_code
}

pub struct LinuxPhysicalDriveReader<B: LinuxDriveBackend> {
    backend: B,
    handle: B::Handle,
    next_lsn: i32,
}

impl<B: LinuxDriveBackend> LinuxPhysicalDriveReader<B> {
    /// The address the next `read_frame` reads.
    pub closed spec fn next_lsn(&self) -> i32 {
        self.next_lsn
    }

    pub fn new(backend: B, device_path: Option<&str>) -> (r: Result<Self, CddaReadError>)
        ensures
            r matches Ok(reader) ==> reader.next_lsn() == 0,
    {
        let mut backend = backend;
        let handle = backend.open(device_path)?;
        Ok(Self { backend, handle, next_lsn: 0 })
    }

    /// Releases the drive handle through the backend.
    pub fn close(self) {
        let mut me = self;
        me.backend.destroy(me.handle);
    }
}

fn array_to_vec(a: &[u8; CDDA_FRAME_BYTES]) -> (r: Vec<u8>)
    ensures
        r@ == a@,
{
    let mut out: Vec<u8> = Vec::with_capacity(CDDA_FRAME_BYTES);
    let mut i: usize = 0;
    while i < CDDA_FRAME_BYTES
        invariant
            i <= CDDA_FRAME_BYTES,
            a@.len() == CDDA_FRAME_BYTES,
            out@ == a@.take(i as int),
        decreases CDDA_FRAME_BYTES - i,
    {
        assert(a@.take(i + 1) == a@.take(i as int).push(a@[i as int]));
        out.push(a[i]);
        i += 1;
    }
    assert(a@.take(CDDA_FRAME_BYTES as int) == a@);
    out
}

impl<B: LinuxDriveBackend> CddaFrameReader for LinuxPhysicalDriveReader<B> {
    /// A seek is accepted to any address that is not negative.
    open spec fn seek_accepts(&self, lsn: i32) -> bool {
        lsn >= 0
    }

    open spec fn adds_no_native_counts(&self) -> bool {
        true
    }

    /// A seek to a negative address fails.
    open spec fn seek_failure(&self, lsn: i32) -> Option<Seq<char>> {
        if lsn < 0 {
            Some("negative lsn"@)
        } else {
            None
        }
    }

    fn seek_frame(&mut self, lsn: i32) -> (r: Result<(), CddaReadError>)
        ensures
            lsn < 0 ==> r is Err && final(self).next_lsn() == old(self).next_lsn(),
            lsn >= 0 ==> r is Ok && final(self).next_lsn() == lsn,
    {
        if lsn < 0 {
            let msg = String::from_str("negative lsn");
            proof {
                reveal_strlit("negative lsn");
            }
            return Err(CddaReadError::SeekFailed(msg));
        }
        self.next_lsn = lsn;
        Ok(())
    }

    fn read_frame(&mut self) -> (r: Result<Vec<u8>, CddaReadError>)
        ensures
            r is Ok ==> r->Ok_0@.len() == CDDA_FRAME_BYTES && final(self).next_lsn() == if old(
                self,
            ).next_lsn() < i32::MAX {
                old(self).next_lsn() + 1
            } else {
                old(self).next_lsn() as int
            },
            r is Err ==> final(self).next_lsn() == old(self).next_lsn(),
    {
        let mut frame = [0u8; CDDA_FRAME_BYTES];
        self.backend.read_audio_sector(self.handle, self.next_lsn, &mut frame)?;
        if self.next_lsn < i32::MAX {
            self.next_lsn = self.next_lsn + 1;
        }
        Ok(array_to_vec(&frame))
    }

    fn media_changed(&self) -> (r: bool) {
        let code = self.backend.get_media_changed_code(self.handle);
        media_changed_from_code(code, self.backend.media_changed_unsupported_code())
    }
}

/// The backend of builds without drive access: every operation fails with an
/// explanation of how to enable it.
pub struct UnsupportedLinuxDriveBackend;

impl Default for UnsupportedLinuxDriveBackend {
    fn default() -> (r: Self) {
        UnsupportedLinuxDriveBackend
    }
}

impl LinuxDriveBackend for UnsupportedLinuxDriveBackend {
    type Handle = u8;

    fn open(&mut self, _device_path: Option<&str>) -> (r: Result<Self::Handle, CddaReadError>)
        ensures
            r matches Err(e) && is_backend_unavailable(e),
    {
        Err(
            CddaReadError::ReadFailed(
                String::from_str(
                    "linux physical-drive backend is unavailable; enable backend-libcdio-sys or backend-libcdio-rs",
                ),
            ),
        )
    }

    fn destroy(&mut self, _handle: Self::Handle) {
    }

    fn read_audio_sector(
        &mut self,
        _handle: Self::Handle,
        _lsn: i32,
        _out: &mut [u8; CDDA_FRAME_BYTES],
    ) -> (r: Result<(), CddaReadError>)
        ensures
            r is Err,
    {
        Err(CddaReadError::ReadFailed(String::from_str("linux physical-drive backend is unavailable")))
    }

    fn get_media_changed_code(&self, _handle: Self::Handle) -> (r: i32)
        ensures
            r == 0,
    {
        0
    }

    fn media_changed_unsupported_code(&self) -> (r: i32)
        ensures
            r == -1,
    {
        -1
    }
}

pub type DefaultLinuxDriveBackend = UnsupportedLinuxDriveBackend;

/// What opening a drive says in a build without a drive backend.
pub open spec fn backend_unavailable_message() -> Seq<char> {
    "linux physical-drive backend is unavailable; enable backend-libcdio-sys or backend-libcdio-rs"@
}

/// The error of opening a drive in a build without a drive backend.
pub open spec fn is_backend_unavailable(e: CddaReadError) -> bool {
    e matches CddaReadError::ReadFailed(m) && m@ == backend_unavailable_message()
}

/// Opens the drive through the default backend, which in this build has no
/// drive access: the open always fails, and says how to enable it.
pub fn open_linux_physical_drive(device_path: Option<&str>) -> (r: Result<
    LinuxPhysicalDriveReader<DefaultLinuxDriveBackend>,
    CddaReadError,
>)
    ensures
        r matches Err(e) && is_backend_unavailable(e),
{
    let mut backend = DefaultLinuxDriveBackend::default();
    match backend.open(device_path) {
        Ok(handle) => Ok(LinuxPhysicalDriveReader { backend, handle, next_lsn: 0 }),
        Err(e) => Err(e),
    }
}

/// Reading a drive's table of contents needs a drive backend, which this
/// build has not.
pub fn read_drive_toc_tracks(_device_path: Option<&str>) -> (r: Result<
    Vec<DriveTrackTocEntry>,
    CddaReadError,
>)
    ensures
        r matches Err(CddaReadError::ReadFailed(m)) && m@
            == "drive TOC access requires backend-libcdio-sys"@,
{
    Err(CddaReadError::ReadFailed(String::from_str("drive TOC access requires backend-libcdio-sys")))
}

/// Reading a drive's identification needs a drive backend, which this build
/// has not.
pub fn read_drive_hwinfo(_device_path: Option<&str>) -> (r: Option<DriveHwInfo>)
    ensures
        r is None,
{
    None
}

/// The properties every drive run reports (see `run_result_wf`), and how the
/// retry policy may change.
pub open spec fn drive_run_ok(
    res: Result<ParanoiaTrackRunResult, CddaReadError>,
    frame_count: usize,
    old_policy: RetryPolicy,
    new_policy: RetryPolicy,
) -> bool {
    &&& res matches Ok(r) ==> run_result_wf(r, frame_count as nat)
    &&& new_policy.required_matches == old_policy.required_matches
    &&& new_policy.max_retries == old_policy.max_retries
    &&& old_policy.required_matches == 0 ==> new_policy@ == old_policy@
    &&& res matches Ok(r) ==> (old_policy.required_matches == 0 && r.state
        == RipState::TrackComplete ==> r.passes == 1)
}

pub fn run_paranoia_on_linux_drive_with_backend<B, F>(
    backend: B,
    device_path: Option<&str>,
    start_lsn: i32,
    frame_count: usize,
    max_frame_retries: u32,
    retry_policy: &mut RetryPolicy,
    checksum_fn: F,
) -> (res: Result<ParanoiaTrackRunResult, CddaReadError>) where
    B: LinuxDriveBackend,
    F: FnMut(u32, &[Vec<u8>]) -> u32,

    requires
        forall|p: u32, s: &[Vec<u8>]| #[trigger] call_requires(checksum_fn, (p, s)),
    ensures
        drive_run_ok(res, frame_count, *old(retry_policy), *final(retry_policy)),
{
    run_paranoia_on_linux_drive_with_backend_heuristics(
        backend,
        device_path,
        start_lsn,
        frame_count,
        max_frame_retries,
        retry_policy,
        ParanoiaHeuristicConfig::default(),
        checksum_fn,
    )
}

pub fn run_paranoia_on_linux_drive_with_backend_heuristics<B, F>(
    backend: B,
    device_path: Option<&str>,
    start_lsn: i32,
    frame_count: usize,
    max_frame_retries: u32,
    retry_policy: &mut RetryPolicy,
    heuristics: ParanoiaHeuristicConfig,
    checksum_fn: F,
) -> (res: Result<ParanoiaTrackRunResult, CddaReadError>) where
    B: LinuxDriveBackend,
    F: FnMut(u32, &[Vec<u8>]) -> u32,

    requires
        forall|p: u32, s: &[Vec<u8>]| #[trigger] call_requires(checksum_fn, (p, s)),
    ensures
        drive_run_ok(res, frame_count, *old(retry_policy), *final(retry_policy)),
{
    run_paranoia_on_linux_drive_with_backend_heuristics_interruptible(
        backend,
        device_path,
        start_lsn,
        frame_count,
        max_frame_retries,
        retry_policy,
        heuristics,
        crate::cdda::reader::never_interrupt,
        checksum_fn,
    )
}

pub fn run_paranoia_on_linux_drive_with_backend_heuristics_interruptible<B, F, I>(
    backend: B,
    device_path: Option<&str>,
    start_lsn: i32,
    frame_count: usize,
    max_frame_retries: u32,
    retry_policy: &mut RetryPolicy,
    heuristics: ParanoiaHeuristicConfig,
    should_interrupt: I,
    checksum_fn: F,
) -> (res: Result<ParanoiaTrackRunResult, CddaReadError>) where
    B: LinuxDriveBackend,
    F: FnMut(u32, &[Vec<u8>]) -> u32,
    I: FnMut() -> bool,

    requires
        call_requires(should_interrupt, ()),
        forall|p: u32, s: &[Vec<u8>]| #[trigger] call_requires(checksum_fn, (p, s)),
    ensures
        drive_run_ok(res, frame_count, *old(retry_policy), *final(retry_policy)),
{
    let reader = LinuxPhysicalDriveReader::new(backend, device_path)?;
    run_paranoia_on_opened_linux_drive(
        reader,
        start_lsn,
        frame_count,
        max_frame_retries,
        retry_policy,
        heuristics,
        should_interrupt,
        checksum_fn,
    )
}

/// Runs the paranoia engine on a drive that is already open, then releases
/// the drive. The reader accepts a seek to any start that is not negative,
/// and the engine fails only on a refused seek, so such a start always gives
/// a run result.
pub fn run_paranoia_on_opened_linux_drive<B, F, I>(
    reader: LinuxPhysicalDriveReader<B>,
    start_lsn: i32,
    frame_count: usize,
    max_frame_retries: u32,
    retry_policy: &mut RetryPolicy,
    heuristics: ParanoiaHeuristicConfig,
    should_interrupt: I,
    checksum_fn: F,
) -> (res: Result<ParanoiaTrackRunResult, CddaReadError>) where
    B: LinuxDriveBackend,
    F: FnMut(u32, &[Vec<u8>]) -> u32,
    I: FnMut() -> bool,

    requires
        call_requires(should_interrupt, ()),
        forall|p: u32, s: &[Vec<u8>]| #[trigger] call_requires(checksum_fn, (p, s)),
    ensures
        drive_run_ok(res, frame_count, *old(retry_policy), *final(retry_policy)),
        start_lsn >= 0 ==> res is Ok,
        res matches Ok(r) ==> (r.events@.last() == RipEvent::QuitRequested ==> call_ensures(
            should_interrupt,
            (),
            true,
        )),
        res matches Ok(r) ==> last_pass_checksummed(checksum_fn, r),
{
    let mut reader = reader;
    let res = run_track_with_paranoia_heuristics_interruptible(
        &mut reader,
        start_lsn,
        frame_count,
        max_frame_retries,
        retry_policy,
        heuristics,
        should_interrupt,
        checksum_fn,
    );
    reader.close();
    res
}

/// What a run through the default backend gives in this build: the drive
/// cannot be opened, so the run fails with the backend's explanation before
/// the retry policy is touched.
pub open spec fn unavailable_drive_run(
    res: Result<ParanoiaTrackRunResult, CddaReadError>,
    old_policy: RetryPolicy,
    new_policy: RetryPolicy,
) -> bool {
    &&& res matches Err(e) && is_backend_unavailable(e)
    &&& new_policy == old_policy
}

pub fn run_paranoia_on_linux_drive<F>(
    device_path: Option<&str>,
    start_lsn: i32,
    frame_count: usize,
    max_frame_retries: u32,
    retry_policy: &mut RetryPolicy,
    checksum_fn: F,
) -> (res: Result<ParanoiaTrackRunResult, CddaReadError>) where
    F: FnMut(u32, &[Vec<u8>]) -> u32,

    ensures
        unavailable_drive_run(res, *old(retry_policy), *final(retry_policy)),
{
    run_paranoia_on_linux_drive_heuristics(
        device_path,
        start_lsn,
        frame_count,
        max_frame_retries,
        retry_policy,
        ParanoiaHeuristicConfig::default(),
        checksum_fn,
    )
}

pub fn run_paranoia_on_linux_drive_heuristics<F>(
    device_path: Option<&str>,
    start_lsn: i32,
    frame_count: usize,
    max_frame_retries: u32,
    retry_policy: &mut RetryPolicy,
    heuristics: ParanoiaHeuristicConfig,
    checksum_fn: F,
) -> (res: Result<ParanoiaTrackRunResult, CddaReadError>) where
    F: FnMut(u32, &[Vec<u8>]) -> u32,

    ensures
        unavailable_drive_run(res, *old(retry_policy), *final(retry_policy)),
{
    let reader = match open_linux_physical_drive(device_path) {
        Ok(reader) => reader,
        Err(e) => return Err(e),
    };
    run_paranoia_on_opened_linux_drive(
        reader,
        start_lsn,
        frame_count,
        max_frame_retries,
        retry_policy,
        heuristics,
        crate::cdda::reader::never_interrupt,
        checksum_fn,
    )
}

pub fn run_paranoia_on_linux_drive_interruptible<F, I>(
    device_path: Option<&str>,
    start_lsn: i32,
    frame_count: usize,
    max_frame_retries: u32,
    retry_policy: &mut RetryPolicy,
    should_interrupt: I,
    checksum_fn: F,
) -> (res: Result<ParanoiaTrackRunResult, CddaReadError>) where
    F: FnMut(u32, &[Vec<u8>]) -> u32,
    I: FnMut() -> bool,

    ensures
        unavailable_drive_run(res, *old(retry_policy), *final(retry_policy)),
{
    let reader = match open_linux_physical_drive(device_path) {
        Ok(reader) => reader,
        Err(e) => return Err(e),
    };
    run_paranoia_on_opened_linux_drive(
        reader,
        start_lsn,
        frame_count,
        max_frame_retries,
        retry_policy,
        ParanoiaHeuristicConfig::default(),
        should_interrupt,
        checksum_fn,
    )
}

pub fn run_paranoia_on_linux_drive_with_defaults_for_level<F>(
    device_path: Option<&str>,
    paranoia_level: i32,
    start_lsn: i32,
    frame_count: usize,
    max_frame_retries: u32,
    retry_policy: &mut RetryPolicy,
    checksum_fn: F,
) -> (res: Result<ParanoiaTrackRunResult, CddaReadError>) where
    F: FnMut(u32, &[Vec<u8>]) -> u32,

    ensures
        unavailable_drive_run(res, *old(retry_policy), *final(retry_policy)),
{
    let heuristics = heuristics_for_paranoia_level(paranoia_level);
    run_paranoia_on_linux_drive_heuristics(
        device_path,
        start_lsn,
        frame_count,
        max_frame_retries,
        retry_policy,
        heuristics,
        checksum_fn,
    )
}

/// Paranoia level 2 and up verify a one-frame overlap between passes.
pub fn heuristics_for_paranoia_level(paranoia_level: i32) -> (r: ParanoiaHeuristicConfig)
    ensures
        paranoia_level >= 2 ==> r.overlap_frames == 1 && r.verify_overlap,
        paranoia_level < 2 ==> r.overlap_frames == 0 && !r.verify_overlap,
{
    if paranoia_level >= 2 {
        ParanoiaHeuristicConfig { overlap_frames: 1, verify_overlap: true }
    } else {
        ParanoiaHeuristicConfig::default()
    }
}

} // verus!
