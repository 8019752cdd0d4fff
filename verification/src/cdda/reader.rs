//! The paranoia re-read engine: reads a track frame by frame through a
//! `CddaFrameReader`, retries failed frames, re-reads the whole track until
//! the retry policy is satisfied, and reports the events it went through.
use vstd::prelude::*;

use crate::cdda::paranoia::{
    next_rip_state, on_checksum_spec, rip_transition, run_events, RetryDecision, RetryPolicy,
    RetryPolicyView,
    RipEvent, RipState,
};
use crate::text::{dec, push_dec};

verus! {

pub const CDDA_FRAME_BYTES: usize = 2352;

#[derive(Debug, Clone, PartialEq, Eq)]
pub enum CddaReadError {
    SeekFailed(String),
    ReadFailed(String),
}

/// A source of raw CD-DA frames. Implementations decide what their reads
/// return; what a reader promises is stated by three spec functions, each
/// promising nothing unless the reader says otherwise: the positions it
/// accepts a seek to, a fixed image of frames that it serves, and that it
/// never reports a media change. No operation takes a promise back.
pub trait CddaFrameReader {
    /// The positions this reader promises to accept a seek to.
    open spec fn seek_accepts(&self, lsn: i32) -> bool {
        false
    }

    /// The frames this reader promises to serve: a seek to any position
    /// from 0 to their number succeeds, and a read that is not promised to
    /// fail (`fails_ahead`) at a position inside them gives the frame there
    /// and moves on by one; a failed read stays where it was.
    open spec fn served_image(&self) -> Option<Seq<Seq<u8>>> {
        None
    }

    /// The position the next read reads, for a reader that serves an image.
    open spec fn read_position(&self) -> int {
        0
    }

    /// Whether this reader promises never to report a media change.
    open spec fn media_steady(&self) -> bool {
        false
    }

    /// Whether this reader promises to hand the engine no callback counts
    /// of its own.
    open spec fn adds_no_native_counts(&self) -> bool {
        false
    }

    /// Whether the read attempt `k` reads from now (0 for the next one) is
    /// one this reader promises to fail, for a reader that serves an image.
    open spec fn fails_ahead(&self, k: nat) -> bool {
        false
    }

    /// The message this reader promises a seek to `lsn` fails with.
    open spec fn seek_failure(&self, lsn: i32) -> Option<Seq<char>> {
        None
    }

    fn seek_frame(&mut self, lsn: i32) -> (r: Result<(), CddaReadError>)
        ensures
            old(self).seek_accepts(lsn) ==> r is Ok,
            old(self).seek_failure(lsn) matches Some(m) ==> (r matches Err(CddaReadError::SeekFailed(t))
                && t@ == m),
            forall|l: i32| #[trigger] final(self).seek_accepts(l) == old(self).seek_accepts(l),
            forall|l: i32| #[trigger] final(self).seek_failure(l) == old(self).seek_failure(l),
            old(self).served_image() is Some ==> forall|k: nat| #[trigger] final(self).fails_ahead(k) == old(self).fails_ahead(k),
            final(self).served_image() == old(self).served_image(),
            final(self).media_steady() == old(self).media_steady(),
            final(self).adds_no_native_counts() == old(self).adds_no_native_counts(),
            old(self).served_image() matches Some(img) ==> (0 <= lsn <= img.len() ==> r is Ok
                && final(self).read_position() == lsn),
    ;

    fn read_frame(&mut self) -> (r: Result<Vec<u8>, CddaReadError>)
        ensures
            forall|l: i32| #[trigger] final(self).seek_accepts(l) == old(self).seek_accepts(l),
            forall|l: i32| #[trigger] final(self).seek_failure(l) == old(self).seek_failure(l),
            final(self).served_image() == old(self).served_image(),
            final(self).media_steady() == old(self).media_steady(),
            final(self).adds_no_native_counts() == old(self).adds_no_native_counts(),
            old(self).served_image() matches Some(img) ==> (!old(self).fails_ahead(0) && 0
                <= old(self).read_position() < img.len() ==> (r matches Ok(f) && f@ == img[old(
                self,
            ).read_position()] && final(self).read_position() == old(self).read_position() + 1)),
            old(self).served_image() is Some && old(self).fails_ahead(0) ==> r is Err
                && final(self).read_position() == old(self).read_position(),
            old(self).served_image() is Some ==> forall|k: nat| #[trigger] final(self).fails_ahead(k)
                == old(self).fails_ahead(k + 1),
    ;

    fn media_changed(&self) -> (r: bool)
        ensures
            self.media_steady() ==> !r,
    ;

    /// Callback counters recorded by a real paranoia engine during the most
    /// recent `read_frame` call, if this reader is backed by one.
    fn take_native_callback_counts(&mut self) -> (r: Option<ParanoiaCallbackCounters>)
        ensures
            forall|l: i32| #[trigger] final(self).seek_accepts(l) == old(self).seek_accepts(l),
            forall|l: i32| #[trigger] final(self).seek_failure(l) == old(self).seek_failure(l),
            old(self).served_image() is Some ==> forall|k: nat| #[trigger] final(self).fails_ahead(k) == old(self).fails_ahead(k),
            final(self).served_image() == old(self).served_image(),
            final(self).media_steady() == old(self).media_steady(),
            final(self).read_position() == old(self).read_position(),
            final(self).adds_no_native_counts() == old(self).adds_no_native_counts(),
            old(self).adds_no_native_counts() ==> r is None,
    {
        None
    }
}

/// A disc image held in memory that fails chosen read attempts and can
/// report a media change from a chosen attempt on.
#[derive(Debug, Clone, PartialEq, Eq)]
pub struct FaultInjectedImageReader {
    frames: Vec<Vec<u8>>,
    cursor: usize,
    read_attempt: usize,
    fail_on_attempts: Vec<usize>,
    media_changed_at_attempt: Option<usize>,
}

impl FaultInjectedImageReader {
    pub closed spec fn frames(&self) -> Seq<Seq<u8>> {
        self.frames@.map_values(|f: Vec<u8>| f@)
    }

    pub closed spec fn cursor(&self) -> nat {
        self.cursor as nat
    }

    pub closed spec fn read_attempt(&self) -> nat {
        self.read_attempt as nat
    }

    pub closed spec fn fails_on(&self) -> Set<usize> {
        self.fail_on_attempts@.to_set()
    }

    /// The injected failures are kept without repetition.
    pub closed spec fn wf(&self) -> bool {
        crate::no_duplicates(self.fail_on_attempts@)
    }

    pub closed spec fn media_change_at(&self) -> Option<usize> {
        self.media_changed_at_attempt
    }

    pub fn new(frames: Vec<Vec<u8>>) -> (r: Self)
        ensures
            r.frames() == frames@.map_values(|f: Vec<u8>| f@),
            r.cursor() == 0,
            r.read_attempt() == 0,
            r.fails_on() == Set::<usize>::empty(),
            r.media_change_at() is None,
            r.wf(),
    {
        Self {
            frames,
            cursor: 0,
            read_attempt: 0,
            fail_on_attempts: Vec::new(),
            media_changed_at_attempt: None,
        }
    }

    pub fn with_fail_on_attempts(self, attempts: &[usize]) -> (r: Self)
        ensures
            r.wf(),
            r.fails_on() == attempts@.to_set(),
            r.frames() == self.frames(),
            r.cursor() == self.cursor(),
            r.read_attempt() == self.read_attempt(),
            r.media_change_at() == self.media_change_at(),
    {
        let mut set: Vec<usize> = Vec::new();
        let mut i: usize = 0;
        while i < attempts.len()
            invariant
                i <= attempts@.len(),
                set@.to_set() == attempts@.take(i as int).to_set(),
                crate::no_duplicates(set@),
            decreases attempts.len() - i,
        {
            let a = attempts[i];
            assert(attempts@.take(i + 1) == attempts@.take(i as int).push(a));
            proof {
                attempts@.take(i as int).lemma_push_to_set_commute(a);
                set@.lemma_push_to_set_commute(a);
            }
            if !contains_usize(&set, a) {
                set.push(a);
            } else {
                assert(set@.to_set().insert(a) =~= set@.to_set());
            }
            i += 1;
        }
        assert(attempts@.take(attempts@.len() as int) == attempts@);
        let mut out = self;
        out.fail_on_attempts = set;
        out
    }

    pub fn with_media_change_at_attempt(self, attempt: usize) -> (r: Self)
        ensures
            r.media_change_at() == Some(attempt),
            r.frames() == self.frames(),
            r.cursor() == self.cursor(),
            r.read_attempt() == self.read_attempt(),
            r.fails_on() == self.fails_on(),
    {
        let mut out = self;
        out.media_changed_at_attempt = Some(attempt);
        out
    }
}

impl CddaFrameReader for FaultInjectedImageReader {
    /// A seek is accepted to any frame of the image and to its end.
    open spec fn seek_accepts(&self, lsn: i32) -> bool {
        0 <= lsn <= self.frames().len()
    }

    /// The image is served as it is, but for the attempts set to fail.
    open spec fn served_image(&self) -> Option<Seq<Seq<u8>>> {
        Some(self.frames())
    }

    /// Attempts are counted from 1 up to `usize::MAX`, where the count
    /// stays; an attempt fails when it is one of those set to.
    open spec fn fails_ahead(&self, k: nat) -> bool {
        self.fails_on().contains(
            if self.read_attempt() + k + 1 > usize::MAX {
                usize::MAX
            } else {
                (self.read_attempt() + k + 1) as usize
            },
        )
    }

    open spec fn read_position(&self) -> int {
        self.cursor() as int
    }

    /// No media change is reported unless one is set.
    open spec fn media_steady(&self) -> bool {
        self.media_change_at() is None
    }

    open spec fn adds_no_native_counts(&self) -> bool {
        true
    }

    /// A seek before the image or past its end fails, saying why.
    open spec fn seek_failure(&self, lsn: i32) -> Option<Seq<char>> {
        if lsn < 0 {
            Some("negative lsn"@)
        } else if lsn > self.frames().len() {
            Some("lsn "@ + dec(lsn as nat) + " beyond frame count "@ + dec(self.frames().len()))
        } else {
            None
        }
    }

    fn seek_frame(&mut self, lsn: i32) -> (r: Result<(), CddaReadError>)
        ensures
            lsn < 0 || lsn > old(self).frames().len() ==> r is Err && *final(self) == *old(self),
            0 <= lsn <= old(self).frames().len() ==> r is Ok && final(self).cursor() == lsn
                && final(self).frames() == old(self).frames() && final(self).read_attempt()
                == old(self).read_attempt() && final(self).fails_on() == old(self).fails_on()
                && final(self).media_change_at() == old(self).media_change_at(),
    {
        if lsn < 0 {
            let msg = String::from_str("negative lsn");
            proof {
                reveal_strlit("negative lsn");
            }
            return Err(CddaReadError::SeekFailed(msg));
        }
        let next = lsn as usize;
        if next > self.frames.len() {
            let mut msg = String::from_str("lsn ");
            push_dec(&mut msg, lsn as u64);
            msg.append(" beyond frame count ");
            push_dec(&mut msg, self.frames.len() as u64);
            assert(self.frames@.len() == self.frames().len());
            return Err(CddaReadError::SeekFailed(msg));
        }
        self.cursor = next;
        Ok(())
    }

    fn read_frame(&mut self) -> (r: Result<Vec<u8>, CddaReadError>)
        ensures
            ({
                let attempt = if old(self).read_attempt() < usize::MAX {
                    old(self).read_attempt() + 1
                } else {
                    old(self).read_attempt()
                };
                &&& final(self).read_attempt() == attempt
                &&& final(self).frames() == old(self).frames()
                &&& final(self).fails_on() == old(self).fails_on()
                &&& final(self).media_change_at() == old(self).media_change_at()
                &&& if old(self).fails_on().contains(attempt as usize) {
                    r is Err && final(self).cursor() == old(self).cursor()
                } else if old(self).cursor() >= old(self).frames().len() {
                    r is Err && final(self).cursor() == old(self).cursor()
                } else {
                    &&& r matches Ok(f) && f@ == old(self).frames()[old(self).cursor() as int]
                    &&& final(self).cursor() == old(self).cursor() + 1
                }
            }),
    {
        self.read_attempt = self.read_attempt.saturating_add(1);
        if contains_usize(&self.fail_on_attempts, self.read_attempt) {
            let mut msg = String::from_str("injected read failure at attempt ");
            push_dec(&mut msg, self.read_attempt as u64);
            return Err(CddaReadError::ReadFailed(msg));
        }
        if self.cursor >= self.frames.len() {
            return Err(CddaReadError::ReadFailed(String::from_str("end of image")));
        }
        let frame = copy_bytes(&self.frames[self.cursor]);
        assert(self.frames@.map_values(|f: Vec<u8>| f@)[self.cursor as int] == self.frames@[self.cursor as int]@);
        self.cursor = self.cursor + 1;
        Ok(frame)
    }

    fn media_changed(&self) -> (r: bool)
        ensures
            r == match self.media_change_at() {
                Some(attempt) => self.read_attempt() >= attempt,
                None => false,
            },
    {
        match self.media_changed_at_attempt {
            Some(attempt) => self.read_attempt >= attempt,
            None => false,
        }
    }
}

fn contains_usize(v: &Vec<usize>, x: usize) -> (r: bool)
    ensures
        r == v@.to_set().contains(x),
        r == v@.contains(x),
{
    let mut i: usize = 0;
    while i < v.len()
        invariant
            i <= v@.len(),
            forall|j: int| 0 <= j < i ==> v@[j] != x,
        decreases v.len() - i,
    {
        if v[i] == x {
            assert(v@.contains(x));
            return true;
        }
        i += 1;
    }
    false
}

/// A fresh copy of `v`.
pub fn copy_bytes(v: &Vec<u8>) -> (r: Vec<u8>)
    ensures
        r@ == v@,
{
    let mut out: Vec<u8> = Vec::with_capacity(v.len());
    let mut i: usize = 0;
    while i < v.len()
        invariant
            i <= v@.len(),
            out@ == v@.take(i as int),
        decreases v.len() - i,
    {
        assert(v@.take(i + 1) == v@.take(i as int).push(v@[i as int]));
        out.push(v[i]);
        i += 1;
    }
    assert(v@.take(v@.len() as int) == v@);
    out
}

#[derive(Debug, Clone, PartialEq, Eq)]
pub struct ParanoiaTrackRunResult {
    pub state: RipState,
    pub events: Vec<RipEvent>,
    pub passes: u32,
    pub callback_counters: ParanoiaCallbackCounters,
    pub final_frames: Option<Vec<Vec<u8>>>,
}

/// The callback kinds of libcdio's paranoia engine, in its numbering.
#[derive(Debug, Clone, Copy, PartialEq, Eq, Structural)]
pub enum ParanoiaCallbackKind {
    Read,
    Verify,
    FixupEdge,
    FixupAtom,
    Scratch,
    Repair,
    Skip,
    Drift,
    Backoff,
    Overlap,
    FixupDropped,
    FixupDuped,
    ReadErr,
    CacheErr,
    Wrote,
    Finished,
}

pub const PARANOIA_CALLBACK_KIND_COUNT: usize = 16;

/// libcdio's number for each callback kind.
pub open spec fn kind_index(k: ParanoiaCallbackKind) -> int {
    match k {
        ParanoiaCallbackKind::Read => 0,
        ParanoiaCallbackKind::Verify => 1,
        ParanoiaCallbackKind::FixupEdge => 2,
        ParanoiaCallbackKind::FixupAtom => 3,
        ParanoiaCallbackKind::Scratch => 4,
        ParanoiaCallbackKind::Repair => 5,
        ParanoiaCallbackKind::Skip => 6,
        ParanoiaCallbackKind::Drift => 7,
        ParanoiaCallbackKind::Backoff => 8,
        ParanoiaCallbackKind::Overlap => 9,
        ParanoiaCallbackKind::FixupDropped => 10,
        ParanoiaCallbackKind::FixupDuped => 11,
        ParanoiaCallbackKind::ReadErr => 12,
        ParanoiaCallbackKind::CacheErr => 13,
        ParanoiaCallbackKind::Wrote => 14,
        ParanoiaCallbackKind::Finished => 15,
    }
}

impl ParanoiaCallbackKind {
    pub fn index(self) -> (r: usize)
        ensures
            r == kind_index(self),
    {
        match self {
            Self::Read => 0,
            Self::Verify => 1,
            Self::FixupEdge => 2,
            Self::FixupAtom => 3,
            Self::Scratch => 4,
            Self::Repair => 5,
            Self::Skip => 6,
            Self::Drift => 7,
            Self::Backoff => 8,
            Self::Overlap => 9,
            Self::FixupDropped => 10,
            Self::FixupDuped => 11,
            Self::ReadErr => 12,
            Self::CacheErr => 13,
            Self::Wrote => 14,
            Self::Finished => 15,
        }
    }

    /// Maps a raw `paranoia_cb_mode_t` value to its kind.
    pub fn from_raw(value: u32) -> (r: Option<Self>)
        ensures
            value < 16 <==> r is Some,
            r matches Some(k) ==> kind_index(k) == value,
    {
        match value {
            0 => Some(Self::Read),
            1 => Some(Self::Verify),
            2 => Some(Self::FixupEdge),
            3 => Some(Self::FixupAtom),
            4 => Some(Self::Scratch),
            5 => Some(Self::Repair),
            6 => Some(Self::Skip),
            7 => Some(Self::Drift),
            8 => Some(Self::Backoff),
            9 => Some(Self::Overlap),
            10 => Some(Self::FixupDropped),
            11 => Some(Self::FixupDuped),
            12 => Some(Self::ReadErr),
            13 => Some(Self::CacheErr),
            14 => Some(Self::Wrote),
            15 => Some(Self::Finished),
            _ => None,
        }
    }
}

/// The raw value of a kind maps back to the same kind.
pub proof fn law_kind_index_round_trip(k: ParanoiaCallbackKind)
    ensures
        0 <= kind_index(k) < 16,
        forall|j: ParanoiaCallbackKind| kind_index(j) == kind_index(k) ==> j == k,
{
}

pub open spec fn sat_add_u64(a: u64, b: u64) -> u64 {
    if a + b > u64::MAX {
        u64::MAX
    } else {
        (a + b) as u64
    }
}

/// Per-kind callback counts, saturating at `u64::MAX`.
#[derive(Debug, Clone, PartialEq, Eq)]
pub struct ParanoiaCallbackCounters {
    counts: [u64; PARANOIA_CALLBACK_KIND_COUNT],
}

impl ParanoiaCallbackCounters {
    pub closed spec fn count(&self, k: ParanoiaCallbackKind) -> u64 {
        self.counts@[kind_index(k)]
    }

    pub fn increment(&mut self, kind: ParanoiaCallbackKind)
        ensures
            final(self).count(kind) == sat_add_u64(old(self).count(kind), 1),
            forall|j: ParanoiaCallbackKind| j != kind ==> #[trigger] final(self).count(j) == old(
                self,
            ).count(j),
    {
        let idx = kind.index();
        self.counts[idx] = self.counts[idx].saturating_add(1);
        proof {
            assert forall|j: ParanoiaCallbackKind| j != kind implies #[trigger] self.count(j) == old(
                self,
            ).count(j) by {
                law_kind_index_round_trip(j);
                law_kind_index_round_trip(kind);
            }
        }
    }

    pub fn get(&self, kind: ParanoiaCallbackKind) -> (r: u64)
        ensures
            r == self.count(kind),
    {
        self.counts[kind.index()]
    }

    pub fn merge(&mut self, other: &ParanoiaCallbackCounters)
        ensures
            forall|j: ParanoiaCallbackKind| #[trigger] final(self).count(j) == sat_add_u64(
                old(self).count(j),
                other.count(j),
            ),
    {
        let mut idx: usize = 0;
        while idx < PARANOIA_CALLBACK_KIND_COUNT
            invariant
                idx <= 16,
                self.counts@.len() == 16,
                other.counts@.len() == 16,
                old(self).counts@.len() == 16,
                forall|i: int| 0 <= i < idx ==> #[trigger] self.counts@[i] == sat_add_u64(
                    old(self).counts@[i],
                    other.counts@[i],
                ),
                forall|i: int| idx <= i < 16 ==> #[trigger] self.counts@[i] == old(self).counts@[i],
            decreases 16 - idx,
        {
            self.counts[idx] = self.counts[idx].saturating_add(other.counts[idx]);
            idx += 1;
        }
        proof {
            assert forall|j: ParanoiaCallbackKind| #[trigger] self.count(j) == sat_add_u64(
                old(self).count(j),
                other.count(j),
            ) by {
                law_kind_index_round_trip(j);
            }
        }
    }
}

impl Default for ParanoiaCallbackCounters {
    fn default() -> (r: Self)
        ensures
            forall|j: ParanoiaCallbackKind| #[trigger] r.count(j) == 0,
    {
        let r = Self { counts: [0u64; PARANOIA_CALLBACK_KIND_COUNT] };
        proof {
            assert forall|j: ParanoiaCallbackKind| #[trigger] r.count(j) == 0 by {
                law_kind_index_round_trip(j);
                vstd::array::axiom_spec_array_fill_for_copy_type::<u64, 16>(0u64);
            }
        }
        r
    }
}

#[derive(Debug, Clone, Copy, PartialEq, Eq)]
pub struct ParanoiaHeuristicConfig {
    pub overlap_frames: usize,
    pub verify_overlap: bool,
}

impl Default for ParanoiaHeuristicConfig {
    fn default() -> (r: Self)
        ensures
            r.overlap_frames == 0,
            !r.verify_overlap,
    {
        Self { overlap_frames: 0, verify_overlap: false }
    }
}

/// Edge-byte trimming point between the raw read and the checksum: boundary
/// trimming is planned before the read starts, so frames pass unchanged.
fn apply_offset_edge_trim(_frame_idx: usize, _frame_count: usize, frame: Vec<u8>) -> (r: Vec<u8>)
    ensures
        r == frame,
{
    frame
}

pub const FNV_OFFSET: u32 = 2166136261;

pub const FNV_PRIME: u32 = 16777619;

/// One FNV-1a step.
pub open spec fn fnv_step(h: u32, b: u8) -> u32 {
    vstd::wrapping::u32_specs::wrapping_mul(h ^ (b as u32), FNV_PRIME)
}

/// FNV-1a over the bytes of `b`, starting from `h`.
pub open spec fn fnv_bytes(h: u32, b: Seq<u8>) -> u32
    decreases b.len(),
{
    if b.len() == 0 {
        h
    } else {
        fnv_step(fnv_bytes(h, b.drop_last()), b.last())
    }
}

/// FNV-1a over the frames in order, starting from `h`.
pub open spec fn fnv_frames(h: u32, fs: Seq<Seq<u8>>) -> u32
    decreases fs.len(),
{
    if fs.len() == 0 {
        h
    } else {
        fnv_bytes(fnv_frames(h, fs.drop_last()), fs.last())
    }
}

pub open spec fn frames_view(fs: Seq<Vec<u8>>) -> Seq<Seq<u8>> {
    fs.map_values(|f: Vec<u8>| f@)
}

/// The hashes of the first and of the last `min(overlap, len)` frames of a
/// pass; `None` when no overlap is checked or there are no frames.
pub open spec fn overlap_signature_spec(fs: Seq<Seq<u8>>, overlap: nat) -> Option<(u32, u32)> {
    if overlap == 0 || fs.len() == 0 {
        None
    } else {
        let edge = if overlap < fs.len() { overlap } else { fs.len() };
        Some(
            (
                fnv_frames(FNV_OFFSET, fs.take(edge as int)),
                fnv_frames(FNV_OFFSET, fs.skip(fs.len() - edge)),
            ),
        )
    }
}

fn fnv_over_frames(frames: &[Vec<u8>], lo: usize, hi: usize) -> (h: u32)
    requires
        lo <= hi <= frames@.len(),
    ensures
        h == fnv_frames(FNV_OFFSET, frames_view(frames@.subrange(lo as int, hi as int))),
{
    let mut h: u32 = FNV_OFFSET;
    let mut i = lo;
    while i < hi
        invariant
            lo <= i <= hi <= frames@.len(),
            h == fnv_frames(FNV_OFFSET, frames_view(frames@.subrange(lo as int, i as int))),
        decreases hi - i,
    {
        let frame = &frames[i];
        let ghost before = h;
        let mut k: usize = 0;
        while k < frame.len()
            invariant
                k <= frame@.len(),
                h == fnv_bytes(before, frame@.take(k as int)),
            decreases frame.len() - k,
        {
            assert(frame@.take(k + 1).drop_last() == frame@.take(k as int));
            h ^= frame[k] as u32;
            h = h.wrapping_mul(FNV_PRIME);
            k += 1;
        }
        assert(frame@.take(frame@.len() as int) == frame@);
        let ghost cur = frames_view(frames@.subrange(lo as int, i + 1));
        assert(cur.drop_last() == frames_view(frames@.subrange(lo as int, i as int)));
        assert(cur.last() == frame@);
        i += 1;
    }
    h
}

fn overlap_signature(frames: &[Vec<u8>], overlap_frames: usize) -> (r: Option<(u32, u32)>)
    ensures
        r == overlap_signature_spec(frames_view(frames@), overlap_frames as nat),
{
    if overlap_frames == 0 || frames.len() == 0 {
        return None;
    }
    let n = frames.len();
    let edge = if overlap_frames < n { overlap_frames } else { n };
    let head = fnv_over_frames(frames, 0, edge);
    let tail = fnv_over_frames(frames, n - edge, n);
    assert(frames_view(frames@.subrange(0, edge as int)) == frames_view(frames@).take(edge as int));
    assert(frames_view(frames@.subrange(n - edge, n as int)) == frames_view(frames@).skip(
        n - edge,
    ));
    Some((head, tail))
}

/// What every completed or aborted run reports: the event log starts with
/// `StartTrack` and replays to the reported state, the run either completed
/// (with one frame per requested frame, ending on an encoder flush) or was
/// aborted (by a quit request or a media change, without frames), and no
/// fatal pipeline error occurs.
pub open spec fn run_result_wf(r: ParanoiaTrackRunResult, frame_count: nat) -> bool {
    &&& r.events@.len() >= 1
    &&& r.events@[0] == RipEvent::StartTrack
    &&& r.state == run_events(RipState::Idle, r.events@)
    &&& r.state == RipState::TrackComplete || r.state == RipState::Aborted
    &&& (r.final_frames is Some) == (r.state == RipState::TrackComplete)
    &&& (r.final_frames matches Some(f) ==> f@.len() == frame_count)
    &&& (r.state == RipState::TrackComplete ==> r.passes >= 1 && r.events@.last()
        == RipEvent::EncoderFlushDone && r.callback_counters.count(ParanoiaCallbackKind::Finished)
        >= 1)
    &&& (r.state == RipState::Aborted ==> (r.events@.last() == RipEvent::QuitRequested
        || r.events@.last() == RipEvent::MediaChanged) && r.callback_counters.count(
        ParanoiaCallbackKind::Skip,
    ) >= 1)
    &&& forall|i: int| 0 <= i < r.events@.len() ==> r.events@[i] != RipEvent::FatalDecodeOrEncodeError
}

fn push_event(events: &mut Vec<RipEvent>, state: &mut RipState, e: RipEvent)
    requires
        *old(state) == run_events(RipState::Idle, old(events)@),
        old(events)@.len() >= 1,
        old(events)@[0] == RipEvent::StartTrack,
        forall|i: int| 0 <= i < old(events)@.len() ==> old(events)@[i]
            != RipEvent::FatalDecodeOrEncodeError,
        e != RipEvent::FatalDecodeOrEncodeError,
    ensures
        final(events)@ == old(events)@.push(e),
        *final(state) == rip_transition(*old(state), e),
        *final(state) == run_events(RipState::Idle, final(events)@),
        final(events)@.len() >= 1,
        final(events)@[0] == RipEvent::StartTrack,
        forall|i: int| 0 <= i < final(events)@.len() ==> final(events)@[i]
            != RipEvent::FatalDecodeOrEncodeError,
{
    events.push(e);
    *state = next_rip_state(*state, e);
    assert(events@.drop_last() == old(events)@);
}

fn aborted_result(
    state: RipState,
    events: Vec<RipEvent>,
    passes: u32,
    counters: ParanoiaCallbackCounters,
) -> (r: ParanoiaTrackRunResult)
    ensures
        r.state == state,
        r.events == events,
        r.passes == passes,
        r.callback_counters == counters,
        r.final_frames is None,
{
    ParanoiaTrackRunResult { state, events, passes, callback_counters: counters, final_frames: None }
}

fn count_matches(prior: &Vec<u32>, c: u32) -> (r: u64)
    ensures
        r == prior@.to_multiset().count(c),
{
    broadcast use vstd::seq_lib::group_to_multiset_ensures;

    let mut matches: u64 = 0;
    let mut i: usize = 0;
    while i < prior.len()
        invariant
            i <= prior@.len(),
            matches == prior@.take(i as int).to_multiset().count(c),
            matches <= i,
        decreases prior.len() - i,
    {
        let ghost pre = prior@.take(i as int);
        let ghost x = prior@[i as int];
        assert(prior@.take(i + 1) == pre.push(x));
        proof {
            pre.to_multiset_ensures();
            assert(pre.push(x).to_multiset() =~= pre.to_multiset().insert(x));
        }
        if prior[i] == c {
            matches += 1;
        }
        i += 1;
    }
    assert(prior@.take(i as int) == prior@);
    matches
}

/// The log, state and counters of a run in progress, as the steps of the
/// engine keep them: the log starts with `StartTrack`, replays to the state,
/// and holds no fatal error.
pub open spec fn run_log_wf(events: Seq<RipEvent>, state: RipState) -> bool {
    &&& events.len() >= 1
    &&& events[0] == RipEvent::StartTrack
    &&& state == run_events(RipState::Idle, events)
    &&& forall|i: int| 0 <= i < events.len() ==> events[i] != RipEvent::FatalDecodeOrEncodeError
}

/// Each counter is one more (saturating) where `bumped` holds, and as it
/// was elsewhere.
pub open spec fn counters_bumped(
    before: ParanoiaCallbackCounters,
    after: ParanoiaCallbackCounters,
    bumped: spec_fn(ParanoiaCallbackKind) -> bool,
) -> bool {
    forall|k: ParanoiaCallbackKind| #[trigger]
        after.count(k) == if bumped(k) {
            sat_add_u64(before.count(k), 1)
        } else {
            before.count(k)
        }
}

/// What one read of a frame does next.
#[derive(Debug, Clone, PartialEq, Eq)]
pub enum FrameReadStep {
    /// The frame is taken: the one read, or silence for a frame that never
    /// read.
    Frame(Vec<u8>),
    /// The read failed and is tried again.
    Retry,
    /// The read failed and the disc was changed: the run is aborted.
    Aborted,
}

/// The events logged for one read of a frame: whether it read, whether the
/// disc was changed after a failed read, and whether it was the last attempt.
pub open spec fn frame_read_events(read_ok: bool, media_changed: bool, last_attempt: bool) -> Seq<RipEvent> {
    if read_ok {
        seq![RipEvent::FrameReadOk]
    } else if media_changed {
        seq![RipEvent::FrameReadError, RipEvent::MediaChanged]
    } else if last_attempt {
        seq![RipEvent::FrameReadError, RipEvent::FrameSubstitutedSilence]
    } else {
        seq![RipEvent::FrameReadError]
    }
}

/// The counters one read of a frame bumps.
pub open spec fn frame_read_bumps(read_ok: bool, media_changed: bool) -> spec_fn(ParanoiaCallbackKind) -> bool {
    |k: ParanoiaCallbackKind|
        !read_ok && (k == ParanoiaCallbackKind::ReadErr || k == ParanoiaCallbackKind::Backoff || (
        media_changed && k == ParanoiaCallbackKind::Skip))
}

/// A frame of silence.
pub open spec fn silent_frame() -> Seq<u8> {
    Seq::new(CDDA_FRAME_BYTES as nat, |i: int| 0u8)
}

/// Takes what one read of a frame gave (and, after a failed read, whether
/// the disc was changed): a frame that read is taken; after a failed read a
/// changed disc aborts the run, the last of `max_frame_retries + 1`
/// attempts gives silence, and an earlier one is retried.
pub fn on_frame_read(
    events: &mut Vec<RipEvent>,
    state: &mut RipState,
    counters: &mut ParanoiaCallbackCounters,
    read: Result<Vec<u8>, CddaReadError>,
    media_changed: bool,
    attempt: u32,
    max_frame_retries: u32,
) -> (step: FrameReadStep)
    requires
        run_log_wf(old(events)@, *old(state)),
        *old(state) == RipState::Reading,
    ensures
        final(events)@ == old(events)@ + frame_read_events(read is Ok, media_changed, attempt
            >= max_frame_retries),
        run_log_wf(final(events)@, *final(state)),
        counters_bumped(*old(counters), *final(counters), frame_read_bumps(read is Ok, media_changed)),
        *final(state) == if step is Aborted {
            RipState::Aborted
        } else {
            RipState::Reading
        },
        match read {
            Ok(f) => step == FrameReadStep::Frame(f),
            Err(_) => if media_changed {
                step is Aborted
            } else if attempt >= max_frame_retries {
                step matches FrameReadStep::Frame(z) && z@ == silent_frame()
            } else {
                step is Retry
            },
        },
{
    let ghost e0 = events@;
    match read {
        Ok(f) => {
            push_event(events, state, RipEvent::FrameReadOk);
            assert(events@ =~= e0 + frame_read_events(true, media_changed, attempt >= max_frame_retries));
            FrameReadStep::Frame(f)
        },
        Err(_) => {
            counters.increment(ParanoiaCallbackKind::ReadErr);
            counters.increment(ParanoiaCallbackKind::Backoff);
            push_event(events, state, RipEvent::FrameReadError);
            if media_changed {
                counters.increment(ParanoiaCallbackKind::Skip);
                push_event(events, state, RipEvent::MediaChanged);
                assert(events@ =~= e0 + frame_read_events(false, true, attempt >= max_frame_retries));
                FrameReadStep::Aborted
            } else if attempt >= max_frame_retries {
                push_event(events, state, RipEvent::FrameSubstitutedSilence);
                assert(events@ =~= e0 + frame_read_events(false, false, true));
                let z = vec![0u8; CDDA_FRAME_BYTES];
                assert(z@ =~= silent_frame());
                FrameReadStep::Frame(z)
            } else {
                assert(events@ =~= e0 + frame_read_events(false, false, false));
                FrameReadStep::Retry
            }
        },
    }
}

/// What overlap verification makes of a pass: the signature to remember
/// for the next pass, whether it was compared with the previous pass's, and
/// whether the two differ.
pub open spec fn overlap_check(
    previous: Option<(u32, u32)>,
    frames: Seq<Seq<u8>>,
    heuristics: ParanoiaHeuristicConfig,
) -> (Option<(u32, u32)>, bool, bool) {
    if !heuristics.verify_overlap {
        (previous, false, false)
    } else {
        match overlap_signature_spec(frames, heuristics.overlap_frames as nat) {
            None => (previous, false, false),
            Some(sig) => match previous {
                None => (Some(sig), false, false),
                Some(p) => (Some(sig), true, p != sig),
            },
        }
    }
}

/// The checksum a pass is judged by: the callback's, moved off by the pass
/// count when the pass's edges drifted from the previous pass's.
pub open spec fn judged_checksum(checksum: u32, pass: u32, drifted: bool) -> u32 {
    if drifted {
        checksum.wrapping_add(pass.saturating_add(1))
    } else {
        checksum
    }
}

/// A pass ends a run only because the retry limit was reached: matches
/// were still missing on the last attempt.
pub open spec fn hits_retry_limit(p: RetryPolicyView, checksum: u32) -> bool {
    &&& p.required_matches > 0
    &&& p.total_attempts.saturating_add(1) >= p.max_retries
    &&& p.prior_checksums.to_multiset().count(checksum) < p.required_matches
}

/// The events logged at the end of a pass.
pub open spec fn pass_end_events(decision: RetryDecision, limit_hit: bool) -> Seq<RipEvent> {
    match decision {
        RetryDecision::Complete => (if limit_hit {
            seq![RipEvent::ChecksumMismatch, RipEvent::RetryLimitReached]
        } else {
            seq![RipEvent::ChecksumSatisfied]
        }) + seq![RipEvent::FlushEncoders, RipEvent::EncoderFlushDone],
        _ => seq![RipEvent::ChecksumMismatch, RipEvent::RetryReady],
    }
}

/// The counters the end of a pass bumps.
pub open spec fn pass_end_bumps(
    verify: bool,
    compared: bool,
    drifted: bool,
    decision: RetryDecision,
    limit_hit: bool,
) -> spec_fn(ParanoiaCallbackKind) -> bool {
    |k: ParanoiaCallbackKind|
        (verify && k == ParanoiaCallbackKind::Verify) || (compared && k == ParanoiaCallbackKind::Overlap)
            || (drifted && k == ParanoiaCallbackKind::Drift) || ((decision != RetryDecision::Complete
            || limit_hit) && k == ParanoiaCallbackKind::Repair) || (decision == RetryDecision::Complete
            && (k == ParanoiaCallbackKind::Wrote || k == ParanoiaCallbackKind::Finished))
}

/// Takes the checksum the callback gave for pass number `pass` and its
/// frames: checks the overlap with the previous pass, judges the checksum
/// under the retry policy, and logs the outcome. `true` means the run is
/// complete with these frames; `false` that another pass follows.
pub fn conclude_pass(
    events: &mut Vec<RipEvent>,
    state: &mut RipState,
    counters: &mut ParanoiaCallbackCounters,
    retry_policy: &mut RetryPolicy,
    previous_overlap: &mut Option<(u32, u32)>,
    heuristics: ParanoiaHeuristicConfig,
    pass: u32,
    frames: &[Vec<u8>],
    checksum: u32,
) -> (complete: bool)
    requires
        run_log_wf(old(events)@, *old(state)),
        *old(state) == RipState::Reading,
    ensures
        ({
            let (sig, compared, drifted) = overlap_check(
                *old(previous_overlap),
                frames_view(frames@),
                heuristics,
            );
            let judged = judged_checksum(checksum, pass, drifted);
            let (policy, decision) = on_checksum_spec(old(retry_policy)@, judged);
            let limit_hit = hits_retry_limit(old(retry_policy)@, judged);
            &&& *final(previous_overlap) == sig
            &&& final(retry_policy)@ == policy
            &&& complete == (decision == RetryDecision::Complete)
            &&& final(events)@ == old(events)@ + pass_end_events(decision, limit_hit)
            &&& counters_bumped(
                *old(counters),
                *final(counters),
                pass_end_bumps(heuristics.verify_overlap, compared, drifted, decision, limit_hit),
            )
        }),
        run_log_wf(final(events)@, *final(state)),
        *final(state) == if complete {
            RipState::TrackComplete
        } else {
            RipState::Reading
        },
{
    let ghost e0 = events@;
    let ghost c0 = *counters;
    let mut drifted = false;
    let mut compared = false;
    if heuristics.verify_overlap {
        counters.increment(ParanoiaCallbackKind::Verify);
        if let Some(sig) = overlap_signature(frames, heuristics.overlap_frames) {
            if let Some(prev) = *previous_overlap {
                counters.increment(ParanoiaCallbackKind::Overlap);
                compared = true;
                if prev.0 != sig.0 || prev.1 != sig.1 {
                    counters.increment(ParanoiaCallbackKind::Drift);
                    drifted = true;
                }
            }
            *previous_overlap = Some(sig);
        }
    }
    let judged = if drifted {
        checksum.wrapping_add(pass.saturating_add(1))
    } else {
        checksum
    };
    let matches = count_matches(&retry_policy.prior_checksums, judged);
    let limit_hit = retry_policy.required_matches > 0 && retry_policy.total_attempts.saturating_add(1)
        >= retry_policy.max_retries && matches < retry_policy.required_matches as u64;
    let decision = retry_policy.on_checksum(judged);
    let ghost c1 = *counters;
    let complete = match decision {
        RetryDecision::Complete => {
            if limit_hit {
                counters.increment(ParanoiaCallbackKind::Repair);
                push_event(events, state, RipEvent::ChecksumMismatch);
                push_event(events, state, RipEvent::RetryLimitReached);
            } else {
                push_event(events, state, RipEvent::ChecksumSatisfied);
            }
            push_event(events, state, RipEvent::FlushEncoders);
            counters.increment(ParanoiaCallbackKind::Wrote);
            push_event(events, state, RipEvent::EncoderFlushDone);
            counters.increment(ParanoiaCallbackKind::Finished);
            true
        },
        RetryDecision::RetryNow | RetryDecision::RetryAndStartEncoding => {
            counters.increment(ParanoiaCallbackKind::Repair);
            push_event(events, state, RipEvent::ChecksumMismatch);
            push_event(events, state, RipEvent::RetryReady);
            false
        },
    };
    assert(events@ =~= e0 + pass_end_events(decision, limit_hit));
    complete
}

pub fn run_track_with_paranoia_heuristics<R, F>(
    reader: &mut R,
    start_lsn: i32,
    frame_count: usize,
    max_frame_retries: u32,
    retry_policy: &mut RetryPolicy,
    heuristics: ParanoiaHeuristicConfig,
    checksum_fn: F,
) -> (res: Result<ParanoiaTrackRunResult, CddaReadError>) where
    R: CddaFrameReader,
    F: FnMut(u32, &[Vec<u8>]) -> u32,

    requires
        forall|p: u32, s: &[Vec<u8>]| #[trigger] call_requires(checksum_fn, (p, s)),
    ensures
        engine_traced(
            res,
            old(retry_policy)@,
            final(retry_policy)@,
            heuristics,
            frame_count as nat,
            max_frame_retries,
            checksum_fn,
            old(reader).adds_no_native_counts(),
            if serves_track(*old(reader), start_lsn, frame_count) {
                Some(track_frames(*old(reader), start_lsn, frame_count))
            } else {
                None
            },
            steady_of(*old(reader), start_lsn, frame_count),
        ),
        serves_track(*old(reader), start_lsn, frame_count) ==> (res matches Ok(r) && r.state
            == RipState::TrackComplete && frames_view(r.final_frames->Some_0@) == track_frames(
            *old(reader),
            start_lsn,
            frame_count,
        )),
        res matches Ok(r) ==> r.events@.last() != RipEvent::QuitRequested,
        old(reader).seek_failure(start_lsn) matches Some(m) ==> (res matches Err(
            CddaReadError::SeekFailed(t),
        ) && t@ == m),
        res matches Ok(r) ==> last_pass_checksummed(checksum_fn, r),
        old(reader).seek_accepts(start_lsn) ==> res is Ok,
        res matches Ok(r) ==> run_result_wf(r, frame_count as nat),
        final(retry_policy).required_matches == old(retry_policy).required_matches,
        final(retry_policy).max_retries == old(retry_policy).max_retries,
        old(retry_policy).required_matches == 0 ==> final(retry_policy)@ == old(retry_policy)@,
        res matches Ok(r) ==> (old(retry_policy).required_matches == 0 && r.state
            == RipState::TrackComplete ==> r.passes == 1),
{
    run_track_with_paranoia_heuristics_interruptible(
        reader,
        start_lsn,
        frame_count,
        max_frame_retries,
        retry_policy,
        heuristics,
        never_interrupt,
        checksum_fn,
    )
}

/// The interrupt check of an uninterruptible run.
pub fn never_interrupt() -> (r: bool)
    ensures
        !r,
{
    false
}

/// `k` failed reads.
pub open spec fn failed_reads(k: nat) -> Seq<RipEvent> {
    Seq::new(k, |i: int| RipEvent::FrameReadError)
}

/// The events of one frame of a pass: its failed reads, then the read that
/// succeeded, or silence when every read failed.
pub open spec fn frame_log(f: (nat, bool)) -> Seq<RipEvent> {
    failed_reads(f.0).push(
        if f.1 {
            RipEvent::FrameSubstitutedSilence
        } else {
            RipEvent::FrameReadOk
        },
    )
}

/// The events of frames, in order.
pub open spec fn frames_log(fs: Seq<(nat, bool)>) -> Seq<RipEvent>
    decreases fs.len(),
{
    if fs.len() == 0 {
        Seq::empty()
    } else {
        frames_log(fs.drop_last()) + frame_log(fs.last())
    }
}

/// A frame's reads within the retry limit: silence after `max + 1` failed
/// reads, a frame after at most `max`.
pub open spec fn frame_reads_ok(f: (nat, bool), max_frame_retries: u32) -> bool {
    if f.1 {
        f.0 == max_frame_retries + 1
    } else {
        f.0 <= max_frame_retries
    }
}

/// The frames a pass kept agree with its reads: silence where every read
/// failed.
pub open spec fn pass_frames_ok(reads: Seq<(nat, bool)>, frames: Seq<Seq<u8>>, max_frame_retries: u32) -> bool {
    &&& reads.len() == frames.len()
    &&& forall|i: int|
        0 <= i < reads.len() ==> #[trigger] frame_reads_ok(reads[i], max_frame_retries) && (
        reads[i].1 ==> frames[i] == silent_frame())
}

/// The checksum callback answered `c` for pass number `p` and these frames.
pub open spec fn checksummed<F: FnMut(u32, &[Vec<u8>]) -> u32>(
    checksum_fn: F,
    p: int,
    frames: Seq<Seq<u8>>,
    c: u32,
) -> bool {
    exists|s: &[Vec<u8>]| frames_view(s@) == frames && #[trigger] call_ensures(checksum_fn, (p as u32, s), c)
}

/// Completed passes, each with its reads, its frames and the checksum the
/// callback gave for it, run through the retry policy: the policy after
/// them, the overlap signature kept, the events they logged, and the
/// decisions taken.
pub open spec fn passes_run(
    policy: RetryPolicyView,
    heuristics: ParanoiaHeuristicConfig,
    passes: Seq<(Seq<(nat, bool)>, Seq<Seq<u8>>, u32)>,
) -> (RetryPolicyView, Option<(u32, u32)>, Seq<RipEvent>, Seq<RetryDecision>)
    decreases passes.len(),
{
    if passes.len() == 0 {
        (policy, None, Seq::empty(), Seq::empty())
    } else {
        let (pol, sig, ev, ds) = passes_run(policy, heuristics, passes.drop_last());
        let p = passes.last();
        let (sig2, compared, drifted) = overlap_check(sig, p.1, heuristics);
        let judged = judged_checksum(p.2, (passes.len() - 1) as u32, drifted);
        let (pol2, d) = on_checksum_spec(pol, judged);
        (pol2, sig2, ev + frames_log(p.0) + pass_end_events(d, hits_retry_limit(pol, judged)), ds.push(d))
    }
}

/// The passes happened as the reader and the callback answered: each kept
/// `frame_count` frames consistent with its reads, and its checksum is what
/// the callback gave for its number and frames.
pub open spec fn passes_seen<F: FnMut(u32, &[Vec<u8>]) -> u32>(
    passes: Seq<(Seq<(nat, bool)>, Seq<Seq<u8>>, u32)>,
    frame_count: nat,
    max_frame_retries: u32,
    checksum_fn: F,
) -> bool {
    forall|p: int|
        0 <= p < passes.len() ==> (#[trigger] passes[p]).1.len() == frame_count && pass_frames_ok(
            passes[p].0,
            passes[p].1,
            max_frame_retries,
        ) && checksummed(checksum_fn, p, passes[p].1, passes[p].2)
}

/// No decision asked to stop.
pub open spec fn all_retry(ds: Seq<RetryDecision>) -> bool {
    forall|i: int| 0 <= i < ds.len() ==> ds[i] != RetryDecision::Complete
}

/// Frame reads of an unfinished pass, each within the retry limit.
pub open spec fn reads_ok(reads: Seq<(nat, bool)>, max_frame_retries: u32) -> bool {
    forall|i: int| 0 <= i < reads.len() ==> #[trigger] frame_reads_ok(reads[i], max_frame_retries)
}

/// The overlap checks of completed passes: how many were verified, how many
/// compared with the previous pass's signature, and how many drifted.
pub open spec fn overlap_tally(
    policy: RetryPolicyView,
    heuristics: ParanoiaHeuristicConfig,
    passes: Seq<(Seq<(nat, bool)>, Seq<Seq<u8>>, u32)>,
) -> (nat, nat, nat)
    decreases passes.len(),
{
    if passes.len() == 0 {
        (0, 0, 0)
    } else {
        let (v, c, d) = overlap_tally(policy, heuristics, passes.drop_last());
        let sig = passes_run(policy, heuristics, passes.drop_last()).1;
        let (_, compared, drifted) = overlap_check(sig, passes.last().1, heuristics);
        (
            v + if heuristics.verify_overlap { 1nat } else { 0nat },
            c + if compared { 1nat } else { 0nat },
            d + if drifted { 1nat } else { 0nat },
        )
    }
}

proof fn lemma_tally_bound(
    policy: RetryPolicyView,
    heuristics: ParanoiaHeuristicConfig,
    passes: Seq<(Seq<(nat, bool)>, Seq<Seq<u8>>, u32)>,
)
    ensures
        overlap_tally(policy, heuristics, passes).0 <= passes.len(),
        overlap_tally(policy, heuristics, passes).1 <= passes.len(),
        overlap_tally(policy, heuristics, passes).2 <= passes.len(),
    decreases passes.len(),
{
    if passes.len() > 0 {
        lemma_tally_bound(policy, heuristics, passes.drop_last());
    }
}

/// One more pass counts its overlap check.
proof fn lemma_counted_next(
    c0: ParanoiaCallbackCounters,
    c1: ParanoiaCallbackCounters,
    policy: RetryPolicyView,
    heuristics: ParanoiaHeuristicConfig,
    passes: Seq<(Seq<(nat, bool)>, Seq<Seq<u8>>, u32)>,
    rec: (Seq<(nat, bool)>, Seq<Seq<u8>>, u32),
    decision: RetryDecision,
    limit_hit: bool,
)
    requires
        overlap_counted(c0, policy, heuristics, passes),
        passes.len() < u32::MAX,
        counters_bumped(
            c0,
            c1,
            pass_end_bumps(
                heuristics.verify_overlap,
                overlap_check(passes_run(policy, heuristics, passes).1, rec.1, heuristics).1,
                overlap_check(passes_run(policy, heuristics, passes).1, rec.1, heuristics).2,
                decision,
                limit_hit,
            ),
        ),
    ensures
        overlap_counted(c1, policy, heuristics, passes.push(rec)),
{
    lemma_tally_bound(policy, heuristics, passes);
    let next = passes.push(rec);
    assert(next.drop_last() =~= passes);
    assert(next.last() == rec);
    assert(c1.count(ParanoiaCallbackKind::Verify) == c1.count(ParanoiaCallbackKind::Verify));
    assert(c1.count(ParanoiaCallbackKind::Overlap) == c1.count(ParanoiaCallbackKind::Overlap));
    assert(c1.count(ParanoiaCallbackKind::Drift) == c1.count(ParanoiaCallbackKind::Drift));
}

/// The overlap counters of a run are the checks of its completed passes.
pub open spec fn overlap_counted(
    counters: ParanoiaCallbackCounters,
    policy: RetryPolicyView,
    heuristics: ParanoiaHeuristicConfig,
    passes: Seq<(Seq<(nat, bool)>, Seq<Seq<u8>>, u32)>,
) -> bool {
    let t = overlap_tally(policy, heuristics, passes);
    &&& counters.count(ParanoiaCallbackKind::Verify) == t.0
    &&& counters.count(ParanoiaCallbackKind::Overlap) == t.1
    &&& counters.count(ParanoiaCallbackKind::Drift) == t.2
}

/// How many read attempts fail in a row from attempt `a` on, counting at
/// most `m`, where `f` says which attempts fail.
pub open spec fn failing_run(f: spec_fn(nat) -> bool, a: nat, m: nat) -> nat
    decreases m,
{
    if m == 0 {
        0
    } else if f(a) {
        1 + failing_run(f, a + 1, (m - 1) as nat)
    } else {
        0
    }
}

/// The reads of a frame whose first attempt is `a`: the failed attempts
/// before one that reads, or silence after `max_frame_retries + 1` failures.
pub open spec fn frame_outcome(f: spec_fn(nat) -> bool, a: nat, max_frame_retries: u32) -> (nat, bool) {
    let k = failing_run(f, a, (max_frame_retries + 1) as nat);
    (k, k == max_frame_retries + 1)
}

/// The attempts a frame's reads took.
pub open spec fn frame_attempts(r: (nat, bool)) -> nat {
    if r.1 {
        r.0
    } else {
        r.0 + 1
    }
}

/// The attempts the reads of frames took.
pub open spec fn reads_attempts(rs: Seq<(nat, bool)>) -> nat
    decreases rs.len(),
{
    if rs.len() == 0 {
        0
    } else {
        reads_attempts(rs.drop_last()) + frame_attempts(rs.last())
    }
}

/// How many of the frames were read rather than silenced.
pub open spec fn frames_read(rs: Seq<(nat, bool)>) -> nat
    decreases rs.len(),
{
    if rs.len() == 0 {
        0
    } else {
        frames_read(rs.drop_last()) + if rs.last().1 {
            0nat
        } else {
            1nat
        }
    }
}

/// The reads of `n` frames from attempt `a` on.
pub open spec fn sim_reads(f: spec_fn(nat) -> bool, a: nat, n: nat, max_frame_retries: u32) -> Seq<(nat, bool)>
    decreases n,
{
    if n == 0 {
        Seq::empty()
    } else {
        let prev = sim_reads(f, a, (n - 1) as nat, max_frame_retries);
        prev.push(frame_outcome(f, a + reads_attempts(prev), max_frame_retries))
    }
}

/// The frame kept for frame `j` of a pass with reads `rs`: silence, or the
/// next frame of the image from `start` on (a failed frame leaves the
/// position where it was).
pub open spec fn steady_frame(rs: Seq<(nat, bool)>, j: int, img: Seq<Seq<u8>>, start: int) -> Seq<u8> {
    if rs[j].1 {
        silent_frame()
    } else {
        img[start + frames_read(rs.take(j))]
    }
}

/// A pass as a reader of the image `img` that fails the attempts `f` says
/// gives it, from attempt `a` on: its reads, and its frames.
pub open spec fn steady_pass(
    rec: (Seq<(nat, bool)>, Seq<Seq<u8>>, u32),
    f: spec_fn(nat) -> bool,
    a: nat,
    img: Seq<Seq<u8>>,
    start: int,
    n: nat,
    max_frame_retries: u32,
) -> bool {
    &&& rec.0 == sim_reads(f, a, n, max_frame_retries)
    &&& rec.1.len() == n
    &&& forall|j: int| 0 <= j < n ==> #[trigger] rec.1[j] == steady_frame(rec.0, j, img, start)
}

/// The attempts all the passes took.
pub open spec fn passes_attempts(ps: Seq<(Seq<(nat, bool)>, Seq<Seq<u8>>, u32)>) -> nat
    decreases ps.len(),
{
    if ps.len() == 0 {
        0
    } else {
        passes_attempts(ps.drop_last()) + reads_attempts(ps.last().0)
    }
}

/// With `Some((f, img, start))`, every pass is the one a reader of `img`
/// failing the attempts `f` says gives, each pass starting with the
/// attempts the earlier ones left.
pub open spec fn steady_passes(
    passes: Seq<(Seq<(nat, bool)>, Seq<Seq<u8>>, u32)>,
    steady: Option<(spec_fn(nat) -> bool, Seq<Seq<u8>>, int)>,
    frame_count: nat,
    max_frame_retries: u32,
) -> bool {
    steady matches Some((f, img, start)) ==> forall|p: int|
        0 <= p < passes.len() ==> steady_pass(
            #[trigger] passes[p],
            f,
            passes_attempts(passes.take(p)),
            img,
            start,
            frame_count,
            max_frame_retries,
        )
}

/// The failing attempts and the image of a reader that serves the track
/// steadily, when nothing asks to stop.
pub open spec fn steady_reader<R: CddaFrameReader, I: FnMut() -> bool>(
    reader: R,
    start_lsn: i32,
    frame_count: usize,
    should_interrupt: I,
) -> Option<(spec_fn(nat) -> bool, Seq<Seq<u8>>, int)> {
    if never_says_yes(should_interrupt) {
        steady_of(reader, start_lsn, frame_count)
    } else {
        None
    }
}

/// The failing attempts and the image of a reader that serves the track
/// steadily.
pub open spec fn steady_of<R: CddaFrameReader>(reader: R, start_lsn: i32, frame_count: usize) -> Option<
    (spec_fn(nat) -> bool, Seq<Seq<u8>>, int),
> {
    if steady_track(reader, start_lsn, frame_count) {
        Some((|k: nat| reader.fails_ahead(k), reader.served_image()->Some_0, start_lsn as int))
    } else {
        None
    }
}

/// The reader now fails the attempts `f` says from attempt `base` on.
pub open spec fn steady_now<R: CddaFrameReader>(
    reader: R,
    stv: Option<(spec_fn(nat) -> bool, Seq<Seq<u8>>, int)>,
    base: nat,
) -> bool {
    stv matches Some((f, img, start)) ==> forall|k: nat| #[trigger] reader.fails_ahead(k) == f(k + base)
}

/// The frames of a pass so far, as a steady reader gives them.
pub open spec fn steady_data(
    stv: Option<(spec_fn(nat) -> bool, Seq<Seq<u8>>, int)>,
    a: nat,
    reads: Seq<(nat, bool)>,
    frames: Seq<Seq<u8>>,
    max_frame_retries: u32,
) -> bool {
    stv matches Some((f, img, start)) ==> {
        &&& reads == sim_reads(f, a, reads.len(), max_frame_retries)
        &&& frames.len() == reads.len()
        &&& forall|j: int| 0 <= j < reads.len() ==> #[trigger] frames[j] == steady_frame(reads, j, img, start)
    }
}

/// The attempts of a frame so far: all failed, the reader at `pos` and
/// failing from attempt `base + attempt` on.
pub open spec fn steady_tries<R: CddaFrameReader>(
    reader: R,
    stv: Option<(spec_fn(nat) -> bool, Seq<Seq<u8>>, int)>,
    base: nat,
    attempt: nat,
    pos: int,
) -> bool {
    stv matches Some((f, img, start)) ==> {
        &&& reader.read_position() == pos
        &&& 0 <= pos < img.len()
        &&& forall|i: nat| i < attempt ==> #[trigger] f(base + i)
        &&& forall|k: nat| #[trigger] reader.fails_ahead(k) == f(k + base + attempt)
    }
}

/// A frame done, as a steady reader gives it.
pub open spec fn steady_done<R: CddaFrameReader>(
    reader: R,
    stv: Option<(spec_fn(nat) -> bool, Seq<Seq<u8>>, int)>,
    base: nat,
    pos: int,
    got: (nat, bool),
    frame: Seq<u8>,
    max_frame_retries: u32,
) -> bool {
    stv matches Some((f, img, start)) ==> {
        &&& got == frame_outcome(f, base, max_frame_retries)
        &&& reader.read_position() == pos + if got.1 { 0int } else { 1int }
        &&& forall|k: nat| #[trigger] reader.fails_ahead(k) == f(k + base + frame_attempts(got))
        &&& !got.1 ==> frame == img[pos]
    }
}

proof fn lemma_sim_push(f: spec_fn(nat) -> bool, a: nat, reads: Seq<(nat, bool)>, got: (nat, bool), max_frame_retries: u32)
    requires
        reads == sim_reads(f, a, reads.len(), max_frame_retries),
        got == frame_outcome(f, a + reads_attempts(reads), max_frame_retries),
    ensures
        reads.push(got) == sim_reads(f, a, reads.len() + 1, max_frame_retries),
        reads_attempts(reads.push(got)) == reads_attempts(reads) + frame_attempts(got),
        frames_read(reads.push(got)) == frames_read(reads) + if got.1 { 0nat } else { 1nat },
{
    assert(reads.push(got).drop_last() =~= reads);
    assert(sim_reads(f, a, reads.len() + 1, max_frame_retries) == sim_reads(f, a, reads.len(), max_frame_retries).push(
        frame_outcome(f, a + reads_attempts(sim_reads(f, a, reads.len(), max_frame_retries)), max_frame_retries)));
}

/// What a read of a steady reader tells: the attempt fails exactly when the
/// reader said it would, and a read that does not fail gives the frame at
/// the position.
pub open spec fn steady_read<R: CddaFrameReader>(rb: R, ra: R, rn: R, rr: Result<Vec<u8>, CddaReadError>) -> bool {
    &&& rb.served_image() is Some && rb.fails_ahead(0) ==> rr is Err && ra.read_position() == rb.read_position()
    &&& rb.served_image() matches Some(img) ==> (!rb.fails_ahead(0) && 0 <= rb.read_position() < img.len() ==> (
    rr matches Ok(fr) && fr@ == img[rb.read_position()] && ra.read_position() == rb.read_position() + 1))
    &&& rb.served_image() is Some ==> forall|k: nat| #[trigger] ra.fails_ahead(k) == rb.fails_ahead(k + 1)
    &&& rn.read_position() == ra.read_position()
    &&& rb.served_image() is Some ==> forall|k: nat| #[trigger] rn.fails_ahead(k) == ra.fails_ahead(k)
}

proof fn lemma_steady_retry<R: CddaFrameReader>(
    rb: R,
    ra: R,
    rn: R,
    stv: Option<(spec_fn(nat) -> bool, Seq<Seq<u8>>, int)>,
    base: nat,
    attempt: nat,
    pos: int,
    rr: Result<Vec<u8>, CddaReadError>,
)
    requires
        steady_tries(rb, stv, base, attempt, pos),
        stv matches Some((f, img, start)) ==> rb.served_image() == Some(img),
        steady_read(rb, ra, rn, rr),
        rr is Err,
    ensures
        steady_tries(rn, stv, base, attempt + 1, pos),
{
    if stv is Some {
        let f = stv->Some_0.0;
        assert(rb.fails_ahead(0) == f(0nat + base + attempt));
        assert(0nat + base + attempt == base + attempt);
        assert(f(base + attempt));
        assert forall|i: nat| i < attempt + 1 implies #[trigger] f(base + i) by {
            if i < attempt {
            } else {
                assert(i == attempt);
            }
        }
        assert forall|k: nat| #[trigger] rn.fails_ahead(k) == f(k + base + (attempt + 1)) by {
            assert(rn.fails_ahead(k) == ra.fails_ahead(k));
            assert(ra.fails_ahead(k) == rb.fails_ahead(k + 1));
            assert(rb.fails_ahead(k + 1) == f((k + 1) as nat + base + attempt));
            assert((k + 1) as nat + base + attempt == k + base + (attempt + 1));
        }
    }
}

proof fn lemma_steady_frame_done<R: CddaFrameReader>(
    rb: R,
    ra: R,
    rn: R,
    stv: Option<(spec_fn(nat) -> bool, Seq<Seq<u8>>, int)>,
    base: nat,
    attempt: nat,
    pos: int,
    rr: Result<Vec<u8>, CddaReadError>,
    got: (nat, bool),
    frame: Seq<u8>,
    max_frame_retries: u32,
)
    requires
        steady_tries(rb, stv, base, attempt, pos),
        stv matches Some((f, img, start)) ==> rb.served_image() == Some(img),
        steady_read(rb, ra, rn, rr),
        attempt <= max_frame_retries,
        rr matches Ok(fr) ==> frame == fr@ && got == (attempt, false),
        rr is Err ==> attempt == max_frame_retries && got == (attempt + 1, true),
    ensures
        steady_done(rn, stv, base, pos, got, frame, max_frame_retries),
{
    if stv is Some {
        let f = stv->Some_0.0;
        assert(rb.fails_ahead(0) == f(0nat + base + attempt));
        assert(0nat + base + attempt == base + attempt);
        if rr is Ok {
            assert(!rb.fails_ahead(0));
            lemma_failing_run_stops(f, base, (max_frame_retries + 1) as nat, attempt);
        } else {
            assert(f(base + attempt));
            assert forall|i: nat| i < (max_frame_retries + 1) as nat implies #[trigger] f(base + i) by {
                if i < attempt {
                } else {
                    assert(i == attempt);
                }
            }
            lemma_failing_run_all(f, base, (max_frame_retries + 1) as nat);
        }
        assert forall|k: nat| #[trigger] rn.fails_ahead(k) == f(k + base + frame_attempts(got)) by {
            assert(rn.fails_ahead(k) == ra.fails_ahead(k));
            assert(ra.fails_ahead(k) == rb.fails_ahead(k + 1));
            assert(rb.fails_ahead(k + 1) == f((k + 1) as nat + base + attempt));
            assert((k + 1) as nat + base + attempt == k + base + frame_attempts(got));
        }
    }
}

proof fn lemma_failing_run_stops(f: spec_fn(nat) -> bool, a: nat, m: nat, j: nat)
    requires
        j < m,
        forall|i: nat| i < j ==> #[trigger] f(a + i),
        !f(a + j),
    ensures
        failing_run(f, a, m) == j,
    decreases m,
{
    if j > 0 {
        assert(f(a + 0nat));
        assert forall|i: nat| i < (j - 1) as nat implies #[trigger] f((a + 1) + i) by {
            assert(f(a + (i + 1)));
            assert(a + (i + 1) == (a + 1) + i);
        }
        assert((a + 1) + (j - 1) as nat == a + j);
        lemma_failing_run_stops(f, a + 1, (m - 1) as nat, (j - 1) as nat);
    } else {
        assert(a + 0nat == a);
    }
}

proof fn lemma_failing_run_all(f: spec_fn(nat) -> bool, a: nat, m: nat)
    requires
        forall|i: nat| i < m ==> #[trigger] f(a + i),
    ensures
        failing_run(f, a, m) == m,
    decreases m,
{
    if m > 0 {
        assert(f(a + 0nat));
        assert(a + 0nat == a);
        assert forall|i: nat| i < (m - 1) as nat implies #[trigger] f((a + 1) + i) by {
            assert(f(a + (i + 1)));
            assert(a + (i + 1) == (a + 1) + i);
        }
        lemma_failing_run_all(f, a + 1, (m - 1) as nat);
    }
}

proof fn lemma_frames_read_bound(rs: Seq<(nat, bool)>)
    ensures
        frames_read(rs) <= rs.len(),
    decreases rs.len(),
{
    if rs.len() > 0 {
        lemma_frames_read_bound(rs.drop_last());
    }
}

/// A pass that read every frame of `track` at the first attempt and kept
/// them.
pub open spec fn clean_pass(rec: (Seq<(nat, bool)>, Seq<Seq<u8>>, u32), track: Seq<Seq<u8>>) -> bool {
    rec.0 == Seq::new(track.len(), |i: int| (0nat, false)) && rec.1 == track
}

/// With `Some(track)`, every pass was clean.
pub open spec fn clean_passes(
    passes: Seq<(Seq<(nat, bool)>, Seq<Seq<u8>>, u32)>,
    clean: Option<Seq<Seq<u8>>>,
) -> bool {
    clean matches Some(t) ==> forall|p: int| 0 <= p < passes.len() ==> clean_pass(#[trigger] passes[p], t)
}

/// The track's frames when the reader serves them steadily and nothing asks
/// to stop.
pub open spec fn smooth_track<R: CddaFrameReader, I: FnMut() -> bool>(
    reader: R,
    start_lsn: i32,
    frame_count: usize,
    should_interrupt: I,
) -> Option<Seq<Seq<u8>>> {
    if serves_track(reader, start_lsn, frame_count) && never_says_yes(should_interrupt) {
        Some(track_frames(reader, start_lsn, frame_count))
    } else {
        None
    }
}

/// A run result as the completed passes `passes` explain it. The policy
/// ends as the passes leave it, and every pass but a completing one asked
/// for another. A completed run logged its passes, counts them, and keeps
/// the frames of the last. An aborted run logged its completed passes and
/// then either a quit request before the next pass, or part of the next pass
/// (some frames, then some failed reads) and a quit request or a media
/// change.
pub open spec fn run_explained<F: FnMut(u32, &[Vec<u8>]) -> u32>(
    r: ParanoiaTrackRunResult,
    old_policy: RetryPolicyView,
    new_policy: RetryPolicyView,
    heuristics: ParanoiaHeuristicConfig,
    frame_count: nat,
    max_frame_retries: u32,
    checksum_fn: F,
    native_free: bool,
    clean: Option<Seq<Seq<u8>>>,
    steady: Option<(spec_fn(nat) -> bool, Seq<Seq<u8>>, int)>,
    passes: Seq<(Seq<(nat, bool)>, Seq<Seq<u8>>, u32)>,
) -> bool {
    let (pol, sig, ev, ds) = passes_run(old_policy, heuristics, passes);
    &&& passes_seen(passes, frame_count, max_frame_retries, checksum_fn)
    &&& clean_passes(passes, clean)
    &&& steady_passes(passes, steady, frame_count, max_frame_retries)
    &&& new_policy == pol
    &&& native_free ==> overlap_counted(r.callback_counters, old_policy, heuristics, passes)
    &&& passes.len() <= 1 || passes.len() <= old_policy.max_retries - old_policy.total_attempts
    &&& old_policy.required_matches == 0 ==> passes.len() <= 1
    &&& r.state == RipState::TrackComplete ==> {
        &&& passes.len() >= 1
        &&& all_retry(ds.drop_last())
        &&& ds.last() == RetryDecision::Complete
        &&& r.passes == passes.len()
        &&& r.events@ == seq![RipEvent::StartTrack] + ev
        &&& r.final_frames matches Some(f) && frames_view(f@) == passes.last().1
    }
    &&& r.state == RipState::Aborted ==> {
        &&& all_retry(ds)
        &&& r.final_frames is None
        &&& {
            ||| r.events@ == seq![RipEvent::StartTrack] + ev + seq![RipEvent::QuitRequested] && r.passes
                == passes.len()
            ||| exists|partial: Seq<(nat, bool)>, k: nat|
                #![trigger reads_ok(partial, max_frame_retries), failed_reads(k)]
                partial.len() < frame_count && reads_ok(partial, max_frame_retries) && r.passes
                    == passes.len() + 1 && (k <= max_frame_retries && r.events@ == seq![
                    RipEvent::StartTrack,
                ] + ev + frames_log(partial) + failed_reads(k) + seq![RipEvent::QuitRequested] || k
                    <= max_frame_retries + 1 && r.events@ == seq![RipEvent::StartTrack] + ev
                    + frames_log(partial) + failed_reads(k) + seq![RipEvent::MediaChanged])
        }
    }
}

/// A failed run: the completed passes all asked for another, and the policy
/// ends as they leave it; the next pass's seek was refused.
pub open spec fn failure_explained<F: FnMut(u32, &[Vec<u8>]) -> u32>(
    old_policy: RetryPolicyView,
    new_policy: RetryPolicyView,
    heuristics: ParanoiaHeuristicConfig,
    frame_count: nat,
    max_frame_retries: u32,
    checksum_fn: F,
    clean: Option<Seq<Seq<u8>>>,
    steady: Option<(spec_fn(nat) -> bool, Seq<Seq<u8>>, int)>,
    passes: Seq<(Seq<(nat, bool)>, Seq<Seq<u8>>, u32)>,
) -> bool {
    &&& passes_seen(passes, frame_count, max_frame_retries, checksum_fn)
    &&& clean_passes(passes, clean)
    &&& steady_passes(passes, steady, frame_count, max_frame_retries)
    &&& new_policy == passes_run(old_policy, heuristics, passes).0
    &&& all_retry(passes_run(old_policy, heuristics, passes).3)
}

/// Every run, completed, aborted or failed, as some passes explain it; with
/// a reader that adds no counts of its own, the overlap counters too.
pub open spec fn engine_traced<F: FnMut(u32, &[Vec<u8>]) -> u32>(
    res: Result<ParanoiaTrackRunResult, CddaReadError>,
    old_policy: RetryPolicyView,
    new_policy: RetryPolicyView,
    heuristics: ParanoiaHeuristicConfig,
    frame_count: nat,
    max_frame_retries: u32,
    checksum_fn: F,
    native_free: bool,
    clean: Option<Seq<Seq<u8>>>,
    steady: Option<(spec_fn(nat) -> bool, Seq<Seq<u8>>, int)>,
) -> bool {
    match res {
        Ok(r) => exists|passes: Seq<(Seq<(nat, bool)>, Seq<Seq<u8>>, u32)>|
            #[trigger] run_explained(
                r,
                old_policy,
                new_policy,
                heuristics,
                frame_count,
                max_frame_retries,
                checksum_fn,
                native_free,
                clean,
                steady,
                passes,
            ),
        Err(_) => exists|passes: Seq<(Seq<(nat, bool)>, Seq<Seq<u8>>, u32)>|
            #[trigger] failure_explained(
                old_policy,
                new_policy,
                heuristics,
                frame_count,
                max_frame_retries,
                checksum_fn,
                clean,
                steady,
                passes,
            ),
    }
}

/// What the engine promises of every run, whatever the reader and the
/// callbacks answer: a promised seek gives a result; a run aborts on a quit
/// request only when the interrupt callback said so; and a completed run's
/// frames are the frames the checksum callback was handed for its last pass.
pub open spec fn engine_run_ok<R: CddaFrameReader, F: FnMut(u32, &[Vec<u8>]) -> u32, I: FnMut() -> bool>(
    reader: R,
    start_lsn: i32,
    frame_count: usize,
    should_interrupt: I,
    checksum_fn: F,
    res: Result<ParanoiaTrackRunResult, CddaReadError>,
) -> bool {
    &&& reader.seek_accepts(start_lsn) ==> res is Ok
    &&& res matches Ok(r) ==> run_result_wf(r, frame_count as nat)
    &&& res matches Ok(r) ==> (r.events@.last() == RipEvent::QuitRequested ==> call_ensures(
        should_interrupt,
        (),
        true,
    ))
    &&& res matches Ok(r) ==> last_pass_checksummed(checksum_fn, r)
    &&& serves_track(reader, start_lsn, frame_count) && never_says_yes(should_interrupt)
        ==> (res matches Ok(r) && r.state == RipState::TrackComplete && frames_view(
        r.final_frames->Some_0@,
    ) == track_frames(reader, start_lsn, frame_count))
}

/// The reader serves an image and fails no read.
pub open spec fn never_fails<R: CddaFrameReader>(reader: R) -> bool {
    reader.served_image() is Some && forall|k: nat| !#[trigger] reader.fails_ahead(k)
}

/// The reader serves an image that holds the track's frames, fails no
/// read, and never reports a media change.
pub open spec fn serves_track<R: CddaFrameReader>(reader: R, start_lsn: i32, frame_count: usize) -> bool {
    &&& steady_track(reader, start_lsn, frame_count)
    &&& forall|k: nat| !#[trigger] reader.fails_ahead(k)
}

/// The reader serves an image that holds the track's frames, fails only
/// the attempts it says, and never reports a media change.
pub open spec fn steady_track<R: CddaFrameReader>(reader: R, start_lsn: i32, frame_count: usize) -> bool {
    &&& reader.served_image() is Some
    &&& 0 <= start_lsn
    &&& start_lsn + frame_count <= reader.served_image()->Some_0.len()
    &&& reader.media_steady()
}

/// The track's frames in the image the reader serves.
pub open spec fn track_frames<R: CddaFrameReader>(reader: R, start_lsn: i32, frame_count: usize) -> Seq<
    Seq<u8>,
> {
    reader.served_image()->Some_0.subrange(start_lsn as int, start_lsn + frame_count)
}

/// The interrupt callback never asks to stop.
pub open spec fn never_says_yes<I: FnMut() -> bool>(should_interrupt: I) -> bool {
    forall|b: bool| #[trigger] call_ensures(should_interrupt, (), b) ==> !b
}

/// A completed run's frames are the frames the checksum callback was handed
/// for the run's last pass, under that pass's number.
pub open spec fn last_pass_checksummed<F: FnMut(u32, &[Vec<u8>]) -> u32>(
    checksum_fn: F,
    r: ParanoiaTrackRunResult,
) -> bool {
    r.state == RipState::TrackComplete ==> exists|p: u32, s: &[Vec<u8>], c: u32|
        #[trigger] call_ensures(checksum_fn, (p, s), c) && r.passes == p.saturating_add(1) && s@
            == r.final_frames->Some_0@
}

/// The completed passes explain the run so far: the policy, the overlap
/// signature and the decisions are what they left, and the passes are
/// counted.
pub open spec fn progress_ok<F: FnMut(u32, &[Vec<u8>]) -> u32>(
    old_policy: RetryPolicyView,
    policy: RetryPolicyView,
    overlap: Option<(u32, u32)>,
    heuristics: ParanoiaHeuristicConfig,
    frame_count: nat,
    max_frame_retries: u32,
    checksum_fn: F,
    passes: Seq<(Seq<(nat, bool)>, Seq<Seq<u8>>, u32)>,
    pass: u32,
) -> bool {
    let run = passes_run(old_policy, heuristics, passes);
    &&& passes_seen(passes, frame_count, max_frame_retries, checksum_fn)
    &&& passes.len() == pass
    &&& policy == run.0
    &&& overlap == run.1
    &&& all_retry(run.3)
    &&& old_policy.required_matches > 0 && pass > 0 ==> policy.total_attempts
        == old_policy.total_attempts + pass
}

/// Reads `frame_count` frames from `start_lsn` on, in passes. Each frame is
/// read until it reads, at most `max_frame_retries + 1` times, and is silence
/// if it never does (`on_frame_read`); a changed disc aborts the run, and so
/// does the interrupt callback, asked before each pass, frame and read. Each
/// pass ends with the checksum callback's answer for its number and frames,
/// judged under the retry policy (`conclude_pass`), until the policy is
/// satisfied or out of attempts. Only a refused seek fails the run.
#[verifier::rlimit(100)]
pub fn run_track_with_paranoia_heuristics_interruptible<R, F, I>(
    reader: &mut R,
    start_lsn: i32,
    frame_count: usize,
    max_frame_retries: u32,
    retry_policy: &mut RetryPolicy,
    heuristics: ParanoiaHeuristicConfig,
    should_interrupt: I,
    checksum_fn: F,
) -> (res: Result<ParanoiaTrackRunResult, CddaReadError>) where
    R: CddaFrameReader,
    F: FnMut(u32, &[Vec<u8>]) -> u32,
    I: FnMut() -> bool,

    requires
        call_requires(should_interrupt, ()),
        forall|p: u32, s: &[Vec<u8>]| #[trigger] call_requires(checksum_fn, (p, s)),
    ensures
        final(reader).served_image() == old(reader).served_image(),
        final(reader).media_steady() == old(reader).media_steady(),
        never_fails(*old(reader)) ==> never_fails(*final(reader)),
        engine_run_ok(*old(reader), start_lsn, frame_count, should_interrupt, checksum_fn, res),
        old(reader).seek_failure(start_lsn) matches Some(m) ==> (res matches Err(
            CddaReadError::SeekFailed(t),
        ) && t@ == m) || (res matches Ok(r) && r.state == RipState::Aborted && r.passes == 0
            && r.events@ == seq![RipEvent::StartTrack, RipEvent::QuitRequested]),
        engine_traced(
            res,
            old(retry_policy)@,
            final(retry_policy)@,
            heuristics,
            frame_count as nat,
            max_frame_retries,
            checksum_fn,
            old(reader).adds_no_native_counts(),
            smooth_track(*old(reader), start_lsn, frame_count, should_interrupt),
            steady_reader(*old(reader), start_lsn, frame_count, should_interrupt),
        ),
        final(retry_policy).required_matches == old(retry_policy).required_matches,
        final(retry_policy).max_retries == old(retry_policy).max_retries,
        old(retry_policy).required_matches == 0 ==> final(retry_policy)@ == old(retry_policy)@,
        res matches Ok(r) ==> (old(retry_policy).required_matches == 0 && r.state
            == RipState::TrackComplete ==> r.passes == 1),
{
    let ghost smooth = serves_track(*old(reader), start_lsn, frame_count) && never_says_yes(
        should_interrupt,
    );
    let ghost track = track_frames(*old(reader), start_lsn, frame_count);
    let ghost policy0 = retry_policy@;
    let ghost fc = frame_count as nat;
    let ghost native_free = old(reader).adds_no_native_counts();
    let ghost cleanv = smooth_track(*old(reader), start_lsn, frame_count, should_interrupt);
    let ghost stv = steady_reader(*old(reader), start_lsn, frame_count, should_interrupt);
    let mut interrupt = should_interrupt;
    let mut checksum = checksum_fn;
    let mut state = RipState::Idle;
    let mut events: Vec<RipEvent> = Vec::new();
    events.push(RipEvent::StartTrack);
    state = next_rip_state(state, RipEvent::StartTrack);
    assert(events@.drop_last() == Seq::<RipEvent>::empty());
    assert(run_events(RipState::Idle, Seq::<RipEvent>::empty()) == RipState::Idle);
    assert(state == run_events(RipState::Idle, events@));

    let mut counters = ParanoiaCallbackCounters::default();
    let mut pass: u32 = 0;
    let mut previous_overlap: Option<(u32, u32)> = None;
    let ghost mut passes: Seq<(Seq<(nat, bool)>, Seq<Seq<u8>>, u32)> = Seq::empty();
    assert(events@ =~= seq![RipEvent::StartTrack] + passes_run(policy0, heuristics, passes).2);

    loop
        invariant
            state == RipState::Reading,
            run_log_wf(events@, state),
            interrupt == should_interrupt,
            checksum == checksum_fn,
            call_requires(interrupt, ()),
            forall|p: u32, s: &[Vec<u8>]| #[trigger] call_requires(checksum, (p, s)),
            forall|l: i32| #[trigger] reader.seek_accepts(l) == old(reader).seek_accepts(l),
            forall|l: i32| #[trigger] reader.seek_failure(l) == old(reader).seek_failure(l),
            pass > 0 ==> old(reader).seek_failure(start_lsn) is None,
            reader.served_image() == old(reader).served_image(),
            reader.media_steady() == old(reader).media_steady(),
            reader.served_image() is Some && smooth ==> forall|k: nat| !#[trigger] reader.fails_ahead(k),
            never_fails(*old(reader)) ==> never_fails(*reader),
            smooth == (serves_track(*old(reader), start_lsn, frame_count) && never_says_yes(
                should_interrupt,
            )),
            track == track_frames(*old(reader), start_lsn, frame_count),
            policy0 == old(retry_policy)@,
            fc == frame_count,
            native_free == old(reader).adds_no_native_counts(),
            reader.adds_no_native_counts() == native_free,
            native_free ==> overlap_counted(counters, policy0, heuristics, passes),
            cleanv == (if smooth { Some(track) } else { None::<Seq<Seq<u8>>> }),
            clean_passes(passes, cleanv),
            stv == steady_reader(*old(reader), start_lsn, frame_count, should_interrupt),
            steady_passes(passes, stv, fc, max_frame_retries),
            steady_now(*reader, stv, passes_attempts(passes)),
            retry_policy.required_matches == old(retry_policy).required_matches,
            retry_policy.max_retries == old(retry_policy).max_retries,
            old(retry_policy).required_matches == 0 ==> retry_policy@ == old(retry_policy)@
                && pass == 0,
            retry_policy.required_matches > 0 ==> retry_policy.total_attempts
                < retry_policy.max_retries || pass == 0,
            progress_ok(policy0, retry_policy@, previous_overlap, heuristics, fc, max_frame_retries, checksum_fn, passes, pass),
            events@ == seq![RipEvent::StartTrack] + passes_run(policy0, heuristics, passes).2,
        decreases (u32::MAX - retry_policy.total_attempts) + (if pass == 0 { 1int } else { 0 }),
    {
        let ghost ev0 = passes_run(policy0, heuristics, passes).2;
        if interrupt() {
            counters.increment(ParanoiaCallbackKind::Skip);
            push_event(&mut events, &mut state, RipEvent::QuitRequested);
            let r = aborted_result(state, events, pass, counters);
            assert(r.events@ =~= seq![RipEvent::StartTrack] + ev0 + seq![RipEvent::QuitRequested]);
            assert(run_explained(r, policy0, retry_policy@, heuristics, fc, max_frame_retries, checksum_fn, native_free, cleanv, stv, passes));
            return Ok(r);
        }

        match reader.seek_frame(start_lsn) {
            Ok(()) => {},
            Err(e) => {
                assert(failure_explained(policy0, retry_policy@, heuristics, fc, max_frame_retries, checksum_fn, cleanv, stv, passes));
                return Err(e);
            },
        }
        let mut pass_frames: Vec<Vec<u8>> = Vec::with_capacity(frame_count);
        let ghost mut reads: Seq<(nat, bool)> = Seq::empty();
        assert(events@ =~= seq![RipEvent::StartTrack] + ev0 + frames_log(reads));

        let mut frame_idx: usize = 0;
        while frame_idx < frame_count
            invariant
                frame_idx <= frame_count,
                pass_frames@.len() == frame_idx,
                state == RipState::Reading,
                run_log_wf(events@, state),
                interrupt == should_interrupt,
                checksum == checksum_fn,
                call_requires(interrupt, ()),
                forall|l: i32| #[trigger] reader.seek_accepts(l) == old(reader).seek_accepts(l),
                forall|l: i32| #[trigger] reader.seek_failure(l) == old(reader).seek_failure(l),
                old(reader).seek_failure(start_lsn) is None,
                reader.served_image() == old(reader).served_image(),
                reader.media_steady() == old(reader).media_steady(),
                reader.served_image() is Some && smooth ==> forall|k: nat| !#[trigger] reader.fails_ahead(k),
                never_fails(*old(reader)) ==> never_fails(*reader),
                smooth == (serves_track(*old(reader), start_lsn, frame_count) && never_says_yes(
                    should_interrupt,
                )),
                track == track_frames(*old(reader), start_lsn, frame_count),
                smooth ==> reader.read_position() == start_lsn + frame_idx && frames_view(pass_frames@)
                    == track.take(frame_idx as int),
                policy0 == old(retry_policy)@,
                fc == frame_count,
                native_free == old(reader).adds_no_native_counts(),
                reader.adds_no_native_counts() == native_free,
                native_free ==> overlap_counted(counters, policy0, heuristics, passes),
                cleanv == (if smooth { Some(track) } else { None::<Seq<Seq<u8>>> }),
                clean_passes(passes, cleanv),
                stv == steady_reader(*old(reader), start_lsn, frame_count, should_interrupt),
                steady_passes(passes, stv, fc, max_frame_retries),
                steady_data(stv, passes_attempts(passes), reads, frames_view(pass_frames@), max_frame_retries),
                steady_now(*reader, stv, passes_attempts(passes) + reads_attempts(reads)),
                stv matches Some((sf, simg, sst)) ==> reader.read_position() == sst + frames_read(reads),
                smooth ==> reads == Seq::new(frame_idx as nat, |i: int| (0nat, false)),
                retry_policy.required_matches == old(retry_policy).required_matches,
                retry_policy.max_retries == old(retry_policy).max_retries,
                old(retry_policy).required_matches == 0 ==> retry_policy@ == old(retry_policy)@
                    && pass == 0,
                retry_policy.required_matches > 0 ==> retry_policy.total_attempts
                    < retry_policy.max_retries || pass == 0,
                progress_ok(policy0, retry_policy@, previous_overlap, heuristics, fc, max_frame_retries, checksum_fn, passes, pass),
                ev0 == passes_run(policy0, heuristics, passes).2,
                reads.len() == frame_idx,
                pass_frames_ok(reads, frames_view(pass_frames@), max_frame_retries),
                events@ == seq![RipEvent::StartTrack] + ev0 + frames_log(reads),
            decreases frame_count - frame_idx,
        {
            proof {
                assert forall|i: int| 0 <= i < reads.len() implies #[trigger] frame_reads_ok(
                    reads[i],
                    max_frame_retries,
                ) by {
                    assert(frame_reads_ok(reads[i], max_frame_retries));
                }
                assert(reads_ok(reads, max_frame_retries));
                assert(failed_reads(0) =~= Seq::<RipEvent>::empty());
            }
            if interrupt() {
                counters.increment(ParanoiaCallbackKind::Skip);
                push_event(&mut events, &mut state, RipEvent::QuitRequested);
                let r = aborted_result(state, events, pass.saturating_add(1), counters);
                assert(r.events@ =~= seq![RipEvent::StartTrack] + ev0 + frames_log(reads) + failed_reads(0)
                    + seq![RipEvent::QuitRequested]);
                assert(run_explained(r, policy0, retry_policy@, heuristics, fc, max_frame_retries, checksum_fn, native_free, cleanv, stv, passes));
                return Ok(r);
            }

            if reader.media_changed() {
                counters.increment(ParanoiaCallbackKind::Skip);
                push_event(&mut events, &mut state, RipEvent::MediaChanged);
                let r = aborted_result(state, events, pass.saturating_add(1), counters);
                assert(r.events@ =~= seq![RipEvent::StartTrack] + ev0 + frames_log(reads) + failed_reads(0)
                    + seq![RipEvent::MediaChanged]);
                assert(run_explained(r, policy0, retry_policy@, heuristics, fc, max_frame_retries, checksum_fn, native_free, cleanv, stv, passes));
                return Ok(r);
            }

            let mut attempt: u32 = 0;
            let frame: Vec<u8>;
            let ghost mut got: (nat, bool) = (0, false);
            let ghost base = passes_attempts(passes) + reads_attempts(reads);
            let ghost pos = start_lsn + frames_read(reads);
            proof {
                lemma_frames_read_bound(reads);
                if stv is Some {
                    assert forall|k: nat| #[trigger] reader.fails_ahead(k) == (stv->Some_0.0)(k + base + 0nat) by {
                        assert(k + base + 0nat == k + base);
                    }
                }
            }
            loop
                invariant_except_break
                    smooth ==> attempt == 0 && reader.read_position() == start_lsn + frame_idx,
                    steady_tries(*reader, stv, base, attempt as nat, pos),
                    events@ == seq![RipEvent::StartTrack] + ev0 + frames_log(reads) + failed_reads(
                        attempt as nat,
                    ),
                invariant
                    attempt <= max_frame_retries,
                    state == RipState::Reading,
                    run_log_wf(events@, state),
                    interrupt == should_interrupt,
                    checksum == checksum_fn,
                    call_requires(interrupt, ()),
                    forall|l: i32| #[trigger] reader.seek_accepts(l) == old(reader).seek_accepts(l),
                    forall|l: i32| #[trigger] reader.seek_failure(l) == old(reader).seek_failure(l),
                    old(reader).seek_failure(start_lsn) is None,
                    reader.served_image() == old(reader).served_image(),
                    reader.media_steady() == old(reader).media_steady(),
                    reader.served_image() is Some && smooth ==> forall|k: nat| !#[trigger] reader.fails_ahead(k),
                    never_fails(*old(reader)) ==> never_fails(*reader),
                    smooth == (serves_track(*old(reader), start_lsn, frame_count) && never_says_yes(
                        should_interrupt,
                    )),
                    track == track_frames(*old(reader), start_lsn, frame_count),
                    frame_idx < frame_count,
                    policy0 == old(retry_policy)@,
                    fc == frame_count,
                    native_free == old(reader).adds_no_native_counts(),
                    reader.adds_no_native_counts() == native_free,
                    native_free ==> overlap_counted(counters, policy0, heuristics, passes),
                    cleanv == (if smooth { Some(track) } else { None::<Seq<Seq<u8>>> }),
                    clean_passes(passes, cleanv),
                    stv == steady_reader(*old(reader), start_lsn, frame_count, should_interrupt),
                    steady_passes(passes, stv, fc, max_frame_retries),
                    steady_data(stv, passes_attempts(passes), reads, frames_view(pass_frames@), max_frame_retries),
                    base == passes_attempts(passes) + reads_attempts(reads),
                    stv matches Some((sf, simg, sst)) ==> pos == sst + frames_read(reads),
                    retry_policy.required_matches == old(retry_policy).required_matches,
                    retry_policy.max_retries == old(retry_policy).max_retries,
                    old(retry_policy).required_matches == 0 ==> retry_policy@ == old(retry_policy)@
                        && pass == 0,
                    retry_policy.required_matches > 0 ==> retry_policy.total_attempts
                        < retry_policy.max_retries || pass == 0,
                    progress_ok(policy0, retry_policy@, previous_overlap, heuristics, fc, max_frame_retries, checksum_fn, passes, pass),
                    ev0 == passes_run(policy0, heuristics, passes).2,
                    reads.len() == frame_idx,
                    reads_ok(reads, max_frame_retries),
                ensures
                    smooth ==> frame@ == track[frame_idx as int] && reader.read_position()
                        == start_lsn + frame_idx + 1,
                    smooth ==> got == (0nat, false),
                    frame_reads_ok(got, max_frame_retries),
                    got.1 ==> frame@ == silent_frame(),
                    events@ == seq![RipEvent::StartTrack] + ev0 + frames_log(reads) + frame_log(got),
                    steady_done(*reader, stv, base, pos, got, frame@, max_frame_retries),
                decreases max_frame_retries - attempt,
            {
                if interrupt() {
                    counters.increment(ParanoiaCallbackKind::Skip);
                    push_event(&mut events, &mut state, RipEvent::QuitRequested);
                    let r = aborted_result(state, events, pass.saturating_add(1), counters);
                    assert(r.events@ =~= seq![RipEvent::StartTrack] + ev0 + frames_log(reads)
                        + failed_reads(attempt as nat) + seq![RipEvent::QuitRequested]);
                    assert(run_explained(r, policy0, retry_policy@, heuristics, fc, max_frame_retries, checksum_fn, native_free, cleanv, stv, passes));
                    return Ok(r);
                }

                counters.increment(ParanoiaCallbackKind::Read);
                let ghost rb = *reader;
                let read_result = reader.read_frame();
                let ghost read_ok = read_result is Ok;
                let ghost rr = read_result;
                let ghost ra = *reader;
                if let Some(native) = reader.take_native_callback_counts() {
                    counters.merge(&native);
                }
                let media_changed = match &read_result {
                    Ok(_) => false,
                    Err(_) => reader.media_changed(),
                };
                assert(steady_read(rb, ra, *reader, rr));
                let ghost before = events@;
                match on_frame_read(
                    &mut events,
                    &mut state,
                    &mut counters,
                    read_result,
                    media_changed,
                    attempt,
                    max_frame_retries,
                ) {
                    FrameReadStep::Frame(f) => {
                        frame = f;
                        proof {
                            if read_ok {
                                got = (attempt as nat, false);
                            } else {
                                got = (attempt as nat + 1, true);
                            }
                            lemma_steady_frame_done(rb, ra, *reader, stv, base, attempt as nat, pos, rr, got, frame@, max_frame_retries);
                            assert(events@ =~= seq![RipEvent::StartTrack] + ev0 + frames_log(reads)
                                + frame_log(got));
                        }
                        break ;
                    },
                    FrameReadStep::Aborted => {
                        let r = aborted_result(state, events, pass.saturating_add(1), counters);
                        assert(r.events@ =~= seq![RipEvent::StartTrack] + ev0 + frames_log(reads)
                            + failed_reads(attempt as nat + 1) + seq![RipEvent::MediaChanged]);
                        assert(run_explained(r, policy0, retry_policy@, heuristics, fc, max_frame_retries, checksum_fn, native_free, cleanv, stv, passes));
                        return Ok(r);
                    },
                    FrameReadStep::Retry => {
                        proof {
                            lemma_steady_retry(rb, ra, *reader, stv, base, attempt as nat, pos, rr);
                        }
                    },
                }
                assert(events@ =~= seq![RipEvent::StartTrack] + ev0 + frames_log(reads) + failed_reads(
                    attempt as nat + 1,
                ));
                attempt += 1;
            }

            let frame = apply_offset_edge_trim(frame_idx, frame_count, frame);
            let ghost old_frames = pass_frames@;
            pass_frames.push(frame);
            proof {
                assert(reads.push(got).drop_last() =~= reads);
                assert(frames_view(pass_frames@) =~= frames_view(old_frames).push(frame@));
                let nr = reads.push(got);
                assert forall|i: int| 0 <= i < nr.len() implies #[trigger] frame_reads_ok(
                    nr[i],
                    max_frame_retries,
                ) && (nr[i].1 ==> frames_view(pass_frames@)[i] == silent_frame()) by {
                    if i < reads.len() {
                        assert(nr[i] == reads[i]);
                        assert(frames_view(pass_frames@)[i] == frames_view(old_frames)[i]);
                        assert(frame_reads_ok(reads[i], max_frame_retries));
                    }
                }
                if stv is Some {
                    let sf = stv->Some_0.0;
                    lemma_sim_push(sf, passes_attempts(passes), reads, got, max_frame_retries);
                    assert(nr.len() == reads.len() + 1);
                    assert forall|j: int| 0 <= j < nr.len() implies #[trigger] frames_view(pass_frames@)[j]
                        == steady_frame(nr, j, stv->Some_0.1, stv->Some_0.2) by {
                        assert(nr.take(j) =~= if j < reads.len() { reads.take(j) } else { reads });
                        if j < reads.len() {
                            assert(nr[j] == reads[j]);
                            assert(frames_view(pass_frames@)[j] == frames_view(old_frames)[j]);
                        }
                    }
                    assert forall|k: nat| #[trigger] reader.fails_ahead(k) == sf(k + (passes_attempts(passes)
                        + reads_attempts(nr))) by {
                        assert(k + base + frame_attempts(got) == k + (passes_attempts(passes) + reads_attempts(nr)));
                    }
                }
                reads = nr;
            }
            frame_idx += 1;
        }

        let frames = pass_frames.as_slice();
        let sum = checksum(pass, frames);
        let ghost policy_before = retry_policy@;
        let ghost overlap_before = previous_overlap;
        let ghost counters_before = counters;
        let complete = conclude_pass(
            &mut events,
            &mut state,
            &mut counters,
            retry_policy,
            &mut previous_overlap,
            heuristics,
            pass,
            frames,
            sum,
        );
        let ghost rec = (reads, frames_view(pass_frames@), sum);
        let ghost next = passes.push(rec);
        proof {
            if native_free {
                assert(frames_view(frames@) == rec.1);
                lemma_counted_next(
                    counters_before,
                    counters,
                    policy0,
                    heuristics,
                    passes,
                    rec,
                    on_checksum_spec(policy_before, judged_checksum(sum, pass, overlap_check(overlap_before, rec.1, heuristics).2)).1,
                    hits_retry_limit(policy_before, judged_checksum(sum, pass, overlap_check(overlap_before, rec.1, heuristics).2)),
                );
            }
            assert(next.drop_last() =~= passes);
            assert(next.last() == rec);
            assert(frames_view(frames@) == rec.1);
            assert((pass as int) as u32 == pass);
            assert(call_ensures(checksum_fn, ((pass as int) as u32, frames), sum));
            assert(checksummed(checksum_fn, pass as int, rec.1, sum));
            assert(passes_seen(next, fc, max_frame_retries, checksum_fn)) by {
                assert forall|p: int| 0 <= p < next.len() implies (#[trigger] next[p]).1.len() == fc
                    && pass_frames_ok(next[p].0, next[p].1, max_frame_retries) && checksummed(
                    checksum_fn,
                    p,
                    next[p].1,
                    next[p].2,
                ) by {
                    if p < passes.len() {
                        assert(next[p] == passes[p]);
                    }
                }
            }
            assert(events@ =~= seq![RipEvent::StartTrack] + passes_run(policy0, heuristics, next).2);
            assert(steady_passes(next, stv, fc, max_frame_retries) && steady_now(*reader, stv, passes_attempts(next))) by {
                assert(next.drop_last() =~= passes);
                if stv is Some {
                    assert(passes_attempts(next) == passes_attempts(passes) + reads_attempts(reads));
                    assert forall|p: int| 0 <= p < next.len() implies steady_pass(
                        #[trigger] next[p],
                        stv->Some_0.0,
                        passes_attempts(next.take(p)),
                        stv->Some_0.1,
                        stv->Some_0.2,
                        fc,
                        max_frame_retries,
                    ) by {
                        if p < passes.len() {
                            assert(next[p] == passes[p]);
                            assert(next.take(p) =~= passes.take(p));
                        } else {
                            assert(next.take(p) =~= passes);
                        }
                    }
                }
            }
            assert(clean_passes(next, cleanv)) by {
                if smooth {
                    assert(track.len() == fc);
                    assert(track.take(frame_count as int) == track);
                    assert(clean_pass(rec, track));
                    assert forall|p: int| 0 <= p < next.len() implies clean_pass(#[trigger] next[p], track) by {
                        if p < passes.len() {
                            assert(next[p] == passes[p]);
                        }
                    }
                }
            }
        }
        let ghost judged_pass = pass;
        pass = pass.saturating_add(1);
        if complete {
            assert(call_ensures(checksum_fn, (judged_pass, frames), sum) && pass
                == judged_pass.saturating_add(1) && frames@ == pass_frames@);
            assert(smooth ==> track.take(frame_count as int) == track);
            let r = ParanoiaTrackRunResult {
                state,
                events,
                passes: pass,
                callback_counters: counters,
                final_frames: Some(pass_frames),
            };
            assert(passes_run(policy0, heuristics, next).3.drop_last() =~= passes_run(policy0, heuristics, passes).3);
            assert(run_explained(r, policy0, retry_policy@, heuristics, fc, max_frame_retries, checksum_fn, native_free, cleanv, stv, next));
            return Ok(r);
        }
        proof {
            passes = next;
        }
    }
}

pub fn run_track_with_paranoia<R, F>(
    reader: &mut R,
    start_lsn: i32,
    frame_count: usize,
    max_frame_retries: u32,
    retry_policy: &mut RetryPolicy,
    checksum_fn: F,
) -> (res: Result<ParanoiaTrackRunResult, CddaReadError>) where
    R: CddaFrameReader,
    F: FnMut(u32, &[Vec<u8>]) -> u32,

    requires
        forall|p: u32, s: &[Vec<u8>]| #[trigger] call_requires(checksum_fn, (p, s)),
    ensures
        engine_traced(
            res,
            old(retry_policy)@,
            final(retry_policy)@,
            ParanoiaHeuristicConfig { overlap_frames: 0, verify_overlap: false },
            frame_count as nat,
            max_frame_retries,
            checksum_fn,
            old(reader).adds_no_native_counts(),
            if serves_track(*old(reader), start_lsn, frame_count) {
                Some(track_frames(*old(reader), start_lsn, frame_count))
            } else {
                None
            },
            steady_of(*old(reader), start_lsn, frame_count),
        ),
        serves_track(*old(reader), start_lsn, frame_count) ==> (res matches Ok(r) && r.state
            == RipState::TrackComplete && frames_view(r.final_frames->Some_0@) == track_frames(
            *old(reader),
            start_lsn,
            frame_count,
        )),
        res matches Ok(r) ==> r.events@.last() != RipEvent::QuitRequested,
        old(reader).seek_failure(start_lsn) matches Some(m) ==> (res matches Err(
            CddaReadError::SeekFailed(t),
        ) && t@ == m),
        res matches Ok(r) ==> last_pass_checksummed(checksum_fn, r),
        old(reader).seek_accepts(start_lsn) ==> res is Ok,
        res matches Ok(r) ==> run_result_wf(r, frame_count as nat),
        final(retry_policy).required_matches == old(retry_policy).required_matches,
        final(retry_policy).max_retries == old(retry_policy).max_retries,
        old(retry_policy).required_matches == 0 ==> final(retry_policy)@ == old(retry_policy)@,
        res matches Ok(r) ==> (old(retry_policy).required_matches == 0 && r.state
            == RipState::TrackComplete ==> r.passes == 1),
{
    run_track_with_paranoia_heuristics_interruptible(
        reader,
        start_lsn,
        frame_count,
        max_frame_retries,
        retry_policy,
        ParanoiaHeuristicConfig::default(),
        never_interrupt,
        checksum_fn,
    )
}

} // verus!
