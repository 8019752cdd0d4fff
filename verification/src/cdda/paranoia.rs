//! Paranoia levels, the per-track rip state machine and the checksum-based
//! retry policy.
use vstd::prelude::*;

use crate::text::{dec_int, msg_view, push_dec_i64};
use crate::MAX_PARANOIA_LEVEL;

verus! {

#[derive(Debug, Clone, Copy, PartialEq, Eq, Structural)]
pub enum ParanoiaMode {
    Disable,
    Overlap,
    OverlapVerify,
    FullXorNeverSkip,
}

pub fn paranoia_mode_from_level(level: i32) -> (r: Result<ParanoiaMode, String>)
    ensures
        msg_view(r) == if level == 0 {
            Ok::<ParanoiaMode, Seq<char>>(ParanoiaMode::Disable)
        } else if level == 1 {
            Ok(ParanoiaMode::Overlap)
        } else if level == 2 {
            Ok(ParanoiaMode::OverlapVerify)
        } else if level == 3 {
            Ok(ParanoiaMode::FullXorNeverSkip)
        } else {
            Err("Invalid paranoia level "@ + dec_int(level as int) + " must be between 0 and "@
                + dec_int(MAX_PARANOIA_LEVEL as int))
        },
{
    match level {
        0 => Ok(ParanoiaMode::Disable),
        1 => Ok(ParanoiaMode::Overlap),
        2 => Ok(ParanoiaMode::OverlapVerify),
        3 => Ok(ParanoiaMode::FullXorNeverSkip),
        _ => {
            let mut msg = String::from_str("Invalid paranoia level ");
            push_dec_i64(&mut msg, level as i64);
            msg.append(" must be between 0 and ");
            push_dec_i64(&mut msg, MAX_PARANOIA_LEVEL as i64);
            Err(msg)
        },
    }
}

#[derive(Debug, Clone, Copy, PartialEq, Eq, Structural)]
pub enum RipState {
    Idle,
    Reading,
    Finalizing,
    TrackComplete,
    RetryPending,
    Aborted,
    Failed,
}

#[derive(Debug, Clone, Copy, PartialEq, Eq, Structural)]
pub enum RipEvent {
    StartTrack,
    FrameReadOk,
    FrameReadError,
    /// Frame retries exhausted; a silent frame was substituted and the pass continues.
    FrameSubstitutedSilence,
    ChecksumSatisfied,
    ChecksumMismatch,
    RetryReady,
    RetryLimitReached,
    FlushEncoders,
    EncoderFlushDone,
    QuitRequested,
    MediaChanged,
    FatalDecodeOrEncodeError,
}

/// The transition table of the rip state machine: quitting or a media
/// change aborts and a fatal pipeline error fails from any state; the other
/// events move a track Idle -> Reading -> (RetryPending -> Reading)* ->
/// Finalizing -> TrackComplete, and any event not in the table leaves the
/// state unchanged.
pub open spec fn rip_transition(state: RipState, event: RipEvent) -> RipState {
    match event {
        RipEvent::QuitRequested | RipEvent::MediaChanged => RipState::Aborted,
        RipEvent::FatalDecodeOrEncodeError => RipState::Failed,
        _ => match (state, event) {
            (RipState::Idle, RipEvent::StartTrack) => RipState::Reading,
            (RipState::Reading, RipEvent::FrameReadOk) => RipState::Reading,
            (RipState::Reading, RipEvent::FrameReadError) => RipState::Reading,
            (RipState::Reading, RipEvent::FrameSubstitutedSilence) => RipState::Reading,
            (RipState::Reading, RipEvent::ChecksumMismatch) => RipState::RetryPending,
            (RipState::RetryPending, RipEvent::RetryReady) => RipState::Reading,
            (RipState::RetryPending, RipEvent::RetryLimitReached) => RipState::Finalizing,
            (RipState::Reading, RipEvent::ChecksumSatisfied) => RipState::Finalizing,
            (RipState::Finalizing, RipEvent::FlushEncoders) => RipState::Finalizing,
            (RipState::Finalizing, RipEvent::EncoderFlushDone) => RipState::TrackComplete,
            (s, _) => s,
        },
    }
}

/// The state reached from `state` after the events in order.
pub open spec fn run_events(state: RipState, events: Seq<RipEvent>) -> RipState
    decreases events.len(),
{
    if events.len() == 0 {
        state
    } else {
        rip_transition(run_events(state, events.drop_last()), events.last())
    }
}

pub fn next_rip_state(state: RipState, event: RipEvent) -> (r: RipState)
    ensures
        r == rip_transition(state, event),
{
    match event {
        RipEvent::QuitRequested | RipEvent::MediaChanged => return RipState::Aborted,
        RipEvent::FatalDecodeOrEncodeError => return RipState::Failed,
        _ => {},
    }
    match (state, event) {
        (RipState::Idle, RipEvent::StartTrack) => RipState::Reading,
        (RipState::Reading, RipEvent::FrameReadOk) => RipState::Reading,
        (RipState::Reading, RipEvent::FrameReadError) => RipState::Reading,
        (RipState::Reading, RipEvent::FrameSubstitutedSilence) => RipState::Reading,
        (RipState::Reading, RipEvent::ChecksumMismatch) => RipState::RetryPending,
        (RipState::RetryPending, RipEvent::RetryReady) => RipState::Reading,
        (RipState::RetryPending, RipEvent::RetryLimitReached) => RipState::Finalizing,
        (RipState::Reading, RipEvent::ChecksumSatisfied) => RipState::Finalizing,
        (RipState::Finalizing, RipEvent::FlushEncoders) => RipState::Finalizing,
        (RipState::Finalizing, RipEvent::EncoderFlushDone) => RipState::TrackComplete,
        (s, _) => s,
    }
}

/// A quit request or a media change aborts the rip from every state, and a
/// fatal decode/encode error fails it from every state.
pub proof fn law_interruptions_override_every_state(state: RipState)
    ensures
        rip_transition(state, RipEvent::QuitRequested) == RipState::Aborted,
        rip_transition(state, RipEvent::MediaChanged) == RipState::Aborted,
        rip_transition(state, RipEvent::FatalDecodeOrEncodeError) == RipState::Failed,
{
}

/// A finished, aborted or failed track stays so under every event other than
/// the three interruptions.
pub proof fn law_terminal_states_absorb(state: RipState, event: RipEvent)
    requires
        state == RipState::TrackComplete || state == RipState::Aborted || state
            == RipState::Failed,
        event != RipEvent::QuitRequested,
        event != RipEvent::MediaChanged,
        event != RipEvent::FatalDecodeOrEncodeError,
    ensures
        rip_transition(state, event) == state,
{
}

/// The only way to complete a track is an encoder flush while finalizing.
pub proof fn law_completion_only_from_finalizing(state: RipState, event: RipEvent)
    requires
        state != RipState::TrackComplete,
        rip_transition(state, event) == RipState::TrackComplete,
    ensures
        state == RipState::Finalizing,
        event == RipEvent::EncoderFlushDone,
{
}

/// The happy path: start, read, a satisfied checksum, flush and completion.
pub proof fn law_happy_path_completes()
    ensures
        run_events(
            RipState::Idle,
            seq![
                RipEvent::StartTrack,
                RipEvent::FrameReadOk,
                RipEvent::ChecksumSatisfied,
                RipEvent::FlushEncoders,
                RipEvent::EncoderFlushDone,
            ],
        ) == RipState::TrackComplete,
{
    let ev = seq![
        RipEvent::StartTrack,
        RipEvent::FrameReadOk,
        RipEvent::ChecksumSatisfied,
        RipEvent::FlushEncoders,
        RipEvent::EncoderFlushDone,
    ];
    assert(ev.drop_last().drop_last().drop_last().drop_last().drop_last() =~= Seq::<
        RipEvent,
    >::empty());
    reveal_with_fuel(run_events, 6);
}

#[derive(Debug, Clone, PartialEq, Eq)]
pub struct RetryPolicy {
    pub required_matches: u32,
    pub max_retries: u32,
    pub prior_checksums: Vec<u32>,
    pub total_attempts: u32,
}

#[derive(Debug, Clone, Copy, PartialEq, Eq, Structural)]
pub enum RetryDecision {
    Complete,
    RetryNow,
    RetryAndStartEncoding,
}

/// The abstract state of a retry policy.
pub struct RetryPolicyView {
    pub required_matches: u32,
    pub max_retries: u32,
    pub prior_checksums: Seq<u32>,
    pub total_attempts: u32,
}

impl View for RetryPolicy {
    type V = RetryPolicyView;

    open spec fn view(&self) -> RetryPolicyView {
        RetryPolicyView {
            required_matches: self.required_matches,
            max_retries: self.max_retries,
            prior_checksums: self.prior_checksums@,
            total_attempts: self.total_attempts,
        }
    }
}

pub open spec fn sat_inc(x: u32) -> u32 {
    if x == u32::MAX {
        x
    } else {
        (x + 1) as u32
    }
}

/// One pass checksum handed to the policy: with no matches required the
/// track is complete at once; otherwise the attempt is counted, enough
/// earlier equal checksums or an exhausted retry budget complete the track,
/// and else the checksum is remembered and another pass is requested
/// (encoding starts on the last chance).
pub open spec fn on_checksum_spec(p: RetryPolicyView, checksum: u32) -> (RetryPolicyView, RetryDecision) {
    if p.required_matches == 0 {
        (p, RetryDecision::Complete)
    } else {
        let matches = p.prior_checksums.to_multiset().count(checksum);
        let total = sat_inc(p.total_attempts);
        let counted = RetryPolicyView { total_attempts: total, ..p };
        if matches >= p.required_matches {
            (counted, RetryDecision::Complete)
        } else if total >= p.max_retries {
            (counted, RetryDecision::Complete)
        } else {
            let next = RetryPolicyView {
                prior_checksums: p.prior_checksums.push(checksum),
                ..counted
            };
            if matches + 1 >= p.required_matches || total + 1 >= p.max_retries {
                (next, RetryDecision::RetryAndStartEncoding)
            } else {
                (next, RetryDecision::RetryNow)
            }
        }
    }
}

impl RetryPolicy {
    pub fn new(required_matches: u32, max_retries: u32) -> (r: Self)
        ensures
            r.required_matches == required_matches,
            r.max_retries == max_retries,
            r.prior_checksums@ == Seq::<u32>::empty(),
            r.total_attempts == 0,
    {
        Self { required_matches, max_retries, prior_checksums: Vec::new(), total_attempts: 0 }
    }

    pub fn disabled() -> (r: Self)
        ensures
            r.required_matches == 0,
            r.max_retries == 0,
            r.prior_checksums@ == Seq::<u32>::empty(),
            r.total_attempts == 0,
    {
        Self::new(0, 0)
    }

    pub fn on_checksum(&mut self, checksum: u32) -> (r: RetryDecision)
        ensures
            (final(self)@, r) == on_checksum_spec(old(self)@, checksum),
    {
        broadcast use vstd::seq_lib::group_to_multiset_ensures;

        if self.required_matches == 0 {
            return RetryDecision::Complete;
        }
        let mut matches: u64 = 0;
        let mut i: usize = 0;
        while i < self.prior_checksums.len()
            invariant
                i <= self.prior_checksums@.len(),
                matches == self.prior_checksums@.take(i as int).to_multiset().count(checksum),
                matches <= i,
            decreases self.prior_checksums.len() - i,
        {
            let ghost pre = self.prior_checksums@.take(i as int);
            let ghost x = self.prior_checksums@[i as int];
            assert(self.prior_checksums@.take(i + 1) == pre.push(x));
            proof {
                pre.to_multiset_ensures();
                assert(pre.push(x).to_multiset() =~= pre.to_multiset().insert(x));
            }
            if self.prior_checksums[i] == checksum {
                matches += 1;
            }
            i += 1;
        }
        assert(self.prior_checksums@.take(i as int) == self.prior_checksums@);
        self.total_attempts = self.total_attempts.saturating_add(1);
        if matches >= self.required_matches as u64 {
            return RetryDecision::Complete;
        }
        if self.total_attempts >= self.max_retries {
            return RetryDecision::Complete;
        }
        self.prior_checksums.push(checksum);
        let last_chance = (matches + 1) >= self.required_matches as u64 || (self.total_attempts as u64
            + 1) >= self.max_retries as u64;
        if last_chance {
            RetryDecision::RetryAndStartEncoding
        } else {
            RetryDecision::RetryNow
        }
    }
}

/// Each checksum counts one attempt (unless no matches are required), the
/// memory of earlier checksums only ever grows by the new one, and only a
/// request for another pass remembers it.
pub proof fn law_on_checksum_monotone(p: RetryPolicyView, checksum: u32)
    ensures
        ({
            let (q, d) = on_checksum_spec(p, checksum);
            &&& q.required_matches == p.required_matches
            &&& q.max_retries == p.max_retries
            &&& q.total_attempts >= p.total_attempts
            &&& (p.required_matches > 0 && p.total_attempts < u32::MAX ==> q.total_attempts
                == p.total_attempts + 1)
            &&& (d == RetryDecision::Complete ==> q.prior_checksums == p.prior_checksums)
            &&& (d != RetryDecision::Complete ==> q.prior_checksums == p.prior_checksums.push(
                checksum,
            ))
        }),
{
}

/// Once the attempt budget is reached the policy completes the track, so a
/// track is read at most `max_retries` times while matches are required.
pub proof fn law_retry_budget_completes(p: RetryPolicyView, checksum: u32)
    requires
        p.required_matches > 0,
        p.total_attempts + 1 >= p.max_retries,
    ensures
        on_checksum_spec(p, checksum).1 == RetryDecision::Complete,
{
}

/// Enough earlier passes with the same checksum complete the track.
pub proof fn law_matching_checksums_complete(p: RetryPolicyView, checksum: u32)
    requires
        p.prior_checksums.to_multiset().count(checksum) >= p.required_matches,
    ensures
        on_checksum_spec(p, checksum).1 == RetryDecision::Complete,
{
}

} // verus!
