//! How the processes of a session are ended.
//!
//! The compositor closes its X connection first, then the slice is stopped. Whatever has not
//! ended within the grace period is killed, and the slice is stopped once more. The session
//! has ended well only when its last stop job is done and no process is left. Whatever came
//! of it, the liveness pipe is closed and the guardian is stopped, so that the service
//! manager can finish the cleanup on its own.

use crate::time::{self, Duration, Instant};
use vstd::prelude::*;

verus! {

/// Calls to the service manager, and waits for the compositor, may take so many nanoseconds.
pub const BUS_TIMEOUT: u128 = 5_000_000_000;

/// The population is looked at again after so many nanoseconds.
pub const POLL_INTERVAL: u128 = 50_000_000;

/// How long the processes of a session have to end.
#[derive(Clone, Copy, Debug, PartialEq, Eq, Structural)]
pub struct ShutdownPolicy {
    /// Before they are killed.
    pub grace: Duration,
    /// After they were killed.
    pub force: Duration,
}

/// What the processes of a session are given unless something else is asked for.
pub open spec fn usual_policy() -> ShutdownPolicy {
    ShutdownPolicy {
        grace: Duration { nanos: 8_000_000_000 },
        force: Duration { nanos: 5_000_000_000 },
    }
}

impl Default for ShutdownPolicy {
    /// Five seconds for the application, then two for Xwayland, plus job processing.
    fn default() -> (r: ShutdownPolicy)
        ensures
            r.grace.nanos == 8_000_000_000,
            r.force.nanos == 5_000_000_000,
            r == usual_policy(),
    {
        ShutdownPolicy { grace: Duration::from_secs(8), force: Duration::from_secs(5) }
    }
}

/// How far the end of a session has got.
#[derive(Clone, Copy, Debug, PartialEq, Eq, Structural)]
pub enum Phase {
    /// The compositor closes its X connection.
    X11Release,
    Watch,
    Stop,
    GraceJob { until: Instant },
    GracePoll { until: Instant },
    GraceSleep { until: Instant },
    /// All seemed to have ended in time: make sure.
    Verify,
    Kill,
    StopAgain,
    SettleJob { until: Instant },
    SettleJobPoll { until: Instant },
    SettleJobKill { until: Instant },
    Settle { until: Instant },
    SettleKill { until: Instant },
    SettleSleep { until: Instant },
    CloseLease { ended: bool },
    WatchGuardian { ended: bool },
    StopGuardian { ended: bool },
    GuardianJob { ended: bool },
    Finished { success: bool },
}

/// What is to be done next.
#[derive(Clone, Copy, Debug, PartialEq, Eq, Structural)]
#[allow(inconsistent_fields)]
pub enum Action {
    /// Wait for the compositor, if there is one, as long as calls may take.
    AwaitX11Release,
    /// Subscribe to the removal of jobs.
    WatchJobs,
    StopSlice,
    /// Wait for the stop job.
    AwaitJob { until: Instant },
    ReadPopulation { until: Option<Instant> },
    /// Wait for one poll interval.
    Sleep { until: Instant },
    /// Kill every process in the slice.
    KillSlice { until: Option<Instant> },
    /// Wait for the stop job, but no longer than one poll interval at a time.
    AwaitJobOrPoll { until: Instant },
    /// Close the daemon's end of the liveness pipe.
    CloseLease,
    StopGuardian,
    /// Wait for the guardian's stop job, as long as calls may take.
    AwaitGuardianJob,
    Finish { success: bool },
}

/// What came of it.
#[derive(Clone, Copy, Debug, PartialEq, Eq, Structural)]
pub enum Reply {
    Done,
    Failed,
    TimedOut,
    /// A stop was requested; there is a job to wait for unless the unit does not exist.
    Queued { job: bool },
    Populated(bool),
    /// The poll interval is over before the job is.
    Polled,
}

impl Phase {
    /// What a phase asks for.
    pub open spec fn asks(self) -> Action {
        match self {
            Phase::X11Release => Action::AwaitX11Release,
            Phase::Watch => Action::WatchJobs,
            Phase::Stop => Action::StopSlice,
            Phase::GraceJob { until } => Action::AwaitJob { until },
            Phase::GracePoll { until } => Action::ReadPopulation { until: Some(until) },
            Phase::GraceSleep { until } => Action::Sleep { until },
            Phase::Verify => Action::ReadPopulation { until: None },
            Phase::Kill => Action::KillSlice { until: None },
            Phase::StopAgain => Action::StopSlice,
            Phase::SettleJob { until } => Action::AwaitJobOrPoll { until },
            Phase::SettleJobPoll { until } => Action::ReadPopulation { until: Some(until) },
            Phase::SettleJobKill { until } => Action::KillSlice { until: Some(until) },
            Phase::Settle { until } => Action::ReadPopulation { until: Some(until) },
            Phase::SettleKill { until } => Action::KillSlice { until: Some(until) },
            Phase::SettleSleep { until } => Action::Sleep { until },
            Phase::CloseLease { ended } => Action::CloseLease,
            Phase::WatchGuardian { ended } => Action::WatchJobs,
            Phase::StopGuardian { ended } => Action::StopGuardian,
            Phase::GuardianJob { ended } => Action::AwaitGuardianJob,
            Phase::Finished { success } => Action::Finish { success },
        }
    }

    /// The phase that follows a reply at a time. A reply that does not fit the question
    /// counts as a failure.
    pub open spec fn next(self, reply: Reply, now: Instant, policy: ShutdownPolicy) -> Phase {
        let gave_up = Phase::CloseLease { ended: false };
        match (self, reply) {
            (Phase::X11Release, Reply::Done) => Phase::Watch,
            (Phase::Watch, Reply::Done) => Phase::Stop,
            (Phase::Stop, Reply::Queued { job }) => {
                let until = time::later_by(now, policy.grace);
                if job {
                    Phase::GraceJob { until }
                } else {
                    Phase::GracePoll { until }
                }
            },
            (Phase::GraceJob { until }, Reply::Done) => Phase::GracePoll { until },
            (Phase::GraceJob { until }, _) => Phase::Kill,
            (Phase::GracePoll { until }, Reply::Populated(left)) => if left {
                Phase::GraceSleep { until }
            } else {
                Phase::Verify
            },
            (Phase::GracePoll { until }, _) => Phase::Kill,
            (Phase::GraceSleep { until }, Reply::Done) => Phase::GracePoll { until },
            (Phase::GraceSleep { until }, _) => Phase::Kill,
            (Phase::Verify, Reply::Populated(left)) => if left {
                Phase::Kill
            } else {
                Phase::StopAgain
            },
            (Phase::Kill, Reply::Done) => Phase::StopAgain,
            (Phase::StopAgain, Reply::Queued { job }) => {
                let until = time::later_by(now, policy.force);
                if job {
                    Phase::SettleJob { until }
                } else {
                    Phase::Settle { until }
                }
            },
            (Phase::SettleJob { until }, Reply::Done) => Phase::Settle { until },
            (Phase::SettleJob { until }, Reply::Polled) => Phase::SettleJobPoll { until },
            (Phase::SettleJobPoll { until }, Reply::Populated(left)) => if left {
                Phase::SettleJobKill { until }
            } else {
                Phase::SettleJob { until }
            },
            (Phase::SettleJobKill { until }, Reply::Done) => Phase::SettleJob { until },
            (Phase::Settle { until }, Reply::Populated(left)) => if left {
                Phase::SettleKill { until }
            } else {
                Phase::CloseLease { ended: true }
            },
            (Phase::SettleKill { until }, Reply::Done) => Phase::SettleSleep { until },
            (Phase::SettleSleep { until }, Reply::Done) => Phase::Settle { until },
            (Phase::CloseLease { ended }, _) => Phase::WatchGuardian { ended },
            (Phase::WatchGuardian { ended }, Reply::Done) => Phase::StopGuardian { ended },
            (Phase::WatchGuardian { ended }, _) => Phase::Finished { success: false },
            (Phase::StopGuardian { ended }, Reply::Queued { job }) => if job {
                Phase::GuardianJob { ended }
            } else {
                Phase::Finished { success: ended }
            },
            (Phase::StopGuardian { ended }, _) => Phase::Finished { success: false },
            (Phase::GuardianJob { ended }, Reply::Done) => Phase::Finished { success: ended },
            (Phase::GuardianJob { ended }, _) => Phase::Finished { success: false },
            (Phase::Finished { success }, _) => Phase::Finished { success },
            _ => gave_up,
        }
    }
}

/// The end of one session.
#[derive(Clone, Copy, Debug, PartialEq, Eq, Structural)]
pub struct Termination {
    pub phase: Phase,
    pub policy: ShutdownPolicy,
}

impl Termination {
    /// Begins to end a session.
    pub fn new(policy: ShutdownPolicy) -> (r: Termination)
        ensures
            r.phase == Phase::X11Release,
            r.policy == policy,
    {
        Termination { phase: Phase::X11Release, policy }
    }

    /// What is to be done now.
    pub fn action(&self) -> (r: Action)
        ensures
            r == self.phase.asks(),
    {
        match self.phase {
            Phase::X11Release => Action::AwaitX11Release,
            Phase::Watch => Action::WatchJobs,
            Phase::Stop => Action::StopSlice,
            Phase::GraceJob { until } => Action::AwaitJob { until },
            Phase::GracePoll { until } => Action::ReadPopulation { until: Some(until) },
            Phase::GraceSleep { until } => Action::Sleep { until },
            Phase::Verify => Action::ReadPopulation { until: None },
            Phase::Kill => Action::KillSlice { until: None },
            Phase::StopAgain => Action::StopSlice,
            Phase::SettleJob { until } => Action::AwaitJobOrPoll { until },
            Phase::SettleJobPoll { until } => Action::ReadPopulation { until: Some(until) },
            Phase::SettleJobKill { until } => Action::KillSlice { until: Some(until) },
            Phase::Settle { until } => Action::ReadPopulation { until: Some(until) },
            Phase::SettleKill { until } => Action::KillSlice { until: Some(until) },
            Phase::SettleSleep { until } => Action::Sleep { until },
            Phase::CloseLease { ended: _ } => Action::CloseLease,
            Phase::WatchGuardian { ended: _ } => Action::WatchJobs,
            Phase::StopGuardian { ended: _ } => Action::StopGuardian,
            Phase::GuardianJob { ended: _ } => Action::AwaitGuardianJob,
            Phase::Finished { success } => Action::Finish { success },
        }
    }

    /// Takes the reply to what was to be done.
    pub fn step(&mut self, reply: Reply, now: Instant)
        ensures
            final(self).phase == old(self).phase.next(reply, now, old(self).policy),
            final(self).policy == old(self).policy,
    {
        let gave_up: Phase = Phase::CloseLease { ended: false };
        let next: Phase = match self.phase {
            Phase::X11Release => match reply {
                Reply::Done => Phase::Watch,
                _ => gave_up,
            },
            Phase::Watch => match reply {
                Reply::Done => Phase::Stop,
                _ => gave_up,
            },
            Phase::Stop => match reply {
                Reply::Queued { job } => {
                    let until: Instant = now.saturating_after(self.policy.grace);
                    if job {
                        Phase::GraceJob { until }
                    } else {
                        Phase::GracePoll { until }
                    }
                },
                _ => gave_up,
            },
            Phase::GraceJob { until } => match reply {
                Reply::Done => Phase::GracePoll { until },
                _ => Phase::Kill,
            },
            Phase::GracePoll { until } => match reply {
                Reply::Populated(true) => Phase::GraceSleep { until },
                Reply::Populated(false) => Phase::Verify,
                _ => Phase::Kill,
            },
            Phase::GraceSleep { until } => match reply {
                Reply::Done => Phase::GracePoll { until },
                _ => Phase::Kill,
            },
            Phase::Verify => match reply {
                Reply::Populated(true) => Phase::Kill,
                Reply::Populated(false) => Phase::StopAgain,
                _ => gave_up,
            },
            Phase::Kill => match reply {
                Reply::Done => Phase::StopAgain,
                _ => gave_up,
            },
            Phase::StopAgain => match reply {
                Reply::Queued { job } => {
                    let until: Instant = now.saturating_after(self.policy.force);
                    if job {
                        Phase::SettleJob { until }
                    } else {
                        Phase::Settle { until }
                    }
                },
                _ => gave_up,
            },
            Phase::SettleJob { until } => match reply {
                Reply::Done => Phase::Settle { until },
                Reply::Polled => Phase::SettleJobPoll { until },
                _ => gave_up,
            },
            Phase::SettleJobPoll { until } => match reply {
                Reply::Populated(true) => Phase::SettleJobKill { until },
                Reply::Populated(false) => Phase::SettleJob { until },
                _ => gave_up,
            },
            Phase::SettleJobKill { until } => match reply {
                Reply::Done => Phase::SettleJob { until },
                _ => gave_up,
            },
            Phase::Settle { until } => match reply {
                Reply::Populated(true) => Phase::SettleKill { until },
                Reply::Populated(false) => Phase::CloseLease { ended: true },
                _ => gave_up,
            },
            Phase::SettleKill { until } => match reply {
                Reply::Done => Phase::SettleSleep { until },
                _ => gave_up,
            },
            Phase::SettleSleep { until } => match reply {
                Reply::Done => Phase::Settle { until },
                _ => gave_up,
            },
            Phase::CloseLease { ended } => Phase::WatchGuardian { ended },
            Phase::WatchGuardian { ended } => match reply {
                Reply::Done => Phase::StopGuardian { ended },
                _ => Phase::Finished { success: false },
            },
            Phase::StopGuardian { ended } => match reply {
                Reply::Queued { job: true } => Phase::GuardianJob { ended },
                Reply::Queued { job: false } => Phase::Finished { success: ended },
                _ => Phase::Finished { success: false },
            },
            Phase::GuardianJob { ended } => match reply {
                Reply::Done => Phase::Finished { success: ended },
                _ => Phase::Finished { success: false },
            },
            Phase::Finished { success } => Phase::Finished { success },
        };
        self.phase = next;
    }
}

/// A reply and the time at which it came.
pub ghost struct Answer {
    pub reply: Reply,
    pub at: Instant,
}

/// The phase that a row of answers leads to.
pub open spec fn reached(policy: ShutdownPolicy, answers: Seq<Answer>) -> Phase
    decreases answers.len(),
{
    if answers.len() == 0 {
        Phase::X11Release
    } else {
        reached(policy, answers.drop_last()).next(
            answers.last().reply,
            answers.last().at,
            policy,
        )
    }
}

/// The phase before an answer of a row.
pub open spec fn phase_at(policy: ShutdownPolicy, answers: Seq<Answer>, i: int) -> Phase {
    reached(policy, answers.take(i))
}

/// An answer leads from the phase before it to the phase after it.
proof fn lemma_step(policy: ShutdownPolicy, answers: Seq<Answer>, i: int)
    requires
        0 <= i < answers.len(),
    ensures
        phase_at(policy, answers, i + 1) == phase_at(policy, answers, i).next(
            answers[i].reply,
            answers[i].at,
            policy,
        ),
        phase_at(policy, answers, 0) == Phase::X11Release,
{
    assert(answers.take(i + 1).drop_last() =~= answers.take(i));
    assert(answers.take(i + 1).last() == answers[i]);
    assert(answers.take(0) =~= Seq::<Answer>::empty());
}

/// Whether a phase lies behind the release of the X connection.
pub open spec fn after_release(phase: Phase) -> bool {
    match phase {
        Phase::X11Release => false,
        Phase::CloseLease { ended } => false,
        Phase::WatchGuardian { ended } => false,
        Phase::StopGuardian { ended } => false,
        Phase::GuardianJob { ended } => false,
        Phase::Finished { success } => false,
        _ => true,
    }
}

/// Nothing in the slice is stopped or killed before the compositor has closed its X
/// connection.
pub proof fn lemma_x11_is_released_first(policy: ShutdownPolicy, answers: Seq<Answer>, i: int)
    requires
        0 <= i <= answers.len(),
        after_release(phase_at(policy, answers, i)),
    ensures
        i > 0,
        answers[0].reply == Reply::Done,
    decreases i,
{
    if i == 0 {
        assert(answers.take(0) =~= Seq::<Answer>::empty());
    } else {
        lemma_step(policy, answers, i - 1);
        if after_release(phase_at(policy, answers, i - 1)) {
            lemma_x11_is_released_first(policy, answers, i - 1);
        } else {
            lemma_first_phase(policy, answers, i - 1);
        }
    }
}

/// Stopping and killing the slice are asked for only after the X connection was released.
pub proof fn lemma_slice_is_touched_after_release(phase: Phase)
    ensures
        phase.asks() == Action::StopSlice || phase.asks() is KillSlice ==> after_release(phase),
{
}

/// The first phase is never come back to.
proof fn lemma_first_phase(policy: ShutdownPolicy, answers: Seq<Answer>, i: int)
    requires
        0 <= i <= answers.len(),
        phase_at(policy, answers, i) == Phase::X11Release,
    ensures
        i == 0,
{
    if i > 0 {
        lemma_step(policy, answers, i - 1);
    }
}

/// A session has ended well only if, after its slice was stopped for the last time and the
/// stop job, if any, was done, no process was left. A reply to the stop request alone proves
/// nothing.
pub proof fn lemma_success_needs_an_empty_slice(policy: ShutdownPolicy, answers: Seq<Answer>)
    requires
        reached(policy, answers) == (Phase::Finished { success: true }),
    ensures
        exists|stop: int, empty: int|
            0 <= stop < empty < answers.len() && #[trigger] stopped_at(policy, answers, stop)
                && #[trigger] empty_at(policy, answers, empty) && (answers[stop].reply == Reply::Queued {
                job: true,
            } ==> exists|done: int|
                stop < done < empty && #[trigger] job_done_at(policy, answers, done)),
{
    let n = answers.len() as int;
    assert(answers.take(n) =~= answers);
    lemma_cleanup_begins(policy, answers, n);
    let empty = choose|i: int|
        0 <= i < n && empty_at(policy, answers, i);
    lemma_settling_begins(policy, answers, empty);
    let stop = choose|stop: int|
        0 <= stop < empty && stopped_at(policy, answers, stop) && (answers[stop].reply
            == Reply::Queued { job: true } ==> exists|done: int|
            stop < done < empty && #[trigger] job_done_at(policy, answers, done));
    assert(stopped_at(policy, answers, stop) && empty_at(policy, answers, empty));
}

/// The slice was found empty while it settled.
pub open spec fn empty_at(policy: ShutdownPolicy, answers: Seq<Answer>, i: int) -> bool {
    phase_at(policy, answers, i) is Settle && answers[i].reply == Reply::Populated(false)
}

/// The slice was stopped for the last time.
pub open spec fn stopped_at(policy: ShutdownPolicy, answers: Seq<Answer>, i: int) -> bool {
    phase_at(policy, answers, i) == Phase::StopAgain && answers[i].reply is Queued
}

/// The last stop job was done.
pub open spec fn job_done_at(policy: ShutdownPolicy, answers: Seq<Answer>, i: int) -> bool {
    phase_at(policy, answers, i) is SettleJob && answers[i].reply == Reply::Done
}

spec fn ended_well(phase: Phase) -> bool {
    match phase {
        Phase::CloseLease { ended } => ended,
        Phase::WatchGuardian { ended } => ended,
        Phase::StopGuardian { ended } => ended,
        Phase::GuardianJob { ended } => ended,
        Phase::Finished { success } => success,
        _ => false,
    }
}

proof fn lemma_cleanup_begins(policy: ShutdownPolicy, answers: Seq<Answer>, i: int)
    requires
        0 <= i <= answers.len(),
        ended_well(phase_at(policy, answers, i)),
    ensures
        exists|k: int| 0 <= k < i && empty_at(policy, answers, k),
    decreases i,
{
    if i == 0 {
        assert(answers.take(0) =~= Seq::<Answer>::empty());
    } else {
        lemma_step(policy, answers, i - 1);
        if ended_well(phase_at(policy, answers, i - 1)) {
            lemma_cleanup_begins(policy, answers, i - 1);
            let k = choose|k: int| 0 <= k < i - 1 && empty_at(policy, answers, k);
            assert(empty_at(policy, answers, k));
        } else {
            assert(empty_at(policy, answers, i - 1));
        }
    }
}

spec fn settling(phase: Phase) -> bool {
    match phase {
        Phase::Settle { until } => true,
        Phase::SettleKill { until } => true,
        Phase::SettleSleep { until } => true,
        _ => false,
    }
}

spec fn settling_job(phase: Phase) -> bool {
    match phase {
        Phase::SettleJob { until } => true,
        Phase::SettleJobPoll { until } => true,
        Phase::SettleJobKill { until } => true,
        _ => false,
    }
}

proof fn lemma_settling_begins(policy: ShutdownPolicy, answers: Seq<Answer>, i: int)
    requires
        0 <= i <= answers.len(),
        settling(phase_at(policy, answers, i)),
    ensures
        exists|stop: int|
            0 <= stop < i && stopped_at(policy, answers, stop) && (answers[stop].reply
                == Reply::Queued { job: true } ==> exists|done: int|
                stop < done < i && #[trigger] job_done_at(policy, answers, done)),
    decreases i,
{
    if i == 0 {
        assert(answers.take(0) =~= Seq::<Answer>::empty());
    } else {
        lemma_step(policy, answers, i - 1);
        let before = phase_at(policy, answers, i - 1);
        if settling(before) {
            lemma_settling_begins(policy, answers, i - 1);
            let stop = choose|stop: int|
                0 <= stop < i - 1 && stopped_at(policy, answers, stop) && (answers[stop].reply
                    == Reply::Queued { job: true } ==> exists|done: int|
                    stop < done < i - 1 && #[trigger] job_done_at(policy, answers, done));
            if answers[stop].reply == (Reply::Queued { job: true }) {
                let done = choose|done: int|
                    stop < done < i - 1 && #[trigger] job_done_at(policy, answers, done);
                assert(stop < done < i && job_done_at(policy, answers, done));
            }
            assert(stopped_at(policy, answers, stop));
        } else if before is SettleJob {
            assert(job_done_at(policy, answers, i - 1));
            lemma_waiting_begins(policy, answers, i - 1);
            let stop = choose|stop: int| 0 <= stop < i - 1 && stopped_at(policy, answers, stop);
            assert(stopped_at(policy, answers, stop));
        } else {
            assert(stopped_at(policy, answers, i - 1));
        }
    }
}

proof fn lemma_waiting_begins(policy: ShutdownPolicy, answers: Seq<Answer>, i: int)
    requires
        0 <= i <= answers.len(),
        settling_job(phase_at(policy, answers, i)),
    ensures
        exists|stop: int| 0 <= stop < i && stopped_at(policy, answers, stop),
    decreases i,
{
    if i == 0 {
        assert(answers.take(0) =~= Seq::<Answer>::empty());
    } else {
        lemma_step(policy, answers, i - 1);
        if settling_job(phase_at(policy, answers, i - 1)) {
            lemma_waiting_begins(policy, answers, i - 1);
            let stop = choose|stop: int| 0 <= stop < i - 1 && stopped_at(policy, answers, stop);
            assert(stopped_at(policy, answers, stop));
        } else {
            assert(stopped_at(policy, answers, i - 1));
        }
    }
}

/// The slice is stopped again only after it was seen to be empty or everything in it was
/// killed.
pub proof fn lemma_what_outlives_the_grace_is_killed(
    policy: ShutdownPolicy,
    answers: Seq<Answer>,
    i: int,
)
    requires
        0 <= i <= answers.len(),
        phase_at(policy, answers, i) == Phase::StopAgain,
    ensures
        i > 0,
        ({
            let before = phase_at(policy, answers, i - 1);
            let reply = answers[i - 1].reply;
            ||| before == Phase::Verify && reply == Reply::Populated(false)
            ||| before == Phase::Kill && reply == Reply::Done
        }),
{
    if i == 0 {
        assert(answers.take(0) =~= Seq::<Answer>::empty());
    } else {
        lemma_step(policy, answers, i - 1);
    }
}

/// Processes that go on running are not killed within the grace period: a kill follows a
/// wait that timed out or failed, or processes that came back after the slice had seemed
/// empty.
pub proof fn lemma_no_kill_within_the_grace_period(
    policy: ShutdownPolicy,
    answers: Seq<Answer>,
    i: int,
)
    requires
        0 <= i <= answers.len(),
        phase_at(policy, answers, i) == Phase::Kill,
    ensures
        i > 0,
        ({
            let before = phase_at(policy, answers, i - 1);
            let reply = answers[i - 1].reply;
            ||| before == Phase::Verify && reply == Reply::Populated(true)
            ||| before is GraceJob && reply != Reply::Done
            ||| before is GracePoll && !(reply is Populated)
            ||| before is GraceSleep && reply != Reply::Done
        }),
{
    if i == 0 {
        assert(answers.take(0) =~= Seq::<Answer>::empty());
    } else {
        lemma_step(policy, answers, i - 1);
    }
}

/// The liveness pipe is closed before the end, whatever happened.
pub proof fn lemma_lease_is_always_closed(policy: ShutdownPolicy, answers: Seq<Answer>)
    requires
        reached(policy, answers) is Finished,
    ensures
        exists|i: int|
            0 <= i < answers.len() && (#[trigger] phase_at(policy, answers, i)).asks()
                == Action::CloseLease,
{
    let n = answers.len() as int;
    assert(answers.take(n) =~= answers);
    lemma_lease_is_closed_by(policy, answers, n);
}

spec fn after_lease(phase: Phase) -> bool {
    match phase {
        Phase::WatchGuardian { ended } => true,
        Phase::StopGuardian { ended } => true,
        Phase::GuardianJob { ended } => true,
        Phase::Finished { success } => true,
        _ => false,
    }
}

proof fn lemma_lease_is_closed_by(policy: ShutdownPolicy, answers: Seq<Answer>, i: int)
    requires
        0 <= i <= answers.len(),
        after_lease(phase_at(policy, answers, i)),
    ensures
        exists|k: int|
            0 <= k < i && (#[trigger] phase_at(policy, answers, k)).asks() == Action::CloseLease,
    decreases i,
{
    if i == 0 {
        assert(answers.take(0) =~= Seq::<Answer>::empty());
    } else {
        lemma_step(policy, answers, i - 1);
        if after_lease(phase_at(policy, answers, i - 1)) {
            lemma_lease_is_closed_by(policy, answers, i - 1);
            let k = choose|k: int|
                0 <= k < i - 1 && (#[trigger] phase_at(policy, answers, k)).asks()
                    == Action::CloseLease;
            assert(phase_at(policy, answers, k).asks() == Action::CloseLease);
        } else {
            assert(phase_at(policy, answers, i - 1).asks() == Action::CloseLease);
        }
    }
}

/// The end of the grace period, in the phases that lie within it.
pub open spec fn grace_end(phase: Phase) -> Option<Instant> {
    match phase {
        Phase::GraceJob { until } => Some(until),
        Phase::GracePoll { until } => Some(until),
        Phase::GraceSleep { until } => Some(until),
        _ => None,
    }
}

/// The grace period is counted once, from the answer to the first stop request: nothing that
/// happens within it makes it longer.
pub proof fn lemma_grace_period_is_fixed(policy: ShutdownPolicy, answers: Seq<Answer>, i: int)
    requires
        0 <= i <= answers.len(),
        grace_end(phase_at(policy, answers, i)) is Some,
    ensures
        i > 2,
        grace_end(phase_at(policy, answers, i)) == Some(
            time::later_by(answers[2].at, policy.grace),
        ),
    decreases i,
{
    if i == 0 {
        assert(answers.take(0) =~= Seq::<Answer>::empty());
    } else {
        lemma_step(policy, answers, i - 1);
        let before = phase_at(policy, answers, i - 1);
        if grace_end(before) is Some {
            lemma_grace_period_is_fixed(policy, answers, i - 1);
        } else {
            assert(before == Phase::Stop);
            lemma_step(policy, answers, i - 2);
            lemma_step(policy, answers, i - 3);
            lemma_first_phase(policy, answers, i - 3);
        }
    }
}

/// The end of the forced termination, in the phases that lie within it.
pub open spec fn force_end(phase: Phase) -> Option<Instant> {
    match phase {
        Phase::SettleJob { until } => Some(until),
        Phase::SettleJobPoll { until } => Some(until),
        Phase::SettleJobKill { until } => Some(until),
        Phase::Settle { until } => Some(until),
        Phase::SettleKill { until } => Some(until),
        Phase::SettleSleep { until } => Some(until),
        _ => None,
    }
}

/// The forced termination is counted once, from the answer to the last stop request.
pub proof fn lemma_forced_termination_is_fixed(policy: ShutdownPolicy, answers: Seq<Answer>, i: int)
    requires
        0 <= i <= answers.len(),
        force_end(phase_at(policy, answers, i)) is Some,
    ensures
        exists|stop: int|
            0 <= stop < i && #[trigger] stopped_at(policy, answers, stop) && force_end(
                phase_at(policy, answers, i),
            ) == Some(time::later_by(answers[stop].at, policy.force)),
    decreases i,
{
    if i == 0 {
        assert(answers.take(0) =~= Seq::<Answer>::empty());
    } else {
        lemma_step(policy, answers, i - 1);
        let before = phase_at(policy, answers, i - 1);
        if force_end(before) is Some {
            lemma_forced_termination_is_fixed(policy, answers, i - 1);
            let stop = choose|stop: int|
                0 <= stop < i - 1 && #[trigger] stopped_at(policy, answers, stop) && force_end(
                    before,
                ) == Some(time::later_by(answers[stop].at, policy.force));
            assert(stopped_at(policy, answers, stop));
        } else {
            assert(stopped_at(policy, answers, i - 1));
        }
    }
}

/// While the last stop job can still start processes, or processes are left, they are killed
/// again and again.
pub proof fn lemma_killing_is_repeated(phase: Phase, now: Instant, policy: ShutdownPolicy)
    requires
        phase is Settle || phase is SettleJobPoll,
    ensures
        phase.next(Reply::Populated(true), now, policy).asks() is KillSlice,
        phase.next(Reply::Populated(true), now, policy).next(Reply::Done, now, policy)
            == if phase is Settle {
            Phase::SettleSleep { until: force_end(phase)->0 }
        } else {
            Phase::SettleJob { until: force_end(phase)->0 }
        },
{
}

/// Escalation is never skipped: whatever keeps the stop job, the population or the wait of the
/// grace period from being answered in time leads to killing the whole slice.
pub proof fn lemma_escalation_is_never_skipped(
    phase: Phase,
    reply: Reply,
    now: Instant,
    policy: ShutdownPolicy,
)
    requires
        phase is GraceJob || phase is GracePoll || phase is GraceSleep,
        reply == Reply::TimedOut || reply == Reply::Failed,
    ensures
        phase.next(reply, now, policy).asks() == (Action::KillSlice { until: None }),
{
}

/// The first thing that is asked for is to wait for the compositor, then for signals, then the
/// slice is stopped. A failure on the way leaves the slice to the service manager.
pub proof fn lemma_how_the_end_begins(reply: Reply, now: Instant, policy: ShutdownPolicy)
    ensures
        Phase::X11Release.asks() == Action::AwaitX11Release,
        Phase::X11Release.next(Reply::Done, now, policy).asks() == Action::WatchJobs,
        Phase::X11Release.next(Reply::Done, now, policy).next(Reply::Done, now, policy).asks()
            == Action::StopSlice,
        reply != Reply::Done ==> Phase::X11Release.next(reply, now, policy) == (Phase::CloseLease {
            ended: false,
        }) && Phase::Watch.next(reply, now, policy) == (Phase::CloseLease { ended: false }),
        !(reply is Queued) ==> Phase::Stop.next(reply, now, policy) == (Phase::CloseLease {
            ended: false,
        }),
{
}

/// The grace period begins when the stop was requested. All that is waited for within it ends
/// at the same time, which is the grace of the policy later.
pub proof fn lemma_grace_is_waited_for(
    job: bool,
    requested_at: Instant,
    later: Instant,
    policy: ShutdownPolicy,
    until: Instant,
)
    requires
        until.nanos == requested_at.nanos + policy.grace.nanos,
    ensures
        ({
            let begun = Phase::Stop.next(Reply::Queued { job }, requested_at, policy);
            let read = Action::ReadPopulation { until: Some(until) };
            &&& begun.asks() == if job {
                Action::AwaitJob { until }
            } else {
                read
            }
            &&& job ==> begun.next(Reply::Done, later, policy).asks() == read
            &&& ({
                let polled = if job {
                    begun.next(Reply::Done, later, policy)
                } else {
                    begun
                };
                let left = polled.next(Reply::Populated(true), later, policy);
                &&& left.asks() == (Action::Sleep { until })
                &&& left.next(Reply::Done, later, policy) == polled
                &&& polled.next(Reply::Populated(false), later, policy).asks()
                    == (Action::ReadPopulation { until: None })
            })
        }),
{
}

/// A slice that has emptied in time is looked at once more: it is stopped again where it is
/// still empty, killed where it is not, and left where that cannot be told. A slice that was
/// killed is stopped again.
pub proof fn lemma_emptiness_is_verified(reply: Reply, now: Instant, policy: ShutdownPolicy)
    ensures
        Phase::Verify.next(Reply::Populated(false), now, policy).asks() == Action::StopSlice,
        Phase::Verify.next(Reply::Populated(true), now, policy).asks() == (Action::KillSlice {
            until: None,
        }),
        !(reply is Populated) ==> Phase::Verify.next(reply, now, policy) == (Phase::CloseLease {
            ended: false,
        }),
        Phase::Kill.asks() == (Action::KillSlice { until: None }),
        Phase::Kill.next(Reply::Done, now, policy).asks() == Action::StopSlice,
        reply != Reply::Done ==> Phase::Kill.next(reply, now, policy) == (Phase::CloseLease {
            ended: false,
        }),
        Phase::StopAgain.asks() == Action::StopSlice,
        !(reply is Queued) ==> Phase::StopAgain.next(reply, now, policy) == (Phase::CloseLease {
            ended: false,
        }),
{
}

/// The last stop has the force of the policy to take effect, counted from its request. Its job
/// is waited for a poll interval at a time, and what is found running in between is killed;
/// once the job is done the slice is killed until it is empty.
pub proof fn lemma_force_is_waited_for(
    job: bool,
    requested_at: Instant,
    later: Instant,
    policy: ShutdownPolicy,
    until: Instant,
)
    requires
        until.nanos == requested_at.nanos + policy.force.nanos,
    ensures
        ({
            let begun = Phase::StopAgain.next(Reply::Queued { job }, requested_at, policy);
            let read = Action::ReadPopulation { until: Some(until) };
            let kill = Action::KillSlice { until: Some(until) };
            let settled = if job {
                begun.next(Reply::Done, later, policy)
            } else {
                begun
            };
            let left = settled.next(Reply::Populated(true), later, policy);
            &&& begun.asks() == if job {
                Action::AwaitJobOrPoll { until }
            } else {
                read
            }
            &&& settled.asks() == read
            &&& left.asks() == kill
            &&& left.next(Reply::Done, later, policy).asks() == (Action::Sleep { until })
            &&& left.next(Reply::Done, later, policy).next(Reply::Done, later, policy) == settled
            &&& settled.next(Reply::Populated(false), later, policy) == (Phase::CloseLease {
                ended: true,
            })
            &&& job ==> ({
                let polled = begun.next(Reply::Polled, later, policy);
                let found = polled.next(Reply::Populated(true), later, policy);
                &&& polled.asks() == read
                &&& polled.next(Reply::Populated(false), later, policy) == begun
                &&& found.asks() == kill
                &&& found.next(Reply::Done, later, policy) == begun
            })
        }),
{
}

/// Once the slice settles, nothing that fails or times out can still end well: the lease is
/// closed on a session that has not ended.
pub proof fn lemma_settling_fails_for_good(
    phase: Phase,
    reply: Reply,
    now: Instant,
    policy: ShutdownPolicy,
)
    requires
        phase is SettleJob || phase is SettleJobPoll || phase is SettleJobKill || phase is Settle
            || phase is SettleKill || phase is SettleSleep,
        reply == Reply::TimedOut || reply == Reply::Failed || reply is Queued,
    ensures
        phase.next(reply, now, policy) == (Phase::CloseLease { ended: false }),
{
}

/// Whatever came of the slice, the lease is closed, signals are asked for, the guardian is
/// stopped and its job waited for. The session has ended well exactly if its slice has, and
/// the guardian was stopped.
pub proof fn lemma_how_the_end_ends(
    ended: bool,
    any: Reply,
    reply: Reply,
    now: Instant,
    policy: ShutdownPolicy,
)
    ensures
        ({
            let lease = Phase::CloseLease { ended };
            let watch = lease.next(any, now, policy);
            let stop = watch.next(Reply::Done, now, policy);
            let job = stop.next(Reply::Queued { job: true }, now, policy);
            &&& lease.asks() == Action::CloseLease
            &&& watch.asks() == Action::WatchJobs
            &&& stop.asks() == Action::StopGuardian
            &&& job.asks() == Action::AwaitGuardianJob
            &&& job.next(Reply::Done, now, policy).asks() == (Action::Finish { success: ended })
            &&& stop.next(Reply::Queued { job: false }, now, policy).asks() == (Action::Finish {
                success: ended,
            })
            &&& reply != Reply::Done ==> watch.next(reply, now, policy).asks() == (Action::Finish {
                success: false,
            }) && job.next(reply, now, policy).asks() == (Action::Finish { success: false })
            &&& !(reply is Queued) ==> stop.next(reply, now, policy).asks() == (Action::Finish {
                success: false,
            })
        }),
{
}

/// The end of a session is final.
pub proof fn lemma_the_end_is_final(success: bool, reply: Reply, now: Instant, policy: ShutdownPolicy)
    ensures
        (Phase::Finished { success }).next(reply, now, policy) == (Phase::Finished { success }),
        (Phase::Finished { success }).asks() == (Action::Finish { success }),
{
}

/// Calls take five seconds at most, and the population is looked at twenty times a second.
pub proof fn lemma_waits_are_bounded()
    ensures
        BUS_TIMEOUT == 5 * time::NANOS_PER_SEC,
        20 * POLL_INTERVAL == time::NANOS_PER_SEC,
        BUS_TIMEOUT == 100 * POLL_INTERVAL,
{
}

/// Processes usually have the five seconds of the application and the two of Xwayland, one
/// after the other, with a second to spare, and then as long as calls may take.
pub proof fn lemma_the_usual_grace_covers_both_stops()
    ensures
        usual_policy().grace.nanos == (5 + 2 + 1) * time::NANOS_PER_SEC,
        usual_policy().force.nanos == 5 * time::NANOS_PER_SEC,
        usual_policy().force.nanos == BUS_TIMEOUT,
{
}

} // verus!
