//! The measurement window of a run: which frames count, and when their receipt does.

use crate::accumulator::{Accumulator, Summary, Tally};
use crate::metrics::{CapturePath, FrameStats};
use crate::names::NameMap;
use crate::receiver::{self, Received, State};
use crate::report::{self, counter_delta, is_measurable, outstanding, us};
use crate::time::{self, Duration, Instant};
use vstd::prelude::*;

verus! {

/// A frame that is still incomplete so many nanoseconds after it was sent counts as lost.
pub const RECEIPT_GRACE: u128 = 250_000_000;

/// Progress is reported every so many nanoseconds.
pub const PROGRESS_INTERVAL: u128 = 5_000_000_000;

/// What is left when a frame is forgotten.
pub open spec fn forgotten(received: Received, frame: u32) -> Received {
    Received { frames: received.frames.remove(frame), ..received }
}

/// What is known about the frames that were sent and have not been accounted for.
#[verifier::ext_equal]
pub ghost struct Books {
    pub tally: Tally,
    pub received: Received,
    /// The frames whose receipt is still open.
    pub open: Seq<FrameStats>,
}

impl Books {
    /// All shards of a frame have come in: the times of the first, the last, and between
    /// them are recorded.
    pub open spec fn completed(self, frame: FrameStats) -> Books {
        let arrival = self.received.frames[frame.frame_number];
        let start = frame.capture_started_at;
        Books {
            tally: self.tally.recorded(
                "loopback_first"@,
                report::micros(time::elapsed_nanos(arrival.first, start)),
            ).recorded(
                "loopback_complete"@,
                report::micros(time::elapsed_nanos(arrival.last, start)),
            ).recorded(
                "loopback_spread"@,
                report::micros(time::elapsed_nanos(arrival.last, arrival.first)),
            ),
            received: forgotten(self.received, frame.frame_number),
            ..self
        }
    }

    /// A frame is given up.
    pub open spec fn lost(self, frame: FrameStats) -> Books {
        Books {
            tally: Tally {
                incomplete_receipts: (self.tally.incomplete_receipts + 1) as u64,
                ..self.tally
            },
            received: forgotten(self.received, frame.frame_number),
            ..self
        }
    }

    /// A frame that is looked at is complete, lost or still open.
    pub open spec fn settled(self, frame: FrameStats, now: Instant, expire: bool) -> Books {
        if self.received.is_complete(frame.frame_number, frame.sent_datagrams) {
            self.completed(frame)
        } else if expire || time::elapsed_nanos(now, frame.completed_at) >= RECEIPT_GRACE {
            self.lost(frame)
        } else {
            Books { open: self.open.push(frame), ..self }
        }
    }

    /// Looks at frames one after another.
    pub open spec fn all_settled(self, frames: Seq<FrameStats>, now: Instant, expire: bool) -> Books
        decreases frames.len(),
    {
        if frames.len() == 0 {
            self
        } else {
            self.all_settled(frames.drop_last(), now, expire).settled(frames.last(), now, expire)
        }
    }

    /// The counts still have room for the receipts of so many frames.
    pub open spec fn has_room_for(self, frames: nat) -> bool {
        &&& self.tally.values_of_stage("loopback_first"@).len() + frames <= u64::MAX
        &&& self.tally.values_of_stage("loopback_complete"@).len() + frames <= u64::MAX
        &&& self.tally.values_of_stage("loopback_spread"@).len() + frames <= u64::MAX
        &&& self.tally.incomplete_receipts + frames <= u64::MAX
    }
}

proof fn lemma_loopback_names()
    ensures
        "loopback_first"@ != "loopback_complete"@,
        "loopback_first"@ != "loopback_spread"@,
        "loopback_complete"@ != "loopback_spread"@,
{
    reveal_strlit("loopback_first");
    reveal_strlit("loopback_complete");
    reveal_strlit("loopback_spread");
    assert("loopback_first"@[9] == 'f');
    assert("loopback_complete"@[9] == 'c');
    assert("loopback_spread"@[9] == 's');
}

/// The receipt of a frame takes room for one.
proof fn lemma_settling_takes_room(books: Books, frame: FrameStats, now: Instant, expire: bool, n: nat)
    requires
        n > 0,
        books.has_room_for(n),
    ensures
        books.settled(frame, now, expire).has_room_for((n - 1) as nat),
{
    lemma_loopback_names();
}

/// Looks at every frame whose receipt is open, and gives up those that are late, or all that
/// are incomplete.
pub fn resolve_receipts(
    pending: &mut Vec<FrameStats>,
    receiver: &mut State,
    accumulator: &mut Accumulator,
    now: Instant,
    expire: bool,
)
    requires
        old(accumulator).well_formed(),
        (Books { tally: old(accumulator)@, received: old(receiver)@, open: Seq::empty() }).has_room_for(
            old(pending)@.len(),
        ),
    ensures
        final(accumulator).well_formed(),
        (Books { tally: final(accumulator)@, received: final(receiver)@, open: final(pending)@ })
            == (Books {
            tally: old(accumulator)@,
            received: old(receiver)@,
            open: Seq::empty(),
        }).all_settled(old(pending)@, now, expire),
{
    let ghost start = Books {
        tally: old(accumulator)@,
        received: old(receiver)@,
        open: Seq::<FrameStats>::empty(),
    };
    let ghost frames = pending@;
    let mut remaining: Vec<FrameStats> = Vec::new();
    let mut i: usize = 0;
    proof {
        assert(frames.take(0) =~= Seq::<FrameStats>::empty());
    }
    while i < pending.len()
        invariant
            i <= pending@.len(),
            pending@ == frames,
            accumulator.well_formed(),
            (Books { tally: accumulator@, received: receiver@, open: remaining@ })
                == start.all_settled(frames.take(i as int), now, expire),
            (Books { tally: accumulator@, received: receiver@, open: remaining@ }).has_room_for(
                (frames.len() - i) as nat,
            ),
        decreases pending@.len() - i,
    {
        let frame: FrameStats = pending[i];
        let ghost books = Books { tally: accumulator@, received: receiver@, open: remaining@ };
        proof {
            let more = frames.take(i + 1);
            assert(more.drop_last() =~= frames.take(i as int));
            assert(more.last() == frame);
            lemma_settling_takes_room(books, frame, now, expire, (frames.len() - i) as nat);
            lemma_loopback_names();
        }
        match receiver.take_complete(frame.frame_number, frame.sent_datagrams) {
            Some(receipt) => {
                let captured_at: Instant = frame.capture_started_at;
                let first: Instant = receipt.first();
                let last: Instant = receipt.last();
                accumulator.record("loopback_first", us(first.duration_since(captured_at)));
                accumulator.record("loopback_complete", us(last.duration_since(captured_at)));
                accumulator.record("loopback_spread", us(last.duration_since(first)));
                proof {
                    assert((Books { tally: accumulator@, received: receiver@, open: remaining@ })
                        =~= books.completed(frame));
                }
            },
            None => {
                if expire || now.duration_since(frame.completed_at).nanos >= RECEIPT_GRACE {
                    accumulator.give_up_receipt();
                    receiver.discard(frame.frame_number);
                    proof {
                        assert((Books { tally: accumulator@, received: receiver@, open: remaining@ })
                            =~= books.lost(frame));
                    }
                } else {
                    remaining.push(frame);
                }
            },
        }
        i = i + 1;
    }
    proof {
        assert(frames.take(frames.len() as int) =~= frames);
    }
    *pending = remaining;
}

/// The indices of the items of one sequence in another, in order.
pub open spec fn picks(at: Seq<int>, some: Seq<FrameStats>, all: Seq<FrameStats>) -> bool {
    &&& at.len() == some.len()
    &&& forall|i: int, j: int| 0 <= i < j < at.len() ==> at[i] < at[j]
    &&& forall|i: int|
        0 <= i < at.len() ==> 0 <= #[trigger] at[i] < all.len() && some[i] == all[at[i]]
}

/// Whether frames are some of all, in their order.
pub open spec fn is_subsequence(some: Seq<FrameStats>, all: Seq<FrameStats>) -> bool {
    exists|at: Seq<int>| picks(at, some, all)
}

/// Whether a stage measures the receipt of frames.
pub open spec fn is_receipt_stage(stage: Seq<char>) -> bool {
    stage == "loopback_first"@ || stage == "loopback_complete"@ || stage == "loopback_spread"@
}

proof fn lemma_subsequences_grow(
    some: Seq<FrameStats>,
    all: Seq<FrameStats>,
    frame: FrameStats,
)
    requires
        is_subsequence(some, all),
    ensures
        is_subsequence(some, all.push(frame)),
        is_subsequence(some.push(frame), all.push(frame)),
{
    let at = choose|at: Seq<int>| picks(at, some, all);
    assert(picks(at, some, all.push(frame)));
    assert(picks(at.push(all.len() as int), some.push(frame), all.push(frame)));
}

/// What a look at open receipts leaves. Each frame is recorded as complete, in all three
/// stages, or counted as incomplete, or still open. Those that are still open are some of the
/// frames, unchanged and in their order. None of them is late, and there are none where all
/// are given up. What was recorded before stays, and nothing else in the tally changes. No
/// shard is received, and only the receipts of these frames are forgotten.
pub proof fn lemma_every_receipt_is_accounted_for(
    books: Books,
    frames: Seq<FrameStats>,
    now: Instant,
    expire: bool,
)
    requires
        books.open.len() == 0,
        books.tally.incomplete_receipts + frames.len() <= u64::MAX,
    ensures
        ({
            let after = books.all_settled(frames, now, expire);
            let complete = after.tally.values_of_stage("loopback_complete"@).len()
                - books.tally.values_of_stage("loopback_complete"@).len();
            &&& complete >= 0
            &&& frames.len() == complete + after.open.len() + after.tally.incomplete_receipts
                - books.tally.incomplete_receipts
            &&& forall|stage: Seq<char>| #[trigger]
                is_receipt_stage(stage) ==> after.tally.values_of_stage(stage).len()
                    == books.tally.values_of_stage(stage).len() + complete
        }),
        ({
            let after = books.all_settled(frames, now, expire);
            &&& is_subsequence(after.open, frames)
            &&& expire ==> after.open.len() == 0
            &&& forall|i: int|
                0 <= i < after.open.len() ==> time::elapsed_nanos(
                    now,
                    (#[trigger] after.open[i]).completed_at,
                ) < RECEIPT_GRACE
        }),
        ({
            let after = books.all_settled(frames, now, expire);
            &&& after.tally == (Tally {
                stages: after.tally.stages,
                incomplete_receipts: after.tally.incomplete_receipts,
                ..books.tally
            })
            &&& forall|stage: Seq<char>|
                #![trigger after.tally.values_of_stage(stage)]
                books.tally.values_of_stage(stage).is_prefix_of(after.tally.values_of_stage(stage))
            &&& forall|stage: Seq<char>|
                #![trigger after.tally.values_of_stage(stage)]
                !is_receipt_stage(stage) ==> after.tally.values_of_stage(stage)
                    == books.tally.values_of_stage(stage) && (after.tally.stages.contains_key(stage)
                    <==> books.tally.stages.contains_key(stage))
        }),
        ({
            let after = books.all_settled(frames, now, expire);
            &&& after.received == (Received {
                frames: after.received.frames,
                ..books.received
            })
            &&& forall|frame: u32| #[trigger]
                after.received.frames.contains_key(frame) ==> books.received.frames.contains_key(
                    frame,
                ) && after.received.frames[frame] == books.received.frames[frame]
            &&& books.received.well_formed() ==> after.received.well_formed()
            &&& forall|frame: u32| #[trigger]
                books.received.frames.contains_key(frame)
                    && !after.received.frames.contains_key(frame) ==> exists|i: int|
                    0 <= i < frames.len() && (#[trigger] frames[i]).frame_number == frame
        }),
    decreases frames.len(),
{
    let after = books.all_settled(frames, now, expire);
    if frames.len() == 0 {
        assert(picks(Seq::empty(), after.open, frames));
    } else {
        lemma_loopback_names();
        let rest = frames.drop_last();
        let last = frames.last();
        let before = books.all_settled(rest, now, expire);
        lemma_every_receipt_is_accounted_for(books, rest, now, expire);
        lemma_subsequences_grow(before.open, rest, last);
        let kept = before.received.frames;
        assert(after.received.frames == kept || after.received.frames == kept.remove(
            last.frame_number,
        ));
        if before.received.well_formed() {
            receiver::lemma_forgetting_stays_well_formed(before.received, last.frame_number);
        }
        assert(rest.push(last) =~= frames);
        assert forall|stage: Seq<char>|
            #![trigger after.tally.values_of_stage(stage)]
            books.tally.values_of_stage(stage).is_prefix_of(after.tally.values_of_stage(stage)) && (
            !is_receipt_stage(stage) ==> after.tally.values_of_stage(stage)
                == books.tally.values_of_stage(stage) && (after.tally.stages.contains_key(stage)
                <==> books.tally.stages.contains_key(stage))) by {
            assert(books.tally.values_of_stage(stage).is_prefix_of(
                before.tally.values_of_stage(stage),
            ));
        }
        assert forall|frame: u32| #[trigger]
            after.received.frames.contains_key(frame) implies books.received.frames.contains_key(
            frame,
        ) && after.received.frames[frame] == books.received.frames[frame] by {
            assert(kept.contains_key(frame));
        }
        assert forall|frame: u32| #[trigger]
            books.received.frames.contains_key(frame) && !after.received.frames.contains_key(
                frame,
            ) implies exists|i: int|
            0 <= i < frames.len() && (#[trigger] frames[i]).frame_number == frame by {
            if kept.contains_key(frame) {
                assert(frames[frames.len() - 1].frame_number == frame);
            } else {
                let i = choose|i: int|
                    0 <= i < rest.len() && (#[trigger] rest[i]).frame_number == frame;
                assert(frames[i].frame_number == frame);
            }
        }
    }
}

/// Whether a frame was captured anew and sent, so that its receipt is waited for.
pub open spec fn awaits_receipt(stats: &FrameStats) -> bool {
    stats.send_success && stats.capture_path != CapturePath::Reencode
}

/// Whether the receipt of a frame is waited for.
fn expects_receipt(stats: &FrameStats) -> (r: bool)
    ensures
        r == awaits_receipt(stats),
{
    stats.send_success && stats.capture_path != CapturePath::Reencode
}

/// The window of a measurement. It opens when the warmup is over.
#[derive(Clone, Copy, Debug, PartialEq, Eq, Structural)]
pub struct Window {
    pub warmup_deadline: Instant,
    pub deadline: Instant,
    pub opened: Option<Instant>,
}

impl Window {
    /// Whether a frame begins and ends inside the window, which closes at `end`.
    pub open spec fn covers(self, stats: &FrameStats, end: Instant) -> bool {
        &&& self.opened is Some
        &&& self.opened->0.nanos <= stats.capture_started_at.nanos
        &&& stats.completed_at.nanos < end.nanos
    }

    /// How long the window was open, where it closes at `end`.
    pub open spec fn length(self, end: Instant) -> int {
        match self.opened {
            Some(opened) => time::elapsed_nanos(end, opened),
            None => time::elapsed_nanos(end, self.warmup_deadline),
        }
    }

    /// When the window closes, where the measurement stops at some time.
    pub open spec fn closing(self, now: Instant) -> Instant {
        if now.nanos <= self.deadline.nanos {
            now
        } else {
            self.deadline
        }
    }

    /// Whether a frame begins and ends inside the window, which closes at `end`.
    pub fn contains(&self, stats: &FrameStats, end: Instant) -> (r: bool)
        ensures
            r == self.covers(stats, end),
    {
        match self.opened {
            Some(opened) => opened.nanos <= stats.capture_started_at.nanos
                && stats.completed_at.nanos < end.nanos,
            None => false,
        }
    }
}

/// What a measurement has come to.
#[verifier::ext_equal]
pub ghost struct Progress {
    pub window: Window,
    pub fps: u32,
    pub tally: Tally,
    /// The frames whose receipt is open.
    pub pending: Seq<FrameStats>,
    /// The counters at the opening of the window.
    pub counters: Option<Map<Seq<char>, u64>>,
    /// Messages about frames that were lost while the window was open.
    pub stats_lost: u64,
    pub last_progress: Instant,
}

impl Progress {
    /// A measurement that has just begun. Warmup and measurement are given in seconds.
    pub open spec fn begun(
        origin: Instant,
        started: Instant,
        warmup: u64,
        duration: u64,
        fps: u32,
    ) -> Progress {
        let warm = time::later_by(origin, Duration { nanos: (warmup * 1_000_000_000) as u128 });
        Progress {
            window: Window {
                warmup_deadline: warm,
                deadline: time::later_by(
                    warm,
                    Duration { nanos: (duration * 1_000_000_000) as u128 },
                ),
                opened: None,
            },
            fps,
            tally: Accumulator::nothing(),
            pending: Seq::empty(),
            counters: None,
            stats_lost: 0,
            last_progress: started,
        }
    }

    /// Whether a measurement that has ended still waits for receipts.
    pub open spec fn waits(self, now: Instant, deadline: Instant) -> bool {
        self.pending.len() > 0 && now.nanos < deadline.nanos
    }

    /// A frame inside the window is added, and its receipt is waited for where it has one.
    pub open spec fn measured(self, stats: &FrameStats) -> Progress {
        Progress {
            tally: self.tally.added(stats, self.fps),
            pending: if awaits_receipt(stats) {
                self.pending.push(*stats)
            } else {
                self.pending
            },
            ..self
        }
    }

    /// The window opens, with the counters as they stand.
    pub open spec fn opened(self, now: Instant, counters: Map<Seq<char>, u64>) -> Progress {
        Progress {
            window: Window { opened: Some(now), ..self.window },
            counters: Some(counters),
            ..self
        }
    }

    /// The receipts that are open are looked at.
    pub open spec fn settled(self, received: Received, now: Instant, expire: bool) -> Books {
        (Books { tally: self.tally, received, open: Seq::empty() }).all_settled(
            self.pending,
            now,
            expire,
        )
    }

    /// Messages were lost.
    pub open spec fn missing(self, messages: u64, ended: bool) -> Progress {
        Progress {
            stats_lost: if ended || self.window.opened is Some {
                (self.stats_lost + messages) as u64
            } else {
                self.stats_lost
            },
            ..self
        }
    }

    /// Whether it is time to report. Nothing is reported during the warmup.
    pub open spec fn report_due(self, now: Instant) -> bool {
        self.window.opened is Some && time::elapsed_nanos(now, self.last_progress)
            >= PROGRESS_INTERVAL
    }

    pub open spec fn reported(self) -> ProgressReport {
        ProgressReport {
            successful_frames: self.tally.successful_frames,
            failed_frames: self.tally.failed_frames,
            stats_lost: self.stats_lost,
        }
    }

    /// Whether a frame can be measured: the counts have room for it, and the stages of a new
    /// capture have sums.
    pub open spec fn can_measure(self, stats: &FrameStats) -> bool {
        &&& self.tally.has_room_for(stats, self.fps)
        &&& awaits_receipt(stats) ==> report::measurable(stats)
    }

    /// How many frames have come in whole.
    pub open spec fn complete(self) -> nat {
        self.tally.values_of_stage("loopback_complete"@).len()
    }

    /// Every new capture inside the window that was sent has come in whole, is given up, or
    /// is still waited for.
    pub open spec fn balanced(self) -> bool {
        &&& forall|stage: Seq<char>| #[trigger]
            is_receipt_stage(stage) ==> self.tally.values_of_stage(stage).len() == self.complete()
        &&& self.tally.successful_frames == self.complete() + self.tally.incomplete_receipts
            + self.pending.len()
    }
}

proof fn lemma_frames_are_no_receipts(progress: Progress, stats: &FrameStats, name: Seq<char>)
    requires
        is_receipt_stage(name),
    ensures
        progress.measured(stats).tally.values_of_stage(name) == progress.tally.values_of_stage(
            name,
        ),
{
    reveal_strlit("loopback_first");
    reveal_strlit("loopback_complete");
    reveal_strlit("loopback_spread");
    reveal_strlit("send_interval");
    assert(name[0] == 'l');
    assert("send_interval"@[0] == 's');
    if report::stage_values(stats).contains_key(name) {
        report::lemma_stages_are_no_receipts(stats, name);
    }
}

/// A frame that is measured is counted once, and every new capture stays accounted for. Only
/// a new capture that was sent counts as one.
pub proof fn lemma_measuring_accounts_for_a_frame(progress: Progress, stats: &FrameStats)
    requires
        progress.balanced(),
        progress.tally.has_room_for(stats, progress.fps),
    ensures
        progress.measured(stats).balanced(),
        ({
            let after = progress.measured(stats).tally;
            let before = progress.tally;
            &&& after.successful_frames + after.failed_frames + after.reencoded_frames
                == before.successful_frames + before.failed_frames + before.reencoded_frames + 1
            &&& after.successful_frames == before.successful_frames + if awaits_receipt(stats) {
                1int
            } else {
                0
            }
        }),
{
    assert forall|stage: Seq<char>| #[trigger] is_receipt_stage(stage) implies progress.measured(
        stats,
    ).tally.values_of_stage(stage) == progress.tally.values_of_stage(stage) by {
        lemma_frames_are_no_receipts(progress, stats, stage);
    }
    assert(is_receipt_stage("loopback_complete"@));
}

/// A look at the open receipts keeps every new capture accounted for. Where all are given up,
/// each has come in whole or is counted as incomplete.
pub proof fn lemma_settling_accounts_for_frames(
    progress: Progress,
    received: Received,
    now: Instant,
    expire: bool,
)
    requires
        progress.balanced(),
    ensures
        ({
            let books = progress.settled(received, now, expire);
            let after = Progress { tally: books.tally, pending: books.open, ..progress };
            &&& after.balanced()
            &&& after.tally.successful_frames == progress.tally.successful_frames
            &&& expire ==> after.tally.successful_frames == after.complete()
                + after.tally.incomplete_receipts
        }),
{
    let start = Books { tally: progress.tally, received, open: Seq::empty() };
    assert(is_receipt_stage("loopback_first"@));
    assert(is_receipt_stage("loopback_complete"@));
    assert(is_receipt_stage("loopback_spread"@));
    lemma_every_receipt_is_accounted_for(start, progress.pending, now, expire);
}

/// A measurement under way.
pub struct Measurement {
    window: Window,
    fps: u32,
    accumulator: Accumulator,
    pending: Vec<FrameStats>,
    counters: Option<NameMap<u64>>,
    stats_lost: u64,
    last_progress: Instant,
}

impl View for Measurement {
    type V = Progress;

    closed spec fn view(&self) -> Progress {
        Progress {
            window: self.window,
            fps: self.fps,
            tally: self.accumulator@,
            pending: self.pending@,
            counters: match self.counters {
                Some(counters) => Some(counters@),
                None => None,
            },
            stats_lost: self.stats_lost,
            last_progress: self.last_progress,
        }
    }
}

/// What a measurement reports while it is under way.
#[derive(Clone, Copy, Debug, PartialEq, Eq, Structural)]
pub struct ProgressReport {
    pub successful_frames: u64,
    pub failed_frames: u64,
    pub stats_lost: u64,
}

/// What can happen while a measurement is under way.
pub enum MeasureEvent {
    /// Somebody interrupted it.
    Interrupted,
    DeadlineReached,
    /// The warmup is over; the counters stand as they are.
    WarmedUp { now: Instant, counters: NameMap<u64> },
    /// It is time to look at receipts.
    Tick { now: Instant },
    /// A frame was completed.
    Frame(FrameStats),
    /// So many messages about frames were lost.
    Lagged(u64),
    /// No more messages come.
    Closed,
}

/// What follows from an event.
#[derive(Clone, Copy, Debug, PartialEq, Eq, Structural)]
pub enum MeasureAction {
    Continue,
    /// A frame counts: write it down where single frames are asked for.
    Record(FrameStats),
    Report(ProgressReport),
    /// The measurement is over.
    End { interrupted: bool },
}

/// What an event leads to.
#[verifier::ext_equal]
pub ghost struct Progressed {
    pub progress: Progress,
    pub received: Received,
    pub action: MeasureAction,
}

/// What an event leads to. The window opens only once; only frames inside it count; a
/// deadline, an interruption and the end of messages end the measurement.
pub open spec fn progressed(
    progress: Progress,
    received: Received,
    event: MeasureEvent,
) -> Progressed {
    let unchanged = Progressed { progress, received, action: MeasureAction::Continue };
    match event {
        MeasureEvent::Interrupted => Progressed {
            action: MeasureAction::End { interrupted: true },
            ..unchanged
        },
        MeasureEvent::DeadlineReached => Progressed {
            action: MeasureAction::End { interrupted: false },
            ..unchanged
        },
        MeasureEvent::WarmedUp { now, counters } => if progress.window.opened is None {
            Progressed { progress: progress.opened(now, counters@), ..unchanged }
        } else {
            unchanged
        },
        MeasureEvent::Tick { now } => {
            let books = progress.settled(received, now, false);
            let after = Progress { tally: books.tally, pending: books.open, ..progress };
            if after.report_due(now) {
                Progressed {
                    progress: Progress { last_progress: now, ..after },
                    received: books.received,
                    action: MeasureAction::Report(after.reported()),
                }
            } else {
                Progressed { progress: after, received: books.received, ..unchanged }
            }
        },
        MeasureEvent::Frame(stats) => if progress.window.covers(
            &stats,
            progress.window.deadline,
        ) {
            Progressed {
                progress: progress.measured(&stats),
                received: if awaits_receipt(&stats) {
                    received
                } else {
                    forgotten(received, stats.frame_number)
                },
                action: MeasureAction::Record(stats),
            }
        } else {
            Progressed { received: forgotten(received, stats.frame_number), ..unchanged }
        },
        MeasureEvent::Lagged(messages) => Progressed {
            progress: progress.missing(messages, false),
            ..unchanged
        },
        MeasureEvent::Closed => Progressed {
            action: MeasureAction::End { interrupted: false },
            ..unchanged
        },
    }
}

/// Whatever happens during a measurement, every new capture stays accounted for, and the
/// frames that were received stay within their bounds.
pub proof fn lemma_every_capture_is_accounted_for(
    progress: Progress,
    received: Received,
    event: MeasureEvent,
)
    requires
        progress.balanced(),
        event matches MeasureEvent::Frame(stats) ==> progress.window.covers(
            &stats,
            progress.window.deadline,
        ) ==> progress.tally.has_room_for(&stats, progress.fps),
    ensures
        progressed(progress, received, event).progress.balanced(),
        received.well_formed() ==> progressed(progress, received, event).received.well_formed(),
{
    match event {
        MeasureEvent::Tick { now } => {
            let start = Books { tally: progress.tally, received, open: Seq::empty() };
            lemma_settling_accounts_for_frames(progress, received, now, false);
            lemma_every_receipt_is_accounted_for(start, progress.pending, now, false);
        },
        MeasureEvent::Frame(stats) => {
            if received.well_formed() {
                receiver::lemma_forgetting_stays_well_formed(received, stats.frame_number);
            }
            if progress.window.covers(&stats, progress.window.deadline) {
                lemma_measuring_accounts_for_a_frame(progress, &stats);
            }
        },
        _ => {},
    }
}

impl Measurement {
    /// The parts are well-formed. The counters are known once the window is open.
    pub closed spec fn intact(&self) -> bool {
        &&& self.accumulator.well_formed()
        &&& self.fps > 0
        &&& self.window.opened is Some <==> self.counters is Some
    }

    /// The parts are well-formed, and every new capture is accounted for.
    pub open spec fn well_formed(&self) -> bool {
        &&& self.intact()
        &&& self@.balanced()
    }

    /// A measurement whose warmup begins at `origin`. The window closes `duration` seconds
    /// after the warmup. The first report is due one interval after `started`, when the
    /// measurement begins to look at frames.
    pub fn new(
        origin: Instant,
        started: Instant,
        warmup: u64,
        duration: u64,
        fps: u32,
    ) -> (r: Measurement)
        requires
            fps > 0,
        ensures
            r.well_formed(),
            ({
                let warm = time::later_by(
                    origin,
                    Duration { nanos: (warmup * 1_000_000_000) as u128 },
                );
                r@ == (Progress {
                    window: Window {
                        warmup_deadline: warm,
                        deadline: time::later_by(
                            warm,
                            Duration { nanos: (duration * 1_000_000_000) as u128 },
                        ),
                        opened: None,
                    },
                    fps,
                    tally: Accumulator::nothing(),
                    pending: Seq::empty(),
                    counters: None,
                    stats_lost: 0,
                    last_progress: started,
                })
            }),
            r@ == Progress::begun(origin, started, warmup, duration, fps),
    {
        let warm: Instant = origin.saturating_after(Duration::from_secs(warmup));
        let deadline: Instant = warm.saturating_after(Duration::from_secs(duration));
        let r: Measurement = Measurement {
            window: Window { warmup_deadline: warm, deadline, opened: None },
            fps,
            accumulator: Accumulator::new(),
            pending: Vec::new(),
            counters: None,
            stats_lost: 0,
            last_progress: started,
        };
        r
    }

    pub fn window(&self) -> (r: Window)
        ensures
            r == self@.window,
    {
        self.window
    }

    pub fn stats_lost(&self) -> (r: u64)
        ensures
            r == self@.stats_lost,
    {
        self.stats_lost
    }

    /// The warmup is over: the window opens, with the counters as they stand.
    pub fn open(&mut self, now: Instant, counters: NameMap<u64>)
        requires
            old(self).well_formed(),
        ensures
            final(self).well_formed(),
            final(self)@ == old(self)@.opened(now, counters@),
    {
        self.window = Window {
            warmup_deadline: self.window.warmup_deadline,
            deadline: self.window.deadline,
            opened: Some(now),
        };
        self.counters = Some(counters);
    }

    /// Whether a frame can be measured.
    pub fn can_measure(&self, stats: &FrameStats) -> (r: bool)
        requires
            self.well_formed(),
        ensures
            r == self@.can_measure(stats),
    {
        (!expects_receipt(stats) || is_measurable(stats)) && self.accumulator.has_room_for(
            stats,
            self.fps,
        )
    }

    fn measure(&mut self, stats: &FrameStats)
        requires
            old(self).well_formed(),
            old(self)@.can_measure(stats),
        ensures
            final(self).well_formed(),
            final(self)@ == old(self)@.measured(stats),
    {
        let ghost before = self@;
        self.accumulator.add(stats, self.fps);
        if expects_receipt(stats) {
            self.pending.push(*stats);
        }
        proof {
            assert(self@ =~= before.measured(stats));
            lemma_measuring_accounts_for_a_frame(before, stats);
        }
    }

    /// Takes a frame while the measurement is under way. Only frames inside the window count.
    /// Where no receipt is waited for, what was received is forgotten. Tells whether the frame
    /// counts.
    pub fn frame(&mut self, stats: &FrameStats, receiver: &mut State) -> (r: bool)
        requires
            old(self).well_formed(),
            old(self)@.window.covers(stats, old(self)@.window.deadline) ==> old(self)@.can_measure(
                stats,
            ),
        ensures
            final(self).well_formed(),
            r == old(self)@.window.covers(stats, old(self)@.window.deadline),
            final(self)@ == if r {
                old(self)@.measured(stats)
            } else {
                old(self)@
            },
            final(receiver)@ == if r && awaits_receipt(stats) {
                old(receiver)@
            } else {
                forgotten(old(receiver)@, stats.frame_number)
            },
    {
        let ghost before = receiver@;
        let covered: bool = self.window.contains(stats, self.window.deadline);
        if covered {
            self.measure(stats);
        }
        if !(covered && expects_receipt(stats)) {
            receiver.discard(stats.frame_number);
            proof {
                assert(receiver@ =~= forgotten(before, stats.frame_number));
            }
        }
        covered
    }

    /// Takes a frame that was published before the measurement ended, but not yet looked at.
    /// Without these the last few frames would depend on chance.
    pub fn drained(&mut self, stats: &FrameStats, ended_at: Instant) -> (r: bool)
        requires
            old(self).well_formed(),
            old(self)@.window.covers(stats, ended_at) ==> old(self)@.can_measure(stats),
        ensures
            final(self).well_formed(),
            r == old(self)@.window.covers(stats, ended_at),
            final(self)@ == if r {
                old(self)@.measured(stats)
            } else {
                old(self)@
            },
    {
        let covered: bool = self.window.contains(stats, ended_at);
        if covered {
            self.measure(stats);
        }
        covered
    }

    /// Messages about frames were lost. They matter once the window is open, and at the end
    /// in any case.
    pub fn lagged(&mut self, messages: u64, ended: bool)
        requires
            old(self).well_formed(),
            ended || old(self)@.window.opened is Some ==> old(self)@.stats_lost + messages
                <= u64::MAX,
        ensures
            final(self).well_formed(),
            final(self)@ == old(self)@.missing(messages, ended),
    {
        if ended || self.window.opened.is_some() {
            self.stats_lost = self.stats_lost + messages;
        }
    }

    /// Looks at the open receipts, and gives up those that are late, or all of them.
    pub fn settle(&mut self, receiver: &mut State, now: Instant, expire: bool)
        requires
            old(self).well_formed(),
        ensures
            final(self).well_formed(),
            ({
                let settled = old(self)@.settled(old(receiver)@, now, expire);
                &&& final(self)@ == (Progress {
                    tally: settled.tally,
                    pending: settled.open,
                    ..old(self)@
                })
                &&& final(receiver)@ == settled.received
            }),
    {
        proof {
            assert(is_receipt_stage("loopback_first"@));
            assert(is_receipt_stage("loopback_spread"@));
            lemma_settling_accounts_for_frames(self@, receiver@, now, expire);
        }
        resolve_receipts(&mut self.pending, receiver, &mut self.accumulator, now, expire);
    }

    /// Whether receipts are open.
    pub fn has_open_receipts(&self) -> (r: bool)
        ensures
            r == (self@.pending.len() > 0),
    {
        self.pending.len() > 0
    }

    /// What there is to report, if it is time to. Nothing is reported during the warmup.
    pub fn progress(&mut self, now: Instant) -> (r: Option<ProgressReport>)
        requires
            old(self).well_formed(),
        ensures
            final(self).well_formed(),
            if old(self)@.report_due(now) {
                &&& r == Some(old(self)@.reported())
                &&& final(self)@ == (Progress { last_progress: now, ..old(self)@ })
            } else {
                &&& r is None
                &&& final(self)@ == old(self)@
            },
    {
        if now.duration_since(self.last_progress).nanos >= PROGRESS_INTERVAL
            && self.window.opened.is_some() {
            self.last_progress = now;
            Some(
                ProgressReport {
                    successful_frames: self.accumulator.successful(),
                    failed_frames: self.accumulator.failed(),
                    stats_lost: self.stats_lost,
                },
            )
        } else {
            None
        }
    }

    /// Takes one event of a measurement that is under way, and says what follows from it.
    pub fn step(&mut self, event: MeasureEvent, receiver: &mut State) -> (r: MeasureAction)
        requires
            old(self).well_formed(),
            event matches MeasureEvent::Frame(stats) ==> old(self)@.window.covers(
                &stats,
                old(self)@.window.deadline,
            ) ==> old(self)@.can_measure(&stats),
            event matches MeasureEvent::Lagged(messages) ==> old(self)@.window.opened is Some
                ==> old(self)@.stats_lost + messages <= u64::MAX,
        ensures
            final(self).well_formed(),
            (Progressed { progress: final(self)@, received: final(receiver)@, action: r })
                == progressed(old(self)@, old(receiver)@, event),
    {
        match event {
            MeasureEvent::Interrupted => MeasureAction::End { interrupted: true },
            MeasureEvent::DeadlineReached => MeasureAction::End { interrupted: false },
            MeasureEvent::WarmedUp { now, counters } => {
                if self.window.opened.is_none() {
                    self.open(now, counters);
                }
                MeasureAction::Continue
            },
            MeasureEvent::Tick { now } => {
                self.settle(receiver, now, false);
                match self.progress(now) {
                    Some(report) => MeasureAction::Report(report),
                    None => MeasureAction::Continue,
                }
            },
            MeasureEvent::Frame(stats) => {
                if self.frame(&stats, receiver) {
                    MeasureAction::Record(stats)
                } else {
                    MeasureAction::Continue
                }
            },
            MeasureEvent::Lagged(messages) => {
                self.lagged(messages, false);
                MeasureAction::Continue
            },
            MeasureEvent::Closed => MeasureAction::End { interrupted: false },
        }
    }

    /// Whether a measurement that has ended still waits for receipts. The wait lies outside
    /// the window and does not inflate the rates.
    pub fn keeps_waiting(&self, now: Instant, deadline: Instant) -> (r: bool)
        ensures
            r == (self@.pending.len() > 0 && now.nanos < deadline.nanos),
            r == self@.waits(now, deadline),
    {
        self.pending.len() > 0 && now.nanos < deadline.nanos
    }

    /// When a measurement that stops now ends: not after its deadline.
    pub fn end(&self, now: Instant) -> (r: Instant)
        ensures
            r.nanos == if now.nanos <= self@.window.deadline.nanos {
                now.nanos
            } else {
                self@.window.deadline.nanos
            },
            r == self@.window.closing(now),
    {
        if now.nanos <= self.window.deadline.nanos {
            now
        } else {
            self.window.deadline
        }
    }

    /// What a measurement that ended comes to. Where the window never opened, the counters
    /// have not risen.
    pub fn conclude(&self, ended_at: Instant, counters: &NameMap<u64>) -> (r: Conclusion)
        requires
            self.well_formed(),
            report::ended_frames(counters@) <= u64::MAX,
            self@.counters matches Some(start) ==> report::ended_frames(start) <= u64::MAX,
        ensures
            ({
                let start = match self@.counters {
                    Some(start) => start,
                    None => counters@,
                };
                &&& r.elapsed.nanos == self@.window.length(ended_at)
                &&& r.summary.describes(self@.tally, r.elapsed)
                &&& report::is_delta(r.counters@, counters@, start)
                &&& r.outstanding_start == report::outstanding_frames(start)
                &&& r.outstanding_end == report::outstanding_frames(counters@)
            }),
            r.concludes(self@, ended_at, counters@),
    {
        let opened: Instant = match self.window.opened {
            Some(opened) => opened,
            None => self.window.warmup_deadline,
        };
        let elapsed: Duration = ended_at.duration_since(opened);
        let start: &NameMap<u64> = match &self.counters {
            Some(start) => start,
            None => counters,
        };
        Conclusion {
            elapsed,
            summary: self.accumulator.summary(elapsed),
            counters: counter_delta(counters, start),
            outstanding_start: outstanding(start),
            outstanding_end: outstanding(counters),
        }
    }
}

/// What a measurement comes to.
pub struct Conclusion {
    pub elapsed: Duration,
    pub summary: Summary,
    pub counters: NameMap<u64>,
    pub outstanding_start: u64,
    pub outstanding_end: u64,
}

impl Conclusion {
    /// Whether this is what a measurement comes to, where it ended at some time with some
    /// counters.
    pub open spec fn concludes(
        &self,
        progress: Progress,
        ended_at: Instant,
        counters: Map<Seq<char>, u64>,
    ) -> bool {
        let start = match progress.counters {
            Some(start) => start,
            None => counters,
        };
        &&& self.elapsed.nanos == progress.window.length(ended_at)
        &&& self.summary.describes(progress.tally, self.elapsed)
        &&& report::is_delta(self.counters@, counters, start)
        &&& self.outstanding_start == report::outstanding_frames(start)
        &&& self.outstanding_end == report::outstanding_frames(counters)
    }
}

/// A window is never open longer than it was meant to be, so that time outside it does not
/// enter the rates.
pub proof fn lemma_window_is_not_exceeded(window: Window, end: Instant)
    requires
        end.nanos <= window.deadline.nanos,
        window.opened matches Some(opened) ==> window.warmup_deadline.nanos <= opened.nanos,
    ensures
        window.length(end) <= time::elapsed_nanos(window.deadline, window.warmup_deadline),
{
}

/// Frames that begin during the warmup never count.
pub proof fn lemma_warmup_frames_do_not_count(window: Window, stats: &FrameStats, end: Instant)
    requires
        window.opened matches Some(opened) ==> stats.capture_started_at.nanos < opened.nanos,
    ensures
        !window.covers(stats, end),
{
}

/// What a receipt that is complete adds. Under `loopback_first` it is the time from the start of
/// the capture to the arrival of the first shard, under `loopback_complete` that to the arrival
/// of the last, and under `loopback_spread` the time between the two, all in whole
/// microseconds. So the frame is never complete before its first shard came, and the first two
/// differ by the third, or one microsecond more.
pub proof fn lemma_what_a_complete_receipt_adds(
    books: Books,
    frame: FrameStats,
    now: Instant,
    expire: bool,
    first: Instant,
    last: Instant,
)
    requires
        books.received.frames.contains_key(frame.frame_number),
        books.received.frames[frame.frame_number].indices.len() == frame.sent_datagrams,
        books.received.frames[frame.frame_number].first == first,
        books.received.frames[frame.frame_number].last == last,
        frame.capture_started_at.nanos <= first.nanos <= last.nanos,
        last.nanos < 1_000 * u64::MAX,
    ensures
        ({
            let after = books.settled(frame, now, expire);
            let start = frame.capture_started_at.nanos;
            let begun = after.tally.values_of_stage("loopback_first"@);
            let whole = after.tally.values_of_stage("loopback_complete"@);
            let spread = after.tally.values_of_stage("loopback_spread"@);
            &&& begun.drop_last() == books.tally.values_of_stage("loopback_first"@)
            &&& whole.drop_last() == books.tally.values_of_stage("loopback_complete"@)
            &&& spread.drop_last() == books.tally.values_of_stage("loopback_spread"@)
            &&& 1_000 * begun.last() <= first.nanos - start < 1_000 * begun.last() + 1_000
            &&& 1_000 * whole.last() <= last.nanos - start < 1_000 * whole.last() + 1_000
            &&& 1_000 * spread.last() <= last.nanos - first.nanos < 1_000 * spread.last() + 1_000
            &&& begun.last() <= whole.last()
            &&& begun.last() + spread.last() <= whole.last() <= begun.last() + spread.last() + 1
        }),
        ({
            let after = books.settled(frame, now, expire);
            &&& after.open == books.open
            &&& after.tally.incomplete_receipts == books.tally.incomplete_receipts
            &&& !after.received.frames.contains_key(frame.frame_number)
        }),
{
    lemma_loopback_names();
    let after = books.settled(frame, now, expire);
    assert(after.tally.values_of_stage("loopback_first"@).drop_last()
        =~= books.tally.values_of_stage("loopback_first"@));
    assert(after.tally.values_of_stage("loopback_complete"@).drop_last()
        =~= books.tally.values_of_stage("loopback_complete"@));
    assert(after.tally.values_of_stage("loopback_spread"@).drop_last()
        =~= books.tally.values_of_stage("loopback_spread"@));
}

/// A shard that seems to have come before the capture began came at once, and a last shard
/// that seems to have come before the first came with it.
pub proof fn lemma_receipts_take_no_negative_time(books: Books, frame: FrameStats, now: Instant)
    requires
        books.received.frames.contains_key(frame.frame_number),
        books.received.frames[frame.frame_number].indices.len() == frame.sent_datagrams,
    ensures
        ({
            let arrival = books.received.frames[frame.frame_number];
            let after = books.settled(frame, now, false);
            let start = frame.capture_started_at.nanos;
            &&& arrival.first.nanos <= start ==> after.tally.values_of_stage(
                "loopback_first"@,
            ).last() == 0
            &&& arrival.last.nanos <= start ==> after.tally.values_of_stage(
                "loopback_complete"@,
            ).last() == 0
            &&& arrival.last.nanos <= arrival.first.nanos ==> after.tally.values_of_stage(
                "loopback_spread"@,
            ).last() == 0
        }),
{
    lemma_loopback_names();
}

/// What becomes of a receipt that is not complete: it is given up, and what came of it
/// forgotten, where all are given up or a quarter of a second has passed since the frame was
/// sent; until then it stays open, and nothing changes.
pub proof fn lemma_what_becomes_of_an_incomplete_receipt(
    books: Books,
    frame: FrameStats,
    now: Instant,
    expire: bool,
)
    requires
        books.received.frames.contains_key(frame.frame_number)
            ==> books.received.frames[frame.frame_number].indices.len() != frame.sent_datagrams,
        books.tally.incomplete_receipts < u64::MAX,
    ensures
        ({
            let after = books.settled(frame, now, expire);
            let late = frame.completed_at.nanos + 250_000_000 <= now.nanos;
            &&& after.tally.stages == books.tally.stages
            &&& expire || late ==> after.open == books.open && after.tally.incomplete_receipts
                == books.tally.incomplete_receipts + 1 && !after.received.frames.contains_key(
                frame.frame_number,
            )
            &&& !expire && !late ==> after == (Books { open: books.open.push(frame), ..books })
        }),
{
}

/// Open receipts are looked at one after another, in their order, each once.
pub proof fn lemma_receipts_are_looked_at_in_order(
    books: Books,
    frames: Seq<FrameStats>,
    frame: FrameStats,
    now: Instant,
    expire: bool,
)
    ensures
        books.all_settled(Seq::empty(), now, expire) == books,
        books.all_settled(frames.push(frame), now, expire) == books.all_settled(
            frames,
            now,
            expire,
        ).settled(frame, now, expire),
{
    assert(frames.push(frame).drop_last() =~= frames);
}

/// Every way to capture anew awaits a receipt, once the frame was sent; neither a failed send
/// nor a second encoding of an old image does.
pub proof fn lemma_what_awaits_a_receipt(stats: &FrameStats)
    ensures
        !stats.send_success ==> !awaits_receipt(stats),
        stats.capture_path == CapturePath::Reencode ==> !awaits_receipt(stats),
        stats.send_success && (stats.capture_path == CapturePath::Composited || stats.capture_path
            == CapturePath::Direct || stats.capture_path == CapturePath::DirectOverride)
            ==> awaits_receipt(stats),
{
}

/// A frame counts only if it starts when the window is open, or at the moment that it opens,
/// and is complete before it closes. Such a frame counts.
pub proof fn lemma_frames_lie_within_the_window(window: Window, stats: &FrameStats, end: Instant)
    ensures
        window.opened is None ==> !window.covers(stats, end),
        window.opened matches Some(opened) ==> stats.capture_started_at.nanos < opened.nanos
            ==> !window.covers(stats, end),
        stats.completed_at.nanos >= end.nanos ==> !window.covers(stats, end),
        window.opened matches Some(opened) ==> opened.nanos <= stats.capture_started_at.nanos
            && stats.completed_at.nanos < end.nanos ==> window.covers(stats, end),
{
}

/// The window is as long as it was open; one that never opened counts from the end of the
/// warmup, and none is shorter than nothing.
pub proof fn lemma_windows_have_a_length(window: Window, end: Instant)
    ensures
        ({
            let from = match window.opened {
                Some(opened) => opened,
                None => window.warmup_deadline,
            };
            &&& from.nanos <= end.nanos ==> from.nanos + window.length(end) == end.nanos
            &&& end.nanos <= from.nanos ==> window.length(end) == 0
        }),
{
}

/// What a measured frame changes: the tally, by that frame, and the frames that await a
/// receipt, by that frame where it awaits one.
pub proof fn lemma_what_measuring_changes(progress: Progress, stats: &FrameStats)
    ensures
        ({
            let after = progress.measured(stats);
            &&& after.tally == progress.tally.added(stats, progress.fps)
            &&& stats.send_success && stats.capture_path != CapturePath::Reencode
                ==> after.pending.len() == progress.pending.len() + 1 && after.pending.last() == *stats
                && after.pending.drop_last() == progress.pending
            &&& !(stats.send_success && stats.capture_path != CapturePath::Reencode)
                ==> after.pending == progress.pending
            &&& after.window == progress.window
            &&& after.fps == progress.fps
            &&& after.counters == progress.counters
            &&& after.stats_lost == progress.stats_lost
            &&& after.last_progress == progress.last_progress
        }),
{
    if awaits_receipt(stats) {
        assert(progress.pending.push(*stats).drop_last() =~= progress.pending);
    }
}

/// A measurement ends when it is interrupted, when its deadline is reached, and when no more
/// messages come, and says which it was; what was measured stays as it is. Nothing else ends
/// it.
pub proof fn lemma_what_ends_a_measurement(
    progress: Progress,
    received: Received,
    event: MeasureEvent,
)
    ensures
        ({
            let after = progressed(progress, received, event);
            let ends = event is Interrupted || event is DeadlineReached || event is Closed;
            &&& after.action is End <==> ends
            &&& after.action is End ==> (after.action->interrupted <==> event is Interrupted)
            &&& ends ==> after.progress == progress && after.received == received
        }),
{
}

/// The window opens once, when the warmup is over, with the counters as they stand then.
pub proof fn lemma_the_window_opens_once(
    progress: Progress,
    received: Received,
    now: Instant,
    counters: NameMap<u64>,
)
    ensures
        ({
            let event = MeasureEvent::WarmedUp { now, counters };
            let after = progressed(progress, received, event);
            &&& after.action == MeasureAction::Continue
            &&& after.received == received
            &&& progress.window.opened is Some ==> after.progress == progress
            &&& progress.window.opened is None ==> after.progress.window.opened == Some(now)
                && after.progress.counters == Some(counters@) && after.progress.tally
                == progress.tally && after.progress.pending == progress.pending
                && after.progress.stats_lost == progress.stats_lost && after.progress.fps
                == progress.fps && after.progress.last_progress == progress.last_progress
                && after.progress.window.deadline == progress.window.deadline
                && after.progress.window.warmup_deadline == progress.window.warmup_deadline
        }),
{
}

/// A frame inside the window is recorded, and its receipt kept where it awaits one. Any other
/// frame changes nothing but that what came of it is forgotten.
pub proof fn lemma_what_a_frame_leads_to(
    progress: Progress,
    received: Received,
    stats: FrameStats,
)
    ensures
        ({
            let after = progressed(progress, received, MeasureEvent::Frame(stats));
            let inside = match progress.window.opened {
                Some(opened) => opened.nanos <= stats.capture_started_at.nanos
                    && stats.completed_at.nanos < progress.window.deadline.nanos,
                None => false,
            };
            let kept = inside && stats.send_success && stats.capture_path != CapturePath::Reencode;
            &&& after.action == if inside {
                MeasureAction::Record(stats)
            } else {
                MeasureAction::Continue
            }
            &&& inside ==> after.progress == progress.measured(&stats)
            &&& !inside ==> after.progress == progress
            &&& kept ==> after.received == received
            &&& !kept ==> !after.received.frames.contains_key(stats.frame_number)
                && after.received.counters == received.counters
            &&& forall|other: u32|
                other != stats.frame_number ==> (#[trigger] after.received.frames.contains_key(
                    other,
                ) <==> received.frames.contains_key(other))
        }),
{
}

/// Lost messages count from when the window opens, and at the end in any case.
pub proof fn lemma_lost_messages_count(progress: Progress, received: Received, messages: u64)
    requires
        progress.stats_lost + messages <= u64::MAX,
    ensures
        progress.missing(messages, true).stats_lost == progress.stats_lost + messages,
        ({
            let after = progressed(progress, received, MeasureEvent::Lagged(messages));
            &&& after.action == MeasureAction::Continue
            &&& after.received == received
            &&& after.progress.stats_lost == progress.stats_lost + if progress.window.opened is Some {
                messages as int
            } else {
                0
            }
            &&& after.progress == (Progress { stats_lost: after.progress.stats_lost, ..progress })
        }),
{
}

/// Every tick looks at the open receipts, without giving up those that are not late. Five
/// seconds after the last report, and not before the window is open, the next one is due: it
/// says how many frames were sent, how many failed, and how many messages were lost.
pub proof fn lemma_what_a_tick_does(progress: Progress, received: Received, now: Instant)
    ensures
        ({
            let after = progressed(progress, received, MeasureEvent::Tick { now });
            let books = (Books { tally: progress.tally, received, open: Seq::empty() }).all_settled(
                progress.pending,
                now,
                false,
            );
            let due = progress.window.opened is Some && progress.last_progress.nanos + 5_000_000_000
                <= now.nanos;
            &&& after.progress.tally == books.tally
            &&& after.progress.pending == books.open
            &&& after.received == books.received
            &&& due ==> after.action is Report && after.progress.last_progress == now
            &&& !due ==> after.action == MeasureAction::Continue && after.progress.last_progress
                == progress.last_progress
            &&& after.action matches MeasureAction::Report(report) ==> report.successful_frames
                == books.tally.successful_frames && report.failed_frames
                == books.tally.failed_frames && report.stats_lost == progress.stats_lost
            &&& after.progress.window == progress.window
            &&& after.progress.stats_lost == progress.stats_lost
            &&& after.progress.counters == progress.counters
        }),
{
}

/// How a measurement begins: the warmup takes its seconds, the window closes its seconds after
/// that, nothing is measured, open or lost yet, and the first report is due from when the
/// measurement started.
pub proof fn lemma_how_a_measurement_begins(
    origin: Instant,
    started: Instant,
    warmup: u64,
    duration: u64,
    fps: u32,
)
    requires
        origin.nanos + (warmup + duration) * 1_000_000_000 <= u128::MAX,
    ensures
        ({
            let begun = Progress::begun(origin, started, warmup, duration, fps);
            &&& begun.window.warmup_deadline.nanos == origin.nanos + warmup * 1_000_000_000
            &&& begun.window.deadline.nanos == begun.window.warmup_deadline.nanos + duration
                * 1_000_000_000
            &&& begun.window.opened is None
            &&& begun.counters is None
            &&& begun.pending.len() == 0
            &&& begun.stats_lost == 0
            &&& begun.last_progress == started
            &&& begun.fps == fps
            &&& begun.tally.successful_frames == 0
            &&& begun.tally.failed_frames == 0
            &&& begun.tally.reencoded_frames == 0
            &&& begun.tally.incomplete_receipts == 0
            &&& begun.balanced()
        }),
        forall|stage: Seq<char>| #[trigger]
            Progress::begun(origin, started, warmup, duration, fps).tally.values_of_stage(
                stage,
            ).len() == 0,
{
}

/// A measurement that stops before its deadline ends then, any other at the deadline.
pub proof fn lemma_no_measurement_ends_late(window: Window, now: Instant)
    ensures
        window.closing(now).nanos <= now.nanos,
        window.closing(now).nanos <= window.deadline.nanos,
        window.closing(now) == now || window.closing(now) == window.deadline,
{
}

/// A measurement that has ended waits as long as receipts are open, but not beyond its
/// deadline.
pub proof fn lemma_waiting_ends(progress: Progress, now: Instant, deadline: Instant)
    ensures
        progress.pending.len() == 0 ==> !progress.waits(now, deadline),
        deadline.nanos <= now.nanos ==> !progress.waits(now, deadline),
        progress.pending.len() != 0 && now.nanos < deadline.nanos ==> progress.waits(now, deadline),
{
}

/// What a measurement comes to: the time that the window was open, what was tallied over that
/// time, how far each counter rose since the window opened, and the frames that were
/// outstanding at either end. Where the window never opened nothing rose.
pub proof fn lemma_what_a_measurement_comes_to(
    conclusion: Conclusion,
    progress: Progress,
    ended_at: Instant,
    counters: Map<Seq<char>, u64>,
    name: Seq<char>,
)
    requires
        conclusion.concludes(progress, ended_at, counters),
    ensures
        progress.window.opened matches Some(opened) ==> opened.nanos <= ended_at.nanos
            ==> opened.nanos + conclusion.elapsed.nanos == ended_at.nanos,
        conclusion.summary.measured == conclusion.elapsed,
        conclusion.summary.successful_frames == progress.tally.successful_frames,
        conclusion.summary.failed_frames == progress.tally.failed_frames,
        conclusion.summary.incomplete_receipts == progress.tally.incomplete_receipts,
        conclusion.counters@.contains_key(name) <==> counters.contains_key(name),
        progress.counters is None && counters.contains_key(name) ==> conclusion.counters@[name] == 0,
        progress.counters matches Some(start) ==> counters.contains_key(name)
            && start.contains_key(name) && start[name] <= counters[name] ==> start[name]
            + conclusion.counters@[name] == counters[name],
        progress.counters matches Some(start) ==> conclusion.outstanding_start
            == report::outstanding_frames(start),
        progress.counters is None ==> conclusion.outstanding_start == conclusion.outstanding_end,
        conclusion.outstanding_end == report::outstanding_frames(counters),
{
    let start = match progress.counters {
        Some(start) => start,
        None => counters,
    };
    report::lemma_delta_closes_the_gap(conclusion.counters@, counters, start, name);
}

/// There is room for the receipts of some frames exactly if none of the counts that they can
/// raise would reach two to the sixty-fourth.
pub proof fn lemma_there_is_room_for_receipts(books: Books, frames: nat)
    ensures
        books.has_room_for(frames) <==> books.tally.values_of_stage("loopback_first"@).len()
            + frames < 0x1_0000_0000_0000_0000 && books.tally.values_of_stage(
            "loopback_complete"@,
        ).len() + frames < 0x1_0000_0000_0000_0000 && books.tally.values_of_stage(
            "loopback_spread"@,
        ).len() + frames < 0x1_0000_0000_0000_0000 && books.tally.incomplete_receipts + frames
            < 0x1_0000_0000_0000_0000,
{
}

/// A frame that failed or was encoded again can be measured whenever there is room for it. A new
/// capture must also have stages whose sum a clock can tell.
pub proof fn lemma_what_can_be_measured(progress: Progress, stats: &FrameStats)
    ensures
        !stats.send_success ==> (progress.can_measure(stats) <==> progress.tally.failed_frames
            < u64::MAX),
        stats.send_success && stats.capture_path == CapturePath::Reencode
            ==> progress.can_measure(stats) == progress.tally.has_room_for(stats, progress.fps),
        stats.send_success && stats.capture_path != CapturePath::Reencode && progress.can_measure(
            stats,
        ) ==> stats.accounted_nanos() < 18_446_744_073_709_551_616_000_000_000,
        progress.can_measure(stats) ==> progress.tally.has_room_for(stats, progress.fps),
        progress.tally.has_room_for(stats, progress.fps) && report::measurable(stats)
            ==> progress.can_measure(stats),
{
    report::lemma_measurable_sums(stats);
}

} // verus!
