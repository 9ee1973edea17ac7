//! Whether what a run measured can be relied on.

use crate::time::Duration;
use vstd::prelude::*;

verus! {

/// A measurement may fall short of its duration by so many nanoseconds.
pub const WINDOW_TOLERANCE: u128 = 100_000_000;

/// Why a measurement is not valid.
#[derive(Clone, Copy, Debug, PartialEq, Eq, Structural)]
pub enum InvalidReason {
    DebugBuild,
    Interrupted,
    ShortMeasurementWindow,
    NoSuccessfulFrames,
    StatsMessagesLost,
    RawRecordsLost,
    ReceiverError,
    SessionStopFailed,
}

impl InvalidReason {
    pub open spec fn text(self) -> Seq<char> {
        match self {
            InvalidReason::DebugBuild => "debug_build"@,
            InvalidReason::Interrupted => "interrupted"@,
            InvalidReason::ShortMeasurementWindow => "short_measurement_window"@,
            InvalidReason::NoSuccessfulFrames => "no_successful_frames"@,
            InvalidReason::StatsMessagesLost => "stats_messages_lost"@,
            InvalidReason::RawRecordsLost => "raw_records_lost"@,
            InvalidReason::ReceiverError => "receiver_error"@,
            InvalidReason::SessionStopFailed => "session_stop_failed"@,
        }
    }

    /// The name under which it is reported.
    pub fn name(self) -> (r: &'static str)
        ensures
            r@ == self.text(),
    {
        match self {
            InvalidReason::DebugBuild => "debug_build",
            InvalidReason::Interrupted => "interrupted",
            InvalidReason::ShortMeasurementWindow => "short_measurement_window",
            InvalidReason::NoSuccessfulFrames => "no_successful_frames",
            InvalidReason::StatsMessagesLost => "stats_messages_lost",
            InvalidReason::RawRecordsLost => "raw_records_lost",
            InvalidReason::ReceiverError => "receiver_error",
            InvalidReason::SessionStopFailed => "session_stop_failed",
        }
    }
}

/// How a run went.
#[derive(Clone, Copy, Debug, PartialEq, Eq, Structural)]
pub struct Quality {
    pub debug_build: bool,
    pub interrupted: bool,
    /// How long was measured.
    pub elapsed: Duration,
    /// How many seconds should have been.
    pub duration: u64,
    pub successful_frames: u64,
    pub stats_lost: u64,
    pub raw_dropped: u64,
    pub receiver_errors: u64,
    pub stop_failed: bool,
}

impl Quality {
    /// Whether a reason applies.
    pub open spec fn suffers(self, reason: InvalidReason) -> bool {
        match reason {
            InvalidReason::DebugBuild => self.debug_build,
            InvalidReason::Interrupted => self.interrupted,
            InvalidReason::ShortMeasurementWindow => self.elapsed.nanos + WINDOW_TOLERANCE
                < self.duration * 1_000_000_000,
            InvalidReason::NoSuccessfulFrames => self.successful_frames == 0,
            InvalidReason::StatsMessagesLost => self.stats_lost > 0,
            InvalidReason::RawRecordsLost => self.raw_dropped > 0,
            InvalidReason::ReceiverError => self.receiver_errors > 0,
            InvalidReason::SessionStopFailed => self.stop_failed,
        }
    }

    /// The reasons that apply, in the order in which they are reported.
    pub open spec fn complaints(self) -> Seq<InvalidReason> {
        all_reasons().filter(|reason: InvalidReason| self.suffers(reason))
    }

    fn check(&self, reason: InvalidReason) -> (r: bool)
        ensures
            r == self.suffers(reason),
    {
        match reason {
            InvalidReason::DebugBuild => self.debug_build,
            InvalidReason::Interrupted => self.interrupted,
            InvalidReason::ShortMeasurementWindow => {
                let wanted: Duration = Duration::from_secs(self.duration).saturating_sub(
                    Duration { nanos: WINDOW_TOLERANCE },
                );
                self.elapsed.nanos < wanted.nanos
            },
            InvalidReason::NoSuccessfulFrames => self.successful_frames == 0,
            InvalidReason::StatsMessagesLost => self.stats_lost > 0,
            InvalidReason::RawRecordsLost => self.raw_dropped > 0,
            InvalidReason::ReceiverError => self.receiver_errors > 0,
            InvalidReason::SessionStopFailed => self.stop_failed,
        }
    }

    /// Why the measurement is not valid; it is valid where nothing speaks against it.
    pub fn invalid_reasons(&self) -> (r: Vec<InvalidReason>)
        ensures
            r@ == self.complaints(),
    {
        let reasons: [InvalidReason; 8] = [
            InvalidReason::DebugBuild,
            InvalidReason::Interrupted,
            InvalidReason::ShortMeasurementWindow,
            InvalidReason::NoSuccessfulFrames,
            InvalidReason::StatsMessagesLost,
            InvalidReason::RawRecordsLost,
            InvalidReason::ReceiverError,
            InvalidReason::SessionStopFailed,
        ];
        let mut r: Vec<InvalidReason> = Vec::new();
        let mut i: usize = 0;
        let ghost applies = |reason: InvalidReason| self.suffers(reason);
        proof {
            assert(reasons@ =~= all_reasons());
            assert(all_reasons().take(0) =~= Seq::<InvalidReason>::empty());
            reveal(Seq::filter);
        }
        while i < 8
            invariant
                i <= 8,
                reasons@ == all_reasons(),
                applies == (|reason: InvalidReason| self.suffers(reason)),
                r@ == all_reasons().take(i as int).filter(applies),
            decreases 8 - i,
        {
            proof {
                reveal(Seq::filter);
                let more = all_reasons().take(i + 1);
                assert(more.drop_last() =~= all_reasons().take(i as int));
                assert(more.last() == reasons@[i as int]);
            }
            if self.check(reasons[i]) {
                r.push(reasons[i]);
            }
            i = i + 1;
        }
        proof {
            assert(all_reasons().take(8) =~= all_reasons());
        }
        r
    }
}

/// All reasons, in the order in which they are reported.
pub open spec fn all_reasons() -> Seq<InvalidReason> {
    seq![
        InvalidReason::DebugBuild,
        InvalidReason::Interrupted,
        InvalidReason::ShortMeasurementWindow,
        InvalidReason::NoSuccessfulFrames,
        InvalidReason::StatsMessagesLost,
        InvalidReason::RawRecordsLost,
        InvalidReason::ReceiverError,
        InvalidReason::SessionStopFailed,
    ]
}

/// A measurement is valid exactly if nothing speaks against it.
pub proof fn lemma_valid_means_nothing_applies(quality: Quality)
    ensures
        quality.complaints().len() == 0 <==> forall|reason: InvalidReason|
            !quality.suffers(reason),
{
    let applies = |reason: InvalidReason| quality.suffers(reason);
    let all = all_reasons();
    if quality.complaints().len() == 0 {
        assert forall|reason: InvalidReason| !quality.suffers(reason) by {
            let i = reason_index(reason);
            assert(all[i] == reason);
            if quality.suffers(reason) {
                all.lemma_filter_contains(applies, i);
                assert(all.filter(applies).contains(reason));
            }
        }
    } else {
        all.lemma_filter_pred(applies, 0);
        assert(quality.suffers(quality.complaints()[0]));
    }
}

spec fn reason_index(reason: InvalidReason) -> int {
    match reason {
        InvalidReason::DebugBuild => 0,
        InvalidReason::Interrupted => 1,
        InvalidReason::ShortMeasurementWindow => 2,
        InvalidReason::NoSuccessfulFrames => 3,
        InvalidReason::StatsMessagesLost => 4,
        InvalidReason::RawRecordsLost => 5,
        InvalidReason::ReceiverError => 6,
        InvalidReason::SessionStopFailed => 7,
    }
}

/// A measurement is valid exactly if it was an optimized build that nobody interrupted, fell
/// short of its duration by a tenth of a second at most, has frames, and lost neither messages
/// nor records nor the receiver nor the session.
pub proof fn lemma_what_makes_a_measurement_valid(quality: Quality)
    ensures
        quality.complaints().len() == 0 <==> !quality.debug_build && !quality.interrupted
            && quality.elapsed.nanos + 100_000_000 >= quality.duration * 1_000_000_000
            && quality.successful_frames != 0 && quality.stats_lost == 0 && quality.raw_dropped
            == 0 && quality.receiver_errors == 0 && !quality.stop_failed,
{
    lemma_valid_means_nothing_applies(quality);
    assert(quality.debug_build ==> quality.suffers(InvalidReason::DebugBuild));
    assert(quality.interrupted ==> quality.suffers(InvalidReason::Interrupted));
    assert(quality.elapsed.nanos + 100_000_000 < quality.duration * 1_000_000_000
        ==> quality.suffers(InvalidReason::ShortMeasurementWindow));
    assert(quality.successful_frames == 0 ==> quality.suffers(InvalidReason::NoSuccessfulFrames));
    assert(quality.stats_lost != 0 ==> quality.suffers(InvalidReason::StatsMessagesLost));
    assert(quality.raw_dropped != 0 ==> quality.suffers(InvalidReason::RawRecordsLost));
    assert(quality.receiver_errors != 0 ==> quality.suffers(InvalidReason::ReceiverError));
    assert(quality.stop_failed ==> quality.suffers(InvalidReason::SessionStopFailed));
}

/// Each thing that speaks against a measurement is reported for itself, once, under its own
/// reason.
pub proof fn lemma_every_complaint_has_its_cause(quality: Quality)
    ensures
        quality.complaints().contains(InvalidReason::DebugBuild) <==> quality.debug_build,
        quality.complaints().contains(InvalidReason::Interrupted) <==> quality.interrupted,
        quality.complaints().contains(InvalidReason::ShortMeasurementWindow)
            <==> quality.elapsed.nanos + 100_000_000 < quality.duration * 1_000_000_000,
        quality.complaints().contains(InvalidReason::NoSuccessfulFrames)
            <==> quality.successful_frames == 0,
        quality.complaints().contains(InvalidReason::StatsMessagesLost) <==> quality.stats_lost > 0,
        quality.complaints().contains(InvalidReason::RawRecordsLost) <==> quality.raw_dropped > 0,
        quality.complaints().contains(InvalidReason::ReceiverError)
            <==> quality.receiver_errors > 0,
        quality.complaints().contains(InvalidReason::SessionStopFailed) <==> quality.stop_failed,
        quality.complaints().len() <= 8,
{
    lemma_complaint(quality, InvalidReason::DebugBuild);
    lemma_complaint(quality, InvalidReason::Interrupted);
    lemma_complaint(quality, InvalidReason::ShortMeasurementWindow);
    lemma_complaint(quality, InvalidReason::NoSuccessfulFrames);
    lemma_complaint(quality, InvalidReason::StatsMessagesLost);
    lemma_complaint(quality, InvalidReason::RawRecordsLost);
    lemma_complaint(quality, InvalidReason::ReceiverError);
    lemma_complaint(quality, InvalidReason::SessionStopFailed);
    all_reasons().lemma_filter_len(|reason: InvalidReason| quality.suffers(reason));
}

proof fn lemma_complaint(quality: Quality, reason: InvalidReason)
    ensures
        quality.complaints().contains(reason) <==> quality.suffers(reason),
{
    let applies = |reason: InvalidReason| quality.suffers(reason);
    let all = all_reasons();
    let i = reason_index(reason);
    assert(all[i] == reason);
    if quality.suffers(reason) {
        all.lemma_filter_contains(applies, i);
    }
    if quality.complaints().contains(reason) {
        let k = quality.complaints().index_of(reason);
        all.lemma_filter_pred(applies, k);
    }
}

/// The reasons are reported by name.
pub proof fn lemma_reasons_are_named(reason: InvalidReason)
    ensures
        reason == InvalidReason::DebugBuild ==> reason.text() == "debug_build"@,
        reason == InvalidReason::Interrupted ==> reason.text() == "interrupted"@,
        reason == InvalidReason::ShortMeasurementWindow ==> reason.text()
            == "short_measurement_window"@,
        reason == InvalidReason::NoSuccessfulFrames ==> reason.text() == "no_successful_frames"@,
        reason == InvalidReason::StatsMessagesLost ==> reason.text() == "stats_messages_lost"@,
        reason == InvalidReason::RawRecordsLost ==> reason.text() == "raw_records_lost"@,
        reason == InvalidReason::ReceiverError ==> reason.text() == "receiver_error"@,
        reason == InvalidReason::SessionStopFailed ==> reason.text() == "session_stop_failed"@,
{
}

} // verus!
