//! The order of the runs of a benchmark, how each is set up, and what comes of all of them.

use crate::decimal::{self, show};
use crate::plan::{error, BenchError};
use crate::text::joined;
use vstd::prelude::*;

verus! {

/// One run of a benchmark.
#[derive(Clone, Copy, Debug, PartialEq, Eq, Structural)]
pub struct Run {
    /// Runs are counted from one.
    pub number: u64,
    /// So are repetitions.
    pub repetition: u32,
    /// Which of the settings is measured.
    pub setting: u64,
}

/// What came of a run.
#[derive(Clone, Copy, Debug, PartialEq, Eq, Structural)]
pub enum RunResult {
    Measured { valid: bool, interrupted: bool },
    /// It could not be carried out.
    Failed,
}

/// How a benchmark goes on after a run.
#[derive(Clone, Copy, Debug, PartialEq, Eq, Structural)]
pub enum Course {
    Continue,
    /// Stop: somebody interrupted it. What was measured is retained.
    Interrupted,
    /// Stop: report why the run failed.
    RunFailed,
}

/// Whether a run spoils the benchmark.
pub open spec fn spoils(result: RunResult) -> bool {
    match result {
        RunResult::Measured { valid, interrupted } => !valid,
        RunResult::Failed => true,
    }
}

/// How a benchmark goes on after a run. A matrix goes on after a run that failed.
pub open spec fn course(result: RunResult, matrix: bool) -> Course {
    match result {
        RunResult::Measured { valid, interrupted } => if interrupted {
            Course::Interrupted
        } else {
            Course::Continue
        },
        RunResult::Failed => if matrix {
            Course::Continue
        } else {
            Course::RunFailed
        },
    }
}

/// The runs of a benchmark: all settings, in their order, as often as they are repeated.
pub struct Campaign {
    settings: u64,
    repeat: u32,
    matrix: bool,
    begun: u64,
    invalid: u64,
    results: Ghost<Seq<RunResult>>,
}

impl Campaign {
    pub closed spec fn settings(&self) -> u64 {
        self.settings
    }

    pub closed spec fn repeat(&self) -> u32 {
        self.repeat
    }

    pub closed spec fn matrix(&self) -> bool {
        self.matrix
    }

    /// How many runs have begun.
    pub closed spec fn begun(&self) -> u64 {
        self.begun
    }

    /// What came of the runs that are over.
    pub closed spec fn results(&self) -> Seq<RunResult> {
        self.results@
    }

    /// How many runs there are.
    pub open spec fn runs(&self) -> int {
        self.settings() * self.repeat()
    }

    pub closed spec fn well_formed(&self) -> bool {
        &&& 0 < self.settings() <= u32::MAX
        &&& self.results().len() <= self.begun() <= self.runs() <= u64::MAX
        &&& self.invalid == spoiled(self.results())
    }

    /// The run with a number.
    pub open spec fn run(&self, number: int) -> Run {
        Run {
            number: number as u64,
            repetition: ((number - 1) / self.settings() as int + 1) as u32,
            setting: ((number - 1) % self.settings() as int) as u64,
        }
    }

    /// The run that begins next, if there is one left.
    pub open spec fn next_run(&self) -> Option<Run> {
        if self.begun() < self.runs() {
            Some(self.run(self.begun() + 1))
        } else {
            None
        }
    }

    pub fn new(settings: u64, repeat: u32, matrix: bool) -> (r: Campaign)
        requires
            0 < settings <= u32::MAX,
        ensures
            r.well_formed(),
            r.settings() == settings,
            r.repeat() == repeat,
            r.matrix() == matrix,
            r.begun() == 0,
            r.results() == Seq::<RunResult>::empty(),
    {
        proof {
            assert(0 <= settings * repeat <= u32::MAX * u32::MAX) by (nonlinear_arith)
                requires
                    settings <= u32::MAX,
                    repeat <= u32::MAX,
            ;
        }
        Campaign { settings, repeat, matrix, begun: 0, invalid: 0, results: Ghost(Seq::empty()) }
    }

    /// Begins the next run, if there is one left.
    pub fn begin(&mut self) -> (r: Option<Run>)
        requires
            old(self).well_formed(),
        ensures
            final(self).well_formed(),
            final(self).settings() == old(self).settings(),
            final(self).repeat() == old(self).repeat(),
            final(self).matrix() == old(self).matrix(),
            final(self).results() == old(self).results(),
            if old(self).begun() < old(self).runs() {
                &&& r == Some(old(self).run(old(self).begun() + 1))
                &&& final(self).begun() == old(self).begun() + 1
            } else {
                &&& r is None
                &&& final(self).begun() == old(self).begun()
            },
            r == old(self).next_run(),
    {
        let runs: u64 = self.settings * self.repeat as u64;
        if self.begun == runs {
            return None;
        }
        let setting: u64 = self.begun % self.settings;
        let round: u64 = self.begun / self.settings;
        proof {
            let begun = self.begun as int;
            let settings = self.settings as int;
            let repeat = self.repeat as int;
            vstd::arithmetic::div_mod::lemma_fundamental_div_mod(begun, settings);
            assert(begun / settings < repeat) by (nonlinear_arith)
                requires
                    begun < settings * repeat,
                    begun == settings * (begun / settings) + begun % settings,
                    begun % settings >= 0,
                    settings > 0,
            ;
        }
        let repetition: u32 = (round + 1) as u32;
        self.begun = self.begun + 1;
        Some(Run { number: self.begun, repetition, setting })
    }

    /// Takes the result of a run.
    pub fn finish(&mut self, result: RunResult) -> (r: Course)
        requires
            old(self).well_formed(),
            old(self).results().len() < old(self).begun(),
        ensures
            final(self).well_formed(),
            final(self).settings() == old(self).settings(),
            final(self).repeat() == old(self).repeat(),
            final(self).matrix() == old(self).matrix(),
            final(self).begun() == old(self).begun(),
            final(self).results() == old(self).results().push(result),
            r == course(result, old(self).matrix()),
    {
        proof {
            let results = self.results@.push(result);
            assert(results.drop_last() =~= self.results@);
            lemma_success_means_all_runs_are_valid(self.results@);
        }
        self.results = Ghost(self.results@.push(result));
        match result {
            RunResult::Measured { valid, interrupted } => {
                if !valid {
                    self.invalid = self.invalid + 1;
                }
                if interrupted {
                    Course::Interrupted
                } else {
                    Course::Continue
                }
            },
            RunResult::Failed => {
                self.invalid = self.invalid + 1;
                if self.matrix {
                    Course::Continue
                } else {
                    Course::RunFailed
                }
            },
        }
    }

    /// Sums up a benchmark whose runs are all over.
    pub fn conclude(&self) -> (r: Result<(), BenchError>)
        requires
            self.well_formed(),
        ensures
            r is Ok <==> spoiled(self.results()) == 0,
            r is Err ==> r->Err_0@ == decimal::shown(spoiled(self.results()) as nat)
                + " run(s) failed measurement validity checks; see reports"@,
            r is Ok <==> verdict(self.results()) is None,
            r is Err ==> verdict(self.results()) == Some(r->Err_0@),
    {
        proof {
            lemma_success_means_all_runs_are_valid(self.results@);
        }
        if self.invalid > 0 {
            return Err(
                error(
                    joined(
                        show(self.invalid).as_str(),
                        " run(s) failed measurement validity checks; see reports",
                    ).as_str(),
                ),
            );
        }
        Ok(())
    }
}

/// What there is to complain about when all runs of a benchmark are over.
pub open spec fn verdict(results: Seq<RunResult>) -> Option<Seq<char>> {
    if spoiled(results) == 0 {
        None
    } else {
        Some(
            decimal::shown(spoiled(results) as nat)
                + " run(s) failed measurement validity checks; see reports"@,
        )
    }
}

/// Why an interrupted benchmark fails.
pub fn interrupted() -> (r: BenchError)
    ensures
        r@ == "benchmark interrupted; partial report retained"@,
{
    error("benchmark interrupted; partial report retained")
}

/// Every setting is measured once in every repetition, in the order of the settings.
pub proof fn lemma_every_setting_is_repeated(campaign: &Campaign, repetition: u32, setting: u64)
    requires
        campaign.well_formed(),
        0 < repetition <= campaign.repeat(),
        setting < campaign.settings(),
    ensures
        ({
            let number = (repetition - 1) * campaign.settings() + setting + 1;
            &&& 0 < number <= campaign.runs()
            &&& campaign.run(number) == (Run { number: number as u64, repetition, setting })
        }),
{
    let n = campaign.settings() as int;
    let round = repetition - 1;
    let begun = round * n + setting;
    vstd::arithmetic::div_mod::lemma_fundamental_div_mod_converse(begun, n, round, setting as int);
    assert(0 <= begun < n * campaign.repeat()) by (nonlinear_arith)
        requires
            begun == round * n + setting,
            0 <= round < campaign.repeat(),
            0 <= setting < n,
    ;
}

/// No two runs repeat the same setting in the same repetition.
pub proof fn lemma_runs_differ(campaign: &Campaign, a: int, b: int)
    requires
        campaign.well_formed(),
        0 < a <= campaign.runs(),
        0 < b <= campaign.runs(),
        campaign.run(a).repetition == campaign.run(b).repetition,
        campaign.run(a).setting == campaign.run(b).setting,
    ensures
        a == b,
{
    let n = campaign.settings() as int;
    lemma_round(campaign, a);
    lemma_round(campaign, b);
    vstd::arithmetic::div_mod::lemma_fundamental_div_mod(a - 1, n);
    vstd::arithmetic::div_mod::lemma_fundamental_div_mod(b - 1, n);
}

proof fn lemma_round(campaign: &Campaign, a: int)
    requires
        campaign.well_formed(),
        0 < a <= campaign.runs(),
    ensures
        0 <= (a - 1) / (campaign.settings() as int) < campaign.repeat(),
        0 <= (a - 1) % (campaign.settings() as int) < campaign.settings(),
{
    let n = campaign.settings() as int;
    let begun = a - 1;
    vstd::arithmetic::div_mod::lemma_fundamental_div_mod(begun, n);
    assert(0 <= begun / n < campaign.repeat()) by (nonlinear_arith)
        requires
            0 <= begun < n * campaign.repeat(),
            begun == n * (begun / n) + begun % n,
            0 <= begun % n < n,
            n > 0,
    ;
}

/// How many of some runs were spoiled.
pub open spec fn spoiled(results: Seq<RunResult>) -> int
    decreases results.len(),
{
    if results.len() == 0 {
        0
    } else {
        spoiled(results.drop_last()) + if spoils(results.last()) {
            1int
        } else {
            0
        }
    }
}

/// A benchmark has nothing to complain about exactly if every run was valid.
pub proof fn lemma_success_means_all_runs_are_valid(results: Seq<RunResult>)
    ensures
        0 <= spoiled(results) <= results.len(),
        spoiled(results) == 0 <==> forall|i: int|
            0 <= i < results.len() ==> !spoils(#[trigger] results[i]),
    decreases results.len(),
{
    if results.len() > 0 {
        let rest = results.drop_last();
        lemma_success_means_all_runs_are_valid(rest);
        if spoiled(results) == 0 {
            assert forall|i: int| 0 <= i < results.len() implies !spoils(#[trigger] results[i]) by {
                if i < rest.len() {
                    assert(results[i] == rest[i]);
                }
            }
        }
        if forall|i: int| 0 <= i < results.len() ==> !spoils(#[trigger] results[i]) {
            assert forall|i: int| 0 <= i < rest.len() implies !spoils(#[trigger] rest[i]) by {
                assert(rest[i] == results[i]);
            }
            assert(!spoils(results[results.len() - 1]));
        }
    }
}

/// How far the set-up of a run has got.
#[derive(Clone, Copy, Debug, PartialEq, Eq, Structural)]
pub enum SetUp {
    CreateManager,
    InitializeSession,
    LaunchSession,
    SetContexts,
    StartSession,
    /// Start the receiver, which stays for the whole session. A run without one is no
    /// network benchmark.
    StartReceiver,
    /// Let the streams begin.
    TriggerStreams,
    /// Open the file for single frames.
    OpenFrames,
    Ready,
}

impl SetUp {
    /// What follows when a part of the set-up has succeeded.
    pub open spec fn after(self, raw: bool) -> SetUp {
        match self {
            SetUp::CreateManager => SetUp::InitializeSession,
            SetUp::InitializeSession => SetUp::LaunchSession,
            SetUp::LaunchSession => SetUp::SetContexts,
            SetUp::SetContexts => SetUp::StartSession,
            SetUp::StartSession => SetUp::StartReceiver,
            SetUp::StartReceiver => SetUp::TriggerStreams,
            SetUp::TriggerStreams => if raw {
                SetUp::OpenFrames
            } else {
                SetUp::Ready
            },
            SetUp::OpenFrames => SetUp::Ready,
            SetUp::Ready => SetUp::Ready,
        }
    }

    pub fn succeeded(self, raw: bool) -> (r: SetUp)
        ensures
            r == self.after(raw),
    {
        match self {
            SetUp::CreateManager => SetUp::InitializeSession,
            SetUp::InitializeSession => SetUp::LaunchSession,
            SetUp::LaunchSession => SetUp::SetContexts,
            SetUp::SetContexts => SetUp::StartSession,
            SetUp::StartSession => SetUp::StartReceiver,
            SetUp::StartReceiver => SetUp::TriggerStreams,
            SetUp::TriggerStreams => if raw {
                SetUp::OpenFrames
            } else {
                SetUp::Ready
            },
            SetUp::OpenFrames => SetUp::Ready,
            SetUp::Ready => SetUp::Ready,
        }
    }

    /// Whether a session is there that must be stopped when this part fails.
    pub open spec fn has_session(self) -> bool {
        self != SetUp::CreateManager && self != SetUp::InitializeSession
    }

    /// What is reported when this part fails.
    pub open spec fn complaint(self, detail: Seq<char>) -> Seq<char> {
        match self {
            SetUp::CreateManager => "Failed to create session manager"@,
            SetUp::InitializeSession => "Failed to initialize session"@,
            SetUp::LaunchSession => "Failed to launch session: "@ + detail,
            SetUp::SetContexts => "Failed to set stream context: "@ + detail,
            SetUp::StartSession => "Failed to start session: "@ + detail,
            _ => detail,
        }
    }

    /// What to do when this part fails: whether to stop the session, and what to report.
    pub fn failed(self, detail: &str) -> (r: (bool, BenchError))
        ensures
            r.0 == self.has_session(),
            r.1@ == self.complaint(detail@),
    {
        match self {
            SetUp::CreateManager => (false, error("Failed to create session manager")),
            SetUp::InitializeSession => (false, error("Failed to initialize session")),
            SetUp::LaunchSession => (
                true,
                error(joined("Failed to launch session: ", detail).as_str()),
            ),
            SetUp::SetContexts => (
                true,
                error(joined("Failed to set stream context: ", detail).as_str()),
            ),
            SetUp::StartSession => (
                true,
                error(joined("Failed to start session: ", detail).as_str()),
            ),
            _ => (true, error(detail)),
        }
    }
}

/// A benchmark stops only where somebody interrupted a run, which it says, or a run failed that
/// is no part of a matrix.
pub proof fn lemma_what_stops_a_benchmark(result: RunResult, matrix: bool)
    ensures
        course(result, matrix) == Course::Interrupted <==> (result matches RunResult::Measured {
            interrupted: true,
            ..
        }),
        course(result, matrix) == Course::RunFailed <==> result == RunResult::Failed && !matrix,
        course(result, matrix) == Course::Continue <==> (result matches RunResult::Measured {
            interrupted: false,
            ..
        }) || (result == RunResult::Failed && matrix),
{
}

/// Exactly the runs that failed, and those that were measured but are not valid, spoil a
/// benchmark, whether or not somebody interrupted them; each counts once.
pub proof fn lemma_spoiled_runs_are_counted(results: Seq<RunResult>, valid: bool, interrupted: bool)
    ensures
        spoils(RunResult::Failed),
        spoils(RunResult::Measured { valid, interrupted }) <==> !valid,
        spoiled(results) == results.filter(
            |result: RunResult| result is Failed || !result->valid,
        ).len(),
    decreases results.len(),
{
    reveal(Seq::filter);
    if results.len() > 0 {
        lemma_spoiled_runs_are_counted(results.drop_last(), valid, interrupted);
    }
}

/// Runs and repetitions are counted from one: the first run repeats nothing, a run is followed
/// by that of the next setting, and the last setting by the first one of the next repetition.
pub proof fn lemma_runs_follow_each_other(campaign: &Campaign, number: int)
    requires
        campaign.well_formed(),
        0 < number < campaign.runs(),
    ensures
        campaign.run(1) == (Run { number: 1, repetition: 1, setting: 0 }),
        ({
            let run = campaign.run(number);
            let next = campaign.run(number + 1);
            &&& next.number == run.number + 1
            &&& run.setting + 1 < campaign.settings() ==> next.setting == run.setting + 1
                && next.repetition == run.repetition
            &&& run.setting + 1 == campaign.settings() ==> next.setting == 0 && next.repetition
                == run.repetition + 1
        }),
{
    let n = campaign.settings() as int;
    let begun = number - 1;
    lemma_round(campaign, number);
    lemma_round(campaign, number + 1);
    lemma_round(campaign, 1);
    vstd::arithmetic::div_mod::lemma_fundamental_div_mod(begun, n);
    let quotient = begun / n;
    let rest = begun % n;
    assert(number == quotient * n + rest + 1) by (nonlinear_arith)
        requires
            begun == n * quotient + rest,
            number == begun + 1,
    ;
    if rest + 1 < n {
        vstd::arithmetic::div_mod::lemma_fundamental_div_mod_converse(number, n, quotient, rest + 1);
    } else {
        assert(number == (quotient + 1) * n) by (nonlinear_arith)
            requires
                number == quotient * n + rest + 1,
                rest + 1 == n,
        ;
        vstd::arithmetic::div_mod::lemma_fundamental_div_mod_converse(number, n, quotient + 1, 0);
    }
    assert(0int / n == 0 && 0int % n == 0) by (nonlinear_arith)
        requires
            n > 0,
    ;
}

/// The parts of a set-up come in one order. The receiver is there before the streams begin, and
/// only single frames that are asked for put off the measurement any further.
pub proof fn lemma_parts_of_a_set_up_come_in_order(raw: bool)
    ensures
        SetUp::CreateManager.after(raw) == SetUp::InitializeSession,
        SetUp::InitializeSession.after(raw) == SetUp::LaunchSession,
        SetUp::LaunchSession.after(raw) == SetUp::SetContexts,
        SetUp::SetContexts.after(raw) == SetUp::StartSession,
        SetUp::StartSession.after(raw) == SetUp::StartReceiver,
        SetUp::StartReceiver.after(raw) == SetUp::TriggerStreams,
        SetUp::TriggerStreams.after(true) == SetUp::OpenFrames,
        SetUp::TriggerStreams.after(false) == SetUp::Ready,
        SetUp::OpenFrames.after(raw) == SetUp::Ready,
        SetUp::Ready.after(raw) == SetUp::Ready,
{
}

/// A session that was launched, or could have been in part, is stopped when a later part of the
/// set-up fails, and only then. The complaint begins with what failed and ends with why.
pub proof fn lemma_what_a_failed_set_up_leaves(part: SetUp, detail: Seq<char>)
    ensures
        part.has_session() <==> part == SetUp::LaunchSession || part == SetUp::SetContexts || part
            == SetUp::StartSession || part == SetUp::StartReceiver || part == SetUp::TriggerStreams
            || part == SetUp::OpenFrames || part == SetUp::Ready,
        part == SetUp::CreateManager ==> part.complaint(detail)
            == "Failed to create session manager"@,
        part == SetUp::InitializeSession ==> part.complaint(detail)
            == "Failed to initialize session"@,
        part == SetUp::LaunchSession ==> part.complaint(detail) == "Failed to launch session: "@
            + detail,
        part == SetUp::SetContexts ==> part.complaint(detail) == "Failed to set stream context: "@
            + detail,
        part == SetUp::StartSession ==> part.complaint(detail) == "Failed to start session: "@
            + detail,
        part == SetUp::StartReceiver || part == SetUp::TriggerStreams || part == SetUp::OpenFrames
            ==> part.complaint(detail) == detail,
{
}

/// Every setting has a run for each repetition, and there are no more: a run begins as long as
/// fewer have begun than there are settings times repetitions, with the next number.
pub proof fn lemma_all_runs_begin(campaign: &Campaign)
    requires
        campaign.well_formed(),
    ensures
        campaign.next_run() is Some <==> campaign.begun() < campaign.settings() * campaign.repeat(),
        campaign.next_run() matches Some(run) ==> run.number == campaign.begun() + 1 && run.setting
            < campaign.settings() && 0 < run.repetition <= campaign.repeat(),
{
    if campaign.begun() < campaign.runs() {
        lemma_round(campaign, campaign.begun() + 1);
    }
}

/// A benchmark succeeds exactly if every run was measured and valid. Otherwise the complaint
/// begins with the number of those that were not, in decimal digits.
pub proof fn lemma_what_a_benchmark_comes_to(results: Seq<RunResult>)
    ensures
        verdict(results) is None <==> forall|i: int|
            0 <= i < results.len() ==> (#[trigger] results[i]) is Measured && results[i]->valid,
        verdict(results) matches Some(complaint) ==> complaint == decimal::shown(
            results.filter(|result: RunResult| result is Failed || !result->valid).len(),
        ) + " run(s) failed measurement validity checks; see reports"@,
{
    lemma_success_means_all_runs_are_valid(results);
    lemma_spoiled_runs_are_counted(results, true, true);
}

} // verus!
