//! How the units of a session are created.
//!
//! The guardian comes first: the service manager owns its reading end of the liveness pipe
//! while only the daemon holds the other, so that the guardian ends when the daemon does,
//! and the slice, which is bound to it, is stopped. The launch gate comes last. Services and
//! scopes that require it cannot start a session again that was stopped.

use crate::processes::{self, cgroup_path};
use crate::units::{self, gate_properties, guardian_properties, slice_properties, Property, UnitNames};
use vstd::prelude::*;

verus! {

/// How far the creation of a session's units has got.
#[derive(Clone, Copy, Debug, PartialEq, Eq, Structural)]
pub enum Stage {
    Subscribe,
    LocateReader,
    StartGuardian,
    StartSlice,
    FindSlice,
    ReadControlGroup,
    LocateReady,
    StartGate,
    Ready,
    Failed,
}

/// The programs that the units run.
pub open spec fn reader() -> Seq<char> {
    "cat"@
}

pub open spec fn ready_command() -> Seq<char> {
    "true"@
}

/// What is to be done next.
pub enum Step {
    /// Ask the service manager for signals.
    Subscribe,
    /// Find a program.
    Locate { program: &'static str },
    /// Start a transient unit and wait for its job.
    Start { unit: String, properties: Vec<Property> },
    /// Ask for a unit's object.
    Find { unit: String },
    /// Read the control group of the unit that was found.
    ReadControlGroup,
    Ready,
    Failed,
}

/// What came of it.
pub enum Outcome {
    Done,
    Located(Option<String>),
    /// Whether the unit exists.
    Found(bool),
    ControlGroup(String),
    Failed,
}

impl Stage {
    /// The stage that follows an outcome. One that does not fit the question counts as a
    /// failure.
    pub open spec fn next(self, outcome: Outcome) -> Stage {
        match (self, outcome) {
            (Stage::Subscribe, Outcome::Done) => Stage::LocateReader,
            (Stage::LocateReader, Outcome::Located(Some(_))) => Stage::StartGuardian,
            (Stage::StartGuardian, Outcome::Done) => Stage::StartSlice,
            (Stage::StartSlice, Outcome::Done) => Stage::FindSlice,
            (Stage::FindSlice, Outcome::Found(true)) => Stage::ReadControlGroup,
            (Stage::ReadControlGroup, Outcome::ControlGroup(path)) => if processes::is_cgroup(
                path@,
            ) {
                Stage::LocateReady
            } else {
                Stage::Failed
            },
            (Stage::LocateReady, Outcome::Located(Some(_))) => Stage::StartGate,
            (Stage::StartGate, Outcome::Done) => Stage::Ready,
            (Stage::Ready, _) => Stage::Ready,
            _ => Stage::Failed,
        }
    }

    /// How many outcomes lie before a stage.
    pub open spec fn rank(self) -> int {
        match self {
            Stage::Subscribe => 0,
            Stage::LocateReader => 1,
            Stage::StartGuardian => 2,
            Stage::StartSlice => 3,
            Stage::FindSlice => 4,
            Stage::ReadControlGroup => 5,
            Stage::LocateReady => 6,
            Stage::StartGate => 7,
            Stage::Ready => 8,
            Stage::Failed => 9,
        }
    }

    /// Whether a step is what a stage asks for. A unit is started with the program that was
    /// just found.
    pub open spec fn asks(self, step: Step, outcome: Outcome, names: &UnitNames) -> bool {
        match self {
            Stage::Subscribe => step == Step::Subscribe,
            Stage::LocateReader => step is Locate && step->program@ == reader(),
            Stage::StartGuardian => step is Start && step->Start_unit@ == names.guardian@
                && units::meanings(step->properties@) == units::guardian_meanings(
                outcome->Located_0->0@,
            ),
            Stage::StartSlice => step is Start && step->Start_unit@ == names.slice@
                && units::meanings(step->properties@) == units::slice_meanings(names.guardian@),
            Stage::FindSlice => step is Find && step->Find_unit@ == names.slice@,
            Stage::ReadControlGroup => step == Step::ReadControlGroup,
            Stage::LocateReady => step is Locate && step->program@ == ready_command(),
            Stage::StartGate => step is Start && step->Start_unit@ == names.gate@
                && units::meanings(step->properties@) == units::gate_meanings(
                names.slice@,
                outcome->Located_0->0@,
            ),
            Stage::Ready => step == Step::Ready,
            Stage::Failed => step == Step::Failed,
        }
    }
}

/// The directory of the session's control group, as far as it is known after an outcome.
pub open spec fn group_after(
    stage: Stage,
    outcome: Outcome,
    group: Option<Seq<char>>,
) -> Option<Seq<char>> {
    match (stage, outcome) {
        (Stage::ReadControlGroup, Outcome::ControlGroup(path)) if processes::is_cgroup(path@) => Some(
            processes::cgroup_mount() + path@,
        ),
        _ => group,
    }
}

/// The creation of one session's units.
pub struct Initialization {
    names: UnitNames,
    stage: Stage,
    cgroup: Option<String>,
}

impl Initialization {
    pub closed spec fn names(&self) -> UnitNames {
        self.names
    }

    pub closed spec fn stage(&self) -> Stage {
        self.stage
    }

    /// The directory of the session's control group, once it is known.
    pub closed spec fn group(&self) -> Option<Seq<char>> {
        match self.cgroup {
            Some(path) => Some(path@),
            None => None,
        }
    }

    /// Begins with a subscription.
    pub fn new(names: UnitNames) -> (r: Initialization)
        ensures
            r.names() == names,
            r.stage() == Stage::Subscribe,
            r.group() is None,
    {
        Initialization { names, stage: Stage::Subscribe, cgroup: None }
    }

    pub fn units(&self) -> (r: &UnitNames)
        ensures
            *r == self.names(),
    {
        &self.names
    }

    /// The directory of the session's control group, once it is known.
    pub fn cgroup(&self) -> (r: Option<&str>)
        ensures
            match self.group() {
                Some(path) => r is Some && r->0@ == path,
                None => r is None,
            },
    {
        match &self.cgroup {
            Some(path) => Some(path.as_str()),
            None => None,
        }
    }

    /// Takes the outcome of a step and says what to do next.
    pub fn step(&mut self, outcome: Outcome) -> (r: Step)
        ensures
            final(self).names() == old(self).names(),
            final(self).stage() == old(self).stage().next(outcome),
            final(self).stage().asks(r, outcome, &old(self).names()),
            final(self).group() == match (old(self).stage(), outcome) {
                (Stage::ReadControlGroup, Outcome::ControlGroup(path)) if processes::is_cgroup(
                    path@,
                ) => Some(processes::cgroup_mount() + path@),
                _ => old(self).group(),
            },
            final(self).group() == group_after(old(self).stage(), outcome, old(self).group()),
    {
        let stage: Stage = self.stage;
        self.stage = Stage::Failed;
        match stage {
            Stage::Subscribe => match outcome {
                Outcome::Done => {
                    self.stage = Stage::LocateReader;
                    Step::Locate { program: "cat" }
                },
                _ => Step::Failed,
            },
            Stage::LocateReader => match outcome {
                Outcome::Located(Some(cat)) => {
                    self.stage = Stage::StartGuardian;
                    Step::Start {
                        unit: self.names.guardian.clone(),
                        properties: guardian_properties(cat.as_str()),
                    }
                },
                _ => Step::Failed,
            },
            Stage::StartGuardian => match outcome {
                Outcome::Done => {
                    self.stage = Stage::StartSlice;
                    Step::Start {
                        unit: self.names.slice.clone(),
                        properties: slice_properties(self.names.guardian.as_str()),
                    }
                },
                _ => Step::Failed,
            },
            Stage::StartSlice => match outcome {
                Outcome::Done => {
                    self.stage = Stage::FindSlice;
                    Step::Find { unit: self.names.slice.clone() }
                },
                _ => Step::Failed,
            },
            Stage::FindSlice => match outcome {
                Outcome::Found(true) => {
                    self.stage = Stage::ReadControlGroup;
                    Step::ReadControlGroup
                },
                _ => Step::Failed,
            },
            Stage::ReadControlGroup => match outcome {
                Outcome::ControlGroup(path) => match cgroup_path(path.as_str()) {
                    Ok(directory) => {
                        self.cgroup = Some(directory);
                        self.stage = Stage::LocateReady;
                        Step::Locate { program: "true" }
                    },
                    Err(()) => Step::Failed,
                },
                _ => Step::Failed,
            },
            Stage::LocateReady => match outcome {
                Outcome::Located(Some(ready)) => {
                    self.stage = Stage::StartGate;
                    Step::Start {
                        unit: self.names.gate.clone(),
                        properties: gate_properties(self.names.slice.as_str(), ready.as_str()),
                    }
                },
                _ => Step::Failed,
            },
            Stage::StartGate => match outcome {
                Outcome::Done => {
                    self.stage = Stage::Ready;
                    Step::Ready
                },
                _ => Step::Failed,
            },
            Stage::Ready => {
                self.stage = Stage::Ready;
                Step::Ready
            },
            Stage::Failed => Step::Failed,
        }
    }
}

/// The stage that a row of outcomes leads to.
pub open spec fn reached(outcomes: Seq<Outcome>) -> Stage
    decreases outcomes.len(),
{
    if outcomes.len() == 0 {
        Stage::Subscribe
    } else {
        reached(outcomes.drop_last()).next(outcomes.last())
    }
}

/// No step is left out and none is taken twice: a session that has not failed has taken one
/// step for each outcome, and is ready after the eighth.
pub proof fn lemma_steps_are_taken_in_order(outcomes: Seq<Outcome>)
    ensures
        reached(outcomes) != Stage::Failed ==> reached(outcomes).rank() == if outcomes.len() < 8 {
            outcomes.len() as int
        } else {
            8
        },
    decreases outcomes.len(),
{
    if outcomes.len() > 0 {
        lemma_steps_are_taken_in_order(outcomes.drop_last());
    }
}

/// A failure is final.
pub proof fn lemma_failure_is_final(outcomes: Seq<Outcome>, more: Seq<Outcome>)
    requires
        reached(outcomes) == Stage::Failed,
    ensures
        reached(outcomes + more) == Stage::Failed,
    decreases more.len(),
{
    if more.len() == 0 {
        assert(outcomes + more =~= outcomes);
    } else {
        lemma_failure_is_final(outcomes, more.drop_last());
        assert((outcomes + more).drop_last() =~= outcomes + more.drop_last());
    }
}

/// A session is ready after eight answers as they should be: signals, a program for the
/// guardian, the guardian, the slice, the slice's object and its control group, a program to
/// launch first, and the launch gate.
pub proof fn lemma_a_session_gets_ready(cat: String, path: String, ready: String)
    requires
        processes::is_cgroup(path@),
    ensures
        reached(
            seq![
                Outcome::Done,
                Outcome::Located(Some(cat)),
                Outcome::Done,
                Outcome::Done,
                Outcome::Found(true),
                Outcome::ControlGroup(path),
                Outcome::Located(Some(ready)),
                Outcome::Done,
            ],
        ) == Stage::Ready,
{
    let outcomes = seq![
        Outcome::Done,
        Outcome::Located(Some(cat)),
        Outcome::Done,
        Outcome::Done,
        Outcome::Found(true),
        Outcome::ControlGroup(path),
        Outcome::Located(Some(ready)),
        Outcome::Done,
    ];
    lemma_one_more(outcomes, 0);
    lemma_one_more(outcomes, 1);
    lemma_one_more(outcomes, 2);
    lemma_one_more(outcomes, 3);
    lemma_one_more(outcomes, 4);
    lemma_one_more(outcomes, 5);
    lemma_one_more(outcomes, 6);
    lemma_one_more(outcomes, 7);
    assert(outcomes.take(0) =~= Seq::<Outcome>::empty());
    assert(outcomes.take(8) =~= outcomes);
}

proof fn lemma_one_more(outcomes: Seq<Outcome>, i: int)
    requires
        0 <= i < outcomes.len(),
    ensures
        reached(outcomes.take(i + 1)) == reached(outcomes.take(i)).next(outcomes[i]),
{
    assert(outcomes.take(i + 1).drop_last() =~= outcomes.take(i));
    assert(outcomes.take(i + 1).last() == outcomes[i]);
}

/// A failure, a program or a unit that is not there, and a control group that could lie
/// anywhere end the creation of a session that is not ready.
pub proof fn lemma_what_keeps_a_session_from_getting_ready(stage: Stage, path: String)
    requires
        stage != Stage::Ready,
    ensures
        stage.next(Outcome::Failed) == Stage::Failed,
        stage.next(Outcome::Located(None)) == Stage::Failed,
        stage.next(Outcome::Found(false)) == Stage::Failed,
        !processes::is_cgroup(path@) ==> stage.next(Outcome::ControlGroup(path)) == Stage::Failed,
{
}

/// What is asked for on the way: `cat` for the guardian and `true` for the launch gate, the slice
/// bound to the guardian and the launch gate bound to the slice, each under its own name.
pub proof fn lemma_what_is_asked_for(step: Step, outcome: Outcome, names: &UnitNames)
    ensures
        Stage::LocateReader.asks(step, outcome, names) ==> step is Locate && step->program@
            == "cat"@,
        Stage::LocateReady.asks(step, outcome, names) ==> step is Locate && step->program@
            == "true"@,
        Stage::StartGuardian.asks(step, outcome, names) ==> step is Start && step->Start_unit@
            == names.guardian@ && (outcome matches Outcome::Located(Some(cat)) ==> units::meanings(
            step->properties@,
        ).contains(("ExecStart"@, units::Meaning::Runs(cat@)))),
        Stage::StartSlice.asks(step, outcome, names) ==> step is Start && step->Start_unit@
            == names.slice@ && units::meanings(step->properties@).contains(
            ("BindsTo"@, units::Meaning::Names(seq![names.guardian@])),
        ),
        Stage::FindSlice.asks(step, outcome, names) ==> step is Find && step->Find_unit@
            == names.slice@,
        Stage::StartGate.asks(step, outcome, names) ==> step is Start && step->Start_unit@
            == names.gate@ && units::meanings(step->properties@).contains(
            ("BindsTo"@, units::Meaning::Names(seq![names.slice@])),
        ) && (outcome matches Outcome::Located(Some(ready)) ==> units::meanings(
            step->properties@,
        ).contains(("ExecStart"@, units::Meaning::Runs(ready@)))),
        Stage::Subscribe.asks(step, outcome, names) ==> step == Step::Subscribe,
        Stage::ReadControlGroup.asks(step, outcome, names) ==> step == Step::ReadControlGroup,
        Stage::Ready.asks(step, outcome, names) ==> step == Step::Ready,
        Stage::Failed.asks(step, outcome, names) ==> step == Step::Failed,
{
    if Stage::StartGuardian.asks(step, outcome, names) {
        units::lemma_the_guardian_watches_the_daemon(outcome->Located_0->0@);
    }
    units::lemma_the_slice_is_bound_to_the_guardian(names.guardian@);
    if Stage::StartGate.asks(step, outcome, names) {
        units::lemma_the_gate_is_bound_to_the_slice(names.slice@, outcome->Located_0->0@);
    }
}

/// The control group is known once it was asked for and given, and stays known whatever fails
/// later, so that what was created can be cleaned up.
pub proof fn lemma_the_group_stays_known(
    stage: Stage,
    outcome: Outcome,
    path: String,
    group: Option<Seq<char>>,
)
    requires
        processes::is_cgroup(path@),
    ensures
        group_after(Stage::ReadControlGroup, Outcome::ControlGroup(path), group) == Some(
            "/sys/fs/cgroup"@ + path@,
        ),
        stage != Stage::ReadControlGroup ==> group_after(stage, outcome, group) == group,
        !(outcome is ControlGroup) ==> group_after(stage, outcome, group) == group,
        group is Some ==> group_after(stage, outcome, group) is Some,
{
}

} // verus!
