//! What the service manager's answers mean.

use crate::text::same_text;
use vstd::prelude::*;

verus! {

/// The error that the service manager gives for a unit that it does not know.
pub open spec fn no_such_unit_error() -> Seq<char> {
    "org.freedesktop.systemd1.NoSuchUnit"@
}

/// Whether an error, by its name, says that a unit does not exist.
pub fn no_such_unit(name: &str) -> (r: bool)
    ensures
        r == (name@ == no_such_unit_error()),
        r == means_missing(name@),
{
    same_text(name, "org.freedesktop.systemd1.NoSuchUnit")
}

/// Whether an error, by its name, says that a unit does not exist.
pub open spec fn means_missing(name: Seq<char>) -> bool {
    name == no_such_unit_error()
}

/// The answer to a method call.
pub enum BusReply {
    /// The object that the call gave, by its path; empty where it gave nothing.
    Object(String),
    /// The method's own error, by its name.
    MethodError(String),
    /// The call did not get through.
    Failed,
}

/// What an answer comes to: an object, none because the unit does not exist, or a failure.
pub open spec fn object_of(reply: BusReply) -> Result<Option<Seq<char>>, ()> {
    match reply {
        BusReply::Object(path) => Ok(Some(path@)),
        BusReply::MethodError(name) => if means_missing(name@) {
            Ok(None)
        } else {
            Err(())
        },
        BusReply::Failed => Err(()),
    }
}

/// The object that a unit or a stop request gave. A unit that does not exist gives none,
/// which is no failure.
pub fn found(reply: BusReply) -> (r: Result<Option<String>, ()>)
    ensures
        match reply {
            BusReply::Object(path) => r == Ok::<Option<String>, ()>(Some(path)),
            BusReply::MethodError(name) => if name@ == no_such_unit_error() {
                r == Ok::<Option<String>, ()>(None)
            } else {
                r is Err
            },
            BusReply::Failed => r is Err,
        },
        r is Ok <==> object_of(reply) is Ok,
        r matches Ok(Some(path)) ==> object_of(reply) == Ok::<Option<Seq<char>>, ()>(Some(path@)),
        r matches Ok(None) ==> object_of(reply) == Ok::<Option<Seq<char>>, ()>(None),
{
    match reply {
        BusReply::Object(path) => Ok(Some(path)),
        BusReply::MethodError(name) => if no_such_unit(name.as_str()) {
            Ok(None)
        } else {
            Err(())
        },
        BusReply::Failed => Err(()),
    }
}

/// Whether a kill request did what it is for. Nothing is left to kill in a unit that does not
/// exist.
pub fn killed(reply: &BusReply) -> (r: Result<(), ()>)
    ensures
        r is Ok == match *reply {
            BusReply::Object(_) => true,
            BusReply::MethodError(name) => name@ == no_such_unit_error(),
            BusReply::Failed => false,
        },
        r is Ok <==> object_of(*reply) is Ok,
{
    match reply {
        BusReply::Object(_) => Ok(()),
        BusReply::MethodError(name) => if no_such_unit(name.as_str()) {
            Ok(())
        } else {
            Err(())
        },
        BusReply::Failed => Err(()),
    }
}

/// What one waits for while a job runs.
pub enum JobEvent<'a> {
    /// A job was removed, with its result.
    Removed { job: &'a str, result: &'a str },
    /// A signal that cannot be read.
    Unreadable,
    /// No more signals come.
    Ended,
    TimedOut,
}

/// What an event says about a job, if anything.
pub open spec fn verdict(job: Seq<char>, event: JobEvent) -> Option<Result<(), ()>> {
    match event {
        JobEvent::Removed { job: path, result } => if path@ != job {
            None
        } else if result@ == "done"@ {
            Some(Ok(()))
        } else {
            Some(Err(()))
        },
        _ => Some(Err(())),
    }
}

/// What an event says about a job; none where the wait goes on.
pub fn job_event(job: &str, event: JobEvent) -> (r: Option<Result<(), ()>>)
    ensures
        r == verdict(job@, event),
{
    match event {
        JobEvent::Removed { job: path, result } => if !same_text(path, job) {
            None
        } else if same_text(result, "done") {
            Some(Ok(()))
        } else {
            Some(Err(()))
        },
        JobEvent::Unreadable => Some(Err(())),
        JobEvent::Ended => Some(Err(())),
        JobEvent::TimedOut => Some(Err(())),
    }
}

/// What a row of events says about a job: the first that says anything decides.
pub open spec fn outcome(job: Seq<char>, events: Seq<JobEvent>) -> Option<Result<(), ()>>
    decreases events.len(),
{
    if events.len() == 0 {
        None
    } else if verdict(job, events[0]) is Some {
        verdict(job, events[0])
    } else {
        outcome(job, events.drop_first())
    }
}

/// A job counts as done only if it was removed as done, and everything before was about
/// other jobs.
pub proof fn lemma_done_means_removed_as_done(job: Seq<char>, events: Seq<JobEvent>)
    requires
        outcome(job, events) == Some(Ok::<(), ()>(())),
    ensures
        exists|i: int|
            0 <= i < events.len() && #[trigger] verdict(job, events[i]) == Some(Ok::<(), ()>(()))
                && events[i] is Removed && events[i]->job@ == job && events[i]->result@ == "done"@
                && (forall|k: int| 0 <= k < i ==> #[trigger] events[k] is Removed && events[k]->job@
                != job),
    decreases events.len(),
{
    if verdict(job, events[0]) is Some {
        assert(verdict(job, events[0]) == Some(Ok::<(), ()>(())));
        assert(events[0] is Removed);
    } else {
        let rest = events.drop_first();
        lemma_done_means_removed_as_done(job, rest);
        let i = choose|i: int|
            0 <= i < rest.len() && #[trigger] verdict(job, rest[i]) == Some(Ok::<(), ()>(()))
                && rest[i] is Removed && rest[i]->job@ == job && rest[i]->result@ == "done"@ && (
            forall|k: int| 0 <= k < i ==> #[trigger] rest[k] is Removed && rest[k]->job@ != job);
        assert(events[i + 1] == rest[i]);
        assert(verdict(job, events[i + 1]) == Some(Ok::<(), ()>(())));
        assert forall|k: int| 0 <= k < i + 1 implies #[trigger] events[k] is Removed
            && events[k]->job@ != job by {
            if k > 0 {
                assert(rest[k - 1] == events[k]);
            }
        }
    }
}

/// What events say about a job: its removal decides, for the better exactly if it was done.
/// Other jobs say nothing. A signal that cannot be read, the end of signals and the end of time
/// decide for the worse.
pub proof fn lemma_what_events_say(job: Seq<char>, event: JobEvent)
    ensures
        event matches JobEvent::Removed { job: path, result } ==> {
            &&& path@ != job ==> verdict(job, event) is None
            &&& path@ == job && result@ == "done"@ ==> verdict(job, event) == Some(Ok::<(), ()>(()))
            &&& path@ == job && result@ != "done"@ ==> verdict(job, event) == Some(
                Err::<(), ()>(()),
            )
        },
        !(event is Removed) ==> verdict(job, event) == Some(Err::<(), ()>(())),
{
}

/// The first event that says anything about a job decides, whatever follows it.
pub proof fn lemma_the_first_verdict_stands(
    job: Seq<char>,
    events: Seq<JobEvent>,
    i: int,
)
    requires
        0 <= i < events.len(),
        verdict(job, events[i]) is Some,
        forall|k: int| 0 <= k < i ==> verdict(job, #[trigger] events[k]) is None,
    ensures
        outcome(job, events) == verdict(job, events[i]),
    decreases events.len(),
{
    if i > 0 {
        let rest = events.drop_first();
        assert(verdict(job, events[0]) is None);
        assert forall|k: int| 0 <= k < i - 1 implies verdict(job, #[trigger] rest[k]) is None by {
            assert(rest[k] == events[k + 1]);
        }
        assert(rest[i - 1] == events[i]);
        lemma_the_first_verdict_stands(job, rest, i - 1);
    }
}

/// A unit that does not exist has an error of its own.
pub proof fn lemma_missing_units_have_an_error(name: Seq<char>)
    ensures
        name == "org.freedesktop.systemd1.NoSuchUnit"@ <==> name == no_such_unit_error(),
{
}

/// What answers come to: an object is taken as it is, an error means that there is none exactly
/// if it is the one for units that do not exist, and everything else is a failure.
pub proof fn lemma_what_answers_come_to(path: String, name: String)
    ensures
        object_of(BusReply::Object(path)) == Ok::<Option<Seq<char>>, ()>(Some(path@)),
        object_of(BusReply::MethodError(name)) is Ok <==> name@
            == "org.freedesktop.systemd1.NoSuchUnit"@,
        object_of(BusReply::MethodError(name)) is Ok ==> object_of(BusReply::MethodError(name))
            == Ok::<Option<Seq<char>>, ()>(None),
        object_of(BusReply::Failed) is Err,
        means_missing(name@) <==> name@ == "org.freedesktop.systemd1.NoSuchUnit"@,
{
}

} // verus!
