//! The service manager's units of one session, and how they are described to it.

use crate::text::{self, joined};
use vstd::prelude::*;

verus! {

/// Whether a text is a session's number: 32 hexadecimal digits in lower case, with the
/// marks of a random identifier.
pub open spec fn is_session_id(id: Seq<char>) -> bool {
    &&& id.len() == 32
    &&& forall|i: int|
        0 <= i < 32 ==> ('0' <= #[trigger] id[i] <= '9' || 'a' <= id[i] <= 'f')
    &&& id[12] == '4'
    &&& id[16] == '8' || id[16] == '9' || id[16] == 'a' || id[16] == 'b'
}

/// `uuid::Uuid::new_v4`, shown by `Uuid::simple`: a fresh random identifier as 32 lower-case
/// hexadecimal digits, of which the thirteenth is the version and the seventeenth begins
/// with the variant. Which identifier comes is left to chance.
#[verifier::external_body]
fn fresh_id() -> (r: String)
    ensures
        is_session_id(r@),
{
    uuid::Uuid::new_v4().simple().to_string()
}

/// A kind of unit.
#[derive(Clone, Copy, Debug, PartialEq, Eq, Structural)]
pub enum Unit {
    /// Holds every process of the session.
    Slice,
    /// Must be active for anything to be launched.
    Gate,
    Application,
    Xwayland,
    /// Ends when the daemon does.
    Guardian,
}

/// The name of a session's unit.
pub open spec fn unit_name(unit: Unit, id: Seq<char>) -> Seq<char> {
    match unit {
        Unit::Slice => "moonshine-session-"@ + id + ".slice"@,
        Unit::Gate => "moonshine-gate-"@ + id + ".service"@,
        Unit::Application => "moonshine-app-"@ + id + ".service"@,
        Unit::Xwayland => "moonshine-xwayland-"@ + id + ".scope"@,
        Unit::Guardian => "moonshine-guardian-"@ + id + ".service"@,
    }
}

spec fn unit_prefix(unit: Unit) -> Seq<char> {
    match unit {
        Unit::Slice => "moonshine-session-"@,
        Unit::Gate => "moonshine-gate-"@,
        Unit::Application => "moonshine-app-"@,
        Unit::Xwayland => "moonshine-xwayland-"@,
        Unit::Guardian => "moonshine-guardian-"@,
    }
}

spec fn unit_mark(unit: Unit) -> (char, char) {
    match unit {
        Unit::Slice => ('s', 'e'),
        Unit::Gate => ('g', 'a'),
        Unit::Application => ('a', 'p'),
        Unit::Xwayland => ('x', 'w'),
        Unit::Guardian => ('g', 'u'),
    }
}

proof fn lemma_unit_mark(unit: Unit, id: Seq<char>)
    ensures
        unit_prefix(unit).len() >= 12,
        (unit_name(unit, id)[10], unit_name(unit, id)[11]) == unit_mark(unit),
        unit_name(unit, id).subrange(
            unit_prefix(unit).len() as int,
            (unit_prefix(unit).len() + id.len()) as int,
        ) == id,
{
    match unit {
        Unit::Slice => reveal_strlit("moonshine-session-"),
        Unit::Gate => reveal_strlit("moonshine-gate-"),
        Unit::Application => reveal_strlit("moonshine-app-"),
        Unit::Xwayland => reveal_strlit("moonshine-xwayland-"),
        Unit::Guardian => reveal_strlit("moonshine-guardian-"),
    }
    let prefix = unit_prefix(unit);
    let name = unit_name(unit, id);
    assert(name[10] == prefix[10]);
    assert(name[11] == prefix[11]);
    assert(name.subrange(prefix.len() as int, (prefix.len() + id.len()) as int) =~= id);
}

/// No two units of any sessions share a name.
pub proof fn lemma_unit_names_differ(a: Unit, first: Seq<char>, b: Unit, second: Seq<char>)
    requires
        is_session_id(first),
        is_session_id(second),
    ensures
        unit_name(a, first) == unit_name(b, second) ==> a == b && first == second,
{
    lemma_unit_mark(a, first);
    lemma_unit_mark(b, second);
}

/// The names of a session's units.
#[derive(Clone, Debug)]
pub struct UnitNames {
    pub slice: String,
    pub gate: String,
    pub application: String,
    pub xwayland: String,
    pub guardian: String,
}

impl UnitNames {
    /// Whether these are the names of the session with a number.
    pub open spec fn belong_to(&self, id: Seq<char>) -> bool {
        &&& self.slice@ == unit_name(Unit::Slice, id)
        &&& self.gate@ == unit_name(Unit::Gate, id)
        &&& self.application@ == unit_name(Unit::Application, id)
        &&& self.xwayland@ == unit_name(Unit::Xwayland, id)
        &&& self.guardian@ == unit_name(Unit::Guardian, id)
    }

    /// The names for a session number.
    pub fn for_id(id: &str) -> (r: UnitNames)
        ensures
            r.belong_to(id@),
    {
        UnitNames {
            slice: joined(joined("moonshine-session-", id).as_str(), ".slice"),
            gate: joined(joined("moonshine-gate-", id).as_str(), ".service"),
            application: joined(joined("moonshine-app-", id).as_str(), ".service"),
            xwayland: joined(joined("moonshine-xwayland-", id).as_str(), ".scope"),
            guardian: joined(joined("moonshine-guardian-", id).as_str(), ".service"),
        }
    }

    /// The names for a new session.
    pub fn new() -> (r: UnitNames)
        ensures
            exists|id: Seq<char>| is_session_id(id) && #[trigger] r.belong_to(id),
    {
        let id: String = fresh_id();
        UnitNames::for_id(id.as_str())
    }
}

/// A command that a unit runs.
pub struct Command {
    pub path: String,
    pub arguments: Vec<String>,
    /// Whether the unit goes on when the command fails.
    pub ignore_failure: bool,
}

/// The value of a unit's property.
pub enum PropertyValue {
    Text(String),
    Flag(bool),
    Names(Vec<String>),
    Commands(Vec<Command>),
    /// The reading end of the liveness pipe.
    LivenessPipe,
}

/// What a property says.
pub ghost enum Meaning {
    Text(Seq<char>),
    Flag(bool),
    Names(Seq<Seq<char>>),
    /// Runs a program whose only argument is its own path, and fails if it does.
    Runs(Seq<char>),
    LivenessPipe,
    Other,
}

impl PropertyValue {
    pub open spec fn meaning(&self) -> Meaning {
        match *self {
            PropertyValue::Text(text) => Meaning::Text(text@),
            PropertyValue::Flag(flag) => Meaning::Flag(flag),
            PropertyValue::Names(names) => Meaning::Names(text::texts(names@)),
            PropertyValue::Commands(commands) => if commands@.len() == 1 && text::texts(
                commands@[0].arguments@,
            ) == seq![commands@[0].path@] && !commands@[0].ignore_failure {
                Meaning::Runs(commands@[0].path@)
            } else {
                Meaning::Other
            },
            PropertyValue::LivenessPipe => Meaning::LivenessPipe,
        }
    }
}

/// A property of a unit.
pub struct Property {
    pub name: String,
    pub value: PropertyValue,
}

/// What a list of properties says.
pub open spec fn meanings(properties: Seq<Property>) -> Seq<(Seq<char>, Meaning)> {
    properties.map_values(|p: Property| (p.name@, p.value.meaning()))
}

fn text_property(name: &str, value: &str) -> (r: Property)
    ensures
        r.name@ == name@,
        r.value.meaning() == Meaning::Text(value@),
{
    Property { name: name.to_owned(), value: PropertyValue::Text(value.to_owned()) }
}

fn names_property(name: &str, unit: &str) -> (r: Property)
    ensures
        r.name@ == name@,
        r.value.meaning() == Meaning::Names(seq![unit@]),
{
    let mut names: Vec<String> = Vec::new();
    names.push(unit.to_owned());
    proof {
        assert(text::texts(names@) =~= seq![unit@]);
    }
    Property { name: name.to_owned(), value: PropertyValue::Names(names) }
}

fn command_property(name: &str, program: &str) -> (r: Property)
    ensures
        r.name@ == name@,
        r.value.meaning() == Meaning::Runs(program@),
{
    let mut arguments: Vec<String> = Vec::new();
    arguments.push(program.to_owned());
    proof {
        assert(text::texts(arguments@) =~= seq![program@]);
    }
    let mut commands: Vec<Command> = Vec::new();
    commands.push(Command { path: program.to_owned(), arguments, ignore_failure: false });
    Property { name: name.to_owned(), value: PropertyValue::Commands(commands) }
}

/// What describes the guardian: it reads the liveness pipe until the daemon's end closes.
pub open spec fn guardian_meanings(cat: Seq<char>) -> Seq<(Seq<char>, Meaning)> {
    seq![
        ("Description"@, Meaning::Text("Moonshine session liveness guardian"@)),
        ("Type"@, Meaning::Text("exec"@)),
        ("Slice"@, Meaning::Text("moonshine.slice"@)),
        ("ExecStart"@, Meaning::Runs(cat)),
        ("StandardInputFileDescriptor"@, Meaning::LivenessPipe),
        ("StandardOutput"@, Meaning::Text("null"@)),
        ("StandardError"@, Meaning::Text("journal"@)),
        ("CollectMode"@, Meaning::Text("inactive-or-failed"@)),
    ]
}

/// The properties of the guardian, which runs `cat`.
pub fn guardian_properties(cat: &str) -> (r: Vec<Property>)
    ensures
        meanings(r@) == guardian_meanings(cat@),
{
    let mut r: Vec<Property> = Vec::new();
    r.push(text_property("Description", "Moonshine session liveness guardian"));
    r.push(text_property("Type", "exec"));
    r.push(text_property("Slice", "moonshine.slice"));
    r.push(command_property("ExecStart", cat));
    r.push(
        Property {
            name: "StandardInputFileDescriptor".to_owned(),
            value: PropertyValue::LivenessPipe,
        },
    );
    r.push(text_property("StandardOutput", "null"));
    r.push(text_property("StandardError", "journal"));
    r.push(text_property("CollectMode", "inactive-or-failed"));
    proof {
        assert(meanings(r@) =~= guardian_meanings(cat@));
    }
    r
}

/// What describes the slice: it lives no longer than the guardian.
pub open spec fn slice_meanings(guardian: Seq<char>) -> Seq<(Seq<char>, Meaning)> {
    seq![
        ("Description"@, Meaning::Text("Moonshine session processes"@)),
        ("BindsTo"@, Meaning::Names(seq![guardian])),
        ("After"@, Meaning::Names(seq![guardian])),
    ]
}

/// The properties of the slice.
pub fn slice_properties(guardian: &str) -> (r: Vec<Property>)
    ensures
        meanings(r@) == slice_meanings(guardian@),
{
    let mut r: Vec<Property> = Vec::new();
    r.push(text_property("Description", "Moonshine session processes"));
    r.push(names_property("BindsTo", guardian));
    r.push(names_property("After", guardian));
    proof {
        assert(meanings(r@) =~= slice_meanings(guardian@));
    }
    r
}

/// What describes the launch gate: an inert service that stays active as long as the slice.
pub open spec fn gate_meanings(slice: Seq<char>, ready: Seq<char>) -> Seq<(Seq<char>, Meaning)> {
    seq![
        ("Description"@, Meaning::Text("Moonshine session launch gate"@)),
        ("Type"@, Meaning::Text("oneshot"@)),
        ("RemainAfterExit"@, Meaning::Flag(true)),
        ("Slice"@, Meaning::Text(slice)),
        ("ExecStart"@, Meaning::Runs(ready)),
        ("BindsTo"@, Meaning::Names(seq![slice])),
        ("After"@, Meaning::Names(seq![slice])),
    ]
}

/// The properties of the launch gate, which runs `ready` once.
pub fn gate_properties(slice: &str, ready: &str) -> (r: Vec<Property>)
    ensures
        meanings(r@) == gate_meanings(slice@, ready@),
{
    let mut r: Vec<Property> = Vec::new();
    r.push(text_property("Description", "Moonshine session launch gate"));
    r.push(text_property("Type", "oneshot"));
    r.push(Property { name: "RemainAfterExit".to_owned(), value: PropertyValue::Flag(true) });
    r.push(text_property("Slice", slice));
    r.push(command_property("ExecStart", ready));
    r.push(names_property("BindsTo", slice));
    r.push(names_property("After", slice));
    proof {
        assert(meanings(r@) =~= gate_meanings(slice@, ready@));
    }
    r
}

/// The name of a unit tells what it is, which session it belongs to, and what kind of unit the
/// service manager takes it for.
pub proof fn lemma_unit_names_tell_their_session(id: Seq<char>)
    ensures
        text::begins_with(unit_name(Unit::Slice, id), "moonshine-session-"@ + id),
        text::begins_with(unit_name(Unit::Gate, id), "moonshine-gate-"@ + id),
        text::begins_with(unit_name(Unit::Application, id), "moonshine-app-"@ + id),
        text::begins_with(unit_name(Unit::Xwayland, id), "moonshine-xwayland-"@ + id),
        text::begins_with(unit_name(Unit::Guardian, id), "moonshine-guardian-"@ + id),
        unit_name(Unit::Slice, id).skip(("moonshine-session-"@ + id).len() as int) == ".slice"@,
        unit_name(Unit::Gate, id).skip(("moonshine-gate-"@ + id).len() as int) == ".service"@,
        unit_name(Unit::Application, id).skip(("moonshine-app-"@ + id).len() as int)
            == ".service"@,
        unit_name(Unit::Xwayland, id).skip(("moonshine-xwayland-"@ + id).len() as int)
            == ".scope"@,
        unit_name(Unit::Guardian, id).skip(("moonshine-guardian-"@ + id).len() as int)
            == ".service"@,
{
    lemma_name_is_made_of("moonshine-session-"@ + id, ".slice"@);
    lemma_name_is_made_of("moonshine-gate-"@ + id, ".service"@);
    lemma_name_is_made_of("moonshine-app-"@ + id, ".service"@);
    lemma_name_is_made_of("moonshine-xwayland-"@ + id, ".scope"@);
    lemma_name_is_made_of("moonshine-guardian-"@ + id, ".service"@);
}

proof fn lemma_name_is_made_of(start: Seq<char>, end: Seq<char>)
    ensures
        text::begins_with(start + end, start),
        (start + end).skip(start.len() as int) == end,
{
    assert((start + end).take(start.len() as int) =~= start);
    assert((start + end).skip(start.len() as int) =~= end);
}

/// The names of a session's units belong to that session alone: no other session has any of
/// them.
pub proof fn lemma_units_belong_to_one_session(names: &UnitNames, first: Seq<char>, second: Seq<char>)
    requires
        is_session_id(first),
        is_session_id(second),
        names.belong_to(first),
    ensures
        names.slice@ == unit_name(Unit::Slice, second) || names.gate@ == unit_name(
            Unit::Gate,
            second,
        ) || names.application@ == unit_name(Unit::Application, second) || names.xwayland@
            == unit_name(Unit::Xwayland, second) || names.guardian@ == unit_name(
            Unit::Guardian,
            second,
        ) ==> first == second,
{
    lemma_unit_names_differ(Unit::Slice, first, Unit::Slice, second);
    lemma_unit_names_differ(Unit::Gate, first, Unit::Gate, second);
    lemma_unit_names_differ(Unit::Application, first, Unit::Application, second);
    lemma_unit_names_differ(Unit::Xwayland, first, Unit::Xwayland, second);
    lemma_unit_names_differ(Unit::Guardian, first, Unit::Guardian, second);
}

/// The guardian runs its program, reads the liveness pipe, lives outside the session's slice,
/// and is collected even if it fails.
pub proof fn lemma_the_guardian_watches_the_daemon(cat: Seq<char>)
    ensures
        ({
            let said = guardian_meanings(cat);
            &&& said.len() == 8
            &&& said.contains(("ExecStart"@, Meaning::Runs(cat)))
            &&& said.contains(("StandardInputFileDescriptor"@, Meaning::LivenessPipe))
            &&& said.contains(("Slice"@, Meaning::Text("moonshine.slice"@)))
            &&& said.contains(("Type"@, Meaning::Text("exec"@)))
            &&& said.contains(("CollectMode"@, Meaning::Text("inactive-or-failed"@)))
            &&& said.contains(("StandardOutput"@, Meaning::Text("null"@)))
            &&& said.contains(("StandardError"@, Meaning::Text("journal"@)))
            &&& said.contains(
                ("Description"@, Meaning::Text("Moonshine session liveness guardian"@)),
            )
        }),
{
    let said = guardian_meanings(cat);
    assert(said[0] == ("Description"@, Meaning::Text("Moonshine session liveness guardian"@)));
    assert(said[1] == ("Type"@, Meaning::Text("exec"@)));
    assert(said[2] == ("Slice"@, Meaning::Text("moonshine.slice"@)));
    assert(said[3] == ("ExecStart"@, Meaning::Runs(cat)));
    assert(said[4] == ("StandardInputFileDescriptor"@, Meaning::LivenessPipe));
    assert(said[5] == ("StandardOutput"@, Meaning::Text("null"@)));
    assert(said[6] == ("StandardError"@, Meaning::Text("journal"@)));
    assert(said[7] == ("CollectMode"@, Meaning::Text("inactive-or-failed"@)));
}

/// The slice is stopped when its guardian is, and started after it.
pub proof fn lemma_the_slice_is_bound_to_the_guardian(guardian: Seq<char>)
    ensures
        ({
            let said = slice_meanings(guardian);
            &&& said.len() == 3
            &&& said.contains(("BindsTo"@, Meaning::Names(seq![guardian])))
            &&& said.contains(("After"@, Meaning::Names(seq![guardian])))
            &&& said.contains(("Description"@, Meaning::Text("Moonshine session processes"@)))
        }),
{
    let said = slice_meanings(guardian);
    assert(said[0] == ("Description"@, Meaning::Text("Moonshine session processes"@)));
    assert(said[1] == ("BindsTo"@, Meaning::Names(seq![guardian])));
    assert(said[2] == ("After"@, Meaning::Names(seq![guardian])));
}

/// The launch gate stays active without a process of its own, within the slice, for as long as
/// the slice is.
pub proof fn lemma_the_gate_is_bound_to_the_slice(slice: Seq<char>, ready: Seq<char>)
    ensures
        ({
            let said = gate_meanings(slice, ready);
            &&& said.len() == 7
            &&& said.contains(("Type"@, Meaning::Text("oneshot"@)))
            &&& said.contains(("RemainAfterExit"@, Meaning::Flag(true)))
            &&& said.contains(("Slice"@, Meaning::Text(slice)))
            &&& said.contains(("ExecStart"@, Meaning::Runs(ready)))
            &&& said.contains(("BindsTo"@, Meaning::Names(seq![slice])))
            &&& said.contains(("After"@, Meaning::Names(seq![slice])))
            &&& said.contains(("Description"@, Meaning::Text("Moonshine session launch gate"@)))
        }),
{
    let said = gate_meanings(slice, ready);
    assert(said[0] == ("Description"@, Meaning::Text("Moonshine session launch gate"@)));
    assert(said[1] == ("Type"@, Meaning::Text("oneshot"@)));
    assert(said[2] == ("RemainAfterExit"@, Meaning::Flag(true)));
    assert(said[3] == ("Slice"@, Meaning::Text(slice)));
    assert(said[4] == ("ExecStart"@, Meaning::Runs(ready)));
    assert(said[5] == ("BindsTo"@, Meaning::Names(seq![slice])));
    assert(said[6] == ("After"@, Meaning::Names(seq![slice])));
}

/// A command that a property runs is the program itself, called by its own path alone, whose
/// failure is the unit's.
pub proof fn lemma_commands_run_one_program(value: PropertyValue, program: Seq<char>)
    requires
        value.meaning() == Meaning::Runs(program),
    ensures
        value matches PropertyValue::Commands(commands) && commands@.len() == 1
            && commands@[0].path@ == program && commands@[0].arguments@.len() == 1
            && commands@[0].arguments@[0]@ == program && !commands@[0].ignore_failure,
{
    if let PropertyValue::Commands(commands) = value {
        let arguments = text::texts(commands@[0].arguments@);
        assert(arguments.len() == commands@[0].arguments@.len());
        assert(arguments[0] == commands@[0].arguments@[0]@);
    }
}

/// The names of a session's units are made of its number.
pub proof fn lemma_names_are_made_of_the_number(names: &UnitNames, id: Seq<char>)
    requires
        names.belong_to(id),
    ensures
        names.slice@ == "moonshine-session-"@ + id + ".slice"@,
        names.gate@ == "moonshine-gate-"@ + id + ".service"@,
        names.application@ == "moonshine-app-"@ + id + ".service"@,
        names.xwayland@ == "moonshine-xwayland-"@ + id + ".scope"@,
        names.guardian@ == "moonshine-guardian-"@ + id + ".service"@,
{
}

/// A property means what its value is.
pub proof fn lemma_properties_mean_their_values(value: PropertyValue)
    ensures
        value.meaning() matches Meaning::Text(said) ==> (value matches PropertyValue::Text(text)
            && text@ == said),
        value.meaning() matches Meaning::Flag(said) ==> value == PropertyValue::Flag(said),
        value.meaning() matches Meaning::Names(said) ==> (value matches PropertyValue::Names(names)
            && text::texts(names@) == said),
        value.meaning() == Meaning::LivenessPipe <==> value == PropertyValue::LivenessPipe,
{
}

/// A session's number has thirty-two hexadecimal digits in lower case. Two of them are marks: the
/// version stands after twelve, and the variant, which leaves two bits to chance, after sixteen.
pub proof fn lemma_session_numbers_are_marked(id: Seq<char>, i: int)
    requires
        id.len() == 32,
        0 <= i < 32,
    ensures
        is_session_id(id) ==> ('0' <= id[i] <= '9' || 'a' <= id[i] <= 'f'),
        is_session_id(id) ==> id[12] == '4' && ('8' <= id[16] <= '9' || 'a' <= id[16] <= 'b'),
        (forall|k: int| 0 <= k < 32 ==> '0' <= #[trigger] id[k] <= '9' || 'a' <= id[k] <= 'f')
            && id[12] == '4' && ('8' <= id[16] <= '9' || 'a' <= id[16] <= 'b') ==> is_session_id(id),
{
}

} // verus!
