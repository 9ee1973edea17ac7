//! Runtime programs, and the launcher that puts Xwayland into its session's scope.

use crate::text::{self, joined};
use crate::units::UnitNames;
use vstd::prelude::*;
use vstd::string::*;

verus! {

/// What kind of thing went wrong.
#[derive(Clone, Copy, Debug, PartialEq, Eq, Structural)]
pub enum ErrorKind {
    NotFound,
    Other,
}

/// Why a program cannot be launched.
#[derive(Debug)]
pub struct LaunchError {
    kind: ErrorKind,
    message: String,
}

impl View for LaunchError {
    type V = (ErrorKind, Seq<char>);

    closed spec fn view(&self) -> (ErrorKind, Seq<char>) {
        (self.kind, self.message@)
    }
}

impl LaunchError {
    pub fn kind(&self) -> (r: ErrorKind)
        ensures
            r == self@.0,
    {
        self.kind
    }

    pub fn message(&self) -> (r: &str)
        ensures
            r@ == self@.1,
    {
        self.message.as_str()
    }
}

#[verifier::external_type_specification]
#[verifier::external_body]
pub struct ExWhichError(which::Error);

#[verifier::external_type_specification]
#[verifier::external_body]
pub struct ExQuoteError(shlex::QuoteError);

/// Whether a text ends with another.
pub open spec fn ends_with(text: Seq<char>, suffix: Seq<char>) -> bool {
    suffix.len() <= text.len() && text.skip(text.len() - suffix.len()) == suffix
}

/// Whether a path can be where the program with a name was found. An absolute name is its own
/// path. Any other is looked for in some directory, so that the path ends with the last part
/// of the name; only a name that ends with a slash or a lone dot loses that part.
pub open spec fn stands_for(path: Seq<char>, name: Seq<char>) -> bool {
    let last = text::split(name, '/').last();
    if name.len() > 0 && name[0] == '/' {
        path == name
    } else {
        last.len() == 0 || last == "."@ || path == name || ends_with(path, seq!['/'] + last)
    }
}

/// `which::which`: the path of the executable that a name stands for, with characters that
/// are no text replaced. A path with a nul character is never taken for an executable. An
/// absolute path is given back as it is. A name with a separator is looked for in the current
/// directory, any other in the directories of the search path, on Unix under just that name.
/// Whether it is found, and in which directory, depends on the environment and on the file
/// system and is left unsaid.
#[verifier::external_body]
fn find_executable(name: &str) -> (r: Result<String, which::Error>)
    ensures
        r is Ok ==> stands_for(r->Ok_0@, name@),
        r is Ok ==> !r->Ok_0@.contains('\0'),
{
    which::which(name).map(|path| path.to_string_lossy().into_owned())
}

/// The complaint about a program that is not there.
pub open spec fn not_found(name: Seq<char>) -> (ErrorKind, Seq<char>) {
    (ErrorKind::NotFound, name + " was not found in PATH"@)
}

/// What a search for a program comes to.
pub fn located(name: &str, found: Option<String>) -> (r: Result<String, LaunchError>)
    ensures
        match found {
            Some(path) => r == Ok::<String, LaunchError>(path),
            None => r is Err && r->Err_0@ == not_found(name@),
        },
{
    match found {
        Some(path) => Ok(path),
        None => Err(
            LaunchError {
                kind: ErrorKind::NotFound,
                message: joined(name, " was not found in PATH"),
            },
        ),
    }
}

/// Looks for a program.
fn search(name: &str) -> (r: Option<String>)
    ensures
        r matches Some(path) ==> stands_for(path@, name@) && !path@.contains('\0'),
{
    match find_executable(name) {
        Ok(path) => Some(path),
        Err(_) => None,
    }
}

/// The path of a program that the session needs. A missing one is named in the error.
pub fn runtime_executable(name: &str) -> (r: Result<String, LaunchError>)
    ensures
        r is Ok ==> stands_for(r->Ok_0@, name@) && !r->Ok_0@.contains('\0'),
        r is Err ==> r->Err_0@ == not_found(name@),
{
    located(name, search(name))
}

/// The words as a shell reads them back, one after another: what `shlex::try_join` makes of
/// words that it accepts.
pub uninterp spec fn shell_words(words: Seq<Seq<char>>) -> Seq<char>;

/// Whether any of some words holds a nul character.
pub open spec fn holds_nul(words: Seq<Seq<char>>) -> bool {
    exists|i: int| 0 <= i < words.len() && (#[trigger] words[i]).contains('\0')
}

/// `shlex::try_join`: quotes words for a shell and joins them. It refuses nothing but words
/// with a nul character.
#[verifier::external_body]
fn join_words(words: &Vec<String>) -> (r: Result<String, shlex::QuoteError>)
    ensures
        r is Err <==> holds_nul(text::texts(words@)),
        r is Ok ==> r->Ok_0@ == shell_words(text::texts(words@)),
{
    shlex::try_join(words.iter().map(|word| word.as_str()))
}

/// The command that runs Xwayland in a scope of its own: within the session's slice, only
/// while its launch gate is open, and with two seconds to stop.
pub open spec fn xwayland_command(
    runner: Seq<char>,
    units: &UnitNames,
    xwayland: Seq<char>,
) -> Seq<Seq<char>> {
    seq![
        runner,
        "--user"@,
        "--scope"@,
        "--quiet"@,
        "--no-ask-password"@,
        "--collect"@,
        "--expand-environment=no"@,
        "--unit="@ + units.xwayland@,
        "--slice="@ + units.slice@,
        "--property=Requisite="@ + units.gate@,
        "--property=After="@ + units.gate@,
        "--property=KillMode=control-group"@,
        "--property=TimeoutStopSec=2s"@,
        "--property=SendSIGKILL=yes"@,
        "--"@,
        xwayland,
    ]
}

/// The words of the command that runs Xwayland.
pub fn xwayland_arguments(runner: &str, units: &UnitNames, xwayland: &str) -> (r: Vec<String>)
    ensures
        text::texts(r@) == xwayland_command(runner@, units, xwayland@),
{
    let mut r: Vec<String> = Vec::new();
    r.push(runner.to_owned());
    r.push("--user".to_owned());
    r.push("--scope".to_owned());
    r.push("--quiet".to_owned());
    r.push("--no-ask-password".to_owned());
    r.push("--collect".to_owned());
    r.push("--expand-environment=no".to_owned());
    r.push(joined("--unit=", units.xwayland.as_str()));
    r.push(joined("--slice=", units.slice.as_str()));
    r.push(joined("--property=Requisite=", units.gate.as_str()));
    r.push(joined("--property=After=", units.gate.as_str()));
    r.push("--property=KillMode=control-group".to_owned());
    r.push("--property=TimeoutStopSec=2s".to_owned());
    r.push("--property=SendSIGKILL=yes".to_owned());
    r.push("--".to_owned());
    r.push(xwayland.to_owned());
    proof {
        assert(text::texts(r@) =~= xwayland_command(runner@, units, xwayland@));
    }
    r
}

/// A script that hands its own arguments on to a command, which takes its place.
pub open spec fn script(shell: Seq<char>, command: Seq<char>) -> Seq<char> {
    "#!"@ + shell + "\nexec "@ + command + " \"$@\"\n"@
}

/// The text of the script that runs a command in a shell.
pub fn launcher_script(shell: &str, command: &str) -> (r: String)
    ensures
        r@ == script(shell@, command@),
{
    let mut r: String = joined("#!", shell);
    r.append("\nexec ");
    r.append(command);
    r.append(" \"$@\"\n");
    r
}

/// The file that the launcher stands in for.
pub const XWAYLAND: &'static str = "Xwayland";

/// Only its owner may read, write or run the launcher.
pub const LAUNCHER_MODE: u32 = 0o700;

/// The complaint about a command that no shell can take.
pub open spec fn unquotable() -> (ErrorKind, Seq<char>) {
    (ErrorKind::Other, "cannot shell-quote string containing nul byte"@)
}

/// Whether a text is the script that runs Xwayland with the given programs.
pub open spec fn launches(
    text: Seq<char>,
    shell: Seq<char>,
    runner: Seq<char>,
    units: &UnitNames,
    xwayland: Seq<char>,
) -> bool {
    let command = xwayland_command(runner, units, xwayland);
    !holds_nul(command) && text == script(shell, shell_words(command))
}

/// The launcher for an Xwayland whose path is known.
pub fn xwayland_launcher(shell: &str, runner: &str, units: &UnitNames, xwayland: &str) -> (r:
    Result<String, LaunchError>)
    ensures
        match r {
            Ok(text) => launches(text@, shell@, runner@, units, xwayland@),
            Err(error) => holds_nul(xwayland_command(runner@, units, xwayland@)) && error@
                == unquotable(),
        },
{
    let words: Vec<String> = xwayland_arguments(runner, units, xwayland);
    match join_words(&words) {
        Ok(command) => Ok(launcher_script(shell, command.as_str())),
        Err(_) => Err(
            LaunchError {
                kind: ErrorKind::Other,
                message: "cannot shell-quote string containing nul byte".to_owned(),
            },
        ),
    }
}

/// The first program that is missing.
pub open spec fn missing_program(xwayland: bool, shell: bool, runner: bool) -> Option<Seq<char>> {
    if !xwayland {
        Some("Xwayland"@)
    } else if !shell {
        Some("sh"@)
    } else if !runner {
        Some("systemd-run"@)
    } else {
        None
    }
}

/// The launcher for the programs that were found. The first that is missing is named in the
/// error.
pub fn assembled_launcher(
    units: &UnitNames,
    xwayland: Option<String>,
    shell: Option<String>,
    runner: Option<String>,
) -> (r: Result<String, LaunchError>)
    ensures
        match (xwayland, shell, runner) {
            (None, _, _) => r is Err && r->Err_0@ == not_found("Xwayland"@),
            (_, None, _) => r is Err && r->Err_0@ == not_found("sh"@),
            (_, _, None) => r is Err && r->Err_0@ == not_found("systemd-run"@),
            (Some(xwayland), Some(shell), Some(runner)) => match r {
                Ok(text) => launches(text@, shell@, runner@, units, xwayland@),
                Err(error) => holds_nul(xwayland_command(runner@, units, xwayland@)) && error@
                    == unquotable(),
            },
        },
        missing_program(xwayland is Some, shell is Some, runner is Some) matches Some(name) ==> r
            is Err && r->Err_0@ == not_found(name),
{
    match located("Xwayland", xwayland) {
        Ok(xwayland) => match located("sh", shell) {
            Ok(shell) => match located("systemd-run", runner) {
                Ok(runner) => xwayland_launcher(
                    shell.as_str(),
                    runner.as_str(),
                    units,
                    xwayland.as_str(),
                ),
                Err(error) => Err(error),
            },
            Err(error) => Err(error),
        },
        Err(error) => Err(error),
    }
}

/// Whether a unit that the launcher names cannot be quoted.
pub open spec fn unquotable_units(units: &UnitNames) -> bool {
    units.xwayland@.contains('\0') || units.slice@.contains('\0') || units.gate@.contains('\0')
}

/// Only the programs and the units can make the command unquotable.
proof fn lemma_options_are_quotable(runner: Seq<char>, units: &UnitNames, xwayland: Seq<char>)
    requires
        holds_nul(xwayland_command(runner, units, xwayland)),
    ensures
        runner.contains('\0') || xwayland.contains('\0') || unquotable_units(units),
{
    let words = xwayland_command(runner, units, xwayland);
    reveal_strlit("--user");
    reveal_strlit("--scope");
    reveal_strlit("--quiet");
    reveal_strlit("--no-ask-password");
    reveal_strlit("--collect");
    reveal_strlit("--expand-environment=no");
    reveal_strlit("--unit=");
    reveal_strlit("--slice=");
    reveal_strlit("--property=Requisite=");
    reveal_strlit("--property=After=");
    reveal_strlit("--property=KillMode=control-group");
    reveal_strlit("--property=TimeoutStopSec=2s");
    reveal_strlit("--property=SendSIGKILL=yes");
    reveal_strlit("--");
    let i = choose|i: int| 0 <= i < words.len() && (#[trigger] words[i]).contains('\0');
    let word = words[i];
    let k = word.index_of('\0');
    assert(word[k] == '\0');
    if i == 7 {
        assert(units.xwayland@[k - "--unit="@.len()] == '\0');
    } else if i == 8 {
        assert(units.slice@[k - "--slice="@.len()] == '\0');
    } else if i == 9 {
        assert(units.gate@[k - "--property=Requisite="@.len()] == '\0');
    } else if i == 10 {
        assert(units.gate@[k - "--property=After="@.len()] == '\0');
    }
}

/// The launcher for the Xwayland of this machine.
pub fn prepare_xwayland(units: &UnitNames) -> (r: Result<String, LaunchError>)
    ensures
        match r {
            Ok(text) => exists|shell: Seq<char>, runner: Seq<char>, xwayland: Seq<char>| #[trigger]
                launches(text@, shell, runner, units, xwayland) && stands_for(shell, "sh"@)
                    && stands_for(runner, "systemd-run"@) && stands_for(xwayland, "Xwayland"@),
            Err(error) => error@ == not_found("Xwayland"@) || error@ == not_found("sh"@) || error@
                == not_found("systemd-run"@) || (error@ == unquotable() && unquotable_units(units)),
        },
{
    let xwayland: Option<String> = search("Xwayland");
    let shell: Option<String> = search("sh");
    let runner: Option<String> = search("systemd-run");
    proof {
        if xwayland is Some && runner is Some && holds_nul(
            xwayland_command(runner->0@, units, xwayland->0@),
        ) {
            lemma_options_are_quotable(runner->0@, units, xwayland->0@);
        }
    }
    assembled_launcher(units, xwayland, shell, runner)
}

/// The byte that separates the directories of a search path.
pub const PATH_SEPARATOR: u8 = 0x3a;

/// The search path that begins with a directory, if it can be listed.
pub open spec fn search_path(directory: Seq<u8>, path: Seq<u8>) -> Option<Seq<u8>> {
    if directory.contains(PATH_SEPARATOR) {
        None
    } else {
        Some(directory.push(PATH_SEPARATOR) + path)
    }
}

/// The search path that finds the launcher before anything else. A directory whose name
/// holds a separator cannot be listed.
pub fn launcher_path(directory: &[u8], path: &[u8]) -> (r: Result<Vec<u8>, ()>)
    ensures
        match r {
            Ok(list) => !directory@.contains(PATH_SEPARATOR) && list@ == directory@.push(
                PATH_SEPARATOR,
            ) + path@,
            Err(()) => directory@.contains(PATH_SEPARATOR),
        },
        r is Ok <==> search_path(directory@, path@) is Some,
        r matches Ok(list) ==> search_path(directory@, path@) == Some(list@),
{
    let mut r: Vec<u8> = Vec::new();
    let mut i: usize = 0;
    while i < directory.len()
        invariant
            i <= directory@.len(),
            r@ == directory@.take(i as int),
            forall|k: int| 0 <= k < i ==> directory@[k] != PATH_SEPARATOR,
        decreases directory@.len() - i,
    {
        if directory[i] == PATH_SEPARATOR {
            proof {
                assert(directory@[i as int] == PATH_SEPARATOR);
            }
            return Err(());
        }
        r.push(directory[i]);
        i = i + 1;
    }
    r.push(PATH_SEPARATOR);
    let ghost start = directory@.push(PATH_SEPARATOR);
    proof {
        assert(r@ =~= start);
        assert(path@.take(0) =~= Seq::<u8>::empty());
        assert(start + path@.take(0) =~= start);
    }
    let mut k: usize = 0;
    while k < path.len()
        invariant
            k <= path@.len(),
            r@ == start + path@.take(k as int),
        decreases path@.len() - k,
    {
        r.push(path[k]);
        proof {
            assert(r@ =~= start + path@.take(k + 1));
        }
        k = k + 1;
    }
    proof {
        assert(path@.take(path@.len() as int) =~= path@);
    }
    Ok(r)
}

/// What the command says: the runner comes first, its options are its own until a double dash,
/// and Xwayland comes last. The scope has the session's name for it, lies in the session's
/// slice, starts only if the launch gate is active, and is killed as a whole two seconds after
/// it was told to stop.
pub proof fn lemma_what_the_command_says(
    runner: Seq<char>,
    units: &UnitNames,
    xwayland: Seq<char>,
)
    ensures
        ({
            let words = xwayland_command(runner, units, xwayland);
            &&& words.len() == 16
            &&& words[0] == runner
            &&& words[14] == "--"@
            &&& words[15] == xwayland
            &&& words.contains("--user"@)
            &&& words.contains("--scope"@)
            &&& words.contains("--quiet"@)
            &&& words.contains("--no-ask-password"@)
            &&& words.contains("--collect"@)
            &&& words.contains("--expand-environment=no"@)
            &&& words.contains("--unit="@ + units.xwayland@)
            &&& words.contains("--slice="@ + units.slice@)
            &&& words.contains("--property=Requisite="@ + units.gate@)
            &&& words.contains("--property=After="@ + units.gate@)
            &&& words.contains("--property=KillMode=control-group"@)
            &&& words.contains("--property=TimeoutStopSec=2s"@)
            &&& words.contains("--property=SendSIGKILL=yes"@)
        }),
{
    let words = xwayland_command(runner, units, xwayland);
    assert(words[1] == "--user"@);
    assert(words[2] == "--scope"@);
    assert(words[3] == "--quiet"@);
    assert(words[4] == "--no-ask-password"@);
    assert(words[5] == "--collect"@);
    assert(words[6] == "--expand-environment=no"@);
    assert(words[7] == "--unit="@ + units.xwayland@);
    assert(words[8] == "--slice="@ + units.slice@);
    assert(words[9] == "--property=Requisite="@ + units.gate@);
    assert(words[10] == "--property=After="@ + units.gate@);
    assert(words[11] == "--property=KillMode=control-group"@);
    assert(words[12] == "--property=TimeoutStopSec=2s"@);
    assert(words[13] == "--property=SendSIGKILL=yes"@);
}

/// A script names its shell in the first line, and in the second lets the command take its
/// place, with all arguments that the script was given.
pub proof fn lemma_scripts_have_two_lines(shell: Seq<char>, command: Seq<char>)
    requires
        !shell.contains('\n'),
        !command.contains('\n'),
        shell.len() > 0 ==> shell.last() != '\r',
    ensures
        text::lines(script(shell, command)) == seq![
            "#!"@ + shell,
            "exec "@ + command + " \"$@\""@,
        ],
{
    reveal_strlit("#!");
    reveal_strlit("\nexec ");
    reveal_strlit("exec ");
    reveal_strlit(" \"$@\"\n");
    reveal_strlit(" \"$@\"");
    let first = "#!"@ + shell;
    let second = "exec "@ + command + " \"$@\""@;
    let end = " \"$@\""@;
    assert forall|i: int| 0 <= i < first.len() implies first[i] != '\n' by {
        if i >= 2 {
            assert(shell.contains(shell[i - 2]));
        }
    }
    assert forall|i: int| 0 <= i < second.len() implies second[i] != '\n' by {
        if 5 <= i < 5 + command.len() {
            assert(command.contains(command[i - 5]));
        } else if i >= 5 + command.len() {
            assert(second[i] == end[i - 5 - command.len()]);
        }
    }
    assert(!first.contains('\n'));
    assert(!second.contains('\n'));
    let none = Seq::<char>::empty();
    text::lemma_lines_are_read_back(none, first);
    text::lemma_lines_are_read_back(none + first.push('\n'), second);
    assert(none + first.push('\n') + second.push('\n') =~= script(shell, command));
    text::lemma_split_undoes_joining(none, none, '\n');
    assert(text::lines(none) =~= Seq::<Seq<char>>::empty());
    assert(text::lines(none).push(first).push(second) =~= seq![first, second]);
}

/// A missing program is named first in the complaint, which is one about something that was not
/// found.
pub proof fn lemma_missing_programs_are_named(name: Seq<char>)
    ensures
        not_found(name).0 == ErrorKind::NotFound,
        text::begins_with(not_found(name).1, name),
        not_found(name).1.skip(name.len() as int) == " was not found in PATH"@,
        unquotable().0 == ErrorKind::Other,
        unquotable().1 == "cannot shell-quote string containing nul byte"@,
{
    text::lemma_beginnings_can_be_continued(name, name, " was not found in PATH"@);
    assert(not_found(name).1.skip(name.len() as int) =~= " was not found in PATH"@);
}

/// An absolute name is found there and nowhere else.
pub proof fn lemma_absolute_names_are_paths(path: Seq<char>, name: Seq<char>)
    requires
        name.len() > 0,
        name[0] == '/',
    ensures
        stands_for(path, name) <==> path == name,
{
}

/// A plain name is found as it is, or as the last part of a path.
pub proof fn lemma_plain_names_end_paths(path: Seq<char>, name: Seq<char>)
    requires
        name.len() > 0,
        !name.contains('/'),
        name != "."@,
    ensures
        stands_for(path, name) <==> path == name || exists|directory: Seq<char>|
            path == #[trigger] directory.push('/') + name,
{
    text::lemma_split_undoes_joining(Seq::empty(), name, '/');
    assert(text::split(name, '/').last() == name);
    assert(name.contains(name[0]));
    lemma_last_parts(path, name);
}

proof fn lemma_last_parts(path: Seq<char>, name: Seq<char>)
    ensures
        ends_with(path, seq!['/'] + name) <==> exists|directory: Seq<char>|
            path == #[trigger] directory.push('/') + name,
{
    let suffix = seq!['/'] + name;
    if ends_with(path, suffix) {
        let directory = path.take(path.len() - suffix.len());
        assert(path =~= directory + path.skip(path.len() - suffix.len()));
        assert(directory + suffix =~= directory.push('/') + name);
        assert(path == directory.push('/') + name);
    }
    if exists|directory: Seq<char>| path == #[trigger] directory.push('/') + name {
        let directory = choose|directory: Seq<char>| path == #[trigger] directory.push('/') + name;
        assert(path.skip(path.len() - suffix.len()) =~= suffix);
    }
}

/// A directory that holds no colon can be listed, any other cannot. It comes first, up to the
/// first colon, and the search path that there was comes after it, as it was.
pub proof fn lemma_the_directory_comes_first(directory: Seq<u8>, path: Seq<u8>, i: int)
    requires
        0 <= i < directory.len(),
    ensures
        (forall|k: int| 0 <= k < directory.len() ==> #[trigger] directory[k] != ':' as u8) ==> ({
            let list = search_path(directory, path);
            &&& list is Some
            &&& list->0.len() == directory.len() + 1 + path.len()
            &&& list->0[directory.len() as int] == ':' as u8
            &&& list->0[i] == directory[i]
            &&& list->0.skip(directory.len() as int + 1) == path
        }),
        directory[i] == ':' as u8 ==> search_path(directory, path) is None,
        search_path(Seq::empty(), path) is Some,
{
    assert(':' as u8 == 0x3a);
    if directory[i] == 0x3a {
        assert(directory.contains(0x3a));
    }
    if forall|k: int| 0 <= k < directory.len() ==> #[trigger] directory[k] != ':' as u8 {
        assert(!directory.contains(0x3a));
        assert((directory.push(0x3a) + path).skip(directory.len() as int + 1) =~= path);
    }
    assert(!Seq::<u8>::empty().contains(0x3a));
}

/// A launcher is a script that runs its command, word by word, in its shell.
pub proof fn lemma_what_a_launcher_is(
    text: Seq<char>,
    shell: Seq<char>,
    runner: Seq<char>,
    units: &UnitNames,
    xwayland: Seq<char>,
)
    requires
        launches(text, shell, runner, units, xwayland),
    ensures
        text == "#!"@ + shell + "\nexec "@ + shell_words(
            xwayland_command(runner, units, xwayland),
        ) + " \"$@\"\n"@,
        !runner.contains('\0'),
        !xwayland.contains('\0'),
{
    let words = xwayland_command(runner, units, xwayland);
    assert(words[0] == runner);
    assert(words[15] == xwayland);
}

/// Only its owner can do anything with a launcher, and can do all of it. It stands in for
/// Xwayland under that name.
pub proof fn lemma_launchers_are_private()
    ensures
        LAUNCHER_MODE % 0o100 == 0,
        LAUNCHER_MODE / 0o100 == 7,
        XWAYLAND@ == "Xwayland"@,
{
}

/// A program is named as missing only if it is, and only if those that are looked for before it
/// are there: Xwayland first, then the shell, then what runs it in a scope of its own.
pub proof fn lemma_the_first_missing_program_is_named(xwayland: bool, shell: bool, runner: bool)
    ensures
        missing_program(xwayland, shell, runner) is None <==> xwayland && shell && runner,
        missing_program(false, shell, runner) == Some("Xwayland"@),
        missing_program(true, false, runner) == Some("sh"@),
        missing_program(true, true, false) == Some("systemd-run"@),
{
}

} // verus!
