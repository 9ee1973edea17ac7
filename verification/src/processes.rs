//! Names, paths and programs of the external processes that belong to one session.

use crate::text::{self, joined, line_with, split_text, to_chars};
use vstd::prelude::*;

verus! {

/// Whether a segment of a path names something, rather than the directory that it stands
/// in or the one above.
pub open spec fn is_normal(segment: Seq<char>) -> bool {
    segment.len() > 0 && segment != "."@ && segment != ".."@
}

/// Whether a control group path names a group below the root: it is absolute, its first
/// segment names something, and no segment leads upwards.
pub open spec fn is_cgroup(path: Seq<char>) -> bool {
    let segments = text::split(path.skip(1), '/');
    &&& path.len() > 0
    &&& path[0] == '/'
    &&& is_normal(segments[0])
    &&& forall|i: int| 0 <= i < segments.len() ==> #[trigger] segments[i] != ".."@
}

/// Where the control groups are mounted.
pub open spec fn cgroup_mount() -> Seq<char> {
    "/sys/fs/cgroup"@
}

/// The directory of a control group.
pub fn cgroup_path(path: &str) -> (r: Result<String, ()>)
    ensures
        match r {
            Ok(directory) => is_cgroup(path@) && directory@ == cgroup_mount() + path@,
            Err(()) => !is_cgroup(path@),
        },
{
    let chars: Vec<char> = to_chars(path);
    if chars.len() == 0 || chars[0] != '/' {
        return Err(());
    }
    let mut relative: Vec<char> = Vec::new();
    let mut i: usize = 1;
    while i < chars.len()
        invariant
            1 <= i <= chars@.len(),
            relative@ == chars@.subrange(1, i as int),
        decreases chars@.len() - i,
    {
        relative.push(chars[i]);
        proof {
            assert(relative@ =~= chars@.subrange(1, i + 1));
        }
        i = i + 1;
    }
    proof {
        assert(chars@.subrange(1, chars@.len() as int) =~= path@.skip(1));
    }
    let segments: Vec<Vec<char>> = split_text(text::from_chars(relative.as_slice()).as_str(), '/');
    let ghost model = text::split(path@.skip(1), '/');
    proof {
        assert(model.len() == segments@.len());
        assert(model[0] == segments@[0]@);
        lemma_dots();
    }
    if segments[0].len() == 0 || is_dot(&segments[0]) {
        return Err(());
    }
    let mut k: usize = 0;
    while k < segments.len()
        invariant
            k <= segments@.len(),
            text::char_lists(segments@) == model,
            model == text::split(path@.skip(1), '/'),
            forall|i: int| 0 <= i < k ==> #[trigger] model[i] != ".."@,
        decreases segments@.len() - k,
    {
        proof {
            assert(model.len() == segments@.len());
            assert(model[k as int] == segments@[k as int]@);
        }
        if is_dots(&segments[k]) {
            return Err(());
        }
        k = k + 1;
    }
    Ok(joined("/sys/fs/cgroup", path))
}

proof fn lemma_dots()
    ensures
        "."@ == seq!['.'],
        ".."@ == seq!['.', '.'],
{
    reveal_strlit(".");
    reveal_strlit("..");
    assert("."@ =~= seq!['.']);
    assert(".."@ =~= seq!['.', '.']);
}

fn is_dot(segment: &Vec<char>) -> (r: bool)
    ensures
        r == (segment@ == "."@),
{
    proof {
        lemma_dots();
    }
    let r: bool = segment.len() == 1 && segment[0] == '.';
    proof {
        if r {
            assert(segment@ =~= seq!['.']);
        }
    }
    r
}

fn is_dots(segment: &Vec<char>) -> (r: bool)
    ensures
        r == (segment@ == ".."@),
{
    proof {
        lemma_dots();
    }
    let r: bool = segment.len() == 2 && segment[0] == '.' && segment[1] == '.';
    proof {
        if r {
            assert(segment@ =~= seq!['.', '.']);
        }
    }
    r
}

/// The directory that a row of path segments leads to, as the names on the way down from
/// where it starts. Going up from the start stays there.
pub open spec fn resolved(segments: Seq<Seq<char>>) -> Seq<Seq<char>>
    decreases segments.len(),
{
    if segments.len() == 0 {
        Seq::empty()
    } else {
        let above = resolved(segments.drop_last());
        let segment = segments.last();
        if is_normal(segment) {
            above.push(segment)
        } else if segment == ".."@ && above.len() > 0 {
            above.drop_last()
        } else {
            above
        }
    }
}

/// An accepted control group path leads below the root, and on no part of the way back up
/// to it or past it.
pub proof fn lemma_cgroup_paths_stay_below_the_root(path: Seq<char>, steps: int)
    requires
        is_cgroup(path),
        0 < steps <= text::split(path.skip(1), '/').len(),
    ensures
        resolved(text::split(path.skip(1), '/').take(steps)).len() > 0,
        resolved(text::split(path.skip(1), '/').take(steps))[0] == text::split(
            path.skip(1),
            '/',
        )[0],
    decreases steps,
{
    let segments = text::split(path.skip(1), '/');
    let taken = segments.take(steps);
    assert(taken.drop_last() =~= segments.take(steps - 1));
    assert(taken.last() == segments[steps - 1]);
    if steps == 1 {
        assert(taken.drop_last() =~= Seq::<Seq<char>>::empty());
        assert(resolved(taken.drop_last()) =~= Seq::<Seq<char>>::empty());
    } else {
        lemma_cgroup_paths_stay_below_the_root(path, steps - 1);
    }
}

/// What the population file of a control group says after its key, if it has that key.
pub open spec fn population(contents: Seq<char>) -> Option<Seq<char>> {
    match text::first_with(text::lines(contents), "populated "@) {
        Some(line) => Some(line.skip("populated "@.len() as int)),
        None => None,
    }
}

/// Whether a control group holds any process, as the contents of its events file say.
pub open spec fn told(contents: Seq<char>) -> Result<bool, ()> {
    match population(contents) {
        Some(value) => if value == "0"@ {
            Ok(false)
        } else if value == "1"@ {
            Ok(true)
        } else {
            Err(())
        },
        None => Err(()),
    }
}

/// Whether a control group holds any process, as the contents of its events file say. An
/// explicit value is required.
pub fn parse_populated(contents: &str) -> (r: Result<bool, ()>)
    ensures
        r == match population(contents@) {
            Some(value) => if value == "0"@ {
                Ok(false)
            } else if value == "1"@ {
                Ok(true)
            } else {
                Err(())
            },
            None => Err(()),
        },
        r == told(contents@),
{
    proof {
        reveal_strlit("populated ");
        reveal_strlit("0");
        reveal_strlit("1");
        assert("0"@ =~= seq!['0']);
        assert("1"@ =~= seq!['1']);
    }
    match line_with(contents, "populated ") {
        Some(line) => {
            let ghost value = line@.skip(10);
            if line.len() != 11 {
                proof {
                    assert(value.len() != 1);
                }
                return Err(());
            }
            proof {
                assert(value =~= seq![line@[10]]);
                assert(seq!['0'][0] != seq!['1'][0]);
                assert(value[0] == line@[10]);
            }
            if line[10] == '0' {
                Ok(false)
            } else if line[10] == '1' {
                Ok(true)
            } else {
                Err(())
            }
        },
        None => Err(()),
    }
}

/// What came of reading the events file of a session's control group.
pub enum EventsFile<'a> {
    /// The session has no control group yet.
    NoGroup,
    /// The control group is gone.
    Missing,
    Unreadable,
    Contents(&'a str),
}

/// Whether any process of the session is left.
pub fn populated(events: EventsFile) -> (r: Result<bool, ()>)
    ensures
        match events {
            EventsFile::NoGroup => r == Ok::<bool, ()>(false),
            EventsFile::Missing => r == Ok::<bool, ()>(false),
            EventsFile::Unreadable => r is Err,
            EventsFile::Contents(contents) => match population(contents@) {
                Some(value) => r == if value == "0"@ {
                    Ok::<bool, ()>(false)
                } else if value == "1"@ {
                    Ok(true)
                } else {
                    Err(())
                },
                None => r is Err,
            },
        },
        events matches EventsFile::Contents(contents) ==> r == told(contents@),
{
    match events {
        EventsFile::NoGroup => Ok(false),
        EventsFile::Missing => Ok(false),
        EventsFile::Unreadable => Err(()),
        EventsFile::Contents(contents) => parse_populated(contents),
    }
}

/// Which control groups are accepted: below the root, a path can be continued by any segment
/// that does not lead upwards, and by no other.
pub proof fn lemma_paths_continue_downwards(path: Seq<char>, segment: Seq<char>)
    requires
        path.len() > 0,
        !segment.contains('/'),
    ensures
        is_cgroup(path.push('/') + segment) <==> is_cgroup(path) && segment != ".."@,
{
    let longer = path.push('/') + segment;
    let parts = text::split(path.skip(1), '/');
    text::lemma_split_undoes_joining(path.skip(1), segment, '/');
    assert(longer.skip(1) =~= path.skip(1).push('/') + segment);
    assert(longer[0] == path[0]);
    lemma_some_part(path.skip(1));
    let more = parts.push(segment);
    assert(more[0] == parts[0]);
    if is_cgroup(longer) {
        assert(more[parts.len() as int] == segment);
        assert forall|i: int| 0 <= i < parts.len() implies #[trigger] parts[i] != ".."@ by {
            assert(more[i] == parts[i]);
        }
    }
}

proof fn lemma_some_part(text: Seq<char>)
    ensures
        text::split(text, '/').len() > 0,
    decreases text.len(),
{
    if text.len() > 0 {
        lemma_some_part(text.drop_last());
    }
}

/// A group right below the root is accepted exactly if it has a name, which is neither that of
/// the directory itself nor that of the one above. A path that is not absolute is not accepted.
pub proof fn lemma_groups_below_the_root_are_named(name: Seq<char>, path: Seq<char>)
    requires
        !name.contains('/'),
    ensures
        is_cgroup(seq!['/'] + name) <==> name.len() > 0 && name != seq!['.'] && name != seq![
            '.',
            '.',
        ],
        path.len() == 0 || path[0] != '/' ==> !is_cgroup(path),
{
    lemma_dots();
    let whole = seq!['/'] + name;
    assert(whole.skip(1) =~= name);
    text::lemma_split_undoes_joining(Seq::empty(), name, '/');
    let parts = text::split(name, '/');
    assert(parts =~= seq![name]);
    assert(parts[0] == name);
}

/// The population of a group is what follows its key in the first line that begins with it.
pub proof fn lemma_population_follows_its_key(contents: Seq<char>, i: int, value: Seq<char>)
    requires
        0 <= i <= text::lines(contents).len(),
        forall|k: int|
            0 <= k < i ==> !text::begins_with(#[trigger] text::lines(contents)[k], "populated "@),
        i < text::lines(contents).len() ==> text::lines(contents)[i] == "populated "@ + value,
    ensures
        population(contents) == if i < text::lines(contents).len() {
            Some(value)
        } else {
            None
        },
{
    let all = text::lines(contents);
    let key = "populated "@;
    text::lemma_beginnings_can_be_continued(key, key, value);
    text::lemma_the_first_line_is_found(all, key, i);
    assert((key + value).skip(key.len() as int) =~= value);
}

/// A group is told to be empty by a zero after its key and to hold processes by a one. Nothing
/// else tells anything: neither another value nor a file without the key.
pub proof fn lemma_what_tells_the_population(contents: Seq<char>, i: int, value: Seq<char>)
    requires
        0 <= i <= text::lines(contents).len(),
        forall|k: int|
            0 <= k < i ==> !text::begins_with(#[trigger] text::lines(contents)[k], "populated "@),
        i < text::lines(contents).len() ==> text::lines(contents)[i] == "populated "@ + value,
    ensures
        ({
            let found = i < text::lines(contents).len();
            &&& found && value == seq!['0'] ==> told(contents) == Ok::<bool, ()>(false)
            &&& found && value == seq!['1'] ==> told(contents) == Ok::<bool, ()>(true)
            &&& !found || (value != seq!['0'] && value != seq!['1']) ==> told(contents) is Err
        }),
{
    lemma_population_follows_its_key(contents, i, value);
    reveal_strlit("0");
    reveal_strlit("1");
    assert("0"@ =~= seq!['0']);
    assert("1"@ =~= seq!['1']);
    assert(seq!['0'][0] != seq!['1'][0]);
}

/// The directory of a control group lies where control groups are mounted, and ends with the
/// path of the group.
pub proof fn lemma_groups_lie_where_they_are_mounted(path: Seq<char>)
    requires
        is_cgroup(path),
    ensures
        text::begins_with(cgroup_mount() + path, "/sys/fs/cgroup/"@),
        (cgroup_mount() + path).skip("/sys/fs/cgroup"@.len() as int) == path,
{
    reveal_strlit("/sys/fs/cgroup");
    reveal_strlit("/sys/fs/cgroup/");
    assert((cgroup_mount() + path).take("/sys/fs/cgroup/"@.len() as int) =~= "/sys/fs/cgroup/"@);
    assert((cgroup_mount() + path).skip("/sys/fs/cgroup"@.len() as int) =~= path);
}

} // verus!
