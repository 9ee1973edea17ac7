//! What a report says about the machine that it was made on.

use crate::text::{self, first_word, from_chars, has_prefix, line_with, to_chars};
use vstd::prelude::*;

verus! {

/// Whether a device file, by its name, belongs to a renderer.
pub open spec fn is_renderer(name: Seq<char>) -> bool {
    text::begins_with(name, "renderD"@)
}

/// The line of a processor list that names the model of the first processor.
pub open spec fn model_line(cpuinfo: Seq<char>) -> Option<Seq<char>> {
    text::first_with(text::lines(cpuinfo), "model name"@)
}

/// Whether a device file, by its name, belongs to a renderer.
pub fn is_render_device(name: &str) -> (r: bool)
    ensures
        r == text::begins_with(name@, "renderD"@),
        r == is_renderer(name@),
{
    has_prefix(to_chars(name).as_slice(), "renderD")
}

/// The line of the processor list that names the model of the first processor.
pub fn cpu_model(cpuinfo: &str) -> (r: Option<String>)
    ensures
        match text::first_with(text::lines(cpuinfo@), "model name"@) {
            Some(line) => r is Some && r->0@ == line,
            None => r is None,
        },
        r is Some <==> model_line(cpuinfo@) is Some,
        r matches Some(line) ==> model_line(cpuinfo@) == Some(line@),
{
    match line_with(cpuinfo, "model name") {
        Some(line) => Some(from_chars(line.as_slice())),
        None => None,
    }
}

/// The digest in the output of a digest program, which puts it first.
pub fn digest(output: &str) -> (r: Option<String>)
    ensures
        r is Some ==> exists|place: int| text::leads(output@, place, r->0@),
        r is None ==> forall|k: int| 0 <= k < output@.len() ==> text::is_space(output@[k]),
{
    first_word(output)
}

/// Devices of renderers are known by seven letters, whatever follows them.
pub proof fn lemma_renderers_are_known_by_their_names(name: Seq<char>)
    ensures
        is_renderer(name) <==> name.len() >= 7 && name[0] == 'r' && name[1] == 'e' && name[2] == 'n'
            && name[3] == 'd' && name[4] == 'e' && name[5] == 'r' && name[6] == 'D',
{
    reveal_strlit("renderD");
    let start = name.take(7);
    if name.len() >= 7 && name[0] == 'r' && name[1] == 'e' && name[2] == 'n' && name[3] == 'd'
        && name[4] == 'e' && name[5] == 'r' && name[6] == 'D' {
        assert(start =~= "renderD"@);
    }
    if is_renderer(name) {
        assert(start[0] == name[0] && start[1] == name[1] && start[2] == name[2] && start[3]
            == name[3] && start[4] == name[4] && start[5] == name[5] && start[6] == name[6]);
    }
}

/// The model of the first processor stands in the first line that begins with its key, and the
/// whole line is given. Lines that begin otherwise, even alike, do not count.
pub proof fn lemma_the_first_model_is_given(cpuinfo: Seq<char>, i: int, rest: Seq<char>)
    requires
        0 <= i <= text::lines(cpuinfo).len(),
        forall|k: int|
            0 <= k < i ==> !text::begins_with(#[trigger] text::lines(cpuinfo)[k], "model name"@),
        i < text::lines(cpuinfo).len() ==> text::lines(cpuinfo)[i] == "model name"@ + rest,
    ensures
        model_line(cpuinfo) == if i < text::lines(cpuinfo).len() {
            Some("model name"@ + rest)
        } else {
            None
        },
{
    text::lemma_beginnings_can_be_continued("model name"@, "model name"@, rest);
    text::lemma_the_first_line_is_found(text::lines(cpuinfo), "model name"@, i);
}

} // verus!
