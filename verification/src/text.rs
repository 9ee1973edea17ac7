//! Text as sequences of characters: lines, prefixes, decimal numbers, order.

use vstd::prelude::*;
use vstd::string::*;

verus! {

/// The characters of `s`, for access by index.
pub fn to_chars(s: &str) -> (r: Vec<char>)
    ensures
        r@ == s@,
{
    let mut r: Vec<char> = Vec::new();
    for c in it: s.chars()
        invariant
            it.seq() == s@,
            r@ == s@.take(it.index() as int),
    {
        r.push(c);
    }
    assert(s@.take(s@.len() as int) =~= s@);
    r
}

/// Whether two texts are equal.
pub fn same_text(a: &str, b: &str) -> (r: bool)
    ensures
        r == (a@ == b@),
{
    a.to_owned() == b.to_owned()
}

/// Alphabetical order by code point: the order in which names are listed.
pub open spec fn precedes(a: Seq<char>, b: Seq<char>) -> bool
    decreases a.len(),
{
    if b.len() == 0 {
        false
    } else if a.len() == 0 {
        true
    } else {
        a[0] < b[0] || (a[0] == b[0] && precedes(a.drop_first(), b.drop_first()))
    }
}

/// Nothing precedes itself.
pub proof fn lemma_precedes_irreflexive(a: Seq<char>)
    ensures
        !precedes(a, a),
    decreases a.len(),
{
    if a.len() > 0 {
        lemma_precedes_irreflexive(a.drop_first());
    }
}

/// The order is transitive.
pub proof fn lemma_precedes_transitive(a: Seq<char>, b: Seq<char>, c: Seq<char>)
    requires
        precedes(a, b),
        precedes(b, c),
    ensures
        precedes(a, c),
    decreases a.len(),
{
    if a.len() > 0 && a[0] == b[0] && b[0] == c[0] {
        lemma_precedes_transitive(a.drop_first(), b.drop_first(), c.drop_first());
    }
}

/// Of two different texts one precedes the other.
pub proof fn lemma_precedes_total(a: Seq<char>, b: Seq<char>)
    ensures
        a == b || precedes(a, b) || precedes(b, a),
    decreases a.len(),
{
    if a.len() > 0 && b.len() > 0 && a[0] == b[0] {
        lemma_precedes_total(a.drop_first(), b.drop_first());
        if a.drop_first() == b.drop_first() {
            assert(a =~= seq![a[0]] + a.drop_first());
            assert(b =~= seq![b[0]] + b.drop_first());
        }
    } else if a.len() == 0 && b.len() == 0 {
        assert(a =~= b);
    }
}

/// Decides the alphabetical order of two texts.
pub fn is_before(a: &str, b: &str) -> (r: bool)
    ensures
        r == precedes(a@, b@),
{
    let x: Vec<char> = to_chars(a);
    let y: Vec<char> = to_chars(b);
    let mut i: usize = 0;
    assert(a@.skip(0) =~= a@);
    assert(b@.skip(0) =~= b@);
    while i < x.len() && i < y.len() && x[i] == y[i]
        invariant
            x@ == a@,
            y@ == b@,
            i <= x.len(),
            i <= y.len(),
            precedes(a@, b@) == precedes(a@.skip(i as int), b@.skip(i as int)),
        decreases x.len() - i,
    {
        assert(a@.skip(i as int).drop_first() =~= a@.skip(i + 1));
        assert(b@.skip(i as int).drop_first() =~= b@.skip(i + 1));
        i = i + 1;
    }
    if i >= y.len() {
        false
    } else if i >= x.len() {
        true
    } else {
        x[i] < y[i]
    }
}

/// `String::push`, which appends one character.
pub assume_specification[ String::push ](s: &mut String, c: char)
    ensures
        final(s)@ == old(s)@.push(c),
;

/// The text that consists of the given characters.
pub fn from_chars(chars: &[char]) -> (r: String)
    ensures
        r@ == chars@,
{
    let mut r: String = String::new();
    let mut i: usize = 0;
    while i < chars.len()
        invariant
            i <= chars@.len(),
            r@ == chars@.take(i as int),
        decreases chars@.len() - i,
    {
        r.push(chars[i]);
        i = i + 1;
    }
    assert(chars@.take(chars@.len() as int) =~= chars@);
    r
}

/// One text after another.
pub fn joined(a: &str, b: &str) -> (r: String)
    ensures
        r@ == a@ + b@,
{
    let mut r: String = a.to_owned();
    r.append(b);
    r
}

/// The parts of a text between separators. There is one more than there are separators.
pub open spec fn split(text: Seq<char>, separator: char) -> Seq<Seq<char>>
    decreases text.len(),
{
    if text.len() == 0 {
        seq![Seq::empty()]
    } else {
        let parts = split(text.drop_last(), separator);
        if text.last() == separator {
            parts.push(Seq::empty())
        } else {
            parts.drop_last().push(parts.last().push(text.last()))
        }
    }
}

/// The views of lists of characters.
pub open spec fn char_lists(lists: Seq<Vec<char>>) -> Seq<Seq<char>> {
    lists.map_values(|list: Vec<char>| list@)
}

/// The views of texts.
pub open spec fn texts(list: Seq<String>) -> Seq<Seq<char>> {
    list.map_values(|text: String| text@)
}

/// Cuts a text at every separator.
pub fn split_text(text: &str, separator: char) -> (r: Vec<Vec<char>>)
    ensures
        char_lists(r@) == split(text@, separator),
        r@.len() > 0,
{
    let chars: Vec<char> = to_chars(text);
    let mut parts: Vec<Vec<char>> = Vec::new();
    let mut part: Vec<char> = Vec::new();
    let mut i: usize = 0;
    proof {
        assert(char_lists(parts@).push(part@) =~= seq![Seq::<char>::empty()]);
        assert(chars@.take(0) =~= Seq::<char>::empty());
    }
    while i < chars.len()
        invariant
            i <= chars@.len(),
            char_lists(parts@).push(part@) == split(chars@.take(i as int), separator),
        decreases chars@.len() - i,
    {
        let ghost before = char_lists(parts@).push(part@);
        let ghost more = chars@.take(i + 1);
        proof {
            assert(more.drop_last() =~= chars@.take(i as int));
            assert(more.last() == chars@[i as int]);
        }
        if chars[i] == separator {
            let ghost old_part = part@;
            let ghost old_parts = parts@;
            parts.push(part);
            part = Vec::new();
            proof {
                assert(char_lists(parts@) =~= char_lists(old_parts).push(old_part));
            }
        } else {
            let ghost old_part = part@;
            part.push(chars[i]);
            proof {
                assert(before.drop_last() =~= char_lists(parts@));
                assert(before.last() == old_part);
            }
        }
        i = i + 1;
    }
    let ghost last = part@;
    let ghost old_parts = parts@;
    parts.push(part);
    proof {
        assert(chars@.take(chars@.len() as int) =~= chars@);
        assert(char_lists(parts@) =~= char_lists(old_parts).push(last));
    }
    parts
}

/// A line without the carriage return that may end it.
pub open spec fn without_return(line: Seq<char>) -> Seq<char> {
    if line.len() > 0 && line.last() == '\r' {
        line.drop_last()
    } else {
        line
    }
}

/// The lines of a text. A line ends with a line feed, or a carriage return and a line feed;
/// the last line need not.
pub open spec fn lines(text: Seq<char>) -> Seq<Seq<char>> {
    let parts = split(text, '\n');
    let ended = parts.drop_last().map_values(|part: Seq<char>| without_return(part));
    if parts.last().len() == 0 {
        ended
    } else {
        ended.push(parts.last())
    }
}

/// The lines of a text, one by one.
pub fn text_lines(text: &str) -> (r: Vec<Vec<char>>)
    ensures
        char_lists(r@) == lines(text@),
{
    let parts: Vec<Vec<char>> = split_text(text, '\n');
    let mut r: Vec<Vec<char>> = Vec::new();
    let mut i: usize = 0;
    let last: usize = parts.len() - 1;
    let ghost model = split(text@, '\n');
    let ghost ended = model.drop_last().map_values(|part: Seq<char>| without_return(part));
    while i < last
        invariant
            i <= last,
            last == parts@.len() - 1,
            char_lists(parts@) == model,
            ended == model.drop_last().map_values(|part: Seq<char>| without_return(part)),
            char_lists(r@) == ended.take(i as int),
        decreases last - i,
    {
        let mut line: Vec<char> = parts[i].clone();
        proof {
            assert(model[i as int] == parts@[i as int]@);
            assert(line@ =~= parts@[i as int]@);
        }
        let n: usize = line.len();
        if n > 0 && line[n - 1] == '\r' {
            line.pop();
        }
        proof {
            assert(line@ =~= without_return(model[i as int]));
        }
        let ghost before = r@;
        let ghost added = line@;
        r.push(line);
        proof {
            assert(char_lists(r@) =~= char_lists(before).push(added));
            assert(char_lists(r@) =~= ended.take(i + 1));
        }
        i = i + 1;
    }
    proof {
        assert(ended.take(ended.len() as int) =~= ended);
        assert(model.last() == parts@[last as int]@);
    }
    if parts[last].len() > 0 {
        let line: Vec<char> = parts[last].clone();
        let ghost before = r@;
        proof {
            assert(line@ =~= parts@[last as int]@);
        }
        let ghost added = line@;
        r.push(line);
        proof {
            assert(char_lists(r@) =~= char_lists(before).push(added));
        }
    }
    r
}

/// Whether a text begins with another.
pub open spec fn begins_with(text: Seq<char>, prefix: Seq<char>) -> bool {
    prefix.len() <= text.len() && text.take(prefix.len() as int) == prefix
}

/// Decides whether a text begins with another.
pub fn has_prefix(text: &[char], prefix: &str) -> (r: bool)
    ensures
        r == begins_with(text@, prefix@),
{
    let start: Vec<char> = to_chars(prefix);
    if start.len() > text.len() {
        return false;
    }
    let mut i: usize = 0;
    while i < start.len()
        invariant
            i <= start@.len() <= text@.len(),
            start@ == prefix@,
            forall|k: int| 0 <= k < i ==> text@[k] == start@[k],
        decreases start@.len() - i,
    {
        if start[i] != text[i] {
            proof {
                assert(text@.take(prefix@.len() as int)[i as int] != prefix@[i as int]);
            }
            return false;
        }
        i = i + 1;
    }
    proof {
        assert(text@.take(prefix@.len() as int) =~= prefix@);
    }
    true
}

/// The first of some lines that begins with a prefix.
pub open spec fn first_with(lines: Seq<Seq<char>>, prefix: Seq<char>) -> Option<Seq<char>>
    decreases lines.len(),
{
    if lines.len() == 0 {
        None
    } else if begins_with(lines[0], prefix) {
        Some(lines[0])
    } else {
        first_with(lines.drop_first(), prefix)
    }
}

/// Finds the first line of a text that begins with a prefix.
pub fn line_with(text: &str, prefix: &str) -> (r: Option<Vec<char>>)
    ensures
        match first_with(lines(text@), prefix@) {
            Some(line) => r is Some && r->0@ == line && begins_with(line, prefix@),
            None => r is None,
        },
{
    let list: Vec<Vec<char>> = text_lines(text);
    let ghost model = lines(text@);
    let mut i: usize = 0;
    proof {
        assert(model.skip(0) =~= model);
    }
    while i < list.len()
        invariant
            i <= list@.len(),
            char_lists(list@) == model,
            model == lines(text@),
            first_with(model, prefix@) == first_with(model.skip(i as int), prefix@),
        decreases list@.len() - i,
    {
        proof {
            assert(model.len() == list@.len());
            assert(model[i as int] == list@[i as int]@);
            assert(model.skip(i as int)[0] == list@[i as int]@);
            assert(model.skip(i as int).drop_first() =~= model.skip(i + 1));
        }
        if has_prefix(list[i].as_slice(), prefix) {
            let line: Vec<char> = list[i].clone();
            proof {
                assert(line@ =~= list@[i as int]@);
            }
            return Some(line);
        }
        i = i + 1;
    }
    None
}

/// Whether a character separates words.
pub open spec fn is_space(c: char) -> bool {
    ||| '\u{9}' <= c <= '\u{d}'
    ||| c == ' '
    ||| c == '\u{85}'
    ||| c == '\u{a0}'
    ||| c == '\u{1680}'
    ||| '\u{2000}' <= c <= '\u{200a}'
    ||| c == '\u{2028}'
    ||| c == '\u{2029}'
    ||| c == '\u{202f}'
    ||| c == '\u{205f}'
    ||| c == '\u{3000}'
}

fn check_space(c: char) -> (r: bool)
    ensures
        r == is_space(c),
{
    ('\u{9}' <= c && c <= '\u{d}') || c == ' ' || c == '\u{85}' || c == '\u{a0}' || c == '\u{1680}'
        || ('\u{2000}' <= c && c <= '\u{200a}') || c == '\u{2028}' || c == '\u{2029}' || c
        == '\u{202f}' || c == '\u{205f}' || c == '\u{3000}'
}

/// Whether a word stands at a place of a text with nothing but spaces before it, and ends
/// there.
pub open spec fn leads(text: Seq<char>, place: int, word: Seq<char>) -> bool {
    let end = place + word.len();
    &&& 0 <= place
    &&& 0 < word.len()
    &&& end <= text.len()
    &&& text.subrange(place, end) == word
    &&& forall|k: int| 0 <= k < place ==> is_space(text[k])
    &&& forall|k: int| 0 <= k < word.len() ==> !is_space(word[k])
    &&& end == text.len() || is_space(text[end])
}

/// The first word of a text: what stands between its leading spaces and the next space.
pub fn first_word(text: &str) -> (r: Option<String>)
    ensures
        r is Some ==> exists|place: int| leads(text@, place, r->0@),
        r is None ==> forall|k: int| 0 <= k < text@.len() ==> is_space(text@[k]),
{
    let chars: Vec<char> = to_chars(text);
    let mut i: usize = 0;
    while i < chars.len() && check_space(chars[i])
        invariant
            i <= chars@.len(),
            forall|k: int| 0 <= k < i ==> is_space(chars@[k]),
        decreases chars@.len() - i,
    {
        i = i + 1;
    }
    if i == chars.len() {
        return None;
    }
    let mut word: String = String::new();
    let mut j: usize = i;
    while j < chars.len() && !check_space(chars[j])
        invariant
            i <= j <= chars@.len(),
            word@ == chars@.subrange(i as int, j as int),
            forall|k: int| i <= k < j ==> !is_space(chars@[k]),
        decreases chars@.len() - j,
    {
        word.push(chars[j]);
        proof {
            assert(word@ =~= chars@.subrange(i as int, j + 1));
        }
        j = j + 1;
    }
    proof {
        assert(!is_space(chars@[i as int]));
        assert(leads(text@, i as int, word@));
    }
    let r: Option<String> = Some(word);
    proof {
        assert(leads(text@, i as int, r->0@));
        assert(exists|place: int| leads(text@, place, r->0@));
    }
    r
}

/// What begins alike is ordered by how it goes on, a text comes before every longer one that
/// begins with it, and where two texts first differ the lower character comes first.
pub proof fn lemma_order_is_decided_by_the_first_difference(
    start: Seq<char>,
    a: Seq<char>,
    b: Seq<char>,
)
    ensures
        precedes(start + a, start + b) == precedes(a, b),
        a.len() > 0 ==> precedes(start, start + a) && !precedes(start + a, start),
        a.len() > 0 && b.len() > 0 && a[0] < b[0] ==> precedes(start + a, start + b),
    decreases start.len(),
{
    if start.len() > 0 {
        lemma_order_is_decided_by_the_first_difference(start.drop_first(), a, b);
        assert((start + a).drop_first() =~= start.drop_first() + a);
        assert((start + b).drop_first() =~= start.drop_first() + b);
    } else {
        assert(start + a =~= a);
        assert(start + b =~= b);
    }
}

/// Cutting at separators undoes joining with them: a text without separators is its only part,
/// and a part that is put behind a text, after a separator, is the last one.
pub proof fn lemma_split_undoes_joining(text: Seq<char>, part: Seq<char>, separator: char)
    requires
        !part.contains(separator),
    ensures
        split(part, separator) == seq![part],
        split(text.push(separator) + part, separator) == split(text, separator).push(part),
    decreases part.len(),
{
    let before = text.push(separator);
    assert(before.drop_last() =~= text);
    if part.len() == 0 {
        assert(part =~= Seq::empty());
        assert(before + part =~= before);
    } else {
        let less = part.drop_last();
        let c = part.last();
        assert(part[part.len() - 1] == c);
        assert forall|i: int| 0 <= i < less.len() implies less[i] != separator by {
            assert(part[i] == less[i]);
            assert(part.contains(part[i]));
        }
        assert(!less.contains(separator));
        assert(part.contains(c));
        lemma_split_undoes_joining(text, less, separator);
        assert(less.push(c) =~= part);
        assert(seq![less].drop_last().push(less.push(c)) =~= seq![part]);
        assert((before + part).drop_last() =~= before + less);
        assert(split(text, separator).push(less).drop_last() =~= split(text, separator));
    }
}

/// A line that is put behind a text whose last line has ended is its last line, whether a line
/// feed, a carriage return and a line feed, or nothing ends it.
pub proof fn lemma_lines_are_read_back(text: Seq<char>, line: Seq<char>)
    requires
        text.len() > 0 ==> text.last() == '\n',
        !line.contains('\n'),
    ensures
        line.len() == 0 || line.last() != '\r' ==> lines(text + line.push('\n')) == lines(text).push(
            line,
        ),
        lines(text + line.push('\r').push('\n')) == lines(text).push(line),
        line.len() > 0 ==> lines(text + line) == lines(text).push(line),
{
    let returned = line.push('\r');
    assert forall|i: int| 0 <= i < returned.len() implies returned[i] != '\n' by {
        if i < line.len() {
            assert(line.contains(line[i]));
        }
    }
    assert(!returned.contains('\n'));
    lemma_ended_lines(text, line);
    lemma_ended_lines(text, returned);
    lemma_parts_of_an_ended_text(text, line);
    assert(text + line.push('\n') =~= (text + line).push('\n'));
    assert(text + returned.push('\n') =~= (text + returned).push('\n'));
    assert(returned.drop_last() =~= line);
}

/// The parts of a text whose last line has ended, with more behind it.
proof fn lemma_parts_of_an_ended_text(text: Seq<char>, line: Seq<char>)
    requires
        text.len() > 0 ==> text.last() == '\n',
        !line.contains('\n'),
    ensures
        split(text, '\n').len() > 0,
        split(text, '\n').last().len() == 0,
        split(text + line, '\n') == split(text, '\n').drop_last().push(line),
        split(text + line, '\n').drop_last() == split(text, '\n').drop_last(),
{
    if text.len() == 0 {
        lemma_split_undoes_joining(text, line, '\n');
        assert(text + line =~= line);
        assert(split(text, '\n').drop_last() =~= Seq::<Seq<char>>::empty());
        assert(seq![line] =~= split(text, '\n').drop_last().push(line));
    } else {
        let rest = text.drop_last();
        lemma_split_undoes_joining(rest, line, '\n');
        assert(rest.push('\n') =~= text);
        assert(split(text, '\n').drop_last() =~= split(rest, '\n'));
    }
    assert(split(text, '\n').drop_last().push(line).drop_last() =~= split(text, '\n').drop_last());
}

proof fn lemma_ended_lines(text: Seq<char>, line: Seq<char>)
    requires
        text.len() > 0 ==> text.last() == '\n',
        !line.contains('\n'),
    ensures
        lines((text + line).push('\n')) == lines(text).push(without_return(line)),
        line.len() > 0 ==> lines(text + line) == lines(text).push(line),
{
    let clean = |part: Seq<char>| without_return(part);
    let parts = split(text, '\n');
    let ended = (text + line).push('\n');
    lemma_parts_of_an_ended_text(text, line);
    assert(ended.drop_last() =~= text + line);
    assert(split(ended, '\n') == split(text + line, '\n').push(Seq::empty()));
    assert(split(ended, '\n').drop_last() =~= parts.drop_last().push(line));
    assert(parts.drop_last().push(line).map_values(clean) =~= parts.drop_last().map_values(
        clean,
    ).push(without_return(line)));
}

/// The line that is found is the first that begins with the prefix; where none is found there
/// is none.
pub proof fn lemma_the_first_line_is_found(lines: Seq<Seq<char>>, prefix: Seq<char>, i: int)
    requires
        0 <= i <= lines.len(),
        forall|k: int| 0 <= k < i ==> !begins_with(#[trigger] lines[k], prefix),
        i < lines.len() ==> begins_with(lines[i], prefix),
    ensures
        first_with(lines, prefix) == if i < lines.len() {
            Some(lines[i])
        } else {
            None
        },
    decreases lines.len(),
{
    if lines.len() > 0 && i > 0 {
        let rest = lines.drop_first();
        assert(!begins_with(lines[0], prefix));
        assert forall|k: int| 0 <= k < i - 1 implies !begins_with(#[trigger] rest[k], prefix) by {
            assert(rest[k] == lines[k + 1]);
        }
        if i < lines.len() {
            assert(rest[i - 1] == lines[i]);
        }
        lemma_the_first_line_is_found(rest, prefix, i - 1);
    }
}

/// A text begins with another exactly if something, or nothing, put behind that other gives the
/// text.
pub proof fn lemma_beginnings_can_be_continued(text: Seq<char>, prefix: Seq<char>, rest: Seq<char>)
    ensures
        begins_with(prefix + rest, prefix),
        begins_with(text, prefix) ==> text == prefix + text.skip(prefix.len() as int),
{
    assert((prefix + rest).take(prefix.len() as int) =~= prefix);
    if begins_with(text, prefix) {
        assert(text =~= text.take(prefix.len() as int) + text.skip(prefix.len() as int));
    }
}

/// The first word of a text is the only word that leads it.
pub proof fn lemma_one_word_leads(
    text: Seq<char>,
    place: int,
    word: Seq<char>,
    other_place: int,
    other: Seq<char>,
)
    requires
        leads(text, place, word),
        leads(text, other_place, other),
    ensures
        place == other_place,
        word == other,
{
    assert(text.subrange(place, place + word.len())[0] == text[place]);
    assert(text.subrange(other_place, other_place + other.len())[0] == text[other_place]);
    assert(!is_space(word[0]) && !is_space(other[0]));
    if word.len() < other.len() {
        assert(text.subrange(place, place + other.len())[word.len() as int] == text[place
            + word.len()]);
        assert(!is_space(other[word.len() as int]));
    } else if other.len() < word.len() {
        assert(text.subrange(place, place + word.len())[other.len() as int] == text[place
            + other.len()]);
        assert(!is_space(word[other.len() as int]));
    }
}

/// Words are separated by blanks and the ends of lines; letters, digits and most marks separate
/// nothing.
pub proof fn lemma_what_separates_words(c: char)
    ensures
        c == ' ' || c == '\t' || c == '\n' || c == '\r' ==> is_space(c),
        '!' <= c <= '~' ==> !is_space(c),
        is_space(c) && c as u32 > 0x20 ==> c as u32 == 0x85 || c as u32 == 0xa0 || c as u32
            == 0x1680 || 0x2000 <= c as u32 <= 0x200a || c as u32 == 0x2028 || c as u32 == 0x2029
            || c as u32 == 0x202f || c as u32 == 0x205f || c as u32 == 0x3000,
        c as u32 == 0x85 || c as u32 == 0xa0 || c as u32 == 0x1680 || 0x2000 <= c as u32 <= 0x200a
            || c as u32 == 0x2028 || c as u32 == 0x2029 || c as u32 == 0x202f || c as u32 == 0x205f
            || c as u32 == 0x3000 || 9 <= c as u32 <= 13 ==> is_space(c),
        c as u32 <= 8 || 14 <= c as u32 <= 31 ==> !is_space(c),
{
}

} // verus!
