//! The icon that a desktop entry names.
use vstd::prelude::*;
use vstd::string::*;

use crate::text::{begins_with, chars_of, part_at, trim, trim_bounds};

verus! {

/// Where the line that begins at `from` ends: at the next line feed, or where the text ends.
pub open spec fn line_end(text: Seq<char>, from: int) -> int
    decreases text.len() - from,
{
    if from >= text.len() {
        text.len() as int
    } else if text[from] == '\n' {
        from
    } else {
        line_end(text, from + 1)
    }
}

/// Where the content of the line that begins at `from` ends: a carriage return before its line
/// feed belongs to the line's end.
pub open spec fn content_end(text: Seq<char>, from: int) -> int {
    let end = line_end(text, from);
    if end < text.len() && end > from && text[end - 1] == '\r' {
        end - 1
    } else {
        end
    }
}

/// The lines of a text from a position on.
pub open spec fn lines_from(text: Seq<char>, from: int) -> Seq<Seq<char>>
    decreases text.len() + 1 - from,
{
    if 0 <= from < text.len() {
        proof {
            lemma_line_end(text, from);
        }
        seq![text.subrange(from, content_end(text, from))] + lines_from(
            text,
            line_end(text, from) + 1,
        )
    } else {
        Seq::empty()
    }
}

/// The lines of a text.
pub open spec fn lines(text: Seq<char>) -> Seq<Seq<char>> {
    lines_from(text, 0)
}

/// The icon that a line of a desktop entry names.
pub open spec fn icon_of_line(line: Seq<char>) -> Option<Seq<char>> {
    if begins_with(line, "Icon="@) {
        Some(trim(line.skip(5)))
    } else {
        None
    }
}

/// The first icon in a list of lines that is not called `name`.
pub open spec fn first_icon(list: Seq<Seq<char>>, name: Seq<char>) -> Option<Seq<char>>
    decreases list.len(),
{
    if list.len() == 0 {
        None
    } else {
        match icon_of_line(list[0]) {
            Some(icon) if icon != name => Some(icon),
            _ => first_icon(list.drop_first(), name),
        }
    }
}

/// A line ends at or after its beginning, and within the text.
pub proof fn lemma_line_end(text: Seq<char>, from: int)
    requires
        0 <= from <= text.len(),
    ensures
        from <= line_end(text, from) <= text.len(),
    decreases text.len() - from,
{
    if from < text.len() && text[from] != '\n' {
        lemma_line_end(text, from + 1);
    }
}

/// Finds the end of the line that begins at `from`.
fn find_line_end(chars: &Vec<char>, from: usize) -> (end: usize)
    requires
        from <= chars.len(),
    ensures
        end == line_end(chars@, from as int),
        from <= end <= chars.len(),
{
    let mut end: usize = from;
    while end < chars.len() && chars[end] != '\n'
        invariant
            from <= end <= chars.len(),
            line_end(chars@, from as int) == line_end(chars@, end as int),
        decreases chars.len() - end,
    {
        end = end + 1;
    }
    end
}

/// The first icon that a desktop entry names, other than `name` itself.
pub fn desktop_icon(content: &str, name: &str) -> (icon: Option<String>)
    ensures
        match icon {
            Some(found) => first_icon(lines(content@), name@) == Some(found@),
            None => first_icon(lines(content@), name@) is None,
        },
{
    let chars: Vec<char> = chars_of(content);
    let known: Vec<char> = chars_of(name);
    let key: Vec<char> = chars_of("Icon=");
    proof {
        reveal_strlit("Icon=");
    }
    let mut from: usize = 0;
    while from < chars.len()
        invariant
            chars@ == content@,
            known@ == name@,
            key@ == "Icon="@,
            key@.len() == 5,
            first_icon(lines(content@), name@) == first_icon(
                lines_from(content@, from as int),
                name@,
            ),
            from <= chars.len(),
        decreases chars.len() - from,
    {
        let end: usize = find_line_end(&chars, from);
        let stop: usize = if end < chars.len() && end > from && chars[end - 1] == '\r' {
            end - 1
        } else {
            end
        };
        let ghost line = content@.subrange(from as int, stop as int);
        proof {
            let list = lines_from(content@, from as int);
            assert(list[0] == line);
            assert(list.drop_first() =~= lines_from(content@, end + 1));
        }
        let keyed: bool = stop - from >= 5 && part_at(&chars, &key, from);
        proof {
            if line.len() >= 5 {
                assert(line.subrange(0, 5) =~= content@.subrange(from as int, from + 5));
            }
            assert(keyed == begins_with(line, "Icon="@));
        }
        if keyed {
            let (start, finish) = trim_bounds(&chars, from + 5, stop);
            assert(line.skip(5) =~= content@.subrange(from + 5, stop as int));
            let same: bool = finish - start == known.len() && part_at(&chars, &known, start);
            proof {
                let value = content@.subrange(start as int, finish as int);
                assert(icon_of_line(line) == Some(value));
                assert(same == (value == name@));
            }
            if !same {
                return Some(content.substring_char(start, finish).to_owned());
            }
        }
        assert(first_icon(lines(content@), name@) == first_icon(
            lines_from(content@, end + 1),
            name@,
        ));
        if end == chars.len() {
            return None;
        }
        from = end + 1;
    }
    None
}

} // verus!
