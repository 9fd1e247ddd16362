//! Laws of the text helpers, over their calls.
use vstd::prelude::*;

use crate::text::{
    chars_of, decimal, decimal_string, has_part, part_at, same_text, stands_at, trim, trim_bounds,
    trim_end, trim_start, white_space,
};

verus! {

/// The number that a text of decimal digits stands for.
pub open spec fn number(text: Seq<char>) -> int
    decreases text.len(),
{
    if text.len() == 0 {
        0
    } else {
        10 * number(text.drop_last()) + (text.last() as u32 - '0' as u32)
    }
}

/// Whether a text is a decimal number without needless zeros.
pub open spec fn is_number(text: Seq<char>) -> bool {
    &&& text.len() > 0
    &&& forall|i: int| 0 <= i < text.len() ==> '0' <= #[trigger] text[i] <= '9'
    &&& text.len() > 1 ==> text[0] != '0'
}

pub proof fn lemma_decimal(n: nat)
    requires
        n <= u32::MAX,
    ensures
        is_number(decimal(n)),
        number(decimal(n)) == n,
        n > 0 ==> decimal(n)[0] != '0',
    decreases n,
{
    if n >= 10 {
        lemma_decimal(n / 10);
        let rest = decimal(n / 10);
        assert(decimal(n).drop_last() =~= rest);
        assert(decimal(n)[0] == rest[0]);
    } else {
        assert(decimal(n).drop_last() =~= Seq::empty());
        assert(number(Seq::<char>::empty()) == 0);
    }
}

/// A number is written with its own digits, and no zeros before them.
pub proof fn law_decimal_string(n: u32, text: String)
    requires
        call_ensures(decimal_string, (n,), text),
    ensures
        is_number(text@),
        number(text@) == n,
{
    lemma_decimal(n as nat);
}

/// Texts are equal if their characters are.
pub proof fn law_same_text(first: &str, second: &str, same: bool)
    requires
        call_ensures(same_text, (first, second), same),
    ensures
        same <==> first@.len() == second@.len() && forall|i: int|
            0 <= i < first@.len() ==> first@[i] == second@[i],
{
    if first@.len() == second@.len() && forall|i: int|
        0 <= i < first@.len() ==> first@[i] == second@[i] {
        assert(first@ =~= second@);
    }
}

/// The characters of a text are all there, in order.
pub proof fn law_chars_of(text: &str, chars: Vec<char>)
    requires
        call_ensures(chars_of, (text,), chars),
    ensures
        chars@.len() == text@.len(),
        forall|i: int| 0 <= i < text@.len() ==> chars@[i] == text@[i],
{
}

/// Whether the characters of `part` are those of `whole` from a position on.
pub open spec fn same_from(whole: Seq<char>, part: Seq<char>, at: int) -> bool {
    &&& 0 <= at
    &&& at + part.len() <= whole.len()
    &&& forall|i: int| 0 <= i < part.len() ==> whole[at + i] == #[trigger] part[i]
}

pub proof fn lemma_stands_at(whole: Seq<char>, part: Seq<char>, at: int)
    ensures
        stands_at(whole, part, at) <==> same_from(whole, part, at),
{
    if stands_at(whole, part, at) {
        assert forall|i: int| 0 <= i < part.len() implies whole[at + i] == #[trigger] part[i] by {
            assert(whole.subrange(at, at + part.len())[i] == part[i]);
        }
    }
    if same_from(whole, part, at) {
        assert(whole.subrange(at, at + part.len()) =~= part);
    }
}

/// A part stands where its characters do.
pub proof fn law_part_at(whole: &Vec<char>, part: &Vec<char>, at: usize, stands: bool)
    requires
        call_ensures(part_at, (whole, part, at), stands),
    ensures
        stands <==> same_from(whole@, part@, at as int),
{
    lemma_stands_at(whole@, part@, at as int);
}

/// A part is found wherever it stands.
pub proof fn law_has_part(whole: &Vec<char>, part: &Vec<char>, found: bool)
    requires
        call_ensures(has_part, (whole, part), found),
    ensures
        found <==> exists|at: int| same_from(whole@, part@, at),
{
    if found {
        let at = choose|at: int| stands_at(whole@, part@, at);
        lemma_stands_at(whole@, part@, at);
    }
    if exists|at: int| same_from(whole@, part@, at) {
        let at = choose|at: int| same_from(whole@, part@, at);
        lemma_stands_at(whole@, part@, at);
    }
}

/// Whether the part of a text between two places is left when the white space at the ends of the
/// text between `from` and `to` is cut off.
pub open spec fn trimmed_to(text: Seq<char>, from: int, to: int, start: int, end: int) -> bool {
    &&& from <= start <= end <= to
    &&& forall|i: int| from <= i < start ==> white_space(#[trigger] text[i])
    &&& forall|i: int| end <= i < to ==> white_space(#[trigger] text[i])
    &&& start < end ==> !white_space(text[start]) && !white_space(text[end - 1])
}

proof fn lemma_trim_start(text: Seq<char>) -> (start: int)
    ensures
        0 <= start <= text.len(),
        trim_start(text) == text.subrange(start, text.len() as int),
        forall|i: int| 0 <= i < start ==> white_space(#[trigger] text[i]),
        start < text.len() ==> !white_space(text[start]),
    decreases text.len(),
{
    if text.len() > 0 && white_space(text[0]) {
        let rest = text.drop_first();
        let start = lemma_trim_start(rest);
        assert forall|i: int| 0 <= i < start + 1 implies white_space(#[trigger] text[i]) by {
            if i > 0 {
                assert(rest[i - 1] == text[i]);
            }
        }
        assert(rest.subrange(start, rest.len() as int) =~= text.subrange(
            start + 1,
            text.len() as int,
        ));
        start + 1
    } else {
        assert(text =~= text.subrange(0, text.len() as int));
        0
    }
}

proof fn lemma_trim_end(text: Seq<char>) -> (end: int)
    ensures
        0 <= end <= text.len(),
        trim_end(text) == text.subrange(0, end),
        forall|i: int| end <= i < text.len() ==> white_space(#[trigger] text[i]),
        end > 0 ==> !white_space(text[end - 1]),
    decreases text.len(),
{
    if text.len() > 0 && white_space(text.last()) {
        let rest = text.drop_last();
        let end = lemma_trim_end(rest);
        assert forall|i: int| end <= i < text.len() implies white_space(#[trigger] text[i]) by {
            if i < rest.len() {
                assert(rest[i] == text[i]);
            }
        }
        assert(rest.subrange(0, end) =~= text.subrange(0, end));
        end
    } else {
        assert(text =~= text.subrange(0, text.len() as int));
        text.len() as int
    }
}

/// Trimming a part of a text leaves what lies between two of its places.
pub proof fn lemma_trim(text: Seq<char>, from: int, to: int) -> (bounds: (int, int))
    requires
        0 <= from <= to <= text.len(),
    ensures
        trimmed_to(text, from, to, bounds.0, bounds.1),
        trim(text.subrange(from, to)) == text.subrange(bounds.0, bounds.1),
{
    let part = text.subrange(from, to);
    let start = lemma_trim_start(part);
    let rest = part.subrange(start, part.len() as int);
    let end = lemma_trim_end(rest);
    let bounds = (from + start, from + start + end);
    assert(rest.subrange(0, end) =~= text.subrange(bounds.0, bounds.1));
    assert forall|i: int| from <= i < bounds.0 implies white_space(#[trigger] text[i]) by {
        assert(part[i - from] == text[i]);
    }
    assert forall|i: int| bounds.1 <= i < to implies white_space(#[trigger] text[i]) by {
        assert(rest[i - from - start] == text[i]);
    }
    if end > 0 {
        assert(part[start] == text[bounds.0]);
        assert(rest[end - 1] == text[bounds.1 - 1]);
    }
    bounds
}

/// There is only one text that trimming can leave.
pub proof fn lemma_trimmed_once(
    text: Seq<char>,
    from: int,
    to: int,
    first: (int, int),
    second: (int, int),
)
    requires
        0 <= from <= to <= text.len(),
        trimmed_to(text, from, to, first.0, first.1),
        trimmed_to(text, from, to, second.0, second.1),
    ensures
        text.subrange(first.0, first.1) == text.subrange(second.0, second.1),
{
    if first.0 < first.1 {
        assert(!white_space(text[first.0]));
        assert(!white_space(text[first.1 - 1]));
        assert(second.0 <= first.0);
        assert(first.1 <= second.1);
    }
    if second.0 < second.1 {
        assert(!white_space(text[second.0]));
        assert(!white_space(text[second.1 - 1]));
        assert(first.0 <= second.0);
        assert(second.1 <= first.1);
    }
    assert(text.subrange(first.0, first.1) =~= text.subrange(second.0, second.1));
}

/// Trimming cuts off white space at both ends, all of it, and nothing else.
pub proof fn law_trim_bounds(chars: &Vec<char>, from: usize, to: usize, bounds: (usize, usize))
    requires
        from <= to <= chars.len(),
        call_ensures(trim_bounds, (chars, from, to), bounds),
    ensures
        exists|start: int, end: int| #[trigger]
            trimmed_to(chars@, from as int, to as int, start, end) && chars@.subrange(
                bounds.0 as int,
                bounds.1 as int,
            ) == chars@.subrange(start, end),
{
    let (start, end) = lemma_trim(chars@, from as int, to as int);
    assert(trimmed_to(chars@, from as int, to as int, start, end));
}

} // verus!
