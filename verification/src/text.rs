//! Text helpers: decimal numbers, white space, searching, and lower case.
use vstd::prelude::*;
use vstd::string::*;

verus! {

/// The character of a decimal digit.
pub open spec fn digit_char(d: nat) -> char {
    ('0' as u32 + d) as char
}

/// A number written in decimal, without leading zeros.
pub open spec fn decimal(n: nat) -> Seq<char>
    decreases n,
{
    if n < 10 {
        seq![digit_char(n)]
    } else {
        decimal(n / 10).push(digit_char(n % 10))
    }
}

/// The text of a single digit.
fn digit_text(d: u32) -> (text: &'static str)
    requires
        d < 10,
    ensures
        text@ == seq![digit_char(d as nat)],
{
    proof {
        reveal_strlit("0");
        reveal_strlit("1");
        reveal_strlit("2");
        reveal_strlit("3");
        reveal_strlit("4");
        reveal_strlit("5");
        reveal_strlit("6");
        reveal_strlit("7");
        reveal_strlit("8");
        reveal_strlit("9");
    }
    let text: &'static str = match d {
        0 => "0",
        1 => "1",
        2 => "2",
        3 => "3",
        4 => "4",
        5 => "5",
        6 => "6",
        7 => "7",
        8 => "8",
        _ => "9",
    };
    assert(text@ =~= seq![digit_char(d as nat)]);
    text
}

/// Writes a number in decimal.
pub fn decimal_string(n: u32) -> (text: String)
    ensures
        text@ == decimal(n as nat),
    decreases n,
{
    if n < 10 {
        digit_text(n).to_owned()
    } else {
        let mut text = decimal_string(n / 10);
        text.append(digit_text(n % 10));
        assert(text@ =~= decimal(n as nat / 10).push(digit_char(n as nat % 10)));
        text
    }
}

/// The lower-case form of a text, as [`str::to_lowercase`] gives it.
pub uninterp spec fn lowercase(text: Seq<char>) -> Seq<char>;

/// The lower-case form of an ASCII character.
pub open spec fn ascii_lowercase(c: char) -> char {
    if 'A' <= c <= 'Z' {
        (c as u32 + 32) as char
    } else {
        c
    }
}

/// Calls `str::to_lowercase`. Trusted: the result is a function of the text, called
/// [`lowercase`], and on a text of ASCII characters only it replaces each of the letters `A` to
/// `Z` by its small form and keeps everything else.
#[verifier::external_body]
pub(crate) fn to_lowercase(text: &str) -> (lower: String)
    ensures
        lower@ == lowercase(text@),
        (forall|i: int| 0 <= i < text@.len() ==> (#[trigger] text@[i] as u32) < 128)
            ==> lower@ == text@.map_values(|c: char| ascii_lowercase(c)),
{
    text.to_lowercase()
}

/// Whether two texts are equal.
pub fn same_text(first: &str, second: &str) -> (same: bool)
    ensures
        same == (first@ == second@),
{
    first.to_owned() == second.to_owned()
}

/// The characters of a text.
pub fn chars_of(text: &str) -> (chars: Vec<char>)
    ensures
        chars@ == text@,
{
    let mut chars: Vec<char> = Vec::new();
    for c in it: text.chars()
        invariant
            it.seq() == text@,
            chars@ == text@.take(it.index() as int),
    {
        chars.push(c);
        assert(text@.take(it.index() + 1) =~= text@.take(it.index() as int).push(c));
    }
    assert(text@.take(text@.len() as int) =~= text@);
    chars
}

/// Whether `part` stands in `whole` at a position.
pub open spec fn stands_at(whole: Seq<char>, part: Seq<char>, at: int) -> bool {
    0 <= at && at + part.len() <= whole.len() && whole.subrange(at, at + part.len()) == part
}

/// Whether `part` stands anywhere in `whole`.
pub open spec fn contains_part(whole: Seq<char>, part: Seq<char>) -> bool {
    exists|at: int| stands_at(whole, part, at)
}

/// Whether a text begins with another.
pub open spec fn begins_with(whole: Seq<char>, part: Seq<char>) -> bool {
    stands_at(whole, part, 0)
}

/// Whether a text ends with another.
pub open spec fn ends_with(whole: Seq<char>, part: Seq<char>) -> bool {
    stands_at(whole, part, whole.len() - part.len())
}

/// Whether `part` stands in `whole` at a position.
pub fn part_at(whole: &Vec<char>, part: &Vec<char>, at: usize) -> (stands: bool)
    ensures
        stands == stands_at(whole@, part@, at as int),
{
    if at > whole.len() || part.len() > whole.len() - at {
        return false;
    }
    let mut i: usize = 0;
    while i < part.len()
        invariant
            i <= part.len(),
            at + part.len() <= whole.len(),
            forall|j: int| 0 <= j < i ==> whole@[at + j] == part@[j],
        decreases part.len() - i,
    {
        if whole[at + i] != part[i] {
            assert(whole@.subrange(at as int, at + part.len())[i as int] != part@[i as int]);
            return false;
        }
        i = i + 1;
    }
    assert(whole@.subrange(at as int, at + part.len()) =~= part@);
    true
}

/// Whether `part` stands anywhere in `whole`.
pub fn has_part(whole: &Vec<char>, part: &Vec<char>) -> (found: bool)
    ensures
        found == contains_part(whole@, part@),
{
    let mut at: usize = 0;
    while at < whole.len()
        invariant
            at <= whole.len(),
            forall|j: int| 0 <= j < at ==> !stands_at(whole@, part@, j),
        decreases whole.len() - at,
    {
        if part_at(whole, part, at) {
            return true;
        }
        at = at + 1;
    }
    part_at(whole, part, at)
}

/// Whether a character is white space: the property `White_Space` of Unicode.
pub open spec fn white_space(c: char) -> bool {
    ||| '\u{9}' <= c <= '\u{d}'
    ||| c == ' '
    ||| c == '\u{85}'
    ||| c == '\u{a0}'
    ||| c == '\u{1680}'
    ||| '\u{2000}' <= c <= '\u{200a}'
    ||| c == '\u{2028}'
    ||| c == '\u{2029}'
    ||| c == '\u{202f}'
    ||| c == '\u{205f}'
    ||| c == '\u{3000}'
}

/// Whether a character is white space.
fn is_white_space(c: char) -> (white: bool)
    ensures
        white == white_space(c),
{
    ('\u{9}' <= c && c <= '\u{d}') || c == ' ' || c == '\u{85}' || c == '\u{a0}' || c == '\u{1680}'
        || ('\u{2000}' <= c && c <= '\u{200a}') || c == '\u{2028}' || c == '\u{2029}'
        || c == '\u{202f}' || c == '\u{205f}' || c == '\u{3000}'
}

/// A text without the white space it begins with.
pub open spec fn trim_start(text: Seq<char>) -> Seq<char>
    decreases text.len(),
{
    if text.len() > 0 && white_space(text[0]) {
        trim_start(text.drop_first())
    } else {
        text
    }
}

/// A text without the white space it ends with.
pub open spec fn trim_end(text: Seq<char>) -> Seq<char>
    decreases text.len(),
{
    if text.len() > 0 && white_space(text.last()) {
        trim_end(text.drop_last())
    } else {
        text
    }
}

/// A text without the white space at its ends.
pub open spec fn trim(text: Seq<char>) -> Seq<char> {
    trim_end(trim_start(text))
}

/// The bounds of a part of a text without the white space at its ends.
pub fn trim_bounds(chars: &Vec<char>, from: usize, to: usize) -> (bounds: (usize, usize))
    requires
        from <= to <= chars.len(),
    ensures
        from <= bounds.0 <= bounds.1 <= to,
        chars@.subrange(bounds.0 as int, bounds.1 as int) == trim(
            chars@.subrange(from as int, to as int),
        ),
{
    let mut start: usize = from;
    while start < to && is_white_space(chars[start])
        invariant
            from <= start <= to <= chars.len(),
            trim_start(chars@.subrange(from as int, to as int)) == trim_start(
                chars@.subrange(start as int, to as int),
            ),
        decreases to - start,
    {
        assert(chars@.subrange(start as int, to as int).drop_first() =~= chars@.subrange(
            start + 1,
            to as int,
        ));
        start = start + 1;
    }
    let ghost rest = chars@.subrange(start as int, to as int);
    assert(trim_start(rest) == rest);
    let mut end: usize = to;
    while start < end && is_white_space(chars[end - 1])
        invariant
            from <= start <= end <= to <= chars.len(),
            rest == chars@.subrange(start as int, to as int),
            trim_end(rest) == trim_end(chars@.subrange(start as int, end as int)),
        decreases end - start,
    {
        assert(chars@.subrange(start as int, end as int).drop_last() =~= chars@.subrange(
            start as int,
            end - 1,
        ));
        end = end - 1;
    }
    assert(trim_end(chars@.subrange(start as int, end as int)) == chars@.subrange(
        start as int,
        end as int,
    ));
    (start, end)
}

} // verus!
