//! Laws of desktop entries and of the search for an icon, over the calls.
use vstd::prelude::*;
use vstd::string::*;

use crate::desktop::{
    content_end, desktop_icon, first_icon, icon_of_line, lemma_line_end, line_end, lines, lines_from,
};
use crate::icon_search::{
    first_match, icon_name_matches, name_matches, probe_question, Answer, IconSearch, Query,
};
use crate::text::{contains_part, lowercase, stands_at};
use crate::text_laws::{
    lemma_stands_at, lemma_trim, lemma_trimmed_once, same_from, trimmed_to,
};

verus! {

/// Whether a text between two places is a whole line of it.
pub open spec fn is_line(content: Seq<char>, from: int, end: int) -> bool {
    &&& 0 <= from <= end <= content.len()
    &&& from == 0 || content[from - 1] == '\n'
    &&& end == content.len() || content[end] == '\n'
    &&& forall|i: int| from <= i < end ==> #[trigger] content[i] != '\n'
}

/// Whether a line of a text names an icon: `Icon=`, and then the icon between white space.
pub open spec fn names_at(content: Seq<char>, from: int, end: int, icon: Seq<char>) -> bool {
    &&& is_line(content, from, end)
    &&& end - from >= 5
    &&& content[from] == 'I'
    &&& content[from + 1] == 'c'
    &&& content[from + 2] == 'o'
    &&& content[from + 3] == 'n'
    &&& content[from + 4] == '='
    &&& exists|a: int, b: int| #[trigger]
        trimmed_to(content, from + 5, end, a, b) && icon == content.subrange(a, b)
}

/// Whether an icon is the first that a text names in a line from a place on, other than `name`.
pub open spec fn first_named(content: Seq<char>, from: int, name: Seq<char>, icon: Seq<char>) -> bool {
    &&& icon != name
    &&& exists|f: int, e: int|
        {
            &&& from <= f
            &&& #[trigger] names_at(content, f, e, icon)
            &&& forall|g: int, h: int, other: Seq<char>|
                from <= g < f && #[trigger] names_at(content, g, h, other) ==> other == name
        }
}

/// Whether a text names no icon but `name` in its lines from a place on.
pub open spec fn none_named(content: Seq<char>, from: int, name: Seq<char>) -> bool {
    forall|g: int, h: int, other: Seq<char>|
        from <= g && #[trigger] names_at(content, g, h, other) ==> other == name
}

/// A line ends where the next line feed is.
proof fn lemma_line(content: Seq<char>, from: int)
    requires
        0 <= from <= content.len(),
    ensures
        from <= line_end(content, from) <= content.len(),
        line_end(content, from) == content.len() || content[line_end(content, from)] == '\n',
        forall|i: int| from <= i < line_end(content, from) ==> #[trigger] content[i] != '\n',
    decreases content.len() - from,
{
    if from < content.len() && content[from] != '\n' {
        lemma_line(content, from + 1);
    }
}

/// A line names an icon as its first characters and what is left of it say.
proof fn lemma_line_names(content: Seq<char>, from: int, icon: Seq<char>)
    requires
        0 <= from < content.len(),
        from == 0 || content[from - 1] == '\n',
    ensures
        names_at(content, from, line_end(content, from), icon) <==> icon_of_line(
            content.subrange(from, content_end(content, from)),
        ) == Some(icon),
{
    lemma_line(content, from);
    reveal_strlit("Icon=");
    let end = line_end(content, from);
    let stop = content_end(content, from);
    let line = content.subrange(from, stop);
    let key = "Icon="@;
    lemma_stands_at(line, key, 0);
    assert(key.len() == 5);
    assert(key[0] == 'I' && key[1] == 'c' && key[2] == 'o' && key[3] == 'n' && key[4] == '=');
    let keyed = end - from >= 5 && content[from] == 'I' && content[from + 1] == 'c' && content[from
        + 2] == 'o' && content[from + 3] == 'n' && content[from + 4] == '=';
    if same_from(line, key, 0) {
        assert(line[0] == key[0] && line[1] == key[1] && line[2] == key[2] && line[3] == key[3]
            && line[4] == key[4]);
        assert(keyed);
    }
    if keyed {
        assert(stop >= from + 5);
        assert forall|i: int| 0 <= i < key.len() implies line[0 + i] == #[trigger] key[i] by {}
        assert(same_from(line, key, 0));
        assert(line.skip(5) =~= content.subrange(from + 5, stop));
        let (a, b) = lemma_trim(content, from + 5, stop);
        // A carriage return before the line feed is white space.
        assert(trimmed_to(content, from + 5, end, a, b));
        if names_at(content, from, end, icon) {
            let (c, d) = choose|c: int, d: int| #[trigger]
                trimmed_to(content, from + 5, end, c, d) && icon == content.subrange(c, d);
            lemma_trimmed_once(content, from + 5, end, (a, b), (c, d));
        }
    }
}

/// The first icon of the lines from a place on is the first that is named there.
proof fn lemma_first_icon(content: Seq<char>, from: int, name: Seq<char>)
    requires
        0 <= from,
        from <= content.len() ==> from == 0 || content[from - 1] == '\n',
    ensures
        match first_icon(lines_from(content, from), name) {
            Some(icon) => first_named(content, from, name, icon),
            None => none_named(content, from, name),
        },
    decreases content.len() + 1 - from,
{
    if from < content.len() {
        lemma_line_end(content, from);
        lemma_line(content, from);
        let end = line_end(content, from);
        let line = content.subrange(from, content_end(content, from));
        let list = lines_from(content, from);
        assert(list[0] == line);
        assert(list.drop_first() =~= lines_from(content, end + 1));
        lemma_first_icon(content, end + 1, name);
        // A line that starts here ends here, and the next starts after it.
        assert forall|g: int, h: int, other: Seq<char>|
            from <= g < end + 1 && #[trigger] names_at(content, g, h, other) implies g == from && h
            == end by {
            if g > from {
                assert(content[g - 1] == '\n');
            }
            if h < end {
                assert(content[h] == '\n');
            }
            if h > end {
                assert(content[end] != '\n');
            }
        }
        assert forall|other: Seq<char>| #[trigger]
            names_at(content, from, end, other) <==> icon_of_line(line) == Some(other) by {
            lemma_line_names(content, from, other);
        }
        match icon_of_line(line) {
            Some(icon) if icon != name => {
                assert(names_at(content, from, end, icon));
                assert(first_named(content, from, name, icon));
            },
            _ => {
                match first_icon(lines_from(content, end + 1), name) {
                    Some(icon) => {
                        let (f, e) = choose|f: int, e: int|
                            {
                                &&& end + 1 <= f
                                &&& #[trigger] names_at(content, f, e, icon)
                                &&& forall|g: int, h: int, other: Seq<char>|
                                    end + 1 <= g < f && #[trigger] names_at(content, g, h, other)
                                        ==> other == name
                            };
                        assert(names_at(content, f, e, icon));
                        assert(first_named(content, from, name, icon));
                    },
                    None => {
                        assert(none_named(content, from, name));
                    },
                }
            },
        }
    } else {
        assert(none_named(content, from, name));
    }
}

/// A desktop entry gives the icon of its first line `Icon=` that names another than `name`, without
/// the white space around it, and none only if there is no such line.
pub proof fn law_desktop_icon(content: &str, name: &str, icon: Option<String>)
    requires
        call_ensures(desktop_icon, (content, name), icon),
    ensures
        icon matches Some(found) ==> first_named(content@, 0, name@, found@),
        icon is None ==> none_named(content@, 0, name@),
{
    lemma_first_icon(content@, 0, name@);
}

/// Whether a file name ends with `.png`.
pub open spec fn is_png(file: Seq<char>) -> bool {
    let n = file.len();
    n >= 4 && file[n - 4] == '.' && file[n - 3] == 'p' && file[n - 2] == 'n' && file[n - 1] == 'g'
}

proof fn lemma_name_matches(file: Seq<char>, lower: Seq<char>)
    ensures
        name_matches(file, lower) <==> is_png(file) && exists|at: int| same_from(file, lower, at),
{
    reveal_strlit(".png");
    let suffix = ".png"@;
    lemma_stands_at(file, suffix, file.len() - suffix.len());
    assert(suffix.len() == 4);
    assert(suffix[0] == '.' && suffix[1] == 'p' && suffix[2] == 'n' && suffix[3] == 'g');
    let at = file.len() - 4;
    if is_png(file) {
        assert forall|i: int| 0 <= i < suffix.len() implies file[at + i] == #[trigger] suffix[i] by {}
        assert(same_from(file, suffix, at));
    }
    if same_from(file, suffix, at) {
        assert(file[at + 0] == suffix[0] && file[at + 1] == suffix[1] && file[at + 2] == suffix[2]
            && file[at + 3] == suffix[3]);
    }
    if contains_part(file, lower) {
        let k = choose|k: int| stands_at(file, lower, k);
        lemma_stands_at(file, lower, k);
    }
    if exists|k: int| same_from(file, lower, k) {
        let k = choose|k: int| same_from(file, lower, k);
        lemma_stands_at(file, lower, k);
    }
}

/// A file of a listing is an application's icon exactly if the application's name stands anywhere
/// in its name, whatever stands around it, and it ends with `.png`.
pub proof fn law_icon_name_matches(file: &str, lower: &str, matching: bool)
    requires
        call_ensures(icon_name_matches, (file, lower), matching),
    ensures
        matching <==> is_png(file@) && exists|at: int| same_from(file@, lower@, at),
{
    lemma_name_matches(file@, lower@);
}

/// Whether a file name, in any spelling, is that of a name's icon.
pub open spec fn is_icon_of(file: Seq<char>, lower: Seq<char>) -> bool {
    is_png(lowercase(file)) && exists|at: int| same_from(lowercase(file), lower, at)
}

/// The path of the file that a place of the search is about, or of the directory.
pub open spec fn place(lower: Seq<char>, probe: int) -> Seq<char> {
    if probe == 0 {
        "/usr/share/icons/hicolor/256x256/apps/"@ + lower + ".png"@
    } else if probe == 1 {
        "/usr/share/icons/hicolor/128x128/apps/"@ + lower + ".png"@
    } else if probe == 2 {
        "/usr/share/icons/hicolor/64x64/apps/"@ + lower + ".png"@
    } else if probe == 3 {
        "/usr/share/icons/hicolor/48x48/apps/"@ + lower + ".png"@
    } else if probe == 4 {
        "/usr/share/icons/hicolor/32x32/apps/"@ + lower + ".png"@
    } else if probe == 5 {
        "/usr/share/icons/hicolor/256x256/apps"@
    } else if probe == 6 {
        "/usr/share/icons/hicolor/128x128/apps"@
    } else if probe == 7 {
        "/usr/share/icons/hicolor/64x64/apps"@
    } else if probe == 8 {
        "/usr/share/icons/hicolor/48x48/apps"@
    } else if probe == 9 {
        "/usr/share/pixmaps/"@ + lower + ".png"@
    } else if probe == 10 {
        "/opt/"@ + lower + "/"@ + lower + ".png"@
    } else if probe == 11 {
        "/usr/share/applications/"@ + lower + ".desktop"@
    } else {
        "/usr/share/applications/"@ + lower + "-desktop.desktop"@
    }
}

/// Whether a place of the search is a file that may exist.
pub open spec fn is_file_place(probe: int) -> bool {
    0 <= probe <= 4 || probe == 9 || probe == 10
}

/// Whether a question is the one about a place of the search.
pub open spec fn asks_about(query: Query, lower: Seq<char>, probe: int) -> bool {
    if is_file_place(probe) {
        query matches Query::Exists(path) && path@ == place(lower, probe)
    } else if probe <= 8 {
        query matches Query::List(path) && path@ == place(lower, probe)
    } else {
        query matches Query::Read(path) && path@ == place(lower, probe)
    }
}

proof fn lemma_theme_dirs()
    ensures
        "/usr/share/icons/hicolor/"@ + "256x256"@ + "/apps"@
            == "/usr/share/icons/hicolor/256x256/apps"@,
        "/usr/share/icons/hicolor/"@ + "128x128"@ + "/apps"@
            == "/usr/share/icons/hicolor/128x128/apps"@,
        "/usr/share/icons/hicolor/"@ + "64x64"@ + "/apps"@ == "/usr/share/icons/hicolor/64x64/apps"@,
        "/usr/share/icons/hicolor/"@ + "48x48"@ + "/apps"@ == "/usr/share/icons/hicolor/48x48/apps"@,
        "/usr/share/icons/hicolor/"@ + "32x32"@ + "/apps"@ + "/"@
            == "/usr/share/icons/hicolor/32x32/apps/"@,
        "/usr/share/icons/hicolor/256x256/apps"@ + "/"@
            == "/usr/share/icons/hicolor/256x256/apps/"@,
        "/usr/share/icons/hicolor/128x128/apps"@ + "/"@
            == "/usr/share/icons/hicolor/128x128/apps/"@,
        "/usr/share/icons/hicolor/64x64/apps"@ + "/"@ == "/usr/share/icons/hicolor/64x64/apps/"@,
        "/usr/share/icons/hicolor/48x48/apps"@ + "/"@ == "/usr/share/icons/hicolor/48x48/apps/"@,
{
    reveal_strlit("/usr/share/icons/hicolor/");
    reveal_strlit("256x256");
    reveal_strlit("128x128");
    reveal_strlit("64x64");
    reveal_strlit("48x48");
    reveal_strlit("32x32");
    reveal_strlit("/apps");
    reveal_strlit("/");
    reveal_strlit("/usr/share/icons/hicolor/256x256/apps");
    reveal_strlit("/usr/share/icons/hicolor/128x128/apps");
    reveal_strlit("/usr/share/icons/hicolor/64x64/apps");
    reveal_strlit("/usr/share/icons/hicolor/48x48/apps");
    reveal_strlit("/usr/share/icons/hicolor/256x256/apps/");
    reveal_strlit("/usr/share/icons/hicolor/128x128/apps/");
    reveal_strlit("/usr/share/icons/hicolor/64x64/apps/");
    reveal_strlit("/usr/share/icons/hicolor/48x48/apps/");
    reveal_strlit("/usr/share/icons/hicolor/32x32/apps/");
}

/// The places of the search, and what is asked about each.
pub proof fn law_probe_question(lower: &str, probe: usize, query: Query)
    requires
        probe < 13,
        call_ensures(probe_question, (lower, probe), query),
    ensures
        asks_about(query, lower@, probe as int),
{
    lemma_theme_dirs();
}

/// Whether a search is the one for a name from its first place on; an empty name has none.
pub open spec fn looks_for(search: IconSearch, name: Seq<char>) -> bool {
    if name.len() == 0 {
        search is NotFound
    } else {
        search matches IconSearch::Probe { name: n, lower, probe } && n@ == name && lower@
            == lowercase(name) && probe == 0
    }
}

/// Whether a search is the one for an application's icon from its start on.
pub open spec fn starts(search: IconSearch, app_icon: Seq<char>, app_name: Seq<char>) -> bool {
    if app_icon.len() > 0 && app_icon[0] == '/' {
        search matches IconSearch::Direct { path, name } && path@ == app_icon && name@ == app_name
    } else if app_icon.len() > 0 {
        looks_for(search, app_icon)
    } else {
        looks_for(search, app_name)
    }
}

/// A path is tried as it is; any other icon name is looked for, and the application's name only if
/// there is none.
pub proof fn law_begin(app_icon: &str, app_name: &str, search: IconSearch)
    requires
        call_ensures(IconSearch::begin, (app_icon, app_name), search),
    ensures
        starts(search, app_icon@, app_name@),
{
}

/// A search asks about the path it was given, or about its next place, until it is over.
pub proof fn law_question(search: &IconSearch, query: Option<Query>)
    requires
        call_ensures(IconSearch::question, (search,), query),
    ensures
        match *search {
            IconSearch::Direct { path, .. } => query matches Some(Query::Exists(asked)) && asked@
                == path@,
            IconSearch::Probe { lower, probe, .. } => probe < 13 ==> query is Some && asks_about(
                query->0,
                lower@,
                probe as int,
            ),
            _ => query is None,
        },
{
    lemma_theme_dirs();
}

/// Whether a search has gone on to the place after one without an icon.
pub open spec fn goes_on(search: IconSearch, name: Seq<char>, lower: Seq<char>, probe: int) -> bool {
    if probe < 12 {
        search matches IconSearch::Probe { name: n, lower: l, probe: p } && n@ == name && l@ == lower
            && p == probe + 1
    } else {
        search is NotFound
    }
}

/// Whether the first icon of a name in a listing is at an index.
pub open spec fn first_icon_at(names: Seq<String>, lower: Seq<char>, index: int) -> bool {
    &&& 0 <= index < names.len()
    &&& is_icon_of(names[index]@, lower)
    &&& forall|i: int| 0 <= i < index ==> !is_icon_of((#[trigger] names[i])@, lower)
}

proof fn lemma_first_match_is_first(names: Seq<String>, lower: Seq<char>, from: int)
    requires
        0 <= from <= names.len(),
        forall|i: int| 0 <= i < from ==> !is_icon_of((#[trigger] names[i])@, lower),
    ensures
        match first_match(Seq::new(names.len(), |i: int| names[i]@), lower, from) {
            Some(index) => first_icon_at(names, lower, index),
            None => forall|i: int|
                0 <= i < names.len() ==> !is_icon_of((#[trigger] names[i])@, lower),
        },
    decreases names.len() - from,
{
    if from < names.len() {
        lemma_name_matches(lowercase(names[from]@), lower);
        if !name_matches(lowercase(names[from]@), lower) {
            lemma_first_match_is_first(names, lower, from + 1);
        }
    }
}

/// What a search does with an answer. A path or a place that exists is the icon. Of a listing it is
/// the first file that is the name's icon, and a listing that holds one is never passed over. A
/// desktop entry that names another icon starts the search over with that. After anything else the
/// next place is looked at, and after the last there is no icon.
pub proof fn law_answered(search: IconSearch, answer: Answer, next: IconSearch)
    requires
        call_ensures(IconSearch::answered, (search, answer), next),
    ensures
        match search {
            IconSearch::Direct { path, name } => if answer == Answer::Exists(true) {
                next matches IconSearch::Found { path: found } && found@ == path@
            } else {
                looks_for(next, name@)
            },
            IconSearch::Probe { name, lower, probe } => probe < 13 ==> match answer {
                Answer::Exists(exists) => if exists && is_file_place(probe as int) {
                    next matches IconSearch::Found { path: found } && found@ == place(
                        lower@,
                        probe as int,
                    )
                } else {
                    goes_on(next, name@, lower@, probe as int)
                },
                Answer::Listing(Some(names)) => if 5 <= probe <= 8 && exists|i: int|
                    0 <= i < names@.len() && is_icon_of((#[trigger] names@[i])@, lower@) {
                    next matches IconSearch::FoundEntry { dir, index } && dir@ == place(
                        lower@,
                        probe as int,
                    ) && first_icon_at(names@, lower@, index as int)
                } else {
                    goes_on(next, name@, lower@, probe as int)
                },
                Answer::Content(Some(content)) => if probe >= 11 {
                    (none_named(content@, 0, name@) && goes_on(next, name@, lower@, probe as int))
                        || exists|icon: Seq<char>| #[trigger]
                        first_named(content@, 0, name@, icon) && starts(next, icon, Seq::empty())
                } else {
                    goes_on(next, name@, lower@, probe as int)
                },
                _ => goes_on(next, name@, lower@, probe as int),
            },
            _ => next@ == search@,
        },
{
    lemma_theme_dirs();
    if let IconSearch::Probe { name, lower, probe } = search {
        match answer {
            Answer::Listing(Some(names)) => {
                lemma_first_match_is_first(names@, lower@, 0);
            },
            Answer::Content(Some(content)) => {
                lemma_first_icon(content@, 0, name@);
                if probe == 11 || probe == 12 {
                    if let Some(icon) = first_icon(lines(content@), name@) {
                        assert(first_named(content@, 0, name@, icon));
                        assert(starts(next, icon, Seq::empty()));
                    }
                }
            },
            _ => {},
        }
    }
}

} // verus!
