//! Laws of the search for an icon.
use vstd::prelude::*;

use crate::desktop::{first_icon, icon_of_line, lines};
use crate::icon_search::{
    first_match, name_matches, probe_query, AnswerView, QueryView, SearchView, PROBES,
};
use crate::text::{ends_with, lowercase};

verus! {

/// The files of a system: which paths exist, what each directory lists, and what each file says.
pub struct Files {
    pub exists: spec_fn(Seq<char>) -> bool,
    pub listing: spec_fn(Seq<char>) -> Option<Seq<Seq<char>>>,
    pub content: spec_fn(Seq<char>) -> Option<Seq<char>>,
}

impl Files {
    /// The true answer to a query.
    pub open spec fn answer(self, query: QueryView) -> AnswerView {
        match query {
            QueryView::Exists(path) => AnswerView::Exists((self.exists)(path)),
            QueryView::List(dir) => AnswerView::Listing((self.listing)(dir)),
            QueryView::Read(path) => AnswerView::Content((self.content)(path)),
        }
    }

    /// A search after a number of true answers.
    pub open spec fn run(self, search: SearchView, steps: nat) -> SearchView
        decreases steps,
    {
        if steps == 0 {
            search
        } else {
            let before = self.run(search, (steps - 1) as nat);
            match before.query() {
                Some(query) => before.answered(self.answer(query)),
                None => before,
            }
        }
    }

    /// What a place of the search for a name holds: where the search goes from there, if it has
    /// anything.
    pub open spec fn holds(self, name: Seq<char>, lower: Seq<char>, probe: int) -> Option<
        SearchView,
    > {
        match probe_query(lower, probe) {
            QueryView::Exists(path) => if (self.exists)(path) {
                Some(SearchView::Found { path })
            } else {
                None
            },
            QueryView::List(dir) => match (self.listing)(dir) {
                Some(names) => match first_match(names, lower, 0) {
                    Some(index) => Some(SearchView::FoundEntry { dir, index }),
                    None => None,
                },
                None => None,
            },
            QueryView::Read(path) => match (self.content)(path) {
                Some(content) => match first_icon(lines(content), name) {
                    Some(icon) => Some(SearchView::begin(icon, Seq::empty())),
                    None => None,
                },
                None => None,
            },
        }
    }
}

/// While the places hold nothing the search goes through them in order.
proof fn lemma_run_to(files: Files, name: Seq<char>, lower: Seq<char>, probe: nat)
    requires
        probe < PROBES,
        forall|k: int| 0 <= k < probe ==> #[trigger] files.holds(name, lower, k) is None,
    ensures
        files.run(SearchView::Probe { name, lower, probe: 0 }, probe) == (SearchView::Probe {
            name,
            lower,
            probe: probe as int,
        }),
    decreases probe,
{
    if probe > 0 {
        lemma_run_to(files, name, lower, (probe - 1) as nat);
        assert(files.holds(name, lower, probe - 1) is None);
    }
}

/// The search for a name goes by the first place that holds anything, in the order of
/// [`probe_query`], and asks about no place after it.
pub proof fn law_first_place_wins(files: Files, name: Seq<char>, place: nat)
    requires
        name.len() > 0,
        place < PROBES,
        forall|k: int| 0 <= k < place ==> #[trigger] files.holds(name, lowercase(name), k) is None,
        files.holds(name, lowercase(name), place as int) is Some,
    ensures
        files.run(SearchView::probing(name), place + 1) == files.holds(
            name,
            lowercase(name),
            place as int,
        )->0,
{
    lemma_run_to(files, name, lowercase(name), place);
}

/// If no place holds anything the search ends without an icon, after asking about each once.
pub proof fn law_nothing_found(files: Files, name: Seq<char>)
    requires
        forall|k: int| 0 <= k < PROBES ==> #[trigger] files.holds(name, lowercase(name), k) is None,
    ensures
        name.len() > 0 ==> files.run(SearchView::probing(name), PROBES as nat)
            == SearchView::NotFound,
        name.len() == 0 ==> SearchView::probing(name) == SearchView::NotFound,
{
    if name.len() > 0 {
        let last = (PROBES - 1) as nat;
        lemma_run_to(files, name, lowercase(name), last);
        assert(files.holds(name, lowercase(name), last as int) is None);
    }
}

/// An icon given as the path of a file is that file; if there is none the application's name is
/// searched for instead.
pub proof fn law_path_first(files: Files, path: Seq<char>, app_name: Seq<char>)
    requires
        path.len() > 0,
        path[0] == '/',
    ensures
        files.run(SearchView::begin(path, app_name), 1) == if (files.exists)(path) {
            SearchView::Found { path }
        } else {
            SearchView::probing(app_name)
        },
{
    reveal_with_fuel(Files::run, 2);
}

/// A desktop entry never sends the search back to the very name it came from.
pub proof fn law_entry_names_another(list: Seq<Seq<char>>, name: Seq<char>)
    ensures
        first_icon(list, name) != Some(name),
    decreases list.len(),
{
    if list.len() > 0 {
        law_entry_names_another(list.drop_first(), name);
    }
}

/// A search that is over stays as it is.
pub proof fn law_over_is_over(search: SearchView, answer: AnswerView)
    requires
        search.is_over(),
    ensures
        search.answered(answer) == search,
        search.query() is None,
{
}

/// Whether a line of a text names an icon.
pub open spec fn line_names(list: Seq<Seq<char>>, icon: Seq<char>) -> bool {
    exists|i: int| 0 <= i < list.len() && #[trigger] icon_of_line(list[i]) == Some(icon)
}

/// Whether a file of the system names an icon in a line of its own.
pub open spec fn entry_names(files: Files, entry: Seq<char>, icon: Seq<char>) -> bool {
    (files.content)(entry) matches Some(content) && line_names(lines(content), icon)
}

/// Whether a path was given to the search: by the application, or, as an absolute path, by the icon
/// line of a file.
pub open spec fn given(files: Files, app_icon: Seq<char>, path: Seq<char>) -> bool {
    ||| path == app_icon
    ||| path.len() > 0 && path[0] == '/' && exists|entry: Seq<char>| #[trigger]
        entry_names(files, entry, path)
}

/// Whether what a search has come to is sound: a path that is still to be tried was given, a file
/// that was found exists and was given or is called `.png`, and an entry that was found is in its
/// directory's listing and is called `.png`.
pub open spec fn sound(files: Files, app_icon: Seq<char>, search: SearchView) -> bool {
    match search {
        SearchView::Direct { path, .. } => given(files, app_icon, path),
        SearchView::Found { path } => {
            &&& (files.exists)(path)
            &&& (given(files, app_icon, path) || ends_with(path, ".png"@))
        },
        SearchView::FoundEntry { dir, index } => {
            &&& (files.listing)(dir) is Some
            &&& 0 <= index < (files.listing)(dir)->0.len()
            &&& ends_with(lowercase((files.listing)(dir)->0[index]), ".png"@)
        },
        _ => true,
    }
}

/// The first icon of another name stands in one of the lines.
proof fn lemma_first_icon_is_named(list: Seq<Seq<char>>, name: Seq<char>)
    ensures
        first_icon(list, name) matches Some(icon) ==> line_names(list, icon),
    decreases list.len(),
{
    if list.len() > 0 {
        lemma_first_icon_is_named(list.drop_first(), name);
        if let Some(icon) = first_icon(list, name) {
            if icon_of_line(list[0]) != Some(icon) {
                let rest = list.drop_first();
                let i = choose|i: int|
                    0 <= i < rest.len() && #[trigger] icon_of_line(rest[i]) == Some(icon);
                assert(icon_of_line(list[i + 1]) == Some(icon));
            }
        }
    }
}

/// The first match of a listing is one of its names, and matches.
proof fn lemma_first_match(names: Seq<Seq<char>>, lower: Seq<char>, from: int)
    requires
        0 <= from,
    ensures
        first_match(names, lower, from) matches Some(index) ==> from <= index < names.len()
            && name_matches(lowercase(names[index]), lower),
    decreases names.len() - from,
{
    if from < names.len() && !name_matches(lowercase(names[from]), lower) {
        lemma_first_match(names, lower, from + 1);
    }
}

/// The files that the search asks for by name are called `.png`.
proof fn lemma_probe_is_png(lower: Seq<char>, probe: int)
    ensures
        probe_query(lower, probe) matches QueryView::Exists(path) ==> ends_with(path, ".png"@),
{
    if let QueryView::Exists(path) = probe_query(lower, probe) {
        let suffix = ".png"@;
        assert(path.subrange(path.len() - suffix.len(), path.len() as int) =~= suffix);
    }
}

/// A true answer keeps a search sound.
proof fn lemma_answer_is_sound(files: Files, app_icon: Seq<char>, search: SearchView)
    requires
        sound(files, app_icon, search),
        search.query() is Some,
    ensures
        sound(files, app_icon, search.answered(files.answer(search.query()->0))),
{
    if let SearchView::Probe { name, lower, probe } = search {
        lemma_probe_is_png(lower, probe);
        match probe_query(lower, probe) {
            QueryView::Exists(_) => {},
            QueryView::List(dir) => {
                if let Some(names) = (files.listing)(dir) {
                    lemma_first_match(names, lower, 0);
                }
            },
            QueryView::Read(entry) => {
                if let Some(content) = (files.content)(entry) {
                    lemma_first_icon_is_named(lines(content), name);
                    if let Some(icon) = first_icon(lines(content), name) {
                        assert(entry_names(files, entry, icon));
                    }
                }
            },
        }
    }
}

/// Whatever a search finds is there. A file is the path that the application gave, an absolute path
/// that the icon line of a file gave, or called `.png`; an entry of a directory is called `.png` in
/// some spelling.
pub proof fn law_found_is_there(
    files: Files,
    app_icon: Seq<char>,
    app_name: Seq<char>,
    steps: nat,
)
    ensures
        sound(files, app_icon, files.run(SearchView::begin(app_icon, app_name), steps)),
    decreases steps,
{
    if steps > 0 {
        law_found_is_there(files, app_icon, app_name, (steps - 1) as nat);
        let before = files.run(SearchView::begin(app_icon, app_name), (steps - 1) as nat);
        if before.query() is Some {
            lemma_answer_is_sound(files, app_icon, before);
        }
    }
}

} // verus!
