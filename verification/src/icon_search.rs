//! The search for an application's icon among the files of the system.
//!
//! A search asks about one file or directory at a time; the caller looks and answers, until the
//! search has found an icon or given up.
use vstd::prelude::*;
use vstd::string::*;

use crate::desktop::{desktop_icon, first_icon, lines};
use crate::text::{chars_of, contains_part, ends_with, has_part, lowercase, part_at, to_lowercase};

verus! {

/// A question about the file system.
#[derive(Debug)]
pub enum Query {
    /// Is there a file of this path?
    Exists(String),
    /// What are the names in this directory?
    List(String),
    /// What does this file say?
    Read(String),
}

/// An answer to a [`Query`]. A directory or a file that cannot be read has none.
#[derive(Debug)]
pub enum Answer {
    Exists(bool),
    Listing(Option<Vec<String>>),
    Content(Option<String>),
}

/// How far the search for an icon has come.
#[derive(Debug)]
pub enum IconSearch {
    /// The icon was given as a path; the search for `name` begins if there is no such file.
    Direct { path: String, name: String },
    /// The places from number `probe` on are still to be searched.
    Probe { name: String, lower: String, probe: usize },
    /// The icon is this file.
    Found { path: String },
    /// The icon is the file at this index of the directory's listing.
    FoundEntry { dir: String, index: usize },
    /// There is no icon.
    NotFound,
}

/// What a [`Query`] asks.
pub enum QueryView {
    Exists(Seq<char>),
    List(Seq<char>),
    Read(Seq<char>),
}

/// What an [`Answer`] says.
pub enum AnswerView {
    Exists(bool),
    Listing(Option<Seq<Seq<char>>>),
    Content(Option<Seq<char>>),
}

/// What an [`IconSearch`] has come to.
pub enum SearchView {
    Direct { path: Seq<char>, name: Seq<char> },
    Probe { name: Seq<char>, lower: Seq<char>, probe: int },
    Found { path: Seq<char> },
    FoundEntry { dir: Seq<char>, index: int },
    NotFound,
}

impl View for Query {
    type V = QueryView;

    open spec fn view(&self) -> QueryView {
        match *self {
            Query::Exists(path) => QueryView::Exists(path@),
            Query::List(path) => QueryView::List(path@),
            Query::Read(path) => QueryView::Read(path@),
        }
    }
}

impl View for Answer {
    type V = AnswerView;

    open spec fn view(&self) -> AnswerView {
        match *self {
            Answer::Exists(found) => AnswerView::Exists(found),
            Answer::Listing(Some(names)) => AnswerView::Listing(
                Some(Seq::new(names@.len(), |i: int| names@[i]@)),
            ),
            Answer::Listing(None) => AnswerView::Listing(None),
            Answer::Content(Some(content)) => AnswerView::Content(Some(content@)),
            Answer::Content(None) => AnswerView::Content(None),
        }
    }
}

impl View for IconSearch {
    type V = SearchView;

    open spec fn view(&self) -> SearchView {
        match *self {
            IconSearch::Direct { path, name } => SearchView::Direct { path: path@, name: name@ },
            IconSearch::Probe { name, lower, probe } => SearchView::Probe {
                name: name@,
                lower: lower@,
                probe: probe as int,
            },
            IconSearch::Found { path } => SearchView::Found { path: path@ },
            IconSearch::FoundEntry { dir, index } => SearchView::FoundEntry {
                dir: dir@,
                index: index as int,
            },
            IconSearch::NotFound => SearchView::NotFound,
        }
    }
}

/// The number of places that are searched for a name.
pub const PROBES: usize = 13;

/// The icon sizes of the theme, largest first.
pub open spec fn theme_size(i: int) -> Seq<char> {
    if i == 0 {
        "256x256"@
    } else if i == 1 {
        "128x128"@
    } else if i == 2 {
        "64x64"@
    } else if i == 3 {
        "48x48"@
    } else {
        "32x32"@
    }
}

/// The theme's directory of application icons of a size.
pub open spec fn theme_dir(size: Seq<char>) -> Seq<char> {
    "/usr/share/icons/hicolor/"@ + size + "/apps"@
}

/// What the search looks at, in order: the theme's icon of that very name in five sizes, any
/// icon of the theme whose name holds it in the four larger ones, the pixmaps, the application's
/// own directory, and two desktop entries.
pub open spec fn probe_query(lower: Seq<char>, probe: int) -> QueryView {
    if probe < 5 {
        QueryView::Exists(theme_dir(theme_size(probe)) + "/"@ + lower + ".png"@)
    } else if probe < 9 {
        QueryView::List(theme_dir(theme_size(probe - 5)))
    } else if probe == 9 {
        QueryView::Exists("/usr/share/pixmaps/"@ + lower + ".png"@)
    } else if probe == 10 {
        QueryView::Exists("/opt/"@ + lower + "/"@ + lower + ".png"@)
    } else if probe == 11 {
        QueryView::Read("/usr/share/applications/"@ + lower + ".desktop"@)
    } else {
        QueryView::Read("/usr/share/applications/"@ + lower + "-desktop.desktop"@)
    }
}

/// Whether a file name, in lower case, is that of a matching icon.
pub open spec fn name_matches(file: Seq<char>, lower: Seq<char>) -> bool {
    contains_part(file, lower) && ends_with(file, ".png"@)
}

/// The index of the first matching icon of a listing, from an index on.
pub open spec fn first_match(names: Seq<Seq<char>>, lower: Seq<char>, from: int) -> Option<int>
    decreases names.len() - from,
{
    if from >= names.len() {
        None
    } else if name_matches(lowercase(names[from]), lower) {
        Some(from)
    } else {
        first_match(names, lower, from + 1)
    }
}

impl SearchView {
    /// The search for a name. An empty one is nowhere to be found.
    pub open spec fn probing(name: Seq<char>) -> SearchView {
        if name.len() == 0 {
            SearchView::NotFound
        } else {
            SearchView::Probe { name, lower: lowercase(name), probe: 0 }
        }
    }

    /// The search for the icon of an application: a path is tried first, and then the
    /// application's name; anything else is itself the name to look for.
    pub open spec fn begin(app_icon: Seq<char>, app_name: Seq<char>) -> SearchView {
        if app_icon.len() > 0 && app_icon[0] == '/' {
            SearchView::Direct { path: app_icon, name: app_name }
        } else if app_icon.len() > 0 {
            SearchView::probing(app_icon)
        } else {
            SearchView::probing(app_name)
        }
    }

    /// Whether the search is over.
    pub open spec fn is_over(self) -> bool {
        !(self is Direct) && !(self is Probe)
    }

    /// What the search asks next.
    pub open spec fn query(self) -> Option<QueryView> {
        match self {
            SearchView::Direct { path, .. } => Some(QueryView::Exists(path)),
            SearchView::Probe { lower, probe, .. } => Some(probe_query(lower, probe)),
            _ => None,
        }
    }

    /// The search for a name after a place without its icon.
    pub open spec fn passed(name: Seq<char>, lower: Seq<char>, probe: int) -> SearchView {
        if probe + 1 < PROBES {
            SearchView::Probe { name, lower, probe: probe + 1 }
        } else {
            SearchView::NotFound
        }
    }

    /// How the search goes on after an answer. A desktop entry that names another icon starts the
    /// search over with that.
    pub open spec fn answered(self, answer: AnswerView) -> SearchView {
        match self {
            SearchView::Direct { path, name } => if answer == AnswerView::Exists(true) {
                SearchView::Found { path }
            } else {
                SearchView::probing(name)
            },
            SearchView::Probe { name, lower, probe } => match (
                probe_query(lower, probe),
                answer,
            ) {
                (QueryView::Exists(path), AnswerView::Exists(true)) => SearchView::Found { path },
                (QueryView::List(dir), AnswerView::Listing(Some(names))) => match first_match(
                    names,
                    lower,
                    0,
                ) {
                    Some(index) => SearchView::FoundEntry { dir, index },
                    None => SearchView::passed(name, lower, probe),
                },
                (QueryView::Read(_), AnswerView::Content(Some(content))) => match first_icon(
                    lines(content),
                    name,
                ) {
                    Some(icon) => SearchView::begin(icon, Seq::empty()),
                    None => SearchView::passed(name, lower, probe),
                },
                _ => SearchView::passed(name, lower, probe),
            },
            _ => self,
        }
    }
}

/// A copy of a text.
fn copy_text(text: &String) -> (copy: String)
    ensures
        copy@ == text@,
{
    text.as_str().to_owned()
}

/// The name of one of the theme's icon sizes.
fn size_name(i: usize) -> (name: &'static str)
    ensures
        name@ == theme_size(i as int),
{
    match i {
        0 => "256x256",
        1 => "128x128",
        2 => "64x64",
        3 => "48x48",
        _ => "32x32",
    }
}

/// The theme's directory of application icons of a size.
fn size_dir(i: usize) -> (dir: String)
    ensures
        dir@ == theme_dir(theme_size(i as int)),
{
    "/usr/share/icons/hicolor/".to_owned().concat(size_name(i)).concat("/apps")
}

/// What the search looks at in a place.
pub fn probe_question(lower: &str, probe: usize) -> (query: Query)
    ensures
        query@ == probe_query(lower@, probe as int),
{
    if probe < 5 {
        Query::Exists(size_dir(probe).concat("/").concat(lower).concat(".png"))
    } else if probe < 9 {
        Query::List(size_dir(probe - 5))
    } else if probe == 9 {
        Query::Exists("/usr/share/pixmaps/".to_owned().concat(lower).concat(".png"))
    } else if probe == 10 {
        Query::Exists(
            "/opt/".to_owned().concat(lower).concat("/").concat(lower).concat(".png"),
        )
    } else if probe == 11 {
        Query::Read("/usr/share/applications/".to_owned().concat(lower).concat(".desktop"))
    } else {
        Query::Read(
            "/usr/share/applications/".to_owned().concat(lower).concat("-desktop.desktop"),
        )
    }
}

/// Whether a file name, in lower case, is that of a matching icon.
pub fn icon_name_matches(file: &str, lower: &str) -> (matching: bool)
    ensures
        matching == name_matches(file@, lower@),
{
    let file_chars: Vec<char> = chars_of(file);
    let part: Vec<char> = chars_of(lower);
    let suffix: Vec<char> = chars_of(".png");
    has_part(&file_chars, &part) && file_chars.len() >= suffix.len() && part_at(
        &file_chars,
        &suffix,
        file_chars.len() - suffix.len(),
    )
}

/// The index of the first matching icon of a listing.
fn find_match(names: &Vec<String>, lower: &str) -> (index: Option<usize>)
    ensures
        match index {
            Some(i) => first_match(
                Seq::new(names@.len(), |i: int| names@[i]@),
                lower@,
                0,
            ) == Some(i as int),
            None => first_match(Seq::new(names@.len(), |i: int| names@[i]@), lower@, 0) is None,
        },
{
    let ghost all = Seq::new(names@.len(), |i: int| names@[i]@);
    let mut i: usize = 0;
    while i < names.len()
        invariant
            i <= names.len(),
            all == Seq::new(names@.len(), |i: int| names@[i]@),
            first_match(all, lower@, 0) == first_match(all, lower@, i as int),
        decreases names.len() - i,
    {
        let file: String = to_lowercase(names[i].as_str());
        assert(all[i as int] == names@[i as int]@);
        if icon_name_matches(file.as_str(), lower) {
            return Some(i);
        }
        i = i + 1;
    }
    None
}

impl IconSearch {
    /// Searches for a name.
    fn probing(name: &str) -> (search: IconSearch)
        ensures
            search@ == SearchView::probing(name@),
    {
        if name.is_empty() {
            IconSearch::NotFound
        } else {
            IconSearch::Probe { name: name.to_owned(), lower: to_lowercase(name), probe: 0 }
        }
    }

    /// Begins the search for the icon of an application.
    pub fn begin(app_icon: &str, app_name: &str) -> (search: IconSearch)
        ensures
            search@ == SearchView::begin(app_icon@, app_name@),
    {
        if app_icon.is_empty() {
            IconSearch::probing(app_name)
        } else if app_icon.get_char(0) == '/' {
            IconSearch::Direct { path: app_icon.to_owned(), name: app_name.to_owned() }
        } else {
            IconSearch::probing(app_icon)
        }
    }

    /// What the search asks next; nothing once it is over.
    pub fn question(&self) -> (query: Option<Query>)
        ensures
            match query {
                Some(q) => self@.query() == Some(q@),
                None => self@.query() is None,
            },
            query is None <==> self@.is_over(),
    {
        match self {
            IconSearch::Direct { path, .. } => Some(Query::Exists(copy_text(path))),
            IconSearch::Probe { lower, probe, .. } => Some(
                probe_question(lower.as_str(), *probe),
            ),
            _ => None,
        }
    }

    /// Goes on to the place after `probe`.
    fn pass(name: String, lower: String, probe: usize) -> (search: IconSearch)
        ensures
            search@ == SearchView::passed(name@, lower@, probe as int),
    {
        if probe < PROBES - 1 {
            IconSearch::Probe { name, lower, probe: probe + 1 }
        } else {
            IconSearch::NotFound
        }
    }

    /// Goes on after the answer to the last question.
    pub fn answered(self, answer: Answer) -> (search: IconSearch)
        ensures
            search@ == self@.answered(answer@),
    {
        match self {
            IconSearch::Direct { path, name } => {
                if let Answer::Exists(true) = answer {
                    IconSearch::Found { path }
                } else {
                    IconSearch::probing(name.as_str())
                }
            },
            IconSearch::Probe { name, lower, probe } => {
                let query: Query = probe_question(lower.as_str(), probe);
                match (query, answer) {
                    (Query::Exists(path), Answer::Exists(true)) => IconSearch::Found { path },
                    (Query::List(dir), Answer::Listing(Some(names))) => {
                        match find_match(&names, lower.as_str()) {
                            Some(index) => IconSearch::FoundEntry { dir, index },
                            None => IconSearch::pass(name, lower, probe),
                        }
                    },
                    (Query::Read(_), Answer::Content(Some(content))) => {
                        match desktop_icon(content.as_str(), name.as_str()) {
                            Some(icon) => {
                                proof {
                                    reveal_strlit("");
                                    assert(""@ =~= Seq::<char>::empty());
                                }
                                IconSearch::begin(icon.as_str(), "")
                            },
                            None => IconSearch::pass(name, lower, probe),
                        }
                    },
                    _ => IconSearch::pass(name, lower, probe),
                }
            },
            other => other,
        }
    }
}

} // verus!
