//! The search itself: a state that the caller advances one visit at a time.
//!
//! The caller asks which path comes next, looks at that path in the file
//! system, and hands back what it saw. Each visit is one call of
//! [`walk_tree`]; the contracts tie every call to the model's `step`.

use crate::model::{Note, SearchState, Sighting, Step};
use crate::pattern::{
    all_compile, compile_all, first_invalid_at, matches_any, sources, texts, Pattern,
};
use vstd::prelude::*;

verus! {

/// A starting point of the search, and whether the caller found it to exist.
#[derive(Debug, PartialEq, Eq)]
pub struct Root {
    pub path: String,
    pub exists: bool,
}

/// A path that waits to be visited, and how deep below its root it lies.
#[derive(Debug, PartialEq, Eq)]
pub struct Pending {
    pub path: String,
    pub depth: usize,
}

impl View for Pending {
    type V = Step;

    open spec fn view(&self) -> Step {
        Step { path: self.path@, depth: self.depth as nat }
    }
}

/// What the caller saw at the path it was asked to visit.
#[derive(Debug, PartialEq, Eq)]
pub enum Probe {
    /// A directory, with the paths of its entries in listing order.
    Directory { children: Vec<String> },
    /// Anything but a directory, with its base name where that is text.
    File { name: Option<String> },
    /// Nothing is there any more: the entry went away after it was listed.
    /// Such a path is passed over and the search goes on.
    Vanished,
    /// The path could not be read. This ends the search.
    Failed { message: String },
}

/// The text of a string that may be absent.
pub open spec fn text_of(s: Option<String>) -> Option<Seq<char>> {
    match s {
        Some(t) => Some(t@),
        None => None,
    }
}

impl View for Probe {
    type V = Sighting;

    open spec fn view(&self) -> Sighting {
        match *self {
            Probe::Directory { children } => Sighting::Directory { children: texts(children@) },
            Probe::File { name } => Sighting::File { name: text_of(name) },
            Probe::Vanished => Sighting::Vanished,
            Probe::Failed { message } => Sighting::Failed { message: message@ },
        }
    }
}

/// A line of the progress report, before it is laid out.
#[derive(Debug, PartialEq, Eq)]
pub enum Trace {
    Directory { depth: usize, path: String },
    Matched { depth: usize, name: String },
    Checked { depth: usize, name: String },
}

impl View for Trace {
    type V = Note;

    open spec fn view(&self) -> Note {
        match *self {
            Trace::Directory { depth, path } => Note::Directory { depth: depth as nat, path: path@ },
            Trace::Matched { depth, name } => Note::Matched { depth: depth as nat, name: name@ },
            Trace::Checked { depth, name } => Note::Checked { depth: depth as nat, name: name@ },
        }
    }
}

/// The model of a progress line that may be absent.
pub open spec fn note_of(t: Option<Trace>) -> Option<Note> {
    match t {
        Some(l) => Some(l@),
        None => None,
    }
}

/// Why a search did not return a set of paths.
#[derive(Debug, PartialEq, Eq)]
pub enum FindError {
    /// A root does not exist; holds that root.
    InvalidPath(String),
    /// A pattern is not a regular expression; holds that pattern.
    InvalidPattern(String),
    /// A path could not be read during the walk; holds the message.
    Traversal(String),
}

/// A search in progress.
pub struct Search {
    patterns: Vec<Pattern>,
    /// The paths still to visit; the next one is the last.
    pending: Vec<Pending>,
    matches: Vec<String>,
    verbose: bool,
    failure: Option<String>,
}

/// The steps of a stack of pending paths, the top of the stack first.
pub open spec fn agenda_of(pending: Seq<Pending>) -> Seq<Step> {
    Seq::new(pending.len(), |i: int| pending[pending.len() - 1 - i]@)
}

impl View for Search {
    type V = SearchState;

    closed spec fn view(&self) -> SearchState {
        SearchState {
            patterns: sources(self.patterns@),
            agenda: agenda_of(self.pending@),
            matches: texts(self.matches@),
            verbose: self.verbose,
            failure: text_of(self.failure),
        }
    }
}

impl Search {
    /// The state is one that a search can reach.
    pub open spec fn wf(&self) -> bool {
        self@.wf()
    }

    /// Tells which path to visit next, or that none is left.
    pub fn next(&self) -> (r: Option<Pending>)
        ensures
            r is Some == self@.active(),
            r is Some ==> r->0@ == self@.agenda[0],
    {
        let n = self.pending.len();
        if n == 0 || self.failure.is_some() {
            None
        } else {
            let top = &self.pending[n - 1];
            Some(Pending { path: top.path.clone(), depth: top.depth })
        }
    }

    /// Records that the next path is a directory with these entries, which
    /// are then visited before anything else, in the order given, one level
    /// deeper than the directory: its depth must leave room for one more.
    /// Returns the progress line where the search is verbose.
    pub fn enter_directory(&mut self, children: Vec<String>) -> (trace: Option<Trace>)
        requires
            old(self).wf(),
            old(self)@.active() ==> old(self)@.agenda[0].depth < usize::MAX,
        ensures
            final(self).wf(),
            final(self)@ == old(self)@.after_directory(texts(children@)),
            note_of(trace) == old(self)@.directory_note(),
    {
        if self.pending.len() == 0 || self.failure.is_some() {
            return None;
        }
        let top = self.pending.pop().unwrap();
        let depth: usize = top.depth + 1;
        let ghost base = self.pending@;
        let ghost all = children@;
        let mut children = children;
        while children.len() > 0
            invariant
                children@.len() <= all.len(),
                children@ == all.take(children@.len() as int),
                self.pending@.len() == base.len() + all.len() - children@.len(),
                forall|j: int| 0 <= j < base.len() ==> self.pending@[j] == base[j],
                forall|j: int|
                    0 <= j < all.len() - children@.len() ==> (#[trigger] self.pending@[base.len()
                        + j])@ == (Step { path: all[all.len() - 1 - j]@, depth: depth as nat }),
                self.patterns == old(self).patterns,
                self.matches == old(self).matches,
                self.verbose == old(self).verbose,
                self.failure == old(self).failure,
            decreases children.len(),
        {
            let child = children.pop().unwrap();
            self.pending.push(Pending { path: child, depth });
        }
        proof {
            let want = old(self)@.after_directory(texts(all)).agenda;
            assert forall|i: int| 0 <= i < want.len() implies self@.agenda[i] == want[i] by {
                if i < all.len() {
                    assert(self.pending@[base.len() + (all.len() - 1 - i)]@.path == all[i]@);
                } else {
                    assert(self.pending@[base.len() + all.len() - 1 - i] == base[base.len()
                        + all.len() - 1 - i]);
                }
            }
            assert(self@.agenda =~= want);
        }
        if self.verbose {
            Some(Trace::Directory { depth: top.depth, path: top.path })
        } else {
            None
        }
    }

    /// Records that the next path is a file with this base name, and
    /// whether a pattern matched the name. A matching path joins the result
    /// unless it is there already. Returns the progress line where the
    /// search is verbose and the name is text.
    pub fn record_file(&mut self, name: Option<String>, matched: bool) -> (trace: Option<Trace>)
        requires
            old(self).wf(),
        ensures
            final(self).wf(),
            final(self)@ == old(self)@.after_file(text_of(name), matched),
            note_of(trace) == old(self)@.file_note(text_of(name), matched),
    {
        if self.pending.len() == 0 || self.failure.is_some() {
            return None;
        }
        let top = self.pending.pop().unwrap();
        proof {
            assert(self@.agenda =~= old(self)@.agenda.drop_first());
        }
        match name {
            None => None,
            Some(text) => {
                if matched && !holds(&self.matches, &top.path) {
                    self.matches.push(top.path);
                    proof {
                        assert(self@.matches =~= old(self)@.matches.push(top.path@));
                    }
                }
                if !self.verbose {
                    None
                } else if matched {
                    Some(Trace::Matched { depth: top.depth, name: text })
                } else {
                    Some(Trace::Checked { depth: top.depth, name: text })
                }
            },
        }
    }

    /// Records that the next path could not be read. The search ends here:
    /// nothing more is visited and nothing found so far is kept.
    pub fn fail(&mut self, message: String)
        requires
            old(self).wf(),
        ensures
            final(self).wf(),
            final(self)@ == old(self)@.after_failure(message@),
    {
        if self.pending.len() == 0 || self.failure.is_some() {
            return ;
        }
        self.pending = Vec::new();
        self.matches = Vec::new();
        self.failure = Some(message);
        proof {
            assert(self@.agenda =~= Seq::<Step>::empty());
            assert(self@.matches =~= Seq::<Seq<char>>::empty());
        }
    }

    /// Ends the search and hands out its result: the distinct matching
    /// paths, or the failure that stopped the walk. A search that found
    /// nothing succeeds with an empty list.
    pub fn finish(self) -> (r: Result<Vec<String>, FindError>)
        requires
            self.wf(),
        ensures
            match r {
                Ok(found) => self@.failure is None && texts(found@) == self@.matches && texts(
                    found@,
                ).no_duplicates(),
                Err(FindError::Traversal(message)) => self@.failure == Some(message@),
                Err(_) => false,
            },
    {
        match self.failure {
            Some(message) => Err(FindError::Traversal(message)),
            None => Ok(self.matches),
        }
    }
}

/// Whether the list holds a string with this text.
fn holds(list: &Vec<String>, wanted: &String) -> (found: bool)
    ensures
        found == texts(list@).contains(wanted@),
{
    let mut i: usize = 0;
    while i < list.len()
        invariant
            0 <= i <= list.len(),
            forall|j: int| 0 <= j < i ==> texts(list@)[j] != wanted@,
        decreases list.len() - i,
    {
        if list[i] == *wanted {
            assert(texts(list@)[i as int] == wanted@);
            return true;
        }
        i += 1;
    }
    false
}

/// Visits the next path: takes what the caller saw there, tests a file's
/// name against the patterns, and moves the search on. Entries of a
/// directory are visited before the directory's siblings, each one level
/// deeper than the directory, so the directory's own depth must leave room
/// for one more. Returns the progress line where one is due.
pub fn walk_tree(search: &mut Search, probe: Probe) -> (trace: Option<Trace>)
    requires
        old(search).wf(),
        probe is Directory && old(search)@.active() ==> old(search)@.agenda[0].depth < usize::MAX,
    ensures
        final(search).wf(),
        final(search)@ == old(search)@.step(probe@),
        note_of(trace) == old(search)@.note(probe@),
{
    match probe {
        Probe::Directory { children } => search.enter_directory(children),
        Probe::File { name } => {
            let matched = match &name {
                Some(text) => matches_any(&search.patterns, text.as_str()),
                None => false,
            };
            search.record_file(name, matched)
        },
        Probe::Vanished => search.record_file(None, false),
        Probe::Failed { message } => {
            search.fail(message);
            None
        },
    }
}

/// The paths of a list of roots, in order.
pub open spec fn root_paths(roots: Seq<Root>) -> Seq<Seq<char>> {
    Seq::new(roots.len(), |i: int| roots[i].path@)
}

/// Whether every root of the list exists.
pub open spec fn all_exist(roots: Seq<Root>) -> bool {
    forall|i: int| 0 <= i < roots.len() ==> (#[trigger] roots[i]).exists
}

/// Whether `i` is the place of the first root that does not exist.
pub open spec fn first_missing_at(roots: Seq<Root>, i: int) -> bool {
    &&& 0 <= i < roots.len()
    &&& !roots[i].exists
    &&& forall|j: int| 0 <= j < i ==> (#[trigger] roots[j]).exists
}

/// Begins a search. The roots are checked first, then the patterns: the
/// first root that does not exist, or else the first pattern that is not a
/// regular expression, is returned as the error, and no search comes to
/// be. Otherwise the search stands before the first root, with the other
/// roots to follow in order and nothing found yet.
pub fn find(roots: &Vec<Root>, patterns: &Vec<String>, verbose: bool) -> (r: Result<
    Search,
    FindError,
>)
    ensures
        match r {
            Ok(search) => {
                &&& all_exist(roots@)
                &&& all_compile(texts(patterns@))
                &&& search.wf()
                &&& search@ == SearchState::initial(root_paths(roots@), texts(patterns@), verbose)
            },
            Err(FindError::InvalidPath(path)) => exists|i: int|
                first_missing_at(roots@, i) && path@ == roots@[i].path@,
            Err(FindError::InvalidPattern(pattern)) => all_exist(roots@) && exists|i: int|
                first_invalid_at(texts(patterns@), i) && pattern@ == patterns@[i]@,
            Err(FindError::Traversal(_)) => false,
        },
{
    let mut i: usize = 0;
    while i < roots.len()
        invariant
            0 <= i <= roots.len(),
            forall|j: int| 0 <= j < i ==> (#[trigger] roots@[j]).exists,
        decreases roots.len() - i,
    {
        if !roots[i].exists {
            assert(first_missing_at(roots@, i as int));
            return Err(FindError::InvalidPath(roots[i].path.clone()));
        }
        i += 1;
    }
    let compiled = match compile_all(patterns) {
        Ok(compiled) => compiled,
        Err(at) => {
            assert(texts(patterns@)[at as int] == patterns@[at as int]@);
            return Err(FindError::InvalidPattern(patterns[at].clone()));
        },
    };
    let mut pending: Vec<Pending> = Vec::new();
    let mut k: usize = roots.len();
    while k > 0
        invariant
            0 <= k <= roots.len(),
            pending@.len() == roots.len() - k,
            forall|j: int|
                0 <= j < pending@.len() ==> (#[trigger] pending@[j])@ == (Step {
                    path: roots@[roots.len() - 1 - j].path@,
                    depth: 0,
                }),
        decreases k,
    {
        k -= 1;
        pending.push(Pending { path: roots[k].path.clone(), depth: 0 });
    }
    let search = Search { patterns: compiled, pending, matches: Vec::new(), verbose, failure: None };
    proof {
        let want = SearchState::initial(root_paths(roots@), texts(patterns@), verbose);
        assert(search@.agenda =~= want.agenda);
        assert(search@.matches =~= want.matches);
    }
    Ok(search)
}

} // verus!
