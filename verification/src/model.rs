//! The mathematical model of a search: its state, what the caller may see
//! at a path, and the state that follows.

use crate::pattern::any_match;
use vstd::prelude::*;

verus! {

/// A path that waits to be visited, and how deep below its root it lies.
pub struct Step {
    pub path: Seq<char>,
    pub depth: nat,
}

/// What the file system shows at the path being visited.
pub enum Sighting {
    /// A directory, with the paths of its entries in listing order.
    Directory { children: Seq<Seq<char>> },
    /// Anything but a directory, with its base name where that is text.
    File { name: Option<Seq<char>> },
    /// Nothing is there any more: the entry went away after it was listed.
    Vanished,
    /// The path could not be read.
    Failed { message: Seq<char> },
}

/// A line of the progress report.
pub enum Note {
    Directory { depth: nat, path: Seq<char> },
    Matched { depth: nat, name: Seq<char> },
    Checked { depth: nat, name: Seq<char> },
}

/// The state of a search between two visits.
pub struct SearchState {
    /// The source texts of the patterns.
    pub patterns: Seq<Seq<char>>,
    /// The paths still to visit, the next one first.
    pub agenda: Seq<Step>,
    /// The matching paths found so far, in the order they were found.
    pub matches: Seq<Seq<char>>,
    /// Whether progress is reported.
    pub verbose: bool,
    /// The message of the failure that ended the search, if one did.
    pub failure: Option<Seq<char>>,
}

/// The entries of a directory as steps, all at one depth.
pub open spec fn steps_at(paths: Seq<Seq<char>>, depth: nat) -> Seq<Step> {
    Seq::new(paths.len(), |i: int| Step { path: paths[i], depth })
}

/// The list with `path` at its end, unless it already holds it.
pub open spec fn insert_once(found: Seq<Seq<char>>, path: Seq<char>) -> Seq<Seq<char>> {
    if found.contains(path) {
        found
    } else {
        found.push(path)
    }
}

impl SearchState {
    /// The state in which a search over `roots` begins.
    pub open spec fn initial(
        roots: Seq<Seq<char>>,
        patterns: Seq<Seq<char>>,
        verbose: bool,
    ) -> SearchState {
        SearchState {
            patterns,
            agenda: steps_at(roots, 0),
            matches: Seq::empty(),
            verbose,
            failure: None,
        }
    }

    /// No path is reported twice, and a failed search holds nothing.
    pub open spec fn wf(self) -> bool {
        &&& self.matches.no_duplicates()
        &&& self.failure is Some ==> self.agenda.len() == 0 && self.matches.len() == 0
    }

    /// Whether a path waits to be visited.
    pub open spec fn active(self) -> bool {
        self.failure is None && self.agenda.len() > 0
    }

    /// The state after the next path was seen to be a directory: its
    /// entries are visited next, in listing order, one level deeper.
    pub open spec fn after_directory(self, children: Seq<Seq<char>>) -> SearchState {
        if self.active() {
            SearchState {
                agenda: steps_at(children, self.agenda[0].depth + 1) + self.agenda.drop_first(),
                ..self
            }
        } else {
            self
        }
    }

    /// The state after the next path was seen to be a file: the path is
    /// reported where its name is text and a pattern matched it, and passed
    /// over otherwise.
    pub open spec fn after_file(self, name: Option<Seq<char>>, matched: bool) -> SearchState {
        if self.active() {
            SearchState {
                agenda: self.agenda.drop_first(),
                matches: if name is Some && matched {
                    insert_once(self.matches, self.agenda[0].path)
                } else {
                    self.matches
                },
                ..self
            }
        } else {
            self
        }
    }

    /// The state after the next path could not be read: the search is over
    /// and what it had found is given up.
    pub open spec fn after_failure(self, message: Seq<char>) -> SearchState {
        if self.active() {
            SearchState {
                agenda: Seq::empty(),
                matches: Seq::empty(),
                failure: Some(message),
                ..self
            }
        } else {
            self
        }
    }

    /// Whether one of the patterns matches the name, where there is a name.
    pub open spec fn name_matches(self, name: Option<Seq<char>>) -> bool {
        name is Some && any_match(self.patterns, name->0)
    }

    /// The state after the next path was visited and `seen` was found there.
    pub open spec fn step(self, seen: Sighting) -> SearchState {
        match seen {
            Sighting::Directory { children } => self.after_directory(children),
            Sighting::File { name } => self.after_file(name, self.name_matches(name)),
            Sighting::Vanished => self.after_file(None, false),
            Sighting::Failed { message } => self.after_failure(message),
        }
    }

    /// The progress line for a directory, if one is due.
    pub open spec fn directory_note(self) -> Option<Note> {
        if self.active() && self.verbose {
            Some(Note::Directory { depth: self.agenda[0].depth, path: self.agenda[0].path })
        } else {
            None
        }
    }

    /// The progress line for a file, if one is due.
    pub open spec fn file_note(self, name: Option<Seq<char>>, matched: bool) -> Option<Note> {
        if self.active() && self.verbose && name is Some {
            if matched {
                Some(Note::Matched { depth: self.agenda[0].depth, name: name->0 })
            } else {
                Some(Note::Checked { depth: self.agenda[0].depth, name: name->0 })
            }
        } else {
            None
        }
    }

    /// The progress line for a visit, if one is due.
    pub open spec fn note(self, seen: Sighting) -> Option<Note> {
        match seen {
            Sighting::Directory { children } => self.directory_note(),
            Sighting::File { name } => self.file_note(name, self.name_matches(name)),
            Sighting::Vanished => None,
            Sighting::Failed { message } => None,
        }
    }

    /// The state after a run of visits.
    pub open spec fn run(self, seen: Seq<Sighting>) -> SearchState
        decreases seen.len(),
    {
        if seen.len() == 0 {
            self
        } else {
            self.run(seen.drop_last()).step(seen.last())
        }
    }
}

} // verus!
