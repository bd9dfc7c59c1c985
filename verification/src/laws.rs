//! What holds of every search, however the file system answers.
//!
//! A search is modelled as its starting state and the run of sightings the
//! caller handed back, one for each visit.

use crate::model::{insert_once, SearchState, Sighting};
use vstd::prelude::*;

verus! {

/// Whether the run has a visit number `k`: a path stood on the agenda then.
pub open spec fn visited_at(start: SearchState, seen: Seq<Sighting>, k: int) -> bool {
    0 <= k < seen.len() && start.run(seen.take(k)).active()
}

/// The path of the visit number `k`.
pub open spec fn path_at(start: SearchState, seen: Seq<Sighting>, k: int) -> Seq<char> {
    start.run(seen.take(k)).agenda[0].path
}

/// Whether the visit number `k` of the run sees a file at `path` whose base
/// name is text that one of the patterns matches.
pub open spec fn hit(start: SearchState, seen: Seq<Sighting>, k: int, path: Seq<char>) -> bool {
    &&& visited_at(start, seen, k)
    &&& path_at(start, seen, k) == path
    &&& seen[k] matches Sighting::File { name } && start.run(seen.take(k)).name_matches(name)
}

/// Whether the visit number `k` of the run finds its path unreadable.
pub open spec fn fails_at(start: SearchState, seen: Seq<Sighting>, k: int) -> bool {
    visited_at(start, seen, k) && seen[k] is Failed
}

/// Whether no visit of the run found its path unreadable.
pub open spec fn unfailing(start: SearchState, seen: Seq<Sighting>) -> bool {
    forall|k: int| !fails_at(start, seen, k)
}

/// A path is in the list after `insert_once` exactly if it was there before
/// or is the one inserted.
pub proof fn lemma_insert_once(found: Seq<Seq<char>>, added: Seq<char>, path: Seq<char>)
    ensures
        insert_once(found, added).contains(path) <==> found.contains(path) || path == added,
        found.no_duplicates() ==> insert_once(found, added).no_duplicates(),
{
    if !found.contains(added) {
        let grown = found.push(added);
        assert(grown.last() == added);
        if found.contains(path) {
            let i = choose|i: int| 0 <= i < found.len() && found[i] == path;
            assert(grown[i] == path);
        }
        if grown.contains(path) {
            let i = choose|i: int| 0 <= i < grown.len() && grown[i] == path;
            if i < found.len() {
                assert(found[i] == path);
            }
        }
        if found.no_duplicates() {
            assert forall|i: int, j: int|
                0 <= i < grown.len() && 0 <= j < grown.len() && i != j implies grown[i]
                != grown[j] by {
                if i < found.len() && j < found.len() {
                    assert(found[i] != found[j]);
                } else if i < found.len() {
                    assert(found.contains(found[i]));
                } else {
                    assert(found.contains(found[j]));
                }
            }
        }
    }
}

/// No run of visits changes the patterns or whether progress is reported.
pub proof fn lemma_run_keeps_settings(start: SearchState, seen: Seq<Sighting>)
    ensures
        start.run(seen).patterns == start.patterns,
        start.run(seen).verbose == start.verbose,
    decreases seen.len(),
{
    if seen.len() > 0 {
        lemma_run_keeps_settings(start, seen.drop_last());
    }
}

/// One visit keeps a state well formed, and changes neither the patterns
/// nor whether progress is reported.
pub proof fn lemma_step_keeps_wf(state: SearchState, seen: Sighting)
    requires
        state.wf(),
    ensures
        state.step(seen).wf(),
        state.step(seen).patterns == state.patterns,
        state.step(seen).verbose == state.verbose,
{
    if state.active() {
        lemma_insert_once(state.matches, state.agenda[0].path, state.agenda[0].path);
    }
}

/// No path is reported twice: after any run of visits the paths found are
/// distinct, whether or not roots overlap or several patterns match a name.
pub proof fn lemma_matches_are_distinct(start: SearchState, seen: Seq<Sighting>)
    requires
        start.wf(),
    ensures
        start.run(seen).wf(),
        start.run(seen).matches.no_duplicates(),
        start.run(seen).patterns == start.patterns,
        start.run(seen).verbose == start.verbose,
    decreases seen.len(),
{
    if seen.len() > 0 {
        lemma_matches_are_distinct(start, seen.drop_last());
        lemma_step_keeps_wf(start.run(seen.drop_last()), seen.last());
    }
}

/// A path is reported exactly if it was visited as a file whose base name
/// one of the patterns matches: after a run in which every path could be
/// read, the paths found are those the search began with and those of the
/// matching visits, and no others.
pub proof fn lemma_reported_iff_matched(start: SearchState, seen: Seq<Sighting>, path: Seq<char>)
    requires
        start.failure is None,
        unfailing(start, seen),
    ensures
        start.run(seen).failure is None,
        start.run(seen).patterns == start.patterns,
        start.run(seen).matches.contains(path) <==> start.matches.contains(path) || exists|
            k: int,
        | hit(start, seen, k, path),
    decreases seen.len(),
{
    if seen.len() > 0 {
        let earlier = seen.drop_last();
        let n = seen.len() - 1;
        assert forall|k: int| 0 <= k <= n implies #[trigger] earlier.take(k) == seen.take(k) by {
            assert(earlier.take(k) =~= seen.take(k));
        }
        assert forall|k: int| !fails_at(start, earlier, k) by {
            assert(!fails_at(start, seen, k));
        }
        lemma_reported_iff_matched(start, earlier, path);
        let state = start.run(earlier);
        assert(seen.take(n) =~= earlier);
        assert(!fails_at(start, seen, n));
        if state.active() {
            lemma_insert_once(state.matches, state.agenda[0].path, path);
        }
        assert(state.step(seen.last()).matches.contains(path) <==> state.matches.contains(path)
            || hit(start, seen, n, path));
        assert forall|k: int| 0 <= k < n implies hit(start, earlier, k, path) == hit(
            start,
            seen,
            k,
            path,
        ) by {
            assert(earlier.take(k) == seen.take(k));
        }
        if exists|k: int| hit(start, seen, k, path) {
            let k = choose|k: int| hit(start, seen, k, path);
            if k < n {
                assert(hit(start, earlier, k, path));
            }
        }
        if exists|k: int| hit(start, earlier, k, path) {
            let k = choose|k: int| hit(start, earlier, k, path);
            assert(hit(start, seen, k, path));
        }
    }
}

/// A path that cannot be read ends the search: once one visit fails, the
/// state holds that failure, nothing is left to visit and nothing found is
/// kept, whatever is handed in afterwards.
pub proof fn lemma_failure_is_final(start: SearchState, seen: Seq<Sighting>, k: int)
    requires
        fails_at(start, seen, k),
    ensures
        start.run(seen).failure == Some(seen[k]->message),
        start.run(seen).agenda.len() == 0,
        start.run(seen).matches.len() == 0,
    decreases seen.len(),
{
    let earlier = seen.drop_last();
    let n = seen.len() - 1;
    if k == n {
        assert(seen.take(n) =~= earlier);
    } else {
        assert(earlier.take(k) =~= seen.take(k));
        assert(fails_at(start, earlier, k));
        lemma_failure_is_final(start, earlier, k);
    }
}

/// A search fails only where a path could not be read: a run in which no
/// visit fails ends without a failure, even where it finds nothing.
pub proof fn lemma_only_failures_fail(start: SearchState, seen: Seq<Sighting>)
    requires
        start.failure is None,
    ensures
        start.run(seen).failure is Some <==> exists|k: int| fails_at(start, seen, k),
    decreases seen.len(),
{
    if seen.len() > 0 {
        let earlier = seen.drop_last();
        let n = seen.len() - 1;
        lemma_only_failures_fail(start, earlier);
        assert(seen.take(n) =~= earlier);
        assert forall|k: int| 0 <= k < n implies fails_at(start, earlier, k) == fails_at(
            start,
            seen,
            k,
        ) by {
            assert(earlier.take(k) =~= seen.take(k));
        }
        if exists|k: int| fails_at(start, seen, k) {
            let k = choose|k: int| fails_at(start, seen, k);
            lemma_failure_is_final(start, seen, k);
        }
        if exists|k: int| fails_at(start, earlier, k) {
            let k = choose|k: int| fails_at(start, earlier, k);
            assert(fails_at(start, seen, k));
        }
        if start.run(seen).failure is Some && start.run(earlier).failure is None {
            assert(fails_at(start, seen, n));
        }
    }
}

/// Reporting progress changes nothing else: a verbose search and a silent
/// one that see the same things visit the same paths and find the same
/// ones.
pub proof fn lemma_verbose_changes_nothing(start: SearchState, seen: Seq<Sighting>, verbose: bool)
    ensures
        (SearchState { verbose, ..start }).run(seen) == (SearchState {
            verbose,
            ..start.run(seen)
        }),
    decreases seen.len(),
{
    if seen.len() > 0 {
        lemma_verbose_changes_nothing(start, seen.drop_last(), verbose);
    }
}

} // verus!
