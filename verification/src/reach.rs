//! A finished walk against the tree it walked.
//!
//! The tree is what stands at each path. Where the caller answered every
//! visit with what the tree holds there, and the walk came to its end, the
//! paths it added are the matching files among the paths that waited at its
//! start and below them: all of them, and nothing else. A whole search is
//! the walk that starts with the roots waiting and nothing found.

use crate::laws::{
    fails_at, hit, lemma_only_failures_fail, lemma_run_keeps_settings,
    lemma_reported_iff_matched, path_at, unfailing, visited_at,
};
use crate::model::{SearchState, Sighting};
use crate::pattern::any_match;
use vstd::prelude::*;

verus! {

/// The paths that wait on the agenda, the next one first.
pub open spec fn waiting(state: SearchState) -> Seq<Seq<char>> {
    Seq::new(state.agenda.len(), |i: int| state.agenda[i].path)
}

/// Whether the run visited the path.
pub open spec fn was_visited(start: SearchState, seen: Seq<Sighting>, path: Seq<char>) -> bool {
    exists|k: int| visited_at(start, seen, k) && path_at(start, seen, k) == path
}

/// Whether the path waits on the agenda.
pub open spec fn on_agenda(state: SearchState, path: Seq<char>) -> bool {
    exists|i: int| 0 <= i < state.agenda.len() && (#[trigger] state.agenda[i]).path == path
}

/// Whether the run visited the path or left it on the agenda.
pub open spec fn known(start: SearchState, seen: Seq<Sighting>, path: Seq<char>) -> bool {
    was_visited(start, seen, path) || on_agenda(start.run(seen), path)
}

/// Whether every visit of the run saw what the tree holds at its path.
pub open spec fn follows(
    tree: spec_fn(Seq<char>) -> Sighting,
    start: SearchState,
    seen: Seq<Sighting>,
) -> bool {
    forall|k: int| visited_at(start, seen, k) ==> seen[k] == tree(path_at(start, seen, k))
}

/// Whether the chain leads from a root down the tree, each path an entry of
/// the directory before it.
pub open spec fn is_chain(
    tree: spec_fn(Seq<char>) -> Sighting,
    roots: Seq<Seq<char>>,
    chain: Seq<Seq<char>>,
) -> bool {
    &&& chain.len() > 0
    &&& roots.contains(chain[0])
    &&& forall|i: int|
        0 <= i < chain.len() - 1 ==> tree(#[trigger] chain[i]) is Directory && tree(
            chain[i],
        )->children.contains(chain[i + 1])
}

/// Whether the path is a root or lies below one.
pub open spec fn reachable(
    tree: spec_fn(Seq<char>) -> Sighting,
    roots: Seq<Seq<char>>,
    path: Seq<char>,
) -> bool {
    exists|chain: Seq<Seq<char>>| is_chain(tree, roots, chain) && chain.last() == path
}

/// Whether the tree holds at the path a file whose base name is text that
/// one of the patterns matches.
pub open spec fn matching_file(
    tree: spec_fn(Seq<char>) -> Sighting,
    patterns: Seq<Seq<char>>,
    path: Seq<char>,
) -> bool {
    tree(path) matches Sighting::File { name } && name is Some && any_match(patterns, name->0)
}

/// What a run without its last visit shares with the run.
proof fn lemma_earlier(start: SearchState, seen: Seq<Sighting>)
    requires
        seen.len() > 0,
    ensures
        seen.take(seen.len() - 1) == seen.drop_last(),
        start.run(seen) == start.run(seen.drop_last()).step(seen.last()),
        forall|k: int|
            0 <= k < seen.len() - 1 ==> #[trigger] seen.drop_last().take(k) == seen.take(k),
        forall|k: int|
            0 <= k < seen.len() - 1 ==> seen.drop_last()[k] == seen[k] && visited_at(
                start,
                seen.drop_last(),
                k,
            ) == #[trigger] visited_at(start, seen, k) && path_at(start, seen.drop_last(), k)
                == path_at(start, seen, k) && fails_at(start, seen.drop_last(), k) == fails_at(
                start,
                seen,
                k,
            ),
        visited_at(start, seen, seen.len() - 1) == start.run(seen.drop_last()).active(),
        path_at(start, seen, seen.len() - 1) == start.run(seen.drop_last()).agenda[0].path,
        unfailing(start, seen) ==> unfailing(start, seen.drop_last()),
{
    assert(seen.take(seen.len() - 1) =~= seen.drop_last());
    assert forall|k: int| 0 <= k < seen.len() - 1 implies #[trigger] seen.drop_last().take(k)
        == seen.take(k) by {
        assert(seen.drop_last().take(k) =~= seen.take(k));
    }
    if unfailing(start, seen) {
        assert forall|k: int| !fails_at(start, seen.drop_last(), k) by {
            if 0 <= k < seen.len() - 1 {
                assert(seen.drop_last().take(k) == seen.take(k));
                assert(!fails_at(start, seen, k));
            }
        }
    }
}

/// A path that one more visit finds known stays known: it was visited, or
/// it is the one visited now, or it keeps its place on the agenda behind
/// what the visit added.
proof fn lemma_known_grows(start: SearchState, seen: Seq<Sighting>, path: Seq<char>)
    requires
        seen.len() > 0,
        start.failure is None,
        unfailing(start, seen),
        known(start, seen.drop_last(), path),
    ensures
        known(start, seen, path),
{
    let earlier = seen.drop_last();
    let n = seen.len() - 1;
    lemma_earlier(start, seen);
    lemma_only_failures_fail(start, earlier);
    let before = start.run(earlier);
    let after = start.run(seen);
    if was_visited(start, earlier, path) {
        let k = choose|k: int| visited_at(start, earlier, k) && path_at(start, earlier, k) == path;
        assert(visited_at(start, seen, k) && path_at(start, seen, k) == path);
    } else {
        let i = choose|i: int|
            0 <= i < before.agenda.len() && (#[trigger] before.agenda[i]).path == path;
        assert(before.active());
        assert(visited_at(start, seen, n));
        assert(!fails_at(start, seen, n));
        if i == 0 {
            assert(path_at(start, seen, n) == path);
        } else {
            match seen.last() {
                Sighting::Directory { children } => {
                    assert(after.agenda[children.len() + i - 1] == before.agenda[i]);
                },
                Sighting::File { name } => {
                    assert(after.agenda[i - 1] == before.agenda[i]);
                },
                Sighting::Vanished => {
                    assert(after.agenda[i - 1] == before.agenda[i]);
                },
                Sighting::Failed { message } => {},
            }
            assert(on_agenda(after, path));
        }
    }
}

/// Each path that waited at the start is visited or waits on the agenda.
proof fn lemma_waiting_known(start: SearchState, seen: Seq<Sighting>, i: int)
    requires
        start.failure is None,
        unfailing(start, seen),
        0 <= i < start.agenda.len(),
    ensures
        known(start, seen, start.agenda[i].path),
    decreases seen.len(),
{
    if seen.len() == 0 {
        assert(on_agenda(start.run(seen), start.agenda[i].path));
    } else {
        lemma_earlier(start, seen);
        lemma_waiting_known(start, seen.drop_last(), i);
        lemma_known_grows(start, seen, start.agenda[i].path);
    }
}

/// Each entry of a directory that was visited is visited or waits on the
/// agenda.
proof fn lemma_children_known(start: SearchState, seen: Seq<Sighting>, k: int, j: int)
    requires
        start.failure is None,
        unfailing(start, seen),
        visited_at(start, seen, k),
        seen[k] is Directory,
        0 <= j < seen[k]->children.len(),
    ensures
        known(start, seen, seen[k]->children[j]),
    decreases seen.len(),
{
    let earlier = seen.drop_last();
    let n = seen.len() - 1;
    let child = seen[k]->children[j];
    lemma_earlier(start, seen);
    if k == n {
        let after = start.run(seen);
        assert(after.agenda[j].path == child);
        assert(on_agenda(after, child));
    } else {
        assert(visited_at(start, earlier, k));
        lemma_children_known(start, earlier, k, j);
        lemma_known_grows(start, seen, child);
    }
}

/// A finished walk has visited every path of a chain that leads down from
/// a path that waited at the start.
proof fn lemma_chain_visited(
    tree: spec_fn(Seq<char>) -> Sighting,
    start: SearchState,
    seen: Seq<Sighting>,
    chain: Seq<Seq<char>>,
    i: int,
)
    requires
        start.failure is None,
        follows(tree, start, seen),
        unfailing(start, seen),
        !start.run(seen).active(),
        is_chain(tree, waiting(start), chain),
        0 <= i < chain.len(),
    ensures
        was_visited(start, seen, chain[i]),
    decreases i,
{
    lemma_only_failures_fail(start, seen);
    assert(start.run(seen).agenda.len() == 0);
    if i == 0 {
        let roots = waiting(start);
        let r = choose|r: int| 0 <= r < roots.len() && roots[r] == chain[0];
        lemma_waiting_known(start, seen, r);
    } else {
        lemma_chain_visited(tree, start, seen, chain, i - 1);
        let k = choose|k: int|
            visited_at(start, seen, k) && path_at(start, seen, k) == chain[i - 1];
        assert(seen[k] == tree(chain[i - 1]));
        let children = tree(chain[i - 1])->children;
        assert(children.contains(chain[i]));
        let j = choose|j: int| 0 <= j < children.len() && children[j] == chain[i];
        lemma_children_known(start, seen, k, j);
    }
}

/// Every path on the agenda waited at the start or lies below one that did.
proof fn lemma_agenda_reachable(
    tree: spec_fn(Seq<char>) -> Sighting,
    start: SearchState,
    seen: Seq<Sighting>,
    i: int,
)
    requires
        follows(tree, start, seen),
        0 <= i < start.run(seen).agenda.len(),
    ensures
        reachable(tree, waiting(start), start.run(seen).agenda[i].path),
    decreases seen.len(),
{
    let roots = waiting(start);
    if seen.len() == 0 {
        let chain = seq![start.agenda[i].path];
        assert(roots[i] == chain[0]);
        assert(is_chain(tree, roots, chain));
        assert(chain.last() == start.agenda[i].path);
    } else {
        let earlier = seen.drop_last();
        let n = seen.len() - 1;
        lemma_earlier(start, seen);
        assert(follows(tree, start, earlier)) by {
            assert forall|k: int| visited_at(start, earlier, k) implies earlier[k] == tree(
                path_at(start, earlier, k),
            ) by {
                assert(visited_at(start, seen, k));
            }
        }
        let before = start.run(earlier);
        let after = start.run(seen);
        if !before.active() {
            lemma_agenda_reachable(tree, start, earlier, i);
        } else {
            assert(visited_at(start, seen, n));
            assert(seen[n] == tree(before.agenda[0].path));
            match seen.last() {
                Sighting::Directory { children } => {
                    if i < children.len() {
                        lemma_agenda_reachable(tree, start, earlier, 0);
                        let parent = before.agenda[0].path;
                        let chain = choose|chain: Seq<Seq<char>>|
                            is_chain(tree, roots, chain) && chain.last() == parent;
                        let longer = chain.push(children[i]);
                        assert(after.agenda[i].path == children[i]);
                        assert forall|m: int| 0 <= m < longer.len() - 1 implies tree(
                            #[trigger] longer[m],
                        ) is Directory && tree(longer[m])->children.contains(longer[m + 1]) by {
                            if m < chain.len() - 1 {
                                assert(longer[m] == chain[m]);
                                assert(longer[m + 1] == chain[m + 1]);
                            } else {
                                assert(longer[m] == parent);
                                assert(longer[m + 1] == children[i]);
                            }
                        }
                        assert(longer[0] == chain[0]);
                        assert(is_chain(tree, roots, longer));
                        assert(longer.last() == children[i]);
                    } else {
                        let at = i - children.len() + 1;
                        assert(after.agenda[i] == before.agenda[at]);
                        lemma_agenda_reachable(tree, start, earlier, at);
                    }
                },
                Sighting::File { name } => {
                    assert(after.agenda[i] == before.agenda[i + 1]);
                    lemma_agenda_reachable(tree, start, earlier, i + 1);
                },
                Sighting::Vanished => {
                    assert(after.agenda[i] == before.agenda[i + 1]);
                    lemma_agenda_reachable(tree, start, earlier, i + 1);
                },
                Sighting::Failed { message } => {},
            }
        }
    }
}

/// A walk visits only the paths that waited at its start and what lies
/// below them.
pub proof fn lemma_visited_is_reachable(
    tree: spec_fn(Seq<char>) -> Sighting,
    start: SearchState,
    seen: Seq<Sighting>,
    path: Seq<char>,
)
    requires
        follows(tree, start, seen),
        was_visited(start, seen, path),
    ensures
        reachable(tree, waiting(start), path),
{
    let k = choose|k: int| visited_at(start, seen, k) && path_at(start, seen, k) == path;
    let upto = seen.take(k);
    assert forall|m: int| visited_at(start, upto, m) implies upto[m] == tree(
        path_at(start, upto, m),
    ) by {
        assert(upto.take(m) =~= seen.take(m));
        assert(visited_at(start, seen, m));
    }
    lemma_agenda_reachable(tree, start, upto, 0);
}

/// A walk that came to its end without a failure has visited every path
/// that waited at its start and everything that lies below one.
pub proof fn lemma_reachable_is_visited(
    tree: spec_fn(Seq<char>) -> Sighting,
    start: SearchState,
    seen: Seq<Sighting>,
    path: Seq<char>,
)
    requires
        start.failure is None,
        follows(tree, start, seen),
        unfailing(start, seen),
        !start.run(seen).active(),
        reachable(tree, waiting(start), path),
    ensures
        was_visited(start, seen, path),
{
    let chain = choose|chain: Seq<Seq<char>>|
        is_chain(tree, waiting(start), chain) && chain.last() == path;
    lemma_chain_visited(tree, start, seen, chain, chain.len() - 1);
}

/// What a walk adds to the paths it began with is a matching file that
/// waited at the start or lies below a path that did.
proof fn lemma_found_is_matching(
    tree: spec_fn(Seq<char>) -> Sighting,
    start: SearchState,
    seen: Seq<Sighting>,
    path: Seq<char>,
)
    requires
        start.failure is None,
        follows(tree, start, seen),
        unfailing(start, seen),
        start.run(seen).matches.contains(path),
        !start.matches.contains(path),
    ensures
        reachable(tree, waiting(start), path),
        matching_file(tree, start.patterns, path),
{
    lemma_reported_iff_matched(start, seen, path);
    let k = choose|k: int| hit(start, seen, k, path);
    lemma_run_keeps_settings(start, seen.take(k));
    assert(visited_at(start, seen, k) && path_at(start, seen, k) == path);
    assert(seen[k] == tree(path));
    lemma_visited_is_reachable(tree, start, seen, path);
}

/// A finished walk reports every matching file that waited at its start or
/// lies below a path that did.
proof fn lemma_matching_is_found(
    tree: spec_fn(Seq<char>) -> Sighting,
    start: SearchState,
    seen: Seq<Sighting>,
    path: Seq<char>,
)
    requires
        start.failure is None,
        follows(tree, start, seen),
        unfailing(start, seen),
        !start.run(seen).active(),
        reachable(tree, waiting(start), path),
        matching_file(tree, start.patterns, path),
    ensures
        start.run(seen).matches.contains(path),
{
    lemma_reachable_is_visited(tree, start, seen, path);
    let k = choose|k: int| visited_at(start, seen, k) && path_at(start, seen, k) == path;
    lemma_run_keeps_settings(start, seen.take(k));
    assert(seen[k] == tree(path));
    assert(hit(start, seen, k, path));
    lemma_reported_iff_matched(start, seen, path);
}

/// What a walk adds: from any state that has not failed, with whatever
/// paths wait and whatever was found before, a walk that saw at each
/// visit what the tree holds there, read every path it visited, and went on
/// until nothing was left ends with the paths it began with and, besides
/// them, exactly the matching files among the waiting paths and all that
/// lies below them. A walk below a single path is the case of one path
/// waiting.
pub proof fn lemma_walk_adds_the_matching_files(
    tree: spec_fn(Seq<char>) -> Sighting,
    start: SearchState,
    seen: Seq<Sighting>,
    path: Seq<char>,
)
    requires
        start.failure is None,
        follows(tree, start, seen),
        unfailing(start, seen),
        !start.run(seen).active(),
    ensures
        start.run(seen).failure is None,
        start.run(seen).matches.contains(path) <==> start.matches.contains(path) || (reachable(
            tree,
            waiting(start),
            path,
        ) && matching_file(tree, start.patterns, path)),
{
    lemma_reported_iff_matched(start, seen, path);
    if start.run(seen).matches.contains(path) && !start.matches.contains(path) {
        lemma_found_is_matching(tree, start, seen, path);
    }
    if reachable(tree, waiting(start), path) && matching_file(tree, start.patterns, path) {
        lemma_matching_is_found(tree, start, seen, path);
    }
}

/// The result of a finished search: a path is in it exactly if it is a root
/// or lies below one, is no directory, and has a base name that is text and
/// that one of the patterns matches. This holds of every search that saw at
/// each visit what the tree holds there, read every path it visited, and
/// went on until nothing was left to visit.
pub proof fn lemma_result_is_the_matching_files(
    tree: spec_fn(Seq<char>) -> Sighting,
    roots: Seq<Seq<char>>,
    patterns: Seq<Seq<char>>,
    verbose: bool,
    seen: Seq<Sighting>,
    path: Seq<char>,
)
    requires
        follows(tree, SearchState::initial(roots, patterns, verbose), seen),
        unfailing(SearchState::initial(roots, patterns, verbose), seen),
        !SearchState::initial(roots, patterns, verbose).run(seen).active(),
    ensures
        SearchState::initial(roots, patterns, verbose).run(seen).matches.contains(path) <==> (
        reachable(tree, roots, path) && matching_file(tree, patterns, path)),
{
    let start = SearchState::initial(roots, patterns, verbose);
    assert(waiting(start) =~= roots);
    lemma_walk_adds_the_matching_files(tree, start, seen, path);
}

} // verus!
