//! What holds of every backtracking search.
//!
//! Each law about [`Search::solve`] comes with the same law about
//! [`Search::explore`], since the two are defined by each other.
use super::model::{
    cannot_improve, first_terminal, first_terminal_behind, improves, is_best_of, legal,
    loosest_estimate, makes_progress, no_worse, sound_estimates, terminals, Search,
};
use super::State;
use crate::Type;
use vstd::prelude::*;

verus! {

/// The steps whose branches are walked are steps that may be taken.
pub proof fn lemma_candidates_are_legal<S: State>(search: Search<S>)
    requires
        search.state.valid(),
        !search.state.spec_is_final(),
    ensures
        forall|i: int|
            0 <= i < search.candidates().len() ==> legal(
                search.state,
                #[trigger] search.candidates()[i],
            ),
{
    let alternatives = search.state.spec_alternatives();
    let candidates = search.candidates();
    assert forall|i: int| 0 <= i < candidates.len() implies legal(
        search.state,
        #[trigger] candidates[i],
    ) by {
        alternatives.lemma_filter_contains_rev(search.is_to_explore(), candidates[i]);
    }
}

/// A step that may be taken and is not pruned is one of the steps whose
/// branches are walked.
pub proof fn lemma_unpruned_is_candidate<S: State>(search: Search<S>, a: S::Alternative)
    requires
        legal(search.state, a),
        !search.is_to_prune(a),
    ensures
        search.candidates().contains(a),
{
    let alternatives = search.state.spec_alternatives();
    let i = choose|i: int| 0 <= i < alternatives.len() && alternatives[i] == a;
    alternatives.lemma_filter_contains(search.is_to_explore(), i);
}

/// A search leaves the state where it was, keeps the number of solutions
/// that it was asked for, and finds finitely many solutions.
pub proof fn lemma_solve_keeps<S: State>(search: Search<S>)
    requires
        makes_progress::<S>(),
        search.wf(),
    ensures
        search.solve().wf(),
        search.solve().state == search.state,
        search.solve().solution_count == search.solution_count,
    decreases search.state.spec_size(), 1nat, 0nat,
{
    if !search.state.spec_is_final() {
        lemma_candidates_are_legal(search);
        lemma_explore_keeps(search, search.candidates());
    }
}

/// What [`lemma_solve_keeps`] says, of the walk through some branches.
pub proof fn lemma_explore_keeps<S: State>(search: Search<S>, candidates: Seq<S::Alternative>)
    requires
        makes_progress::<S>(),
        search.wf(),
        forall|i: int| 0 <= i < candidates.len() ==> legal(search.state, #[trigger] candidates[i]),
    ensures
        search.explore(candidates).wf(),
        search.explore(candidates).state == search.state,
        search.explore(candidates).solution_count == search.solution_count,
    decreases search.state.spec_size(), 0nat, candidates.len(),
{
    if candidates.len() > 0 {
        let below = search.at(search.state.spec_forward(candidates[0]));
        lemma_solve_keeps(below);
        let back = below.solve().at(search.state);
        if !back.success {
            lemma_explore_keeps(back, candidates.drop_first());
        }
    }
}

/// How the solutions of a search grow. None is lost. Once a final state
/// has been looked at, the mark of success says whether the solutions are as
/// many as were asked for. And the search ends within the number asked for,
/// or with at most one solution more than it began with.
pub proof fn lemma_solve_counts<S: State>(search: Search<S>)
    requires
        makes_progress::<S>(),
        search.wf(),
    ensures
        search.solutions.subset_of(search.solve().solutions),
        search.solutions.len() <= search.solve().solutions.len(),
        search.solve() == search || (search.solve().success <==> search.solve().solutions.len()
            >= search.solution_count),
        search.solve().solutions.len() <= search.solution_count || search.solve().solutions.len()
            <= search.solutions.len() + 1,
    decreases search.state.spec_size(), 1nat, 0nat,
{
    if !search.state.spec_is_final() {
        lemma_candidates_are_legal(search);
        lemma_explore_counts(search, search.candidates());
    }
}

/// What [`lemma_solve_counts`] says, of the walk through some branches.
pub proof fn lemma_explore_counts<S: State>(search: Search<S>, candidates: Seq<S::Alternative>)
    requires
        makes_progress::<S>(),
        search.wf(),
        forall|i: int| 0 <= i < candidates.len() ==> legal(search.state, #[trigger] candidates[i]),
    ensures
        search.solutions.subset_of(search.explore(candidates).solutions),
        search.solutions.len() <= search.explore(candidates).solutions.len(),
        search.explore(candidates) == search || (search.explore(candidates).success
            <==> search.explore(candidates).solutions.len() >= search.solution_count),
        search.explore(candidates).solutions.len() <= search.solution_count || search.explore(
            candidates,
        ).solutions.len() <= search.solutions.len() + 1,
    decreases search.state.spec_size(), 0nat, candidates.len(),
{
    if candidates.len() > 0 {
        let below = search.at(search.state.spec_forward(candidates[0]));
        lemma_solve_keeps(below);
        lemma_solve_counts(below);
        let back = below.solve().at(search.state);
        if !back.success {
            lemma_explore_counts(back, candidates.drop_first());
        }
    }
}

/// A search that begins with fewer solutions than it was asked for ends with
/// no more than it was asked for.
pub proof fn lemma_cap_respected<S: State>(search: Search<S>)
    requires
        makes_progress::<S>(),
        search.wf(),
        search.solutions.len() < search.solution_count,
    ensures
        search.solve().solutions.len() <= search.solution_count,
{
    lemma_solve_counts(search);
}

/// The final states below a state are valid and final, and of the state's
/// problem type.
pub proof fn lemma_terminals_are_final<S: State>(state: S, t: S)
    requires
        makes_progress::<S>(),
        state.valid(),
        terminals(state).contains(t),
    ensures
        t.valid(),
        t.spec_is_final(),
        t.spec_problem_type() == state.spec_problem_type(),
    decreases state.spec_size(),
{
    if !state.spec_is_final() {
        let a = choose|a: S::Alternative|
            legal(state, a) && terminals(#[trigger] state.spec_forward(a)).contains(t);
        lemma_terminals_are_final(state.spec_forward(a), t);
    }
}

/// The final states behind the steps `steps` from `state`.
spec fn terminals_behind<S: State>(state: S, steps: Seq<S::Alternative>) -> Set<S>
    decreases steps.len(),
{
    if steps.len() == 0 {
        Set::empty()
    } else {
        terminals_behind(state, steps.drop_last()).union(
            terminals(state.spec_forward(steps.last())),
        )
    }
}

/// Below a state there are finitely many final states.
pub proof fn lemma_terminals_finite<S: State>(state: S)
    requires
        makes_progress::<S>(),
        state.valid(),
    ensures
        terminals(state).finite(),
    decreases state.spec_size(), 1nat, 0nat,
{
    if !state.spec_is_final() {
        let steps = state.spec_alternatives();
        lemma_terminals_behind(state, steps);
        assert forall|t: S| terminals(state).contains(t) implies terminals_behind(
            state,
            steps,
        ).contains(t) by {
            let a = choose|a: S::Alternative|
                legal(state, a) && terminals(#[trigger] state.spec_forward(a)).contains(t);
            let i = choose|i: int| 0 <= i < steps.len() && steps[i] == a;
            assert(terminals(state.spec_forward(steps[i])).contains(t));
        }
        assert(terminals(state) =~= terminals_behind(state, steps));
    }
}

/// The final states behind some steps are finitely many, and each lies
/// below the state that one of the steps leads to.
proof fn lemma_terminals_behind<S: State>(state: S, steps: Seq<S::Alternative>)
    requires
        makes_progress::<S>(),
        forall|i: int| 0 <= i < steps.len() ==> legal(state, #[trigger] steps[i]),
    ensures
        terminals_behind(state, steps).finite(),
        forall|t: S| #[trigger]
            terminals_behind(state, steps).contains(t) <==> exists|i: int|
                0 <= i < steps.len() && #[trigger] terminals(state.spec_forward(steps[i])).contains(
                    t,
                ),
    decreases state.spec_size(), 0nat, steps.len(),
{
    if steps.len() > 0 {
        let front = steps.drop_last();
        let last = steps.last();
        lemma_terminals_behind(state, front);
        lemma_terminals_finite(state.spec_forward(last));
        assert forall|t: S| #[trigger]
            terminals_behind(state, steps).contains(t) <==> exists|i: int|
                0 <= i < steps.len() && #[trigger] terminals(state.spec_forward(steps[i])).contains(
                    t,
                ) by {
            if terminals_behind(state, front).contains(t) {
                let i = choose|i: int|
                    0 <= i < front.len() && #[trigger] terminals(
                        state.spec_forward(front[i]),
                    ).contains(t);
                assert(terminals(state.spec_forward(steps[i])).contains(t));
            }
            if exists|i: int|
                0 <= i < steps.len() && #[trigger] terminals(state.spec_forward(steps[i])).contains(
                    t,
                ) {
                let i = choose|i: int|
                    0 <= i < steps.len() && #[trigger] terminals(
                        state.spec_forward(steps[i]),
                    ).contains(t);
                if i < front.len() {
                    assert(terminals(state.spec_forward(front[i])).contains(t));
                }
            }
        }
    }
}

/// What a search finds, it finds below the state it holds: each solution
/// is one it began with or a final state of the tree.
pub proof fn lemma_solutions_are_terminals<S: State>(search: Search<S>)
    requires
        makes_progress::<S>(),
        search.wf(),
    ensures
        search.solve().solutions.subset_of(search.solutions.union(terminals(search.state))),
    decreases search.state.spec_size(), 1nat, 0nat,
{
    if !search.state.spec_is_final() {
        lemma_candidates_are_legal(search);
        lemma_explored_are_terminals(search, search.candidates());
    }
}

/// What [`lemma_solutions_are_terminals`] says, of the walk through some
/// branches.
pub proof fn lemma_explored_are_terminals<S: State>(
    search: Search<S>,
    candidates: Seq<S::Alternative>,
)
    requires
        makes_progress::<S>(),
        search.wf(),
        forall|i: int| 0 <= i < candidates.len() ==> legal(search.state, #[trigger] candidates[i]),
    ensures
        search.explore(candidates).solutions.subset_of(
            search.solutions.union(terminals(search.state)),
        ),
    decreases search.state.spec_size(), 0nat, candidates.len(),
{
    if candidates.len() > 0 {
        let below = search.at(search.state.spec_forward(candidates[0]));
        lemma_solve_keeps(below);
        lemma_solutions_are_terminals(below);
        let back = below.solve().at(search.state);
        if !back.success {
            lemma_explored_are_terminals(back, candidates.drop_first());
        }
    }
}

/// Where every solution counts, a search that is not cut short finds every
/// final state of the tree. Here the solutions are held against a finite
/// set that holds them all and is no larger than the number asked for: once
/// the search is marked a success, it has found all of that set.
pub proof fn lemma_solve_enumerates<S: State>(search: Search<S>, universe: Set<S>)
    requires
        makes_progress::<S>(),
        search.wf(),
        search.state.spec_problem_type() == Type::All,
        universe.finite(),
        universe.len() <= search.solution_count,
        search.solutions.subset_of(universe),
        terminals(search.state).subset_of(universe),
        search.success ==> search.solutions == universe,
    ensures
        search.solve().solutions.subset_of(universe),
        search.solutions.subset_of(search.solve().solutions),
        terminals(search.state).subset_of(search.solve().solutions),
        search.solve().success ==> search.solve().solutions == universe,
    decreases search.state.spec_size(), 1nat, 0nat,
{
    if search.state.spec_is_final() {
        let found = search.update_solutions();
        if found.solutions.len() >= found.solution_count {
            vstd::set_lib::lemma_len_subset(found.solutions, universe);
            vstd::set_lib::lemma_subset_equality(found.solutions, universe);
        }
    } else {
        let state = search.state;
        let steps = search.candidates();
        lemma_candidates_are_legal(search);
        lemma_explore_enumerates(search, steps, universe);
        assert forall|t: S| terminals(state).contains(t) implies search.solve().solutions.contains(
            t,
        ) by {
            let a = choose|a: S::Alternative|
                legal(state, a) && terminals(#[trigger] state.spec_forward(a)).contains(t);
            lemma_unpruned_is_candidate(search, a);
            let i = choose|i: int| 0 <= i < steps.len() && steps[i] == a;
            assert(terminals(state.spec_forward(steps[i])).contains(t));
        }
    }
}

/// What [`lemma_solve_enumerates`] says, of the walk through some branches.
pub proof fn lemma_explore_enumerates<S: State>(
    search: Search<S>,
    candidates: Seq<S::Alternative>,
    universe: Set<S>,
)
    requires
        makes_progress::<S>(),
        search.wf(),
        search.state.spec_problem_type() == Type::All,
        forall|i: int| 0 <= i < candidates.len() ==> legal(search.state, #[trigger] candidates[i]),
        universe.finite(),
        universe.len() <= search.solution_count,
        search.solutions.subset_of(universe),
        terminals(search.state).subset_of(universe),
        search.success ==> search.solutions == universe,
    ensures
        search.explore(candidates).solutions.subset_of(universe),
        search.solutions.subset_of(search.explore(candidates).solutions),
        forall|i: int|
            0 <= i < candidates.len() ==> terminals(
                #[trigger] search.state.spec_forward(candidates[i]),
            ).subset_of(search.explore(candidates).solutions),
        search.explore(candidates).success ==> search.explore(candidates).solutions == universe,
    decreases search.state.spec_size(), 0nat, candidates.len(),
{
    if candidates.len() > 0 {
        let rest = candidates.drop_first();
        let below = search.at(search.state.spec_forward(candidates[0]));
        lemma_solve_keeps(below);
        lemma_solve_enumerates(below, universe);
        let back = below.solve().at(search.state);
        if !back.success {
            lemma_explore_enumerates(back, rest, universe);
            assert forall|i: int| 0 <= i < candidates.len() implies terminals(
                #[trigger] search.state.spec_forward(candidates[i]),
            ).subset_of(search.explore(candidates).solutions) by {
                if i > 0 {
                    assert(candidates[i] == rest[i - 1]);
                }
            }
        }
    }
}

/// Where every solution counts, a search that was asked for no fewer
/// solutions than there are ends with exactly the solutions it began with
/// and the final states of the tree.
pub proof fn lemma_enumeration_complete<S: State>(search: Search<S>)
    requires
        makes_progress::<S>(),
        search.wf(),
        search.state.spec_problem_type() == Type::All,
        !search.success,
        search.solutions.union(terminals(search.state)).len() <= search.solution_count,
    ensures
        search.solve().solutions == search.solutions.union(terminals(search.state)),
{
    let universe = search.solutions.union(terminals(search.state));
    lemma_terminals_finite(search.state);
    lemma_solve_enumerates(search, universe);
    assert(search.solve().solutions =~= universe);
}

/// A test that every item passes filters nothing out.
proof fn lemma_filter_keeps_all<A>(items: Seq<A>, test: spec_fn(A) -> bool)
    requires
        forall|i: int| 0 <= i < items.len() ==> test(#[trigger] items[i]),
    ensures
        items.filter(test) == items,
    decreases items.len(),
{
    reveal(Seq::filter);
    if items.len() > 0 {
        lemma_filter_keeps_all(items.drop_last(), test);
        assert(items.drop_last().push(items.last()) =~= items);
    }
}

/// Where every solution counts, no branch is left out.
pub proof fn lemma_nothing_is_pruned<S: State>(search: Search<S>)
    requires
        search.state.spec_problem_type() == Type::All,
    ensures
        search.candidates() == search.state.spec_alternatives(),
{
    lemma_filter_keeps_all(search.state.spec_alternatives(), search.is_to_explore());
}

/// Where every solution counts, a search that was asked for one solution
/// stops at the first final state it comes to: it ends with that state
/// added to its solutions, and as it began where the tree has no final
/// state.
pub proof fn lemma_stops_at_first<S: State>(search: Search<S>)
    requires
        makes_progress::<S>(),
        search.wf(),
        search.state.spec_problem_type() == Type::All,
        search.solution_count <= 1,
        !search.success,
    ensures
        match first_terminal(search.state) {
            Some(t) => search.solve().success && search.solve().solutions
                == search.solutions.insert(t),
            None => search.solve() == search,
        },
    decreases search.state.spec_size(), 1nat, 0nat,
{
    if !search.state.spec_is_final() {
        lemma_nothing_is_pruned(search);
        lemma_stops_at_first_behind(search, search.state.spec_alternatives());
    }
}

/// What [`lemma_stops_at_first`] says, of the walk through some branches.
pub proof fn lemma_stops_at_first_behind<S: State>(
    search: Search<S>,
    candidates: Seq<S::Alternative>,
)
    requires
        makes_progress::<S>(),
        search.wf(),
        search.state.spec_problem_type() == Type::All,
        search.solution_count <= 1,
        !search.success,
        forall|i: int| 0 <= i < candidates.len() ==> legal(search.state, #[trigger] candidates[i]),
    ensures
        match first_terminal_behind(search.state, candidates) {
            Some(t) => search.explore(candidates).success && search.explore(candidates).solutions
                == search.solutions.insert(t),
            None => search.explore(candidates) == search,
        },
    decreases search.state.spec_size(), 0nat, candidates.len(),
{
    if candidates.len() > 0 {
        let below = search.at(search.state.spec_forward(candidates[0]));
        lemma_stops_at_first(below);
        let back = below.solve().at(search.state);
        if !back.success {
            assert(back == search);
            lemma_stops_at_first_behind(search, candidates.drop_first());
        }
    }
}

/// The best value of a search never gets worse, and it is the value the
/// search began with or the value of a final state of the tree.
pub proof fn lemma_best_value_is_found<S: State>(search: Search<S>)
    requires
        makes_progress::<S>(),
        search.wf(),
    ensures
        no_worse(search.state.spec_problem_type(), search.solve().best_value, search.best_value),
        search.solve().best_value == search.best_value || exists|t: S|
            terminals(search.state).contains(t) && #[trigger] t.spec_value()
                == search.solve().best_value,
    decreases search.state.spec_size(), 1nat, 0nat,
{
    if search.state.spec_is_final() {
        assert(terminals(search.state).contains(search.state));
    } else {
        lemma_candidates_are_legal(search);
        lemma_best_value_is_explored(search, search.candidates());
    }
}

/// What [`lemma_best_value_is_found`] says, of the walk through some
/// branches.
pub proof fn lemma_best_value_is_explored<S: State>(
    search: Search<S>,
    candidates: Seq<S::Alternative>,
)
    requires
        makes_progress::<S>(),
        search.wf(),
        forall|i: int| 0 <= i < candidates.len() ==> legal(search.state, #[trigger] candidates[i]),
    ensures
        no_worse(
            search.state.spec_problem_type(),
            search.explore(candidates).best_value,
            search.best_value,
        ),
        search.explore(candidates).best_value == search.best_value || exists|t: S|
            terminals(search.state).contains(t) && #[trigger] t.spec_value() == search.explore(
                candidates,
            ).best_value,
    decreases search.state.spec_size(), 0nat, candidates.len(),
{
    if candidates.len() > 0 {
        let below = search.at(search.state.spec_forward(candidates[0]));
        lemma_solve_keeps(below);
        lemma_best_value_is_found(below);
        let back = below.solve().at(search.state);
        if !back.success {
            lemma_best_value_is_explored(back, candidates.drop_first());
        }
    }
}

/// Solutions are taken as they come: where the search is for the largest or
/// the smallest value, each solution that a search adds improves on the best
/// value that the search began with, and none is better than the best value
/// that it ends with.
pub proof fn lemma_solutions_improve<S: State>(search: Search<S>)
    requires
        makes_progress::<S>(),
        search.wf(),
        search.state.spec_problem_type() != Type::All,
    ensures
        forall|t: S|
            search.solve().solutions.contains(t) && !search.solutions.contains(t) ==> {
                &&& improves(
                    search.state.spec_problem_type(),
                    #[trigger] t.spec_value(),
                    search.best_value,
                )
                &&& no_worse(
                    search.state.spec_problem_type(),
                    search.solve().best_value,
                    t.spec_value(),
                )
            },
    decreases search.state.spec_size(), 1nat, 0nat,
{
    if !search.state.spec_is_final() {
        lemma_candidates_are_legal(search);
        lemma_explored_improve(search, search.candidates());
    }
}

/// What [`lemma_solutions_improve`] says, of the walk through some branches.
pub proof fn lemma_explored_improve<S: State>(search: Search<S>, candidates: Seq<S::Alternative>)
    requires
        makes_progress::<S>(),
        search.wf(),
        search.state.spec_problem_type() != Type::All,
        forall|i: int| 0 <= i < candidates.len() ==> legal(search.state, #[trigger] candidates[i]),
    ensures
        forall|t: S|
            search.explore(candidates).solutions.contains(t) && !search.solutions.contains(t) ==> {
                &&& improves(
                    search.state.spec_problem_type(),
                    #[trigger] t.spec_value(),
                    search.best_value,
                )
                &&& no_worse(
                    search.state.spec_problem_type(),
                    search.explore(candidates).best_value,
                    t.spec_value(),
                )
            },
    decreases search.state.spec_size(), 0nat, candidates.len(),
{
    if candidates.len() > 0 {
        let below = search.at(search.state.spec_forward(candidates[0]));
        lemma_solve_keeps(below);
        lemma_solutions_improve(below);
        lemma_best_value_is_found(below);
        let back = below.solve().at(search.state);
        if !back.success {
            let rest = candidates.drop_first();
            lemma_explored_improve(back, rest);
            lemma_best_value_is_explored(back, rest);
        }
    }
}

/// With estimates that are bounds, nothing is lost by pruning: a search for
/// the largest or the smallest value that ends without being cut short ends
/// with a best value that no final state of the tree improves on.
pub proof fn lemma_solve_is_optimal<S: State>(search: Search<S>)
    requires
        makes_progress::<S>(),
        search.wf(),
        search.state.spec_problem_type() != Type::All,
        sound_estimates(search.state),
        !search.solve().success,
    ensures
        forall|t: S|
            terminals(search.state).contains(t) ==> no_worse(
                search.state.spec_problem_type(),
                search.solve().best_value,
                #[trigger] t.spec_value(),
            ),
    decreases search.state.spec_size(), 1nat, 0nat,
{
    if !search.state.spec_is_final() {
        let state = search.state;
        let steps = search.candidates();
        lemma_candidates_are_legal(search);
        lemma_explore_is_optimal(search, steps);
        lemma_best_value_is_explored(search, steps);
        assert forall|t: S| terminals(state).contains(t) implies no_worse(
            state.spec_problem_type(),
            search.solve().best_value,
            #[trigger] t.spec_value(),
        ) by {
            let a = choose|a: S::Alternative|
                legal(state, a) && terminals(#[trigger] state.spec_forward(a)).contains(t);
            if search.is_to_prune(a) {
                // The step was estimated no better than the best value of
                // the start, and `t` is no better than the estimate.
                assert(no_worse(
                    state.spec_problem_type(),
                    state.spec_estimated_value(a),
                    t.spec_value(),
                ));
            } else {
                lemma_unpruned_is_candidate(search, a);
                let i = choose|i: int| 0 <= i < steps.len() && steps[i] == a;
                assert(terminals(state.spec_forward(steps[i])).contains(t));
            }
        }
    }
}

/// What [`lemma_solve_is_optimal`] says, of the walk through some branches.
pub proof fn lemma_explore_is_optimal<S: State>(search: Search<S>, candidates: Seq<S::Alternative>)
    requires
        makes_progress::<S>(),
        search.wf(),
        search.state.spec_problem_type() != Type::All,
        forall|i: int| 0 <= i < candidates.len() ==> legal(search.state, #[trigger] candidates[i]),
        sound_estimates(search.state),
        !search.explore(candidates).success,
    ensures
        forall|i: int, t: S|
            0 <= i < candidates.len() && terminals(
                #[trigger] search.state.spec_forward(candidates[i]),
            ).contains(t) ==> no_worse(
                search.state.spec_problem_type(),
                search.explore(candidates).best_value,
                #[trigger] t.spec_value(),
            ),
    decreases search.state.spec_size(), 0nat, candidates.len(),
{
    if candidates.len() > 0 {
        let rest = candidates.drop_first();
        let below = search.at(search.state.spec_forward(candidates[0]));
        lemma_solve_keeps(below);
        lemma_solve_is_optimal(below);
        let back = below.solve().at(search.state);
        lemma_explore_is_optimal(back, rest);
        lemma_best_value_is_explored(back, rest);
        assert forall|i: int, t: S|
            0 <= i < candidates.len() && terminals(
                #[trigger] search.state.spec_forward(candidates[i]),
            ).contains(t) implies no_worse(
            search.state.spec_problem_type(),
            search.explore(candidates).best_value,
            #[trigger] t.spec_value(),
        ) by {
            if i > 0 {
                assert(terminals(back.state.spec_forward(rest[i - 1])).contains(t));
            }
        }
    }
}

/// Pruning is sound: with estimates that are bounds, a search for the
/// largest or the smallest value that ends without being cut short ends
/// with the best of the value it began with and the values of all final
/// states of the tree, as a search that leaves no branch out would.
pub proof fn lemma_pruning_is_sound<S: State>(search: Search<S>)
    requires
        makes_progress::<S>(),
        search.wf(),
        search.state.spec_problem_type() != Type::All,
        sound_estimates(search.state),
        !search.solve().success,
    ensures
        is_best_of(
            search.state.spec_problem_type(),
            search.solve().best_value,
            search.best_value,
            terminals(search.state),
        ),
{
    lemma_best_value_is_found(search);
    lemma_solve_is_optimal(search);
}

/// There is one best value: two values that are each the best of the same
/// start and the same final states are one value.
pub proof fn lemma_best_is_unique<S: State>(
    problem_type: Type,
    best: i64,
    other: i64,
    start: i64,
    finals: Set<S>,
)
    requires
        problem_type != Type::All,
        is_best_of(problem_type, best, start, finals),
        is_best_of(problem_type, other, start, finals),
    ensures
        best == other,
{
}

/// The estimate that rules nothing out is a bound.
pub proof fn lemma_loosest_estimates_are_sound<S: State>(state: S)
    requires
        makes_progress::<S>(),
        state.valid(),
        forall|s: S, a: S::Alternative|
            legal(s, a) ==> #[trigger] s.spec_estimated_value(a) == loosest_estimate(
                s.spec_problem_type(),
            ),
    ensures
        sound_estimates(state),
    decreases state.spec_size(),
{
    if !state.spec_is_final() {
        assert forall|a: S::Alternative| legal(state, a) implies sound_estimates(
            #[trigger] state.spec_forward(a),
        ) by {
            lemma_loosest_estimates_are_sound(state.spec_forward(a));
        }
    }
}

/// The estimate that rules nothing out leaves a branch out only where no
/// value could be taken as a solution any more.
pub proof fn lemma_loosest_estimate_loses_nothing(problem_type: Type, best_value: i64, value: i64)
    requires
        cannot_improve(problem_type, loosest_estimate(problem_type), best_value),
    ensures
        !improves(problem_type, value, best_value),
{
}

} // verus!
