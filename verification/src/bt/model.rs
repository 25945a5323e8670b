//! What a backtracking search computes, as mathematics.
use super::State;
use crate::Type;
use vstd::prelude::*;

verus! {

/// The value that every value of a final state improves on, but for that
/// value itself. Where every solution counts it is never looked at.
pub open spec fn worst_value(problem_type: Type) -> i64 {
    match problem_type {
        Type::Max => i64::MIN,
        Type::Min => i64::MAX,
        Type::All => 0,
    }
}

/// The estimate that rules out no branch that could improve on what was
/// found. Where every solution counts it is never looked at.
pub open spec fn loosest_estimate(problem_type: Type) -> i64 {
    match problem_type {
        Type::Max => i64::MAX,
        Type::Min => i64::MIN,
        Type::All => 0,
    }
}

/// Whether `a` is a step that the search may take from `s`.
pub open spec fn legal<S: State>(s: S, a: S::Alternative) -> bool {
    s.valid() && !s.spec_is_final() && s.spec_alternatives().contains(a)
}

/// The law of progress: every legal step leads to a valid state of the same
/// problem type and of a smaller size.
pub open spec fn makes_progress<S: State>() -> bool {
    forall|s: S, a: S::Alternative|
        legal(s, a) ==> {
            &&& (#[trigger] s.spec_forward(a)).valid()
            &&& s.spec_forward(a).spec_size() < s.spec_size()
            &&& s.spec_forward(a).spec_problem_type() == s.spec_problem_type()
        }
}

/// Whether a final state of the value `value` is taken as a solution when
/// the best value so far is `best_value`.
pub open spec fn improves(problem_type: Type, value: i64, best_value: i64) -> bool {
    match problem_type {
        Type::Max => value > best_value,
        Type::Min => value < best_value,
        Type::All => true,
    }
}

/// Whether a branch whose final states are estimated at `estimate` is left
/// out when the best value so far is `best_value`.
pub open spec fn cannot_improve(problem_type: Type, estimate: i64, best_value: i64) -> bool {
    match problem_type {
        Type::Max => estimate <= best_value,
        Type::Min => estimate >= best_value,
        Type::All => false,
    }
}

/// A search at one moment: the state it holds, what it was asked for and
/// what it has found.
#[verifier::reject_recursive_types(S)]
pub struct Search<S: State> {
    /// The state that the search holds.
    pub state: S,
    /// The number of solutions at which the search stops.
    pub solution_count: nat,
    /// The solutions found.
    pub solutions: Set<S>,
    /// The value of the solution found last.
    pub best_value: i64,
    /// Whether the search has stopped because it has solutions enough.
    pub success: bool,
}

impl<S: State> Search<S> {
    /// What every search keeps to: the state is valid and the solutions are
    /// finitely many.
    pub open spec fn wf(self) -> bool {
        self.state.valid() && self.solutions.finite()
    }

    /// This search, holding `state`.
    pub open spec fn at(self, state: S) -> Self {
        Search { state, ..self }
    }

    /// The search after it has looked at the final state it holds: the
    /// state joins the solutions, and its value becomes the best value, if it
    /// improves on the best value so far.
    pub open spec fn update_solutions(self) -> Self {
        let value = self.state.spec_value();
        if improves(self.state.spec_problem_type(), value, self.best_value) {
            Search { solutions: self.solutions.insert(self.state), best_value: value, ..self }
        } else {
            self
        }
    }

    /// Whether the branch behind the step `a` is left out.
    pub open spec fn is_to_prune(self, a: S::Alternative) -> bool {
        cannot_improve(
            self.state.spec_problem_type(),
            self.state.spec_estimated_value(a),
            self.best_value,
        )
    }

    /// The test that a step passes if its branch is walked.
    pub open spec fn is_to_explore(self) -> spec_fn(S::Alternative) -> bool {
        |a: S::Alternative| !self.is_to_prune(a)
    }

    /// The steps whose branches are walked, in the order of the state's
    /// alternatives. They are chosen before the first of them is taken, by
    /// the best value of that moment.
    pub open spec fn candidates(self) -> Seq<S::Alternative> {
        self.state.spec_alternatives().filter(self.is_to_explore())
    }

    /// The search after it has walked the tree below the state it holds.
    pub open spec fn solve(self) -> Self
        decreases self.state.spec_size(), 1nat, 0nat,
        when makes_progress::<S>() && self.state.valid()
    {
        if self.state.spec_is_final() {
            let found = self.update_solutions();
            Search { success: found.solutions.len() >= found.solution_count, ..found }
        } else {
            self.explore(self.candidates())
        }
    }

    /// The search after it has walked the branches behind `candidates` one
    /// after the other, up to the first that leaves it with solutions
    /// enough.
    pub open spec fn explore(self, candidates: Seq<S::Alternative>) -> Self
        decreases self.state.spec_size(), 0nat, candidates.len(),
        when makes_progress::<S>() && forall|i: int|
            0 <= i < candidates.len() ==> legal(self.state, #[trigger] candidates[i])
    {
        if candidates.len() == 0 {
            self
        } else {
            let below = self.at(self.state.spec_forward(candidates[0])).solve();
            let back = below.at(self.state);
            if back.success {
                back
            } else {
                back.explore(candidates.drop_first())
            }
        }
    }
}

/// The final states of the tree below `state`: the state itself if it is
/// final, else the final states below the states that its steps lead to.
pub open spec fn terminals<S: State>(state: S) -> Set<S>
    decreases state.spec_size(),
    when makes_progress::<S>() && state.valid()
{
    if state.spec_is_final() {
        set![state]
    } else {
        Set::new(
            |t: S|
                exists|a: S::Alternative|
                    legal(state, a) && terminals(#[trigger] state.spec_forward(a)).contains(t),
        )
    }
}

/// Whether `value` is at least as good as `other`. Where every solution
/// counts, any value is as good as any other.
pub open spec fn no_worse(problem_type: Type, value: i64, other: i64) -> bool {
    match problem_type {
        Type::Max => value >= other,
        Type::Min => value <= other,
        Type::All => true,
    }
}

/// Whether `best` is the best of `start` and the values of `finals`: it is
/// one of them, and none of them is better.
pub open spec fn is_best_of<S: State>(
    problem_type: Type,
    best: i64,
    start: i64,
    finals: Set<S>,
) -> bool {
    &&& no_worse(problem_type, best, start)
    &&& forall|t: S| finals.contains(t) ==> no_worse(problem_type, best, #[trigger] t.spec_value())
    &&& best == start || exists|t: S| finals.contains(t) && #[trigger] t.spec_value() == best
}

/// Whether every estimate in the tree below `state` is a bound: no final
/// state behind a step is better than the step was estimated.
pub open spec fn sound_estimates<S: State>(state: S) -> bool
    decreases state.spec_size(),
    when makes_progress::<S>() && state.valid()
{
    state.spec_is_final() || forall|a: S::Alternative|
        legal(state, a) ==> {
            &&& sound_estimates(#[trigger] state.spec_forward(a))
            &&& forall|t: S|
                terminals(state.spec_forward(a)).contains(t) ==> no_worse(
                    state.spec_problem_type(),
                    state.spec_estimated_value(a),
                    #[trigger] t.spec_value(),
                )
        }
}

/// The final state that a walk of the tree below `state` comes to first,
/// if the tree has one.
pub open spec fn first_terminal<S: State>(state: S) -> Option<S>
    decreases state.spec_size(), 1nat, 0nat,
    when makes_progress::<S>() && state.valid()
{
    if state.spec_is_final() {
        Some(state)
    } else {
        first_terminal_behind(state, state.spec_alternatives())
    }
}

/// The final state that a walk of the branches behind `steps` comes to
/// first, if the branches have one.
pub open spec fn first_terminal_behind<S: State>(state: S, steps: Seq<S::Alternative>) -> Option<S>
    decreases state.spec_size(), 0nat, steps.len(),
    when makes_progress::<S>() && forall|i: int|
        0 <= i < steps.len() ==> legal(state, #[trigger] steps[i])
{
    if steps.len() == 0 {
        None
    } else {
        match first_terminal(state.spec_forward(steps[0])) {
            Some(t) => Some(t),
            None => first_terminal_behind(state, steps.drop_first()),
        }
    }
}

} // verus!
