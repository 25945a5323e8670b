//! The backtracking strategy.
//!
//! A search tree is walked depth first. Each step from a state to the next
//! is taken on the one state that the search holds and is taken back when
//! the branch behind it has been walked. Branches that cannot lead to
//! anything better than what was already found are left out.
//!
//! Describe the problem by implementing [`State`], then hand its first state
//! to [`Algorithm`].
use crate::clones_exactly;
use crate::keys_by_value;
use crate::Type;
use model::{makes_progress, Search};
use std::collections::HashSet;
use std::hash::Hash;
use vstd::prelude::*;
use vstd::std_specs::hash::group_hash_axioms;

pub mod laws;
pub mod model;

verus! {

broadcast use group_hash_axioms;

/// The state of a backtracking problem.
///
/// It is called a state and not a problem because it is no mere
/// description: it holds the values while the search runs. The state that is
/// handed to the search is the problem's first state.
///
/// Every executable method has a specification twin, named `spec_` and the
/// method's name, that says what the method returns. The search is specified
/// over the twins. An implementation that is to be verified overrides them;
/// the twins that come with the trait leave the method's meaning open, but
/// for the two that repeat a rule of this module.
///
/// Two methods have a rule that most problems share, which an implementation
/// may call: [`default_is_final`] for [`State::is_final`] and
/// [`default_estimated_value`] for [`State::estimated_value`].
///
/// States are told apart by their value: the state that
/// [`State::backward`] leaves is equal to the one that [`State::forward`]
/// found.
pub trait State: Sized {
    /// What a final state stands for.
    type Solution;

    /// One way to go on from a state.
    type Alternative: Clone;

    /// The states that a search may hold.
    open spec fn valid(&self) -> bool {
        true
    }

    /// What [`State::problem_type`] returns.
    open spec fn spec_problem_type(&self) -> Type {
        arbitrary()
    }

    /// What [`State::size`] returns.
    open spec fn spec_size(&self) -> nat {
        arbitrary()
    }

    /// What [`State::is_final`] returns: by default, whether nothing is left
    /// of the problem.
    open spec fn spec_is_final(&self) -> bool {
        self.spec_size() == 0
    }

    /// What [`State::alternatives`] returns.
    open spec fn spec_alternatives(&self) -> Seq<Self::Alternative> {
        arbitrary()
    }

    /// The state that [`State::forward`] leaves.
    open spec fn spec_forward(&self, a: Self::Alternative) -> Self {
        arbitrary()
    }

    /// What [`State::value`] returns.
    open spec fn spec_value(&self) -> i64 {
        arbitrary()
    }

    /// What [`State::estimated_value`] returns: by default, the estimate
    /// that rules nothing out.
    open spec fn spec_estimated_value(&self, a: Self::Alternative) -> i64 {
        model::loosest_estimate(self.spec_problem_type())
    }

    /// What [`State::solution`] returns.
    open spec fn spec_solution(&self) -> Option<Self::Solution> {
        arbitrary()
    }

    /// Whether the search looks for the largest value, the smallest value or
    /// every solution. It is the same in every state of one problem.
    fn problem_type(&self) -> (t: Type)
        requires
            self.valid(),
        ensures
            t == self.spec_problem_type(),
    ;

    /// The size of the problem that is left, usually called `n`. It gets
    /// smaller with every step forward.
    fn size(&self) -> (n: usize)
        requires
            self.valid(),
        ensures
            n == self.spec_size(),
    ;

    /// Whether no step forward can be taken from this state.
    fn is_final(&self) -> (b: bool)
        requires
            self.valid(),
        ensures
            b == self.spec_is_final(),
    ;

    /// The ways to go on from this state, in the order in which the search
    /// tries them.
    fn alternatives(&self) -> (alternatives: Vec<Self::Alternative>)
        requires
            self.valid(),
            !self.spec_is_final(),
        ensures
            alternatives@ == self.spec_alternatives(),
    ;

    /// Takes the step `a`.
    fn forward(&mut self, a: Self::Alternative)
        requires
            old(self).valid(),
            !old(self).spec_is_final(),
            old(self).spec_alternatives().contains(a),
        ensures
            *final(self) == old(self).spec_forward(a),
            final(self).valid(),
            final(self).spec_size() < old(self).spec_size(),
            final(self).spec_problem_type() == old(self).spec_problem_type(),
    ;

    /// Takes the step `a` back: the state is again the one from which
    /// [`State::forward`] took that step.
    fn backward(&mut self, a: Self::Alternative)
        requires
            exists|s: Self|
                s.valid() && !s.spec_is_final() && s.spec_alternatives().contains(a) && *old(self)
                    == #[trigger] s.spec_forward(a),
        ensures
            forall|s: Self|
                s.valid() && !s.spec_is_final() && s.spec_alternatives().contains(a) && *old(self)
                    == #[trigger] s.spec_forward(a) ==> *final(self) == s,
    ;

    /// How good this final state is.
    fn value(&self) -> (v: i64)
        requires
            self.valid(),
            self.spec_is_final(),
        ensures
            v == self.spec_value(),
    ;

    /// A bound on the value of every final state that can be reached by
    /// taking the step `a`: none of them is better than this.
    fn estimated_value(&self, a: Self::Alternative) -> (v: i64)
        requires
            self.valid(),
            !self.spec_is_final(),
            self.spec_alternatives().contains(a),
        ensures
            v == self.spec_estimated_value(a),
    ;

    /// The solution that this final state stands for, if it stands for one.
    fn solution(self) -> (solution: Option<Self::Solution>)
        requires
            self.valid(),
            self.spec_is_final(),
        ensures
            solution == self.spec_solution(),
    ;
}

/// The rule by which most problems stop: a state is final when nothing is
/// left of the problem. For an [`State::is_final`] that has no rule of its
/// own.
pub fn default_is_final<S: State>(state: &S) -> (b: bool)
    requires
        state.valid(),
    ensures
        b == (state.spec_size() == 0),
{
    state.size() == 0
}

/// The estimate that rules nothing out: the value that no final state
/// improves on. For an [`State::estimated_value`] that has no bound of its
/// own. Where every solution counts it is 0 and never looked at.
pub fn default_estimated_value<S: State>(state: &S) -> (v: i64)
    requires
        state.valid(),
    ensures
        v == model::loosest_estimate(state.spec_problem_type()),
{
    match state.problem_type() {
        Type::Max => i64::MAX,
        Type::Min => i64::MIN,
        _ => 0,
    }
}

/// What a search asks of the type of its states, beyond the contracts of
/// [`State`]: steps make progress and are cloned as values.
pub open spec fn searchable<S: State>() -> bool {
    &&& makes_progress::<S>()
    &&& clones_exactly::<S::Alternative>()
}

/// A copy of `set`, made by `HashSet::clone`, which clones each key into a
/// set of its own. Where the keys are keys by their value, so that the clone
/// of a key is that key and is found again by its hash, the copy holds what
/// `set` holds.
#[verifier::external_body]
fn clone_set<S: Clone>(set: &HashSet<S>) -> (copy: HashSet<S>)
    ensures
        keys_by_value::<S>() ==> copy@ == set@,
{
    set.clone()
}

/// Solves a backtracking problem from its first state.
///
/// The solutions are kept in a hash set. What is said of them here holds
/// where the states are keys by their value, as [`keys_by_value`] has it.
/// What is said of the state that the search holds needs no such thing.
pub struct Algorithm<S: State> {
    solution_count: usize,
    solutions: HashSet<S>,
    best_value: i64,
    success: bool,
    state: S,
}

impl<S: State> View for Algorithm<S> {
    type V = Search<S>;

    closed spec fn view(&self) -> Search<S> {
        Search {
            state: self.state,
            solution_count: self.solution_count as nat,
            solutions: self.solutions@,
            best_value: self.best_value,
            success: self.success,
        }
    }
}

impl<S> Algorithm<S> where S: State + Clone + Eq + Hash + Ord {
    /// What every search that [`Algorithm::new`] made keeps to.
    pub open spec fn wf(&self) -> bool {
        &&& searchable::<S>()
        &&& self@.state.valid()
        &&& keys_by_value::<S>() ==> self@.solutions.finite()
    }

    /// A search that starts at `state` and stops at 100 solutions.
    pub fn new(state: S) -> (algorithm: Self)
        requires
            searchable::<S>(),
            state.valid(),
        ensures
            algorithm.wf(),
            algorithm@ == (Search {
                state,
                solution_count: 100,
                solutions: Set::empty(),
                best_value: model::worst_value(state.spec_problem_type()),
                success: false,
            }),
    {
        let best_value = match state.problem_type() {
            Type::Max => i64::MIN,
            Type::Min => i64::MAX,
            _ => 0,
        };
        Algorithm {
            solution_count: 100,
            solutions: HashSet::new(),
            best_value,
            success: false,
            state,
        }
    }

    /// The same search, stopping at `count` solutions. With 1 it stops at
    /// the first solution.
    pub fn solution_count(self, count: usize) -> (algorithm: Self)
        ensures
            self.wf() ==> algorithm.wf(),
            algorithm@ == (Search { solution_count: count as nat, ..self@ }),
    {
        let mut algorithm = self;
        algorithm.solution_count = count;
        algorithm
    }

    /// The solutions found so far.
    pub fn all_solutions(&self) -> (solutions: HashSet<S>)
        ensures
            keys_by_value::<S>() ==> solutions@ == self@.solutions,
    {
        clone_set(&self.solutions)
    }

    /// Takes the final state that the search holds as a solution if it
    /// improves on the best value so far, or if every solution counts.
    fn update_solutions(&mut self)
        requires
            old(self).wf(),
            old(self)@.state.spec_is_final(),
        ensures
            final(self).wf(),
            final(self)@.state == old(self)@.state,
            final(self)@.solution_count == old(self)@.solution_count,
            keys_by_value::<S>() ==> final(self)@ == old(self)@.update_solutions(),
    {
        let value = self.state.value();
        let problem_type = self.state.problem_type();

        if (problem_type != Type::Min && problem_type != Type::Max) || (problem_type == Type::Min
            && value < self.best_value) || (problem_type == Type::Max && value > self.best_value) {
            self.solutions.insert(self.state.clone());
            self.best_value = value;
        }
    }

    /// Whether the branch behind the step `a` is not worth walking: its
    /// estimated value does not improve on the best value so far.
    fn is_to_prune(&self, a: S::Alternative) -> (prune: bool)
        requires
            self.wf(),
            model::legal(self@.state, a),
        ensures
            prune == self@.is_to_prune(a),
    {
        match self.state.problem_type() {
            Type::Max => self.state.estimated_value(a) <= self.best_value,
            Type::Min => self.state.estimated_value(a) >= self.best_value,
            _ => false,
        }
    }

    /// The steps from the state that the search holds whose branches are
    /// worth walking.
    fn candidates(&self) -> (candidates: Vec<S::Alternative>)
        requires
            self.wf(),
            !self@.state.spec_is_final(),
        ensures
            candidates@ == self@.candidates(),
    {
        let alternatives = self.state.alternatives();
        let mut candidates: Vec<S::Alternative> = Vec::new();
        let mut i: usize = 0;
        while i < alternatives.len()
            invariant
                self.wf(),
                !self@.state.spec_is_final(),
                alternatives@ == self@.state.spec_alternatives(),
                i <= alternatives.len(),
                candidates@ == alternatives@.take(i as int).filter(self@.is_to_explore()),
            decreases alternatives.len() - i,
        {
            let a = alternatives[i].clone();
            proof {
                assert(alternatives@.take(i + 1) =~= alternatives@.take(i as int).push(a));
                alternatives@.take(i as int).lemma_filter_push(a, self@.is_to_explore());
            }
            if !self.is_to_prune(a.clone()) {
                candidates.push(a);
            }
            i += 1;
        }
        proof {
            assert(alternatives@.take(i as int) =~= alternatives@);
        }
        candidates
    }

    /// Walks the tree below the state that the search holds, depth first
    /// and in the order of the alternatives, and collects solutions. It
    /// stops at once when the solutions are as many as were asked for, and
    /// leaves the state as it found it.
    pub fn solve(&mut self)
        requires
            old(self).wf(),
        ensures
            final(self).wf(),
            final(self)@.state == old(self)@.state,
            final(self)@.solution_count == old(self)@.solution_count,
            keys_by_value::<S>() ==> final(self)@ == old(self)@.solve(),
            keys_by_value::<S>() && old(self)@.solutions.len() < old(self)@.solution_count
                ==> final(self)@.solutions.len() <= old(self)@.solution_count,
        decreases old(self)@.state.spec_size(),
    {
        proof {
            if keys_by_value::<S>() {
                laws::lemma_solve_counts(self@);
            }
        }
        if self.state.is_final() {
            self.update_solutions();
            self.success = self.solutions.len() >= self.solution_count;
        } else {
            let candidates = self.candidates();
            let ghost start = self@;
            proof {
                laws::lemma_candidates_are_legal(start);
                assert(candidates@.skip(0) =~= candidates@);
            }
            let mut i: usize = 0;
            while i < candidates.len()
                invariant_except_break
                    i <= candidates.len(),
                    keys_by_value::<S>() ==> start.solve() == self@.explore(
                        candidates@.skip(i as int),
                    ),
                invariant
                    self.wf(),
                    start == old(self)@,
                    !start.state.spec_is_final(),
                    self@.state == start.state,
                    self@.solution_count == start.solution_count,
                    forall|j: int|
                        0 <= j < candidates.len() ==> model::legal(
                            start.state,
                            #[trigger] candidates@[j],
                        ),
                ensures
                    keys_by_value::<S>() ==> start.solve() == self@,
                decreases candidates.len() - i,
            {
                let ghost before = self@;
                let ghost rest = candidates@.skip(i as int);
                assert(rest.drop_first() =~= candidates@.skip(i + 1));
                self.state.forward(candidates[i].clone());
                self.solve();
                self.state.backward(candidates[i].clone());
                assert(keys_by_value::<S>() ==> self@ == before.at(
                    before.state.spec_forward(rest[0]),
                ).solve().at(before.state));
                if self.success {
                    break ;
                }
                i += 1;
            }
        }
    }
}

} // verus!
