//! The divide and conquer strategy.
//!
//! A problem is split into smaller problems of the same kind until they are
//! simple enough to be solved directly; the solutions of the parts are then
//! combined into the solution of the whole.
//!
//! Describe the problem by implementing [`DacProblem`], then hand it to
//! [`DacAlgorithm`] or, where the same subproblem comes up many times, to
//! [`DacMemAlgorithm`].
use crate::clones_exactly;
use crate::keys_by_value;
use std::collections::HashMap;
use std::hash::Hash;
use std::marker::PhantomData;
use vstd::prelude::*;
use vstd::std_specs::hash::group_hash_axioms;

verus! {

broadcast use group_hash_axioms;

/// A problem that divide and conquer can solve.
///
/// * `E` is a partial solution, the value the strategy works with.
/// * `S` is the final solution, what the caller gets.
///
/// Every executable method has a specification twin that says what it
/// returns; the strategy is specified over those.
pub trait DacProblem<S, E>: Sized {
    /// The problems the strategy may be asked to solve.
    open spec fn valid(&self) -> bool {
        true
    }

    /// What [`DacProblem::size`] returns.
    open spec fn spec_size(&self) -> nat {
        arbitrary()
    }

    /// What [`DacProblem::is_base_case`] returns.
    open spec fn spec_is_base_case(&self) -> bool {
        arbitrary()
    }

    /// What [`DacProblem::base_case_solution`] returns.
    open spec fn spec_base_case_solution(&self) -> E {
        arbitrary()
    }

    /// What [`DacProblem::subproblem_count`] returns.
    open spec fn spec_subproblem_count(&self) -> nat {
        arbitrary()
    }

    /// What [`DacProblem::get_subproblem`] returns.
    open spec fn spec_get_subproblem(&self, i: nat) -> Self {
        arbitrary()
    }

    /// What [`DacProblem::combine`] returns.
    open spec fn spec_combine(&self, solutions: Seq<E>) -> E {
        arbitrary()
    }

    /// What [`DacProblem::get_solution`] returns.
    open spec fn spec_get_solution(&self, partial_solution: &E) -> Option<S> {
        arbitrary()
    }

    /// The size of the problem, usually called `n`.
    fn size(&self) -> (n: usize)
        requires
            self.valid(),
        ensures
            n == self.spec_size(),
    ;

    /// Whether the problem is simple enough to be solved directly.
    fn is_base_case(&self) -> (b: bool)
        requires
            self.valid(),
        ensures
            b == self.spec_is_base_case(),
    ;

    /// The solution of a base case.
    fn base_case_solution(&self) -> (e: E)
        requires
            self.valid(),
            self.spec_is_base_case(),
        ensures
            e == self.spec_base_case_solution(),
    ;

    /// Into how many parts the problem splits.
    fn subproblem_count(&self) -> (n: usize)
        requires
            self.valid(),
            !self.spec_is_base_case(),
        ensures
            n == self.spec_subproblem_count(),
    ;

    /// The part of the problem with index `i`, counted from 0.
    fn get_subproblem(&self, i: usize) -> (p: Self)
        requires
            self.valid(),
            !self.spec_is_base_case(),
            i < self.spec_subproblem_count(),
        ensures
            p == self.spec_get_subproblem(i as nat),
    ;

    /// The solution of the problem, from the solutions of its parts in the
    /// order of their indices.
    fn combine(&self, solutions: Vec<E>) -> (e: E)
        requires
            self.valid(),
            !self.spec_is_base_case(),
            solutions@.len() == self.spec_subproblem_count(),
        ensures
            e == self.spec_combine(solutions@),
    ;

    /// The final solution that a partial solution stands for, if there is one.
    fn get_solution(&self, partial_solution: &E) -> (s: Option<S>)
        requires
            self.valid(),
        ensures
            s == self.spec_get_solution(partial_solution),
    ;
}

/// Splitting makes progress: each part of a valid problem that is no base
/// case is a valid problem of a smaller size.
pub open spec fn splits_into_smaller<P: DacProblem<S, E>, S, E>() -> bool {
    forall|problem: P, i: nat|
        problem.valid() && !problem.spec_is_base_case() && i < problem.spec_subproblem_count()
            ==> (#[trigger] problem.spec_get_subproblem(i)).valid()
            && problem.spec_get_subproblem(i).spec_size() < problem.spec_size()
}

/// The partial solution of `problem`: that of a base case is given, that of
/// any other problem combines the partial solutions of all its parts.
pub open spec fn partial_solution<P: DacProblem<S, E>, S, E>(problem: P) -> E
    decreases problem.spec_size(), 1nat, 0nat,
    when splits_into_smaller::<P, S, E>() && problem.valid()
{
    if problem.spec_is_base_case() {
        problem.spec_base_case_solution()
    } else {
        problem.spec_combine(
            partial_solutions::<P, S, E>(problem, problem.spec_subproblem_count()),
        )
    }
}

/// The partial solutions of the first `n` parts of `problem`, in the order
/// of their indices.
pub open spec fn partial_solutions<P: DacProblem<S, E>, S, E>(problem: P, n: nat) -> Seq<E>
    decreases problem.spec_size(), 0nat, n,
    when splits_into_smaller::<P, S, E>() && problem.valid() && !problem.spec_is_base_case() && n
        <= problem.spec_subproblem_count()
{
    if n == 0 {
        Seq::empty()
    } else {
        let i = (n - 1) as nat;
        partial_solutions::<P, S, E>(problem, i).push(
            partial_solution::<P, S, E>(problem.spec_get_subproblem(i)),
        )
    }
}

/// Solves a problem by divide and conquer, without memory: a subproblem that
/// comes up twice is solved twice.
pub struct DacAlgorithm<P, S, E> where P: DacProblem<S, E> {
    phan: PhantomData<S>,
    partial_solution: E,
    problem: P,
}

impl<P, S, E> DacAlgorithm<P, S, E> where P: DacProblem<S, E> {
    /// The problem that was handed to [`DacAlgorithm::new`].
    pub closed spec fn problem(&self) -> P {
        self.problem
    }

    /// The partial solution that was found.
    pub closed spec fn found(&self) -> E {
        self.partial_solution
    }

    #[verifier::type_invariant]
    spec fn solved(&self) -> bool {
        &&& splits_into_smaller::<P, S, E>()
        &&& self.problem.valid()
        &&& self.partial_solution == partial_solution::<P, S, E>(self.problem)
    }

    /// Solves `problem`.
    pub fn new(problem: P) -> (algorithm: Self)
        requires
            splits_into_smaller::<P, S, E>(),
            problem.valid(),
        ensures
            algorithm.problem() == problem,
            algorithm.found() == partial_solution::<P, S, E>(problem),
    {
        let e = Self::solve(&problem);
        DacAlgorithm { phan: PhantomData, partial_solution: e, problem: problem }
    }

    fn solve(problem: &P) -> (e: E)
        requires
            splits_into_smaller::<P, S, E>(),
            problem.valid(),
        ensures
            e == partial_solution::<P, S, E>(*problem),
        decreases problem.spec_size(),
    {
        if problem.is_base_case() {
            problem.base_case_solution()
        } else {
            let count = problem.subproblem_count();
            let mut solutions: Vec<E> = Vec::new();
            let mut i: usize = 0;
            while i < count
                invariant
                    splits_into_smaller::<P, S, E>(),
                    problem.valid(),
                    !problem.spec_is_base_case(),
                    count == problem.spec_subproblem_count(),
                    i <= count,
                    solutions@.len() == i,
                    solutions@ == partial_solutions::<P, S, E>(*problem, i as nat),
                decreases count - i,
            {
                let part = problem.get_subproblem(i);
                let e = Self::solve(&part);
                solutions.push(e);
                i += 1;
            }
            problem.combine(solutions)
        }
    }

    /// The final solution of the problem, if its partial solution stands for
    /// one.
    pub fn get_solution(&self) -> (s: Option<S>)
        ensures
            self.found() == partial_solution::<P, S, E>(self.problem()),
            s == self.problem().spec_get_solution(&self.found()),
    {
        proof {
            use_type_invariant(self);
        }
        self.problem.get_solution(&self.partial_solution)
    }
}

/// What solving with memory asks of the types, beyond the contracts of
/// [`DacProblem`]: splitting makes progress, and partial solutions are
/// cloned as values.
pub open spec fn memorable<P: DacProblem<S, E>, S, E: Clone>() -> bool {
    &&& splits_into_smaller::<P, S, E>()
    &&& clones_exactly::<E>()
}

/// Whether `memory` holds what was solved and nothing else: each problem in
/// it is a valid problem that is no base case, is kept with its partial
/// solution, and has each of its parts that is no base case in the memory
/// too.
pub open spec fn remembers<P: DacProblem<S, E>, S, E>(memory: Map<P, E>) -> bool {
    forall|problem: P| #[trigger]
        memory.contains_key(problem) ==> {
            &&& problem.valid()
            &&& !problem.spec_is_base_case()
            &&& memory[problem] == partial_solution::<P, S, E>(problem)
            &&& forall|i: nat|
                i < problem.spec_subproblem_count() && !(#[trigger] problem.spec_get_subproblem(
                    i,
                )).spec_is_base_case() ==> memory.contains_key(problem.spec_get_subproblem(i))
        }
}

/// Solves a problem by divide and conquer, with memory: the partial solution
/// of every subproblem that is no base case is kept, and a subproblem that
/// comes up again is looked up.
///
/// The partial solutions are kept in a hash map. What is said of them here
/// holds where the problems are keys by their value, as [`keys_by_value`]
/// has it.
pub struct DacMemAlgorithm<P, S, E> where P: DacProblem<S, E> + Eq + Hash + Clone, E: Clone {
    phan: PhantomData<S>,
    solutions: HashMap<P, E>,
    problem: P,
}

impl<P, S, E> DacMemAlgorithm<P, S, E> where P: DacProblem<S, E> + Eq + Hash + Clone, E: Clone {
    /// The problem that was handed to [`DacMemAlgorithm::new`].
    pub closed spec fn problem(&self) -> P {
        self.problem
    }

    /// The partial solutions that are kept, each under its problem.
    pub closed spec fn memory(&self) -> Map<P, E> {
        self.solutions@
    }

    #[verifier::type_invariant]
    spec fn solved(&self) -> bool {
        &&& memorable::<P, S, E>()
        &&& self.problem.valid()
        &&& keys_by_value::<P>() ==> {
            &&& remembers::<P, S, E>(self.solutions@)
            &&& self.solutions@.contains_key(self.problem) <==> !self.problem.spec_is_base_case()
        }
    }

    /// Solves `problem`.
    pub fn new(problem: P) -> (algorithm: Self)
        requires
            memorable::<P, S, E>(),
            problem.valid(),
        ensures
            algorithm.problem() == problem,
            keys_by_value::<P>() ==> {
                &&& remembers::<P, S, E>(algorithm.memory())
                &&& algorithm.memory().contains_key(problem) <==> !problem.spec_is_base_case()
            },
    {
        let mut map = HashMap::new();
        Self::solve(&problem, &mut map);
        DacMemAlgorithm { phan: PhantomData, solutions: map, problem: problem }
    }

    fn solve(problem: &P, solutions: &mut HashMap<P, E>) -> (e: E)
        requires
            memorable::<P, S, E>(),
            problem.valid(),
            keys_by_value::<P>() ==> remembers::<P, S, E>(old(solutions)@),
        ensures
            keys_by_value::<P>() ==> {
                &&& e == partial_solution::<P, S, E>(*problem)
                &&& remembers::<P, S, E>(final(solutions)@)
                &&& old(solutions)@.dom().subset_of(final(solutions)@.dom())
                &&& problem.spec_is_base_case() ==> final(solutions)@ == old(solutions)@
                &&& !problem.spec_is_base_case() ==> final(solutions)@.contains_key(*problem)
            },
        decreases problem.spec_size(),
    {
        if problem.is_base_case() {
            return problem.base_case_solution();
        }
        match solutions.get(problem) {
            Some(kept) => kept.clone(),
            None => {
                let count = problem.subproblem_count();
                let mut parts: Vec<E> = Vec::new();
                let mut i: usize = 0;
                while i < count
                    invariant
                        memorable::<P, S, E>(),
                        problem.valid(),
                        !problem.spec_is_base_case(),
                        count == problem.spec_subproblem_count(),
                        i <= count,
                        parts@.len() == i,
                        keys_by_value::<P>() ==> {
                            &&& parts@ == partial_solutions::<P, S, E>(*problem, i as nat)
                            &&& remembers::<P, S, E>(solutions@)
                            &&& old(solutions)@.dom().subset_of(solutions@.dom())
                            &&& forall|j: nat|
                                j < i && !(#[trigger] problem.spec_get_subproblem(
                                    j,
                                )).spec_is_base_case() ==> solutions@.contains_key(
                                    problem.spec_get_subproblem(j),
                                )
                        },
                    decreases count - i,
                {
                    let part = problem.get_subproblem(i);
                    let e = Self::solve(&part, solutions);
                    parts.push(e);
                    i += 1;
                }
                let solution = problem.combine(parts);
                let kept = solution.clone();
                solutions.insert(problem.clone(), kept);
                solution
            },
        }
    }

    /// The final solution of the problem, if its partial solution was kept
    /// and stands for one. The partial solution of a base case is not kept.
    pub fn get_solution(&self) -> (s: Option<S>)
        ensures
            keys_by_value::<P>() ==> s == if self.problem().spec_is_base_case() {
                None
            } else {
                self.problem().spec_get_solution(&partial_solution::<P, S, E>(self.problem()))
            },
    {
        proof {
            use_type_invariant(self);
        }
        match self.solutions.get(&self.problem) {
            Some(e) => self.problem.get_solution(e),
            None => None,
        }
    }
}

} // verus!
