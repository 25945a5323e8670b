use std::cell::Cell;
use std::hash::{Hash, Hasher};
use std::rc::Rc;
use strategies::dac::{DacAlgorithm, DacMemAlgorithm, DacProblem};

#[derive(Clone, Eq, PartialEq, Hash)]
struct Fibonacci(u64);

impl DacProblem<u64, u64> for Fibonacci {
    fn size(&self) -> usize {
        self.0 as usize
    }

    fn is_base_case(&self) -> bool {
        self.size() < 2
    }

    fn base_case_solution(&self) -> u64 {
        self.0
    }

    fn subproblem_count(&self) -> usize {
        2
    }

    fn get_subproblem(&self, i: usize) -> Fibonacci {
        match i {
            0 => Fibonacci(self.0 - 1),
            _ => Fibonacci(self.0 - 2),
        }
    }

    fn combine(&self, solutions: Vec<u64>) -> u64 {
        let a = solutions.get(0).unwrap();
        let b = solutions.get(1).unwrap();

        a + b
    }

    fn get_solution(&self, partial_solution: &u64) -> Option<u64> {
        Some(*partial_solution)
    }
}

/// The sum of a slice of numbers, split into three parts. The calls of
/// `combine` are counted; the count is no part of the problem.
#[derive(Clone)]
struct Sum {
    numbers: Vec<i64>,
    combines: Rc<Cell<usize>>,
}

impl Sum {
    fn new(numbers: &[i64]) -> Sum {
        Sum { numbers: numbers.to_vec(), combines: Rc::new(Cell::new(0)) }
    }
}

impl PartialEq for Sum {
    fn eq(&self, other: &Sum) -> bool {
        self.numbers == other.numbers
    }
}

impl Eq for Sum {}

impl Hash for Sum {
    fn hash<H: Hasher>(&self, state: &mut H) {
        self.numbers.hash(state);
    }
}

impl DacProblem<String, i64> for Sum {
    fn size(&self) -> usize {
        self.numbers.len()
    }

    fn is_base_case(&self) -> bool {
        self.numbers.len() < 3
    }

    fn base_case_solution(&self) -> i64 {
        self.numbers.iter().sum()
    }

    fn subproblem_count(&self) -> usize {
        3
    }

    fn get_subproblem(&self, i: usize) -> Sum {
        let third = self.numbers.len() / 3;
        let part = match i {
            0 => &self.numbers[..third],
            1 => &self.numbers[third..2 * third],
            _ => &self.numbers[2 * third..],
        };
        Sum { numbers: part.to_vec(), combines: self.combines.clone() }
    }

    fn combine(&self, solutions: Vec<i64>) -> i64 {
        assert_eq!(solutions.len(), 3);
        self.combines.set(self.combines.get() + 1);
        solutions[0] + solutions[1] + solutions[2]
    }

    fn get_solution(&self, partial_solution: &i64) -> Option<String> {
        if *partial_solution < 0 {
            None
        } else {
            Some(format!("{}", partial_solution))
        }
    }
}

/// Keeps the order of the parts: the solution is the parts' solutions side
/// by side.
#[derive(Clone, Eq, PartialEq, Hash)]
struct Spell(Vec<char>);

impl DacProblem<String, String> for Spell {
    fn size(&self) -> usize {
        self.0.len()
    }

    fn is_base_case(&self) -> bool {
        self.0.len() <= 1
    }

    fn base_case_solution(&self) -> String {
        self.0.iter().collect()
    }

    fn subproblem_count(&self) -> usize {
        2
    }

    fn get_subproblem(&self, i: usize) -> Spell {
        let half = self.0.len() / 2;
        match i {
            0 => Spell(self.0[..half].to_vec()),
            _ => Spell(self.0[half..].to_vec()),
        }
    }

    fn combine(&self, solutions: Vec<String>) -> String {
        solutions.concat()
    }

    fn get_solution(&self, partial_solution: &String) -> Option<String> {
        Some(partial_solution.clone())
    }
}

#[test]
fn fibonacci_without_memory() {
    let p = DacAlgorithm::new(Fibonacci(5));
    let s = p.get_solution().unwrap();
    assert_eq!(s, 5);
}

#[test]
fn fibonacci_with_memory() {
    let p = DacMemAlgorithm::new(Fibonacci(50));
    let s = p.get_solution().unwrap();
    assert_eq!(s, 12586269025);
}

#[test]
fn fibonacci_with_and_without_memory_agree() {
    for n in 2..20 {
        let plain = DacAlgorithm::new(Fibonacci(n)).get_solution();
        let remembered = DacMemAlgorithm::new(Fibonacci(n)).get_solution();
        assert_eq!(plain, remembered);
    }
    assert_eq!(DacAlgorithm::new(Fibonacci(19)).get_solution(), Some(4181));
}

#[test]
fn base_case_without_memory() {
    assert_eq!(DacAlgorithm::new(Fibonacci(0)).get_solution(), Some(0));
    assert_eq!(DacAlgorithm::new(Fibonacci(1)).get_solution(), Some(1));
}

#[test]
fn base_case_is_not_remembered() {
    assert_eq!(DacMemAlgorithm::new(Fibonacci(0)).get_solution(), None);
    assert_eq!(DacMemAlgorithm::new(Fibonacci(1)).get_solution(), None);
    assert_eq!(DacMemAlgorithm::new(Fibonacci(2)).get_solution(), Some(1));
}

#[test]
fn get_solution_can_be_asked_again() {
    let p = DacAlgorithm::new(Fibonacci(10));
    assert_eq!(p.get_solution(), Some(55));
    assert_eq!(p.get_solution(), Some(55));
    let p = DacMemAlgorithm::new(Fibonacci(10));
    assert_eq!(p.get_solution(), Some(55));
    assert_eq!(p.get_solution(), Some(55));
}

#[test]
fn sum_in_three_parts() {
    let numbers = [1, 2, 3, 4, 5, 6, 7, 8, 9];
    let p = DacAlgorithm::new(Sum::new(&numbers));
    assert_eq!(p.get_solution(), Some(String::from("45")));
    let p = DacMemAlgorithm::new(Sum::new(&numbers));
    assert_eq!(p.get_solution(), Some(String::from("45")));
}

#[test]
fn no_final_solution() {
    let numbers = [1, 2, -30, 4, 5, 6, 7, 8, -9];
    let p = DacAlgorithm::new(Sum::new(&numbers));
    assert_eq!(p.get_solution(), None);
    let p = DacMemAlgorithm::new(Sum::new(&numbers));
    assert_eq!(p.get_solution(), None);
}

#[test]
fn memory_solves_equal_parts_once() {
    let numbers = [1, 1, 1, 1, 1, 1, 1, 1, 1];
    let plain = Sum::new(&numbers);
    let combines = plain.combines.clone();
    assert_eq!(DacAlgorithm::new(plain).get_solution(), Some(String::from("9")));
    assert_eq!(combines.get(), 4);

    let remembered = Sum::new(&numbers);
    let combines = remembered.combines.clone();
    assert_eq!(DacMemAlgorithm::new(remembered).get_solution(), Some(String::from("9")));
    assert_eq!(combines.get(), 2);
}

#[test]
fn parts_are_combined_in_order() {
    let word: Vec<char> = "backtrack".chars().collect();
    let p = DacAlgorithm::new(Spell(word.clone()));
    assert_eq!(p.get_solution(), Some(String::from("backtrack")));
    let p = DacMemAlgorithm::new(Spell(word));
    assert_eq!(p.get_solution(), Some(String::from("backtrack")));
}
