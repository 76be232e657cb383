use num_bigint::BigUint;
use ponderthis_nov::{BigNat, Parity, Range, SolveError, Solver};

struct TestCase {
    range: [u32; 2],
    seqs: Vec<String>,
    expected: String,
    n: usize,
}

fn natural(n: &BigUint) -> BigNat {
    BigNat::from_digits(n.to_u32_digits())
}

/// The Fibonacci numbers 1, 1, 2, 3, 5, ... as a table of `count` entries.
fn fib_table(count: usize) -> Vec<BigNat> {
    let mut fibs = Vec::new();
    let mut a = BigUint::from(1u32);
    let mut b = BigUint::from(1u32);
    for _ in 0..count {
        fibs.push(natural(&a));
        let next = &a + &b;
        a = b;
        b = next;
    }
    fibs
}

fn strings(items: &[&str]) -> Vec<String> {
    items.iter().map(|s| s.to_string()).collect()
}

fn case(range: [u32; 2], seqs: &[&str], expected: &str, n: usize) -> TestCase {
    TestCase { range, seqs: strings(seqs), expected: expected.to_string(), n }
}

fn copy_table(fibs: &Vec<BigNat>) -> Vec<BigNat> {
    fibs.iter().map(|f| f.duplicate()).collect()
}

#[test]
fn run_solver_tests() {
    let test_cases = vec![
        // Nothing to subtract: the parity of `n` picks the sequence.
        case([1, 4], &["AAAA", "CCCCCCCC"], "GGG", 0),
        case([1, 4], &["AAAA", "CCCCCCCC"], "TTT", 1),
        // One subtraction (5 at index 4), index parity even.
        case([6, 8], &["ACGT", "TTTT"], "TA", 0),
        case([6, 8], &["ACGT", "TTTT"], "CG", 1),
        // Two subtractions with an even gap (indices 5 and 3).
        case([11, 12], &["A", "TG"], "T", 0),
        case([12, 13], &["A", "TG"], "G", 0),
        // Two subtractions with an odd gap (indices 5 and 2): the parity flips.
        case([10, 11], &["A", "TG"], "A", 0),
        case([10, 11], &["A", "TG"], "G", 1),
        // Symbols that are no bases stay.
        case([1, 4], &["ANXT", "CCCCCCCC"], "NXC", 0),
    ];

    let fibs = fib_table(500);

    for (idx, case) in test_cases.iter().enumerate() {
        let range = Range {
            parity: Parity::from(case.n),
            start: natural(&BigUint::from(case.range[0])),
            end: natural(&BigUint::from(case.range[1])),
        };

        let solver = Solver::new(range, copy_table(&fibs), case.seqs.clone(), case.n);
        assert!(solver.is_valid());

        let result = solver.solve();

        match result {
            Ok(Some(res)) => {
                if res.substring != case.expected {
                    panic!(
                        "Test {} failed: expected '{}', got '{}'",
                        idx + 1,
                        case.expected,
                        res.substring
                    );
                }
            }
            Ok(None) => {
                panic!("Test {} failed to solve", idx + 1);
            }
            Err(e) => {
                panic!("Test {} failed to solve: {:?}", idx + 1, e);
            }
        }
    }
}

#[test]
fn solves_past_machine_integers() {
    // start = F(100) + 1 = 354224848179261915076, far beyond 64 bits.
    let fibs = fib_table(120);
    let f100 = "354224848179261915075".parse::<BigUint>().unwrap();
    assert_eq!(fibs[99].digits, f100.to_u32_digits());
    let start = &f100 + 1u32;
    let end = &f100 + 2u32;
    let range = Range { start: natural(&start), end: natural(&end), parity: Parity::Even };
    let n = BigNat::from_usize(0);
    let solver =
        Solver::new_with_biguint(range, fibs, strings(&["AC", "GT"]), &n);
    // One subtraction at index 99 leaves [1, 2); index 99 is odd, so the
    // second sequence is cut, and the even range parity leaves it as it is.
    let result = solver.solve().unwrap().unwrap();
    assert_eq!(result.substring, "T");
}

#[test]
fn example_range_is_bisected_by_the_following_entry() {
    // With the table 1, 1, 2, 3, 5, 8, 13 the entry chosen for [6, 9) is 5
    // at index 4, and the entry after it, 8, lies inside the range.
    let fibs = fib_table(7);
    let range = Range {
        start: BigNat::from_usize(6),
        end: BigNat::from_usize(9),
        parity: Parity::Even,
    };
    let solver = Solver::new(range, fibs, strings(&["AAAA", "CCCCCCCC"]), 0);
    match solver.solve() {
        Err(e) => assert_eq!(e, SolveError::RangeBisected { index: 4 }),
        other => panic!("expected a bisected range, got {:?}", other),
    }
}

#[test]
fn example_decodes_where_no_entry_follows() {
    // The same range with the table 1, 1, 2, 3, 5: nothing follows the
    // chosen entry, the range becomes [1, 4) with an even parity, the first
    // sequence is cut at [1, 4) and its bases are substituted.
    let fibs = fib_table(5);
    let range = Range {
        start: BigNat::from_usize(6),
        end: BigNat::from_usize(9),
        parity: Parity::Even,
    };
    let solver = Solver::new(range, fibs, strings(&["AAAA", "CCCCCCCC"]), 0);
    let result = solver.solve().unwrap().unwrap();
    assert_eq!(result.substring, "GGG");
}

#[test]
fn no_sequence_found_is_reported() {
    let fibs = fib_table(5);
    let range = Range {
        start: BigNat::from_usize(6),
        end: BigNat::from_usize(9),
        parity: Parity::Even,
    };
    let solver = Solver::new(range, fibs, strings(&["CC"]), 0);
    assert!(matches!(solver.solve(), Ok(None)));
}

#[test]
fn no_sequence_of_the_wanted_parity() {
    // The index reported is 4, so only sequences at even indices count.
    let fibs = fib_table(5);
    let range = Range {
        start: BigNat::from_usize(6),
        end: BigNat::from_usize(9),
        parity: Parity::Even,
    };
    let solver = Solver::new(range, fibs, strings(&["CC", "AAAAAAAA"]), 0);
    assert!(matches!(solver.solve(), Ok(None)));
}

#[test]
fn parity_of_n_is_used_only_without_reduction() {
    let seqs = ["AAAA", "CCCC"];
    // No entry fits [1, 4): n decides.
    let even = Solver::new(range_of(1, 4, Parity::Even), fib_table(7), strings(&seqs), 10);
    assert_eq!(even.solve().unwrap().unwrap().substring, "GGG");
    let odd = Solver::new(range_of(1, 4, Parity::Even), fib_table(7), strings(&seqs), 11);
    assert_eq!(odd.solve().unwrap().unwrap().substring, "CCC");
    // [6, 8) is reduced with index 4: n does not matter.
    let a = Solver::new(range_of(6, 8, Parity::Odd), fib_table(7), strings(&seqs), 10);
    let b = Solver::new(range_of(6, 8, Parity::Odd), fib_table(7), strings(&seqs), 11);
    assert_eq!(a.solve().unwrap().unwrap().substring, "AA");
    assert_eq!(b.solve().unwrap().unwrap().substring, "AA");
}

fn range_of(start: usize, end: usize, parity: Parity) -> Range {
    Range { start: BigNat::from_usize(start), end: BigNat::from_usize(end), parity }
}

#[test]
fn invalid_range_is_recognised() {
    let solver = Solver::new(range_of(4, 4, Parity::Even), fib_table(3), strings(&["A"]), 0);
    assert!(!solver.is_valid());
    let solver = Solver::new(range_of(5, 4, Parity::Even), fib_table(3), strings(&["A"]), 0);
    assert!(!solver.is_valid());
    let solver = Solver::new(range_of(3, 4, Parity::Even), fib_table(3), strings(&["A"]), 0);
    assert!(solver.is_valid());
}
