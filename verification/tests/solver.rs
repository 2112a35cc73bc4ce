use verilog_sheet::collector::UndefineWireCollector;
use verilog_sheet::solve_func::SolveFunc;

fn holds(system: &[Vec<i64>], x: &[usize]) -> bool {
    system.iter().all(|row| {
        let n = row.len() - 1;
        let sum: i128 = (0..n).map(|j| row[j] as i128 * x[j] as i128).sum();
        sum == row[n] as i128
    })
}

#[test]
fn test_solve() {
    let mut a: Vec<Vec<i64>> = vec![
        vec![1, 1, 0, 3],
        vec![0, 1, 1, 5],
        vec![1, 0, 1, 4],
        vec![2, 2, 0, 6],
    ];
    let given = a.clone();
    let b = a.solve().unwrap();
    println!("{:?}", b);
    assert_eq!(b, vec![1, 2, 3]);
    assert!(holds(&given, &b));
}

#[test]
fn solution_satisfies_every_equation() {
    let systems: Vec<Vec<Vec<i64>>> = vec![
        vec![vec![1, 1, 10], vec![1, 2, 16]],
        vec![vec![0, 1, 3], vec![1, 0, 4]],
        vec![vec![1, 1, 1, 6], vec![0, 1, 1, 5], vec![0, 0, 1, 3]],
        vec![vec![2, 3, 13], vec![4, 1, 11], vec![6, 4, 24]],
        vec![vec![1, 1, 0, 0, 5], vec![0, 1, 1, 0, 7], vec![0, 0, 1, 1, 9], vec![1, 0, 0, 1, 7]]
            .into_iter()
            .chain(vec![vec![1, 0, 0, 0, 2]])
            .collect(),
        vec![vec![3, 12]],
    ];
    let expected: Vec<Vec<usize>> =
        vec![vec![4, 6], vec![4, 3], vec![1, 2, 3], vec![2, 3], vec![2, 3, 4, 5], vec![4]];
    for (system, want) in systems.into_iter().zip(expected) {
        let mut m = system.clone();
        let x = m.solve().unwrap();
        assert_eq!(x, want);
        assert!(holds(&system, &x));
    }
}

#[test]
fn no_solution_is_found_where_there_is_none() {
    // Contradictory equations.
    assert_eq!(vec![vec![1, 1, 10], vec![1, 1, 6]].solve(), None);
    // A width would be negative.
    assert_eq!(vec![vec![1, 1, 10], vec![1, 2, 6]].solve(), None);
    // A width would be a fraction.
    assert_eq!(vec![vec![2, 3]].solve(), None);
    assert_eq!(vec![vec![1, 1, 3], vec![1, -1, 0]].solve(), None);
    // More unknowns than equations.
    assert_eq!(vec![vec![1, 1, 10]].solve(), None);
    // A redundant row with a right-hand side that does not fit.
    assert_eq!(vec![vec![1, 4], vec![2, 9]].solve(), None);
    // An unknown that no equation names.
    assert_eq!(vec![vec![0, 1, 3], vec![0, 2, 6]].solve(), None);
}

#[test]
fn malformed_systems_are_refused() {
    assert_eq!(vec![vec![1, 2, 3], vec![1, 2]].solve(), None);
    assert_eq!(vec![Vec::<i64>::new()].solve(), None);
    assert_eq!(vec![vec![1, 2], vec![]].solve(), None);
    assert_eq!(Vec::<Vec<i64>>::new().solve(), Some(vec![]));
    assert_eq!(vec![vec![0], vec![0]].solve(), Some(vec![]));
    assert_eq!(vec![vec![0], vec![1]].solve(), None);
}

#[test]
fn large_entries_do_not_overflow() {
    assert_eq!(vec![vec![i64::MAX, i64::MAX]].solve(), Some(vec![1]));
    assert_eq!(vec![vec![1, i64::MAX]].solve(), Some(vec![i64::MAX as usize]));
    assert_eq!(vec![vec![i64::MIN, i64::MIN]].solve(), Some(vec![1]));
    assert_eq!(
        vec![vec![i64::MAX, i64::MAX, 0], vec![i64::MAX, i64::MIN, 0]].solve(),
        None
    );
    assert_eq!(vec![vec![-1, i64::MIN]].solve(), None);
}

#[test]
fn matrix_is_left_eliminated_or_untouched() {
    let mut m: Vec<Vec<i64>> = vec![vec![0, 1, 3], vec![2, 1, 11]];
    assert_eq!(m.solve(), Some(vec![4, 3]));
    assert_eq!(m, vec![vec![2, 1, 11], vec![0, 2, 6]]);
    let mut bad: Vec<Vec<i64>> = vec![vec![1, 1, 10], vec![1, 2, 6]];
    assert_eq!(bad.solve(), None);
    assert_eq!(bad, vec![vec![1, 1, 10], vec![1, 2, 6]]);
}

#[test]
fn collector_counts_each_naming_of_a_signal() {
    let mut c = UndefineWireCollector::new();
    assert!(!c.has_wires());
    assert_eq!(c.add_wires("x"), 0);
    assert_eq!(c.add_wires("y"), 1);
    assert_eq!(c.add_wires("x"), 0);
    assert!(c.has_wires());
    c.add_func(vec![0, 1], 10);
    c.add_func(vec![0, 1, 1], 16);
    assert!(c.solve_func());
    assert_eq!(c.res, vec![4, 6]);
    c.add_func(vec![7], 1);
    assert!(!c.solve_func());
    assert_eq!(c.res, vec![4, 6]);
    c.clear();
    assert!(c.wires.is_empty() && c.func_groups.is_empty());
    assert!(c.value.is_empty() && c.res.is_empty());
    assert!(c.solve_func());
    assert!(c.res.is_empty());
}
