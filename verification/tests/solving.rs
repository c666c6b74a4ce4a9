use dare::ExpressionKind;
use dare::Solution;
use dare::Solutions;
use dare::Tableau;

fn solutions_of(source: &str, expect: bool) -> Solutions {
    let tableau = Tableau::parse(source, expect).unwrap();
    let mut solutions = Solutions::from(&tableau);
    solutions.clean();
    solutions
}

fn assignment(solution: &Solution) -> Vec<(String, bool)> {
    solution.iter().clone()
}

#[test]
fn one_atom_yields_one_assignment() {
    let tableau = Tableau::parse("A", true).unwrap();
    assert_eq!(tableau.expectations.len(), 1);
    assert_eq!(tableau.expectations[0].truth_value, true);
    assert!(matches!(*tableau.expectations[0].expr.kind, ExpressionKind::Atomic(_)));
    assert!(tableau.branches.is_empty());

    let solutions = solutions_of("A", true);
    assert_eq!(solutions.len(), 1);
    assert_eq!(assignment(&solutions.iter()[0]), [(String::from("A"), true)]);
}

#[test]
fn false_conjunction_opens_two_branches() {
    let tableau = Tableau::parse("A & B", false).unwrap();
    assert_eq!(tableau.expectations.len(), 1);
    assert_eq!(tableau.expectations[0].truth_value, false);
    assert_eq!(tableau.expectations[0].expr.render(), "A & B");
    assert_eq!(tableau.branches.len(), 2);
    assert_eq!(tableau.width(), 2);

    let solutions = solutions_of("A & B", false);
    assert_eq!(solutions.len(), 2);
    assert_eq!(assignment(&solutions.iter()[0]), [(String::from("A"), false)]);
    assert_eq!(assignment(&solutions.iter()[1]), [(String::from("B"), false)]);
}

#[test]
fn contradiction_leaves_no_solution() {
    let solutions = solutions_of("A & !A", true);
    assert!(solutions.is_empty());
}

#[test]
fn true_implication_yields_two_solutions() {
    let tableau = Tableau::parse("A -> B", true).unwrap();
    assert_eq!(tableau.branches.len(), 2);

    let solutions = solutions_of("A -> B", true);
    assert_eq!(solutions.len(), 2);
    assert_eq!(assignment(&solutions.iter()[0]), [(String::from("A"), false)]);
    assert_eq!(assignment(&solutions.iter()[1]), [(String::from("B"), true)]);
}

#[test]
fn truth_literals_close_or_keep_branches() {
    assert!(solutions_of("0", true).is_empty());
    assert!(solutions_of("1", false).is_empty());
    assert_eq!(solutions_of("1", true).len(), 1);
    assert_eq!(solutions_of("1", true).iter()[0].len(), 0);
}

#[test]
fn width_follows_the_branch_sum() {
    assert_eq!(Tableau::parse("A", true).unwrap().width(), 1);
    assert_eq!(Tableau::parse("A | B", true).unwrap().width(), 2);
    assert_eq!(Tableau::parse("A | (B | C)", true).unwrap().width(), 3);
    assert_eq!(Tableau::parse("A <-> B", true).unwrap().width(), 2);
    assert_eq!(Tableau::parse("(A | B) & (C | D)", true).unwrap().width(), 4);
    assert_eq!(Tableau::parse("A & B", true).unwrap().width(), 1);
}

#[test]
fn expectation_ids_cross_reference_branches() {
    let tableau = Tableau::parse("~A", true).unwrap();
    assert!(tableau.has_expectation(0));
    assert!(!tableau.has_expectation(1));
    assert!(tableau.solves_expectation(0));
    assert!(!tableau.solves_expectation(1));
    assert!(tableau.branches[0].tableau.has_expectation(1));
}

#[test]
fn merge_concatenates_at_the_top_level() {
    let mut a = Tableau::parse("A & B", false).unwrap();
    let b = Tableau::parse("C", true).unwrap();
    a.merge(b);
    assert_eq!(a.expectations.len(), 2);
    assert_eq!(a.branches.len(), 2);
}

#[test]
fn solutions_push_discards_contradicted_solutions() {
    let mut solutions = Solutions::from(&Tableau::parse("A", true).unwrap());
    solutions.push("A", true);
    assert_eq!(solutions.len(), 1);
    assert_eq!(solutions.iter()[0].len(), 1);
    solutions.push("B", false);
    assert_eq!(assignment(&solutions.iter()[0]), [
        (String::from("A"), true),
        (String::from("B"), false),
    ]);
    solutions.push("A", false);
    assert!(solutions.is_empty());
}

#[test]
fn solution_lookup_uses_the_first_match() {
    let mut solution = Solution::new();
    assert_eq!(solution.get("x"), None);
    solution.push("x", true);
    solution.push("y", false);
    assert_eq!(solution.get("x"), Some(true));
    assert_eq!(solution.get("y"), Some(false));
    assert_eq!(solution.len(), 2);
    assert!(solution.contains("x", true));
    assert!(!solution.contains("x", false));
    assert!(!solution.contains("z", true));
}

#[test]
fn clean_removes_duplicates_and_subsumed_solutions() {
    let mut shorter = Solution::new();
    shorter.push("a", true);

    let mut longer = Solution::new();
    longer.push("a", true);
    longer.push("b", false);

    let mut other = Solution::new();
    other.push("c", true);

    let mut solutions = Solutions::new();
    solutions.solutions.push(longer);
    solutions.solutions.push(shorter.clone());
    solutions.solutions.push(other);
    solutions.solutions.push(shorter);
    solutions.clean();

    assert_eq!(solutions.len(), 2);
    assert_eq!(assignment(&solutions.iter()[0]), [(String::from("a"), true)]);
    assert_eq!(assignment(&solutions.iter()[1]), [(String::from("c"), true)]);
}

#[test]
fn clean_twice_changes_nothing() {
    let sources = ["A -> B", "A & B & C", "A <-> B", "(A | B) & (!A | !B)", "A & !A"];
    for source in sources.iter() {
        let tableau = Tableau::parse(source, true).unwrap();
        let mut once = Solutions::from(&tableau);
        once.clean();
        let mut twice = once.clone();
        twice.clean();
        assert_eq!(once.len(), twice.len());
        for (a, b) in once.iter().iter().zip(twice.iter().iter()) {
            assert_eq!(assignment(a), assignment(b));
        }
    }
}

#[test]
fn solutions_satisfy_the_formula() {
    // Every cleaned solution of "A <-> B" under true forces the operands to
    // agree.
    let solutions = solutions_of("A <-> B", true);
    assert_eq!(solutions.len(), 2);
    for solution in solutions.iter() {
        let a = solution.get("A").unwrap();
        let b = solution.get("B").unwrap();
        assert_eq!(a, b);
    }

    // And under false, to disagree.
    let solutions = solutions_of("A <-> B", false);
    assert_eq!(solutions.len(), 2);
    for solution in solutions.iter() {
        let a = solution.get("A").unwrap();
        let b = solution.get("B").unwrap();
        assert_ne!(a, b);
    }

    // An exclusive disjunction is the negated equivalence.
    let solutions = solutions_of("A ^ B", true);
    assert_eq!(solutions.len(), 2);
    for solution in solutions.iter() {
        assert_ne!(solution.get("A").unwrap(), solution.get("B").unwrap());
    }
}

#[test]
fn tableau_parse_propagates_errors() {
    let err = Tableau::parse("A ->", true).unwrap_err();
    assert_eq!(err.messages()[0], "unexpected end of file");

    let err = Tableau::parse("A -> B -> C", true).unwrap_err();
    assert_eq!(err.messages()[0], "non-associative operators must be parenthesized");

    let err = Tableau::parse("@", false).unwrap_err();
    assert_eq!(err.messages()[0], "unexpected symbol '@'");
}
