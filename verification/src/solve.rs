use vstd::prelude::*;

use crate::ast::ExpressionKind;
use crate::ast::ExprView;
use crate::tableau::{BranchView, ExpectView, TabView, Tableau};

verus! {

/// Mathematical picture of a [`Solution`]: an ordered list of
/// (variable name, truth value) pairs.
pub type SolView = Seq<(Seq<char>, bool)>;

/// The value the solution assigns to a variable: the first matching pair
/// decides.
pub open spec fn sp_sol_get(sol: SolView, name: Seq<char>) -> Option<bool>
    decreases sol,
{
    if sol.len() == 0 {
        None
    } else if sol[0].0 == name {
        Some(sol[0].1)
    } else {
        sp_sol_get(sol.drop_first(), name)
    }
}

/// Whether the solution holds the exact pair.
pub open spec fn sp_sol_contains(sol: SolView, name: Seq<char>, value: bool) -> bool {
    exists|k: int| 0 <= k < sol.len() && (#[trigger] sol[k]) == (name, value)
}

/// Pushes one assignment onto one solution: an agreeing existing assignment
/// keeps the solution unchanged, a disagreeing one discards it, and an
/// unassigned variable is appended.
pub open spec fn sp_push_sol(sol: SolView, name: Seq<char>, value: bool) -> Option<SolView> {
    match sp_sol_get(sol, name) {
        Some(v) => if v == value {
            Some(sol)
        } else {
            None
        },
        None => Some(sol.push((name, value))),
    }
}

/// Pushes one assignment onto every solution of a list, discarding the
/// solutions it contradicts.
pub open spec fn sp_push_sols(sols: Seq<SolView>, name: Seq<char>, value: bool) -> Seq<SolView>
    decreases sols,
{
    if sols.len() == 0 {
        Seq::empty()
    } else {
        match sp_push_sol(sols[0], name, value) {
            Some(s) => seq![s] + sp_push_sols(sols.drop_first(), name, value),
            None => sp_push_sols(sols.drop_first(), name, value),
        }
    }
}

/// Applies one expectation to a list of solutions: an atomic expectation is
/// pushed; a truth-value expectation that disagrees with its expected value
/// closes every solution; any other expectation constrains nothing here.
pub open spec fn sp_apply_expectation(sols: Seq<SolView>, exp: ExpectView) -> Seq<SolView> {
    match exp.expr {
        ExprView::Atomic { name, .. } => sp_push_sols(sols, name, exp.truth_value),
        ExprView::TruthValue { value, .. } => if value != exp.truth_value {
            Seq::empty()
        } else {
            sols
        },
        _ => sols,
    }
}

/// Applies the expectations in order.
pub open spec fn sp_apply_expectations(sols: Seq<SolView>, exps: Seq<ExpectView>) -> Seq<SolView>
    decreases exps,
{
    if exps.len() == 0 {
        sols
    } else {
        sp_apply_expectations(sp_apply_expectation(sols, exps[0]), exps.drop_first())
    }
}

/// What [`Solutions::from`] yields: a leaf contributes one empty solution;
/// branches contribute the concatenation of their extractions; the node's
/// expectations are then applied in order.
pub open spec fn sp_extract(t: TabView) -> Seq<SolView>
    decreases t,
{
    let base = if t.branches.len() == 0 {
        seq![Seq::<(Seq<char>, bool)>::empty()]
    } else {
        sp_extract_branches(t.branches)
    };
    sp_apply_expectations(base, t.expectations)
}

/// The concatenated extractions of a list of branches.
pub open spec fn sp_extract_branches(bs: Seq<BranchView>) -> Seq<SolView>
    decreases bs,
{
    if bs.len() == 0 {
        Seq::empty()
    } else {
        sp_extract(bs[0].tableau) + sp_extract_branches(bs.drop_first())
    }
}

/// Whether every assignment pair of `a` is present in `b`.
pub open spec fn sp_sol_pairs_sub(a: SolView, b: SolView) -> bool {
    forall|k: int| 0 <= k < a.len() ==> sp_sol_contains(b, (#[trigger] a[k]).0, a[k].1)
}

/// Whether some strictly smaller solution in the list has all of its pairs
/// present in solution `j`.
pub open spec fn sp_subsumed(sols: Seq<SolView>, j: int) -> bool {
    exists|i: int|
        0 <= i < sols.len() && (#[trigger] sols[i]).len() < sols[j].len() && sp_sol_pairs_sub(
            sols[i],
            sols[j],
        )
}

/// Whether an earlier solution in the list equals solution `j`.
pub open spec fn sp_dup_earlier(sols: Seq<SolView>, j: int) -> bool {
    exists|i: int| 0 <= i < j && sols[i] == sols[j]
}

/// What [`Solutions::clean`] keeps: the solutions that no strictly smaller
/// solution subsumes and that no earlier solution duplicates.
pub open spec fn sp_retained(sols: Seq<SolView>, j: int) -> bool {
    !sp_subsumed(sols, j) && !sp_dup_earlier(sols, j)
}

/// The retained solutions from position `j` on, in order.
pub open spec fn sp_clean_from(sols: Seq<SolView>, j: int) -> Seq<SolView>
    decreases sols.len() - j,
{
    if j < 0 || j >= sols.len() {
        Seq::empty()
    } else {
        (if sp_retained(sols, j) {
            seq![sols[j]]
        } else {
            Seq::empty()
        }) + sp_clean_from(sols, j + 1)
    }
}

/// What [`Solutions::clean`] yields.
pub open spec fn sp_clean(sols: Seq<SolView>) -> Seq<SolView> {
    sp_clean_from(sols, 0)
}

/// A partial variable assignment: an ordered list of unique
/// (variable name, truth value) pairs.
#[derive(Debug)]
pub struct Solution {
    pub variables: Vec<(String, bool)>,
}

impl View for Solution {
    type V = SolView;

    open spec fn view(&self) -> SolView {
        self.variables.deep_view()
    }
}

impl DeepView for Solution {
    type V = SolView;

    open spec fn deep_view(&self) -> SolView {
        self.view()
    }
}

impl Clone for Solution {
    fn clone(&self) -> (r: Self)
        ensures
            r@ == self@,
    {
        let mut variables: Vec<(String, bool)> = Vec::new();
        let mut i: usize = 0;
        while i < self.variables.len()
            invariant
                i <= self.variables.len(),
                variables@.len() == i,
                forall|k: int| 0 <= k < i ==> variables@[k] == self.variables@[k],
            decreases self.variables.len() - i,
        {
            let pair = &self.variables[i];
            variables.push((pair.0.clone(), pair.1));
            i = i + 1;
        }
        let r = Solution { variables };
        proof {
            assert(r@ =~= self@);
        }
        r
    }
}

impl PartialEq for Solution {
    fn eq(&self, other: &Self) -> (r: bool) {
        solution_eq(self, other)
    }
}

impl vstd::std_specs::cmp::PartialEqSpecImpl for Solution {
    open spec fn obeys_eq_spec() -> bool {
        true
    }

    open spec fn eq_spec(&self, other: &Self) -> bool {
        self@ == other@
    }
}

impl Default for Solution {
    fn default() -> (r: Self)
        ensures
            r@ == Seq::<(Seq<char>, bool)>::empty(),
    {
        Solution::new()
    }
}

impl Solution {
    /// Creates an empty [`Solution`].
    pub fn new() -> (r: Self)
        ensures
            r@ == Seq::<(Seq<char>, bool)>::empty(),
    {
        let r = Self { variables: Vec::new() };
        proof {
            assert(r@ =~= Seq::<(Seq<char>, bool)>::empty());
        }
        r
    }

    /// The value assigned to the variable, if any; the first matching pair
    /// decides.
    pub fn get(&self, name: &str) -> (r: Option<bool>)
        ensures
            r == sp_sol_get(self@, name@),
    {
        let mut i: usize = 0;
        proof {
            assert(self@.subrange(0, self@.len() as int) =~= self@);
        }
        while i < self.variables.len()
            invariant
                i <= self.variables.len(),
                sp_sol_get(self@, name@) == sp_sol_get(
                    self@.subrange(i as int, self@.len() as int),
                    name@,
                ),
            decreases self.variables.len() - i,
        {
            proof {
                let rest = self@.subrange(i as int, self@.len() as int);
                assert(rest[0] == self@[i as int]);
                assert(rest.drop_first() =~= self@.subrange(i as int + 1, self@.len() as int));
            }
            if crate::text::str_eq(self.variables[i].0.as_str(), name) {
                return Some(self.variables[i].1);
            }
            i = i + 1;
        }
        proof {
            assert(self@.subrange(self@.len() as int, self@.len() as int) =~= Seq::<
                (Seq<char>, bool),
            >::empty());
        }
        None
    }

    /// Whether the solution holds the exact pair.
    pub fn contains(&self, name: &str, value: bool) -> (r: bool)
        ensures
            r == sp_sol_contains(self@, name@, value),
    {
        let mut i: usize = 0;
        while i < self.variables.len()
            invariant
                i <= self.variables.len(),
                forall|k: int| 0 <= k < i ==> (#[trigger] self@[k]) != (name@, value),
            decreases self.variables.len() - i,
        {
            if crate::text::str_eq(self.variables[i].0.as_str(), name) && self.variables[i].1
                == value {
                proof {
                    assert(self@[i as int] == (name@, value));
                }
                return true;
            }
            proof {
                assert(self@[i as int] != (name@, value));
            }
            i = i + 1;
        }
        false
    }

    /// Appends the pair to the assignment list.
    pub fn push(&mut self, name: &str, value: bool)
        ensures
            final(self)@ == old(self)@.push((name@, value)),
    {
        self.variables.push((name.to_owned(), value));
        proof {
            assert(self@ =~= old(self)@.push((name@, value)));
        }
    }

    /// The number of assigned variables.
    pub fn len(&self) -> (r: usize)
        ensures
            r == self@.len(),
    {
        self.variables.len()
    }

    /// Read access to the assignment pairs, in order.
    pub fn iter(&self) -> (r: &Vec<(String, bool)>)
        ensures
            r == &self.variables,
    {
        &self.variables
    }
}

/// A list of [`Solution`] values representing the candidate models read off
/// a tableau.
#[derive(Debug)]
pub struct Solutions {
    pub solutions: Vec<Solution>,
}

impl View for Solutions {
    type V = Seq<SolView>;

    open spec fn view(&self) -> Seq<SolView> {
        self.solutions.deep_view()
    }
}

impl Clone for Solutions {
    fn clone(&self) -> (r: Self)
        ensures
            r@ == self@,
    {
        let mut solutions: Vec<Solution> = Vec::new();
        let mut i: usize = 0;
        while i < self.solutions.len()
            invariant
                i <= self.solutions.len(),
                solutions@.len() == i,
                forall|k: int| 0 <= k < i ==> (#[trigger] solutions@[k])@ == self.solutions@[k]@,
            decreases self.solutions.len() - i,
        {
            solutions.push(self.solutions[i].clone());
            i = i + 1;
        }
        let r = Solutions { solutions };
        proof {
            assert(r@ =~= self@);
        }
        r
    }
}

impl Default for Solutions {
    fn default() -> (r: Self)
        ensures
            r@ == Seq::<SolView>::empty(),
    {
        Solutions::new()
    }
}

impl Solutions {
    /// Creates an empty [`Solutions`].
    pub fn new() -> (r: Self)
        ensures
            r@ == Seq::<SolView>::empty(),
    {
        let r = Self { solutions: Vec::new() };
        proof {
            assert(r@ =~= Seq::<SolView>::empty());
        }
        r
    }

    /// Whether no solution is left.
    pub fn is_empty(&self) -> (r: bool)
        ensures
            r == (self@.len() == 0),
    {
        self.solutions.len() == 0
    }

    /// The number of solutions.
    pub fn len(&self) -> (r: usize)
        ensures
            r == self@.len(),
    {
        self.solutions.len()
    }

    /// Read access to the solutions, in order.
    pub fn iter(&self) -> (r: &Vec<Solution>)
        ensures
            r == &self.solutions,
    {
        &self.solutions
    }

    /// Pushes a variable assignment onto all solutions, discarding every
    /// solution that contradicts it.
    pub fn push(&mut self, name: &str, value: bool)
        ensures
            final(self)@ == sp_push_sols(old(self)@, name@, value),
    {
        let mut out: Vec<Solution> = Vec::new();
        let mut i: usize = 0;
        proof {
            assert(self@.subrange(0, self@.len() as int) =~= self@);
            assert(out.deep_view() =~= Seq::<SolView>::empty());
            assert(Seq::<SolView>::empty() + sp_push_sols(self@, name@, value) =~= sp_push_sols(
                self@,
                name@,
                value,
            ));
        }
        while i < self.solutions.len()
            invariant
                i <= self.solutions.len(),
                sp_push_sols(old(self)@, name@, value) == out.deep_view() + sp_push_sols(
                    self@.subrange(i as int, self@.len() as int),
                    name@,
                    value,
                ),
                self@ == old(self)@,
                self@.len() == self.solutions.len(),
            decreases self.solutions.len() - i,
        {
            proof {
                let rest = self@.subrange(i as int, self@.len() as int);
                assert(rest[0] == self@[i as int]);
                assert(rest.drop_first() =~= self@.subrange(i as int + 1, self@.len() as int));
            }
            let ghost out_pre = out.deep_view();
            let sol = &self.solutions[i];
            match sol.get(name) {
                Some(v) => {
                    if v == value {
                        out.push(sol.clone());
                        proof {
                            assert(out.deep_view() =~= out_pre + seq![self@[i as int]]);
                            assert(out_pre + seq![self@[i as int]] + sp_push_sols(
                                self@.subrange(i as int + 1, self@.len() as int),
                                name@,
                                value,
                            ) =~= out_pre + (seq![self@[i as int]] + sp_push_sols(
                                self@.subrange(i as int + 1, self@.len() as int),
                                name@,
                                value,
                            )));
                        }
                    }
                },
                None => {
                    let mut extended = sol.clone();
                    extended.push(name, value);
                    out.push(extended);
                    proof {
                        assert(out.deep_view() =~= out_pre + seq![
                            self@[i as int].push((name@, value)),
                        ]);
                        assert(out_pre + seq![self@[i as int].push((name@, value))]
                            + sp_push_sols(
                            self@.subrange(i as int + 1, self@.len() as int),
                            name@,
                            value,
                        ) =~= out_pre + (seq![self@[i as int].push((name@, value))]
                            + sp_push_sols(
                            self@.subrange(i as int + 1, self@.len() as int),
                            name@,
                            value,
                        )));
                    }
                },
            }
            i = i + 1;
        }
        proof {
            assert(self@.subrange(self@.len() as int, self@.len() as int) =~= Seq::<
                SolView,
            >::empty());
            assert(out.deep_view() + Seq::<SolView>::empty() =~= out.deep_view());
        }
        self.solutions = out;
    }

    /// Folds a tableau into its candidate models, bottom up: a leaf yields
    /// one unconstrained solution, branches yield the concatenation of their
    /// extractions, and the node's expectations are then applied in order.
    pub fn from(tableau: &Tableau) -> (r: Solutions)
        ensures
            r@ == sp_extract(tableau@),
        decreases tableau,
    {
        proof {
            crate::tableau::lemma_branches_view(tableau.branches@);
        }
        let mut this = Solutions::new();

        if tableau.branches.len() == 0 {
            this.solutions.push(Solution::new());
            proof {
                assert(this@ =~= seq![Seq::<(Seq<char>, bool)>::empty()]);
            }
        }

        let ghost base = if tableau@.branches.len() == 0 {
            seq![Seq::<(Seq<char>, bool)>::empty()]
        } else {
            sp_extract_branches(tableau@.branches)
        };

        let mut i: usize = 0;
        proof {
            assert(tableau@.branches.subrange(0, tableau@.branches.len() as int) =~= tableau@
                .branches);
            if tableau.branches.len() > 0 {
                assert(this@ =~= Seq::<SolView>::empty());
                assert(Seq::<SolView>::empty() + sp_extract_branches(tableau@.branches)
                    =~= sp_extract_branches(tableau@.branches));
            }
        }
        while i < tableau.branches.len()
            invariant
                i <= tableau.branches.len(),
                tableau@.branches.len() == tableau.branches.len(),
                forall|k: int|
                    0 <= k < tableau.branches@.len() ==> (#[trigger] tableau@.branches[k])
                        == crate::tableau::sp_branch_view(tableau.branches@[k]),
                tableau.branches.len() > 0 ==> sp_extract_branches(tableau@.branches) == this@
                    + sp_extract_branches(
                    tableau@.branches.subrange(i as int, tableau@.branches.len() as int),
                ),
                tableau.branches.len() == 0 ==> this@ == seq![
                    Seq::<(Seq<char>, bool)>::empty(),
                ],
            decreases tableau.branches.len() - i,
        {
            proof {
                let rest = tableau@.branches.subrange(
                    i as int,
                    tableau@.branches.len() as int,
                );
                assert(rest[0] == tableau@.branches[i as int]);
                assert(rest.drop_first() =~= tableau@.branches.subrange(
                    i as int + 1,
                    tableau@.branches.len() as int,
                ));
            }
            let ghost this_pre = this@;
            let mut solutions = Self::from(&tableau.branches[i].tableau);
            this.solutions.append(&mut solutions.solutions);
            proof {
                assert(this@ =~= this_pre + sp_extract(tableau@.branches[i as int].tableau));
                assert(this_pre + sp_extract(tableau@.branches[i as int].tableau)
                    + sp_extract_branches(
                    tableau@.branches.subrange(i as int + 1, tableau@.branches.len() as int),
                ) =~= this_pre + (sp_extract(tableau@.branches[i as int].tableau)
                    + sp_extract_branches(
                    tableau@.branches.subrange(i as int + 1, tableau@.branches.len() as int),
                )));
            }
            i = i + 1;
        }

        proof {
            if tableau.branches.len() > 0 {
                assert(tableau@.branches.subrange(
                    tableau@.branches.len() as int,
                    tableau@.branches.len() as int,
                ) =~= Seq::<BranchView>::empty());
                assert(this@ + Seq::<SolView>::empty() =~= this@);
            }
            assert(this@ == base);
        }

        let mut j: usize = 0;
        proof {
            assert(tableau@.expectations.subrange(0, tableau@.expectations.len() as int)
                =~= tableau@.expectations);
        }
        while j < tableau.expectations.len()
            invariant
                j <= tableau.expectations.len(),
                tableau@.expectations.len() == tableau.expectations.len(),
                forall|k: int|
                    0 <= k < tableau.expectations@.len()
                        ==> (#[trigger] tableau@.expectations[k]) == tableau.expectations@[k]@,
                sp_apply_expectations(base, tableau@.expectations) == sp_apply_expectations(
                    this@,
                    tableau@.expectations.subrange(
                        j as int,
                        tableau@.expectations.len() as int,
                    ),
                ),
            decreases tableau.expectations.len() - j,
        {
            proof {
                let rest = tableau@.expectations.subrange(
                    j as int,
                    tableau@.expectations.len() as int,
                );
                assert(rest[0] == tableau@.expectations[j as int]);
                assert(rest.drop_first() =~= tableau@.expectations.subrange(
                    j as int + 1,
                    tableau@.expectations.len() as int,
                ));
            }
            let expectation = &tableau.expectations[j];
            match &*expectation.expr.kind {
                ExpressionKind::Atomic(atomic) => {
                    this.push(atomic.ident.as_str(), expectation.truth_value);
                },
                ExpressionKind::TruthValue(truth_value) => {
                    if truth_value.value != expectation.truth_value {
                        this.solutions = Vec::new();
                        proof {
                            assert(this@ =~= Seq::<SolView>::empty());
                        }
                    }
                },
                _ => {},
            }
            j = j + 1;
        }
        proof {
            assert(tableau@.expectations.subrange(
                tableau@.expectations.len() as int,
                tableau@.expectations.len() as int,
            ) =~= Seq::<ExpectView>::empty());
        }

        this
    }

    /// Removes the redundant solutions: exact duplicates of an earlier
    /// solution, and every solution that a strictly smaller solution
    /// subsumes. What remains is an antichain of minimal satisfying partial
    /// assignments.
    pub fn clean(&mut self)
        ensures
            final(self)@ == sp_clean(old(self)@),
    {
        let n = self.solutions.len();
        let mut out: Vec<Solution> = Vec::new();
        let mut j: usize = 0;
        proof {
            assert(out.deep_view() =~= Seq::<SolView>::empty());
            assert(Seq::<SolView>::empty() + sp_clean_from(old(self)@, 0) =~= sp_clean_from(
                old(self)@,
                0,
            ));
        }
        while j < n
            invariant
                j <= n,
                n == self.solutions.len(),
                self@ == old(self)@,
                self@.len() == n,
                sp_clean(old(self)@) == out.deep_view() + sp_clean_from(old(self)@, j as int),
            decreases n - j,
        {
            let mut subsumed = false;
            let mut i: usize = 0;
            while i < n
                invariant
                    i <= n,
                    n == self.solutions.len(),
                    self@ == old(self)@,
                    self@.len() == n,
                    j < n,
                    subsumed == exists|k: int|
                        0 <= k < i && (#[trigger] self@[k]).len() < self@[j as int].len()
                            && sp_sol_pairs_sub(self@[k], self@[j as int]),
                decreases n - i,
            {
                if self.solutions[i].len() < self.solutions[j].len() && pairs_subset(
                    &self.solutions[i],
                    &self.solutions[j],
                ) {
                    subsumed = true;
                    proof {
                        assert(self@[i as int].len() < self@[j as int].len()
                            && sp_sol_pairs_sub(self@[i as int], self@[j as int]));
                    }
                }
                i = i + 1;
            }

            let mut duplicate = false;
            let mut d: usize = 0;
            while d < j
                invariant
                    d <= j,
                    j < n,
                    n == self.solutions.len(),
                    self@ == old(self)@,
                    self@.len() == n,
                    duplicate == exists|k: int| 0 <= k < d && self@[k] == self@[j as int],
                decreases j - d,
            {
                if solution_eq(&self.solutions[d], &self.solutions[j]) {
                    duplicate = true;
                    proof {
                        assert(self@[d as int] == self@[j as int]);
                    }
                }
                d = d + 1;
            }

            let ghost out_pre = out.deep_view();
            if !subsumed && !duplicate {
                out.push(self.solutions[j].clone());
                proof {
                    assert(sp_retained(old(self)@, j as int));
                    assert(out.deep_view() =~= out_pre + seq![self@[j as int]]);
                    assert(out_pre + seq![self@[j as int]] + sp_clean_from(
                        old(self)@,
                        j as int + 1,
                    ) =~= out_pre + (seq![self@[j as int]] + sp_clean_from(
                        old(self)@,
                        j as int + 1,
                    )));
                }
            } else {
                proof {
                    assert(!sp_retained(old(self)@, j as int));
                    assert(out_pre + Seq::<SolView>::empty() =~= out_pre);
                    assert(out_pre + (Seq::<SolView>::empty() + sp_clean_from(
                        old(self)@,
                        j as int + 1,
                    )) =~= out_pre + sp_clean_from(old(self)@, j as int + 1));
                }
            }
            j = j + 1;
        }
        proof {
            assert(out.deep_view() + Seq::<SolView>::empty() =~= out.deep_view());
        }
        self.solutions = out;
    }
}

/// Whether every assignment pair of `a` is present in `b`.
fn pairs_subset(a: &Solution, b: &Solution) -> (r: bool)
    ensures
        r == sp_sol_pairs_sub(a@, b@),
{
    let mut i: usize = 0;
    while i < a.variables.len()
        invariant
            i <= a.variables.len(),
            forall|k: int|
                0 <= k < i ==> sp_sol_contains(b@, (#[trigger] a@[k]).0, a@[k].1),
        decreases a.variables.len() - i,
    {
        let pair = &a.variables[i];
        if !b.contains(pair.0.as_str(), pair.1) {
            proof {
                assert(!sp_sol_contains(b@, a@[i as int].0, a@[i as int].1));
            }
            return false;
        }
        proof {
            assert(sp_sol_contains(b@, a@[i as int].0, a@[i as int].1));
        }
        i = i + 1;
    }
    true
}

/// Whether two solutions hold the same assignment lists.
fn solution_eq(a: &Solution, b: &Solution) -> (r: bool)
    ensures
        r == (a@ == b@),
{
    if a.variables.len() != b.variables.len() {
        return false;
    }
    let mut i: usize = 0;
    while i < a.variables.len()
        invariant
            i <= a.variables.len(),
            a@.len() == b@.len(),
            a@.len() == a.variables.len(),
            b@.len() == b.variables.len(),
            forall|k: int| 0 <= k < i ==> a@[k] == b@[k],
        decreases a.variables.len() - i,
    {
        let pa = &a.variables[i];
        let pb = &b.variables[i];
        if !crate::text::str_eq(pa.0.as_str(), pb.0.as_str()) || pa.1 != pb.1 {
            proof {
                assert(a@[i as int] != b@[i as int]);
            }
            return false;
        }
        proof {
            assert(a@[i as int] == b@[i as int]);
        }
        i = i + 1;
    }
    proof {
        assert(a@ =~= b@);
    }
    true
}

} // verus!
