use vstd::prelude::*;

use crate::ast::{
    AtomicExpression, BinaryExpression, ExprView, Expression, ExpressionKind, ParenExpression,
    TruthValueExpression, UnaryExpression,
};
use crate::error::{ErrView, Error};
use crate::parser::{sp_parse, Parser};
use crate::token::{BinOpView, BinaryOperator, UnaryOperator};
use crate::token_stream::{sp_tokenize, sv, TokenStream};

verus! {

/// Mathematical picture of an [`Expectation`]: the claim that an expression
/// evaluates to a truth value, tagged with the id of the decomposition step
/// that produced it.
pub struct ExpectView {
    pub expr: ExprView,
    pub truth_value: bool,
    pub id: nat,
}

/// Mathematical picture of a [`TableauBranch`].
pub struct BranchView {
    pub tableau: TabView,
    pub expectation: nat,
}

/// Mathematical picture of a [`Tableau`]: its expectations and its branches.
pub struct TabView {
    pub expectations: Seq<ExpectView>,
    pub branches: Seq<BranchView>,
}

/// One signed-formula constraint attached to a tableau node.
#[derive(Debug)]
pub struct Expectation {
    pub expr: Expression,
    pub truth_value: bool,
    pub id: u32,
}

/// One alternative sub-tableau, tagged with the id of the expectation whose
/// decomposition created it.
#[derive(Debug)]
pub struct TableauBranch {
    pub tableau: Tableau,
    pub expectation: u32,
}

/// A tableau node: an ordered list of expectations and an ordered list of
/// branches. A tableau with no branches is a leaf.
#[derive(Debug)]
pub struct Tableau {
    pub expectations: Vec<Expectation>,
    pub branches: Vec<TableauBranch>,
}

impl View for Expectation {
    type V = ExpectView;

    open spec fn view(&self) -> ExpectView {
        ExpectView { expr: self.expr@, truth_value: self.truth_value, id: self.id as nat }
    }
}

impl DeepView for Expectation {
    type V = ExpectView;

    open spec fn deep_view(&self) -> ExpectView {
        self.view()
    }
}

/// The views of a list of branches, in order.
pub open spec fn sp_branches_view(bs: Seq<TableauBranch>) -> Seq<BranchView>
    decreases bs,
{
    if bs.len() == 0 {
        Seq::empty()
    } else {
        seq![sp_branch_view(bs[0])] + sp_branches_view(bs.drop_first())
    }
}

/// The view of one branch.
pub open spec fn sp_branch_view(b: TableauBranch) -> BranchView
    decreases b,
{
    BranchView { tableau: sp_tab_view(b.tableau), expectation: b.expectation as nat }
}

/// The view of a tableau.
pub open spec fn sp_tab_view(t: Tableau) -> TabView
    decreases t,
{
    TabView {
        expectations: t.expectations.deep_view(),
        branches: sp_branches_view(t.branches@),
    }
}

impl View for Tableau {
    type V = TabView;

    open spec fn view(&self) -> TabView {
        sp_tab_view(*self)
    }
}

impl View for TableauBranch {
    type V = BranchView;

    open spec fn view(&self) -> BranchView {
        sp_branch_view(*self)
    }
}

/// The view of a branch list holds, position by position, the views of its
/// branches.
pub proof fn lemma_branches_view(bs: Seq<TableauBranch>)
    ensures
        sp_branches_view(bs).len() == bs.len(),
        forall|i: int|
            0 <= i < bs.len() ==> sp_branches_view(bs)[i] == sp_branch_view(bs[i]),
    decreases bs.len(),
{
    if bs.len() > 0 {
        lemma_branches_view(bs.drop_first());
    }
}

/// The number of leaves under a tableau: one for a leaf, else the sum over
/// the branches.
pub open spec fn sp_width(t: TabView) -> nat
    decreases t,
{
    if t.branches.len() == 0 {
        1
    } else {
        sp_width_sum(t.branches)
    }
}

/// The sum of the widths of a list of branches.
pub open spec fn sp_width_sum(bs: Seq<BranchView>) -> nat
    decreases bs,
{
    if bs.len() == 0 {
        0
    } else {
        sp_width(bs[0].tableau) + sp_width_sum(bs.drop_first())
    }
}

/// A width sum splits at any position.
pub proof fn lemma_width_sum_split(bs: Seq<BranchView>, i: int)
    requires
        0 <= i <= bs.len(),
    ensures
        sp_width_sum(bs) == sp_width_sum(bs.subrange(0, i)) + sp_width_sum(
            bs.subrange(i, bs.len() as int),
        ),
    decreases i,
{
    if i == 0 {
        assert(bs.subrange(0, 0) =~= Seq::<BranchView>::empty());
        assert(bs.subrange(0, bs.len() as int) =~= bs);
    } else {
        lemma_width_sum_split(bs.drop_first(), i - 1);
        assert(bs.subrange(0, i).drop_first() =~= bs.drop_first().subrange(0, i - 1));
        assert(bs.subrange(i, bs.len() as int) =~= bs.drop_first().subrange(
            i - 1,
            bs.drop_first().len() as int,
        ));
        assert(bs.subrange(0, i)[0] == bs[0]);
    }
}

/// Grafts the branch list `bs` onto every leaf of `t`.
pub open spec fn sp_graft(t: TabView, bs: Seq<BranchView>) -> TabView
    decreases t,
{
    if t.branches.len() == 0 {
        TabView { expectations: t.expectations, branches: bs }
    } else {
        TabView { expectations: t.expectations, branches: sp_graft_all(t.branches, bs) }
    }
}

/// Grafts the branch list `bs` onto every leaf under each branch of `ts`.
pub open spec fn sp_graft_all(ts: Seq<BranchView>, bs: Seq<BranchView>) -> Seq<BranchView>
    decreases ts,
{
    if ts.len() == 0 {
        Seq::empty()
    } else {
        seq![
            BranchView { tableau: sp_graft(ts[0].tableau, bs), expectation: ts[0].expectation },
        ] + sp_graft_all(ts.drop_first(), bs)
    }
}

/// What [`Tableau::append`] yields: the other tableau's expectations join
/// this node's list, and its branches are grafted onto every leaf.
pub open spec fn sp_append(t: TabView, o: TabView) -> TabView {
    sp_graft(
        TabView { expectations: t.expectations + o.expectations, branches: t.branches },
        o.branches,
    )
}

/// The number of decomposition steps (fresh ids) that building a tableau for
/// the expression takes. An equivalence or an exclusive disjunction
/// decomposes each operand twice, once for each polarity.
pub open spec fn sp_count(e: ExprView) -> nat
    decreases e,
{
    match e {
        ExprView::TruthValue { .. } => 1,
        ExprView::Atomic { .. } => 1,
        ExprView::Paren { inner, .. } => sp_count(*inner),
        ExprView::Unary { operand, .. } => 1 + sp_count(*operand),
        ExprView::Binary { lhs, op, rhs, .. } => match op {
            BinOpView::Conjunction(_) => 1 + sp_count(*lhs) + sp_count(*rhs),
            BinOpView::Disjunction(_) => 1 + sp_count(*lhs) + sp_count(*rhs),
            BinOpView::Implication(_) => 1 + sp_count(*lhs) + sp_count(*rhs),
            BinOpView::ExclusiveDisjunction(_) => 1 + 2 * sp_count(*lhs) + 2 * sp_count(*rhs),
            BinOpView::Equivalence(_) => 1 + 2 * sp_count(*lhs) + 2 * sp_count(*rhs),
        },
    }
}

/// A leaf node: one expectation, no branches.
pub open spec fn sp_leaf(e: ExprView, expect: bool, id: nat) -> TabView {
    TabView {
        expectations: seq![ExpectView { expr: e, truth_value: expect, id }],
        branches: Seq::empty(),
    }
}

/// A node with one expectation and a single branch, tagged with the
/// expectation's id.
pub open spec fn sp_fork1(e: ExprView, expect: bool, id: nat, sub: TabView) -> TabView {
    TabView {
        expectations: seq![ExpectView { expr: e, truth_value: expect, id }],
        branches: seq![BranchView { tableau: sub, expectation: id }],
    }
}

/// A node with one expectation and two branches, both tagged with the
/// expectation's id.
pub open spec fn sp_fork2(e: ExprView, expect: bool, id: nat, a: TabView, b: TabView) -> TabView {
    TabView {
        expectations: seq![ExpectView { expr: e, truth_value: expect, id }],
        branches: seq![
            BranchView { tableau: a, expectation: id },
            BranchView { tableau: b, expectation: id },
        ],
    }
}

/// The tableau for expression `e` under expected truth value `expect`, with
/// fresh ids issued from `id` on, together with the next unused id. This is
/// the decomposition rule table: a literal yields a leaf; a parenthesis is
/// transparent; negation flips the expected value; an alpha rule appends the
/// second operand's tableau onto the first's in a single branch; a beta rule
/// opens two branches; an equivalence opens two branches of appended pairs,
/// one per agreeing polarity; an exclusive disjunction decomposes as an
/// equivalence with the expected value negated.
pub open spec fn sp_build(e: ExprView, expect: bool, id: nat) -> (TabView, nat)
    decreases e,
{
    match e {
        ExprView::TruthValue { .. } => (sp_leaf(e, expect, id), id + 1),
        ExprView::Atomic { .. } => (sp_leaf(e, expect, id), id + 1),
        ExprView::Paren { inner, .. } => sp_build(*inner, expect, id),
        ExprView::Unary { operand, .. } => {
            let (sub, next) = sp_build(*operand, !expect, id + 1);
            (sp_fork1(e, expect, id, sub), next)
        },
        ExprView::Binary { lhs, op, rhs, .. } => {
            let l = *lhs;
            let r = *rhs;
            match op {
                BinOpView::Conjunction(_) => if expect {
                    let (lt, id2) = sp_build(l, true, id + 1);
                    let (rt, id3) = sp_build(r, true, id2);
                    (sp_fork1(e, true, id, sp_append(lt, rt)), id3)
                } else {
                    let (lt, id2) = sp_build(l, false, id + 1);
                    let (rt, id3) = sp_build(r, false, id2);
                    (sp_fork2(e, false, id, lt, rt), id3)
                },
                BinOpView::Disjunction(_) => if expect {
                    let (lt, id2) = sp_build(l, true, id + 1);
                    let (rt, id3) = sp_build(r, true, id2);
                    (sp_fork2(e, true, id, lt, rt), id3)
                } else {
                    let (lt, id2) = sp_build(l, false, id + 1);
                    let (rt, id3) = sp_build(r, false, id2);
                    (sp_fork1(e, false, id, sp_append(lt, rt)), id3)
                },
                BinOpView::Implication(_) => if expect {
                    let (lt, id2) = sp_build(l, false, id + 1);
                    let (rt, id3) = sp_build(r, true, id2);
                    (sp_fork2(e, true, id, lt, rt), id3)
                } else {
                    let (lt, id2) = sp_build(l, true, id + 1);
                    let (rt, id3) = sp_build(r, false, id2);
                    (sp_fork1(e, false, id, sp_append(lt, rt)), id3)
                },
                BinOpView::ExclusiveDisjunction(_) => {
                    let v = !expect;
                    let (la, id2) = sp_build(l, true, id + 1);
                    let (ra, id3) = sp_build(r, v, id2);
                    let (lb, id4) = sp_build(l, false, id3);
                    let (rb, id5) = sp_build(r, !v, id4);
                    (sp_fork2(e, v, id, sp_append(la, ra), sp_append(lb, rb)), id5)
                },
                BinOpView::Equivalence(_) => {
                    let v = expect;
                    let (la, id2) = sp_build(l, true, id + 1);
                    let (ra, id3) = sp_build(r, v, id2);
                    let (lb, id4) = sp_build(l, false, id3);
                    let (rb, id5) = sp_build(r, !v, id4);
                    (sp_fork2(e, v, id, sp_append(la, ra), sp_append(lb, rb)), id5)
                },
            }
        },
    }
}

/// What [`TableauBuilder::build_conjunction`] yields.
pub open spec fn sp_build_conjunction(
    e: ExprView,
    l: ExprView,
    r: ExprView,
    expect: bool,
    id: nat,
) -> (TabView, nat) {
    if expect {
        let (lt, id2) = sp_build(l, true, id + 1);
        let (rt, id3) = sp_build(r, true, id2);
        (sp_fork1(e, true, id, sp_append(lt, rt)), id3)
    } else {
        let (lt, id2) = sp_build(l, false, id + 1);
        let (rt, id3) = sp_build(r, false, id2);
        (sp_fork2(e, false, id, lt, rt), id3)
    }
}

/// What [`TableauBuilder::build_disjunction`] yields.
pub open spec fn sp_build_disjunction(
    e: ExprView,
    l: ExprView,
    r: ExprView,
    expect: bool,
    id: nat,
) -> (TabView, nat) {
    if expect {
        let (lt, id2) = sp_build(l, true, id + 1);
        let (rt, id3) = sp_build(r, true, id2);
        (sp_fork2(e, true, id, lt, rt), id3)
    } else {
        let (lt, id2) = sp_build(l, false, id + 1);
        let (rt, id3) = sp_build(r, false, id2);
        (sp_fork1(e, false, id, sp_append(lt, rt)), id3)
    }
}

/// What [`TableauBuilder::build_implication`] yields.
pub open spec fn sp_build_implication(
    e: ExprView,
    l: ExprView,
    r: ExprView,
    expect: bool,
    id: nat,
) -> (TabView, nat) {
    if expect {
        let (lt, id2) = sp_build(l, false, id + 1);
        let (rt, id3) = sp_build(r, true, id2);
        (sp_fork2(e, true, id, lt, rt), id3)
    } else {
        let (lt, id2) = sp_build(l, true, id + 1);
        let (rt, id3) = sp_build(r, false, id2);
        (sp_fork1(e, false, id, sp_append(lt, rt)), id3)
    }
}

/// What [`TableauBuilder::build_equivalence`] yields.
pub open spec fn sp_build_equivalence(
    e: ExprView,
    l: ExprView,
    r: ExprView,
    expect: bool,
    id: nat,
) -> (TabView, nat) {
    let (la, id2) = sp_build(l, true, id + 1);
    let (ra, id3) = sp_build(r, expect, id2);
    let (lb, id4) = sp_build(l, false, id3);
    let (rb, id5) = sp_build(r, !expect, id4);
    (sp_fork2(e, expect, id, sp_append(la, ra), sp_append(lb, rb)), id5)
}

/// What [`TableauBuilder::build_exclusive`] yields: an equivalence with the
/// expected value negated.
pub open spec fn sp_build_exclusive(
    e: ExprView,
    l: ExprView,
    r: ExprView,
    expect: bool,
    id: nat,
) -> (TabView, nat) {
    sp_build_equivalence(e, l, r, !expect, id)
}

/// Every expression takes at least one decomposition step.
pub proof fn lemma_sp_count_pos(e: ExprView)
    ensures
        sp_count(e) >= 1,
    decreases e,
{
    match e {
        ExprView::Paren { inner, .. } => lemma_sp_count_pos(*inner),
        _ => {},
    }
}

/// Building consumes exactly [`sp_count`] fresh ids.
pub proof fn lemma_sp_build_id(e: ExprView, expect: bool, id: nat)
    ensures
        sp_build(e, expect, id).1 == id + sp_count(e),
    decreases e,
{
    match e {
        ExprView::TruthValue { .. } => {},
        ExprView::Atomic { .. } => {},
        ExprView::Paren { inner, .. } => {
            lemma_sp_build_id(*inner, expect, id);
        },
        ExprView::Unary { operand, .. } => {
            lemma_sp_build_id(*operand, !expect, id + 1);
        },
        ExprView::Binary { lhs, op, rhs, .. } => {
            let l = *lhs;
            let r = *rhs;
            match op {
                BinOpView::Conjunction(_) => {
                    lemma_sp_build_id(l, expect, id + 1);
                    lemma_sp_build_id(r, expect, sp_build(l, expect, id + 1).1);
                },
                BinOpView::Disjunction(_) => {
                    lemma_sp_build_id(l, expect, id + 1);
                    lemma_sp_build_id(r, expect, sp_build(l, expect, id + 1).1);
                },
                BinOpView::Implication(_) => {
                    lemma_sp_build_id(l, !expect, id + 1);
                    lemma_sp_build_id(r, expect, sp_build(l, !expect, id + 1).1);
                },
                BinOpView::ExclusiveDisjunction(_) => {
                    let v = !expect;
                    lemma_sp_build_id(l, true, id + 1);
                    let id2 = sp_build(l, true, id + 1).1;
                    lemma_sp_build_id(r, v, id2);
                    let id3 = sp_build(r, v, id2).1;
                    lemma_sp_build_id(l, false, id3);
                    let id4 = sp_build(l, false, id3).1;
                    lemma_sp_build_id(r, !v, id4);
                },
                BinOpView::Equivalence(_) => {
                    let v = expect;
                    lemma_sp_build_id(l, true, id + 1);
                    let id2 = sp_build(l, true, id + 1).1;
                    lemma_sp_build_id(r, v, id2);
                    let id3 = sp_build(r, v, id2).1;
                    lemma_sp_build_id(l, false, id3);
                    let id4 = sp_build(l, false, id3).1;
                    lemma_sp_build_id(r, !v, id4);
                },
            }
        },
    }
}

impl Clone for Expectation {
    fn clone(&self) -> (r: Self)
        ensures
            r == *self,
    {
        Expectation { expr: self.expr.clone(), truth_value: self.truth_value, id: self.id }
    }
}

impl Expectation {
    /// Creates a new [`Expectation`].
    pub fn new(expr: Expression, truth_value: bool, id: u32) -> (r: Self)
        ensures
            r.expr == expr,
            r.truth_value == truth_value,
            r.id == id,
    {
        Self { expr, truth_value, id }
    }
}

impl TableauBranch {
    /// Creates a new [`TableauBranch`].
    pub fn new(tableau: Tableau, expectation: u32) -> (r: Self)
        ensures
            r.tableau == tableau,
            r.expectation == expectation,
    {
        Self { tableau, expectation }
    }
}

impl Clone for TableauBranch {
    fn clone(&self) -> (r: Self)
        ensures
            r@ == self@,
        decreases self,
    {
        TableauBranch { tableau: self.tableau.clone(), expectation: self.expectation }
    }
}

impl Clone for Tableau {
    fn clone(&self) -> (r: Self)
        ensures
            r@ == self@,
        decreases self,
    {
        let mut expectations: Vec<Expectation> = Vec::new();
        let mut i: usize = 0;
        while i < self.expectations.len()
            invariant
                i <= self.expectations.len(),
                expectations@.len() == i,
                forall|k: int| 0 <= k < i ==> expectations@[k] == self.expectations@[k],
            decreases self.expectations.len() - i,
        {
            expectations.push(self.expectations[i].clone());
            i = i + 1;
        }

        let mut branches: Vec<TableauBranch> = Vec::new();
        let mut j: usize = 0;
        while j < self.branches.len()
            invariant
                j <= self.branches.len(),
                branches@.len() == j,
                forall|k: int|
                    0 <= k < j ==> sp_branch_view(#[trigger] branches@[k]) == sp_branch_view(
                        self.branches@[k],
                    ),
            decreases self.branches.len() - j,
        {
            branches.push(self.branches[j].clone());
            j = j + 1;
        }

        let r = Tableau { expectations, branches };
        proof {
            assert(expectations@ =~= self.expectations@);
            lemma_branches_view(branches@);
            lemma_branches_view(self.branches@);
            assert(sp_branches_view(branches@) =~= sp_branches_view(self.branches@));
        }
        r
    }
}

/// A copy of a branch list with the same view.
fn clone_branches(bs: &Vec<TableauBranch>) -> (r: Vec<TableauBranch>)
    ensures
        r@.len() == bs@.len(),
        sp_branches_view(r@) == sp_branches_view(bs@),
{
    let mut out: Vec<TableauBranch> = Vec::new();
    let mut i: usize = 0;
    while i < bs.len()
        invariant
            i <= bs.len(),
            out@.len() == i,
            forall|k: int|
                0 <= k < i ==> sp_branch_view(#[trigger] out@[k]) == sp_branch_view(bs@[k]),
        decreases bs.len() - i,
    {
        out.push(bs[i].clone());
        i = i + 1;
    }
    proof {
        lemma_branches_view(out@);
        lemma_branches_view(bs@);
        assert(sp_branches_view(out@) =~= sp_branches_view(bs@));
    }
    out
}

impl Tableau {
    /// Whether some expectation at this node carries the given id.
    pub fn has_expectation(&self, id: u32) -> (r: bool)
        ensures
            r == exists|k: int|
                0 <= k < self@.expectations.len() && (#[trigger] self@.expectations[k]).id == id
                    as nat,
    {
        let mut i: usize = 0;
        while i < self.expectations.len()
            invariant
                i <= self.expectations.len(),
                forall|k: int|
                    0 <= k < i ==> (#[trigger] self@.expectations[k]).id != id as nat,
            decreases self.expectations.len() - i,
        {
            if self.expectations[i].id == id {
                proof {
                    assert(self@.expectations[i as int].id == id as nat);
                }
                return true;
            }
            i = i + 1;
        }
        false
    }

    /// Whether some branch at this node was created by the expectation with
    /// the given id.
    pub fn solves_expectation(&self, id: u32) -> (r: bool)
        ensures
            r == exists|k: int|
                0 <= k < self@.branches.len() && (#[trigger] self@.branches[k]).expectation == id
                    as nat,
    {
        proof {
            lemma_branches_view(self.branches@);
        }
        let mut i: usize = 0;
        while i < self.branches.len()
            invariant
                i <= self.branches.len(),
                self@.branches.len() == self.branches.len(),
                forall|k: int|
                    0 <= k < self.branches@.len() ==> (#[trigger] self@.branches[k])
                        == sp_branch_view(self.branches@[k]),
                forall|k: int|
                    0 <= k < i ==> (#[trigger] self@.branches[k]).expectation != id as nat,
            decreases self.branches.len() - i,
        {
            if self.branches[i].expectation == id {
                proof {
                    assert(self@.branches[i as int].expectation == id as nat);
                }
                return true;
            }
            i = i + 1;
        }
        false
    }

    /// Shallow concatenation: the other tableau's expectation and branch
    /// lists follow this node's own, at the top level only.
    pub fn merge(&mut self, other: Self)
        ensures
            final(self)@.expectations == old(self)@.expectations + other@.expectations,
            final(self)@.branches == old(self)@.branches + other@.branches,
    {
        let ghost exps_pre = self.expectations.deep_view();
        let ghost branches_pre = self.branches@;
        let ghost other_exps = other.expectations.deep_view();
        let ghost other_branches = other.branches@;
        let mut other = other;
        self.expectations.append(&mut other.expectations);
        self.branches.append(&mut other.branches);
        proof {
            assert(self.expectations.deep_view() =~= exps_pre + other_exps);
            lemma_branches_view(self.branches@);
            lemma_branches_view(branches_pre);
            lemma_branches_view(other_branches);
            assert(sp_branches_view(self.branches@) =~= sp_branches_view(branches_pre)
                + sp_branches_view(other_branches));
        }
    }

    /// The number of leaf tableaux reachable from this node: one for a leaf,
    /// else the sum of the branches' widths; the number of candidate models
    /// the tableau currently represents.
    pub fn width(&self) -> (r: usize)
        requires
            sp_width(self@) <= usize::MAX,
        ensures
            r == sp_width(self@),
        decreases *self,
    {
        proof {
            lemma_branches_view(self.branches@);
        }
        if self.branches.len() == 0 {
            return 1;
        }
        let mut total: usize = 0;
        let mut i: usize = 0;
        while i < self.branches.len()
            invariant
                i <= self.branches.len(),
                sp_width(self@) <= usize::MAX,
                self@.branches.len() == self.branches.len(),
                self.branches.len() > 0,
                sp_width(self@) == sp_width_sum(self@.branches),
                forall|k: int|
                    0 <= k < self.branches@.len() ==> (#[trigger] self@.branches[k])
                        == sp_branch_view(self.branches@[k]),
                total == sp_width_sum(self@.branches.subrange(0, i as int)),
            decreases self.branches.len() - i,
        {
            proof {
                let bs = self@.branches;
                lemma_width_sum_split(bs, i as int);
                assert(bs.subrange(i as int, bs.len() as int)[0] == bs[i as int]);
                assert(bs.subrange(i as int, bs.len() as int).drop_first() =~= bs.subrange(
                    i as int + 1,
                    bs.len() as int,
                ));
                lemma_width_sum_split(bs, i as int + 1);
                assert(bs.subrange(0, i as int + 1).drop_last() =~= bs.subrange(0, i as int));
                assert(bs.subrange(0, i as int + 1).last() == bs[i as int]);
                lemma_width_sum_last(bs.subrange(0, i as int + 1));
            }
            let w = self.branches[i].tableau.width();
            total = total + w;
            i = i + 1;
        }
        proof {
            assert(self@.branches.subrange(0, self@.branches.len() as int) =~= self@.branches);
        }
        total
    }

    /// Grafts the other branch's expectations and sub-branches onto this
    /// tableau: its expectations join this node's own list, and its branches
    /// are attached below every leaf, so that both constraints hold along
    /// every existing path.
    pub fn append(&mut self, other: TableauBranch)
        ensures
            final(self)@ == sp_append(old(self)@, other@.tableau),
        decreases *old(self),
    {
        let TableauBranch { tableau: other_tab, expectation: other_id } = other;
        let Tableau { expectations: mut other_exps, branches: other_branches } = other_tab;
        let ghost other_view = TabView {
            expectations: other_exps.deep_view(),
            branches: sp_branches_view(other_branches@),
        };
        let ghost exps_pre = self.expectations.deep_view();
        self.expectations.append(&mut other_exps);
        proof {
            assert(self.expectations.deep_view() =~= exps_pre + other_view.expectations);
        }

        if self.branches.len() == 0 {
            self.branches = other_branches;
            return ;
        }

        let ghost branches_pre = self.branches@;
        proof {
            lemma_branches_view(branches_pre);
        }
        let mut new_branches: Vec<TableauBranch> = Vec::new();
        while self.branches.len() > 0
            invariant
                self.expectations.deep_view() == exps_pre + other_view.expectations,
                sp_branches_view(other_branches@) == other_view.branches,
                self.branches@.len() <= branches_pre.len(),
                self.branches@ == branches_pre.subrange(
                    branches_pre.len() - self.branches@.len(),
                    branches_pre.len() as int,
                ),
                new_branches@.len() + self.branches@.len() == branches_pre.len(),
                forall|k: int|
                    0 <= k < new_branches@.len() ==> sp_branch_view(
                        #[trigger] new_branches@[k],
                    ) == (BranchView {
                        tableau: sp_graft(
                            sp_branch_view(branches_pre[k]).tableau,
                            other_view.branches,
                        ),
                        expectation: sp_branch_view(branches_pre[k]).expectation,
                    }),
                old(self).branches@ == branches_pre,
            decreases self.branches@.len(),
        {
            let ghost done = new_branches@.len() as int;
            let b = self.branches.remove(0);
            proof {
                assert(branches_pre.subrange(done, branches_pre.len() as int)[0]
                    == branches_pre[done]);
                assert(self.branches@ =~= branches_pre.subrange(
                    done + 1,
                    branches_pre.len() as int,
                ));
            }
            let TableauBranch { tableau: mut t, expectation: b_id } = b;
            let sub = TableauBranch {
                tableau: Tableau {
                    expectations: Vec::new(),
                    branches: clone_branches(&other_branches),
                },
                expectation: other_id,
            };
            proof {
                assert(t == old(self).branches@[done].tableau);
                broadcast use vstd::std_specs::vec::axiom_vec_decreases_to_view;
                assert(decreases_to!(*old(self) => old(self).branches));
                assert(decreases_to!(old(self).branches => old(self).branches@));
                vstd::seq::axiom_seq_index_decreases(old(self).branches@, done);
                assert(decreases_to!(old(self).branches@ => old(self).branches@[done]));
                assert(decreases_to!(old(self).branches@[done] => old(self).branches@[
                    done].tableau));
                assert(decreases_to!(*old(self) => t));
                assert(sub.tableau@.expectations =~= Seq::<ExpectView>::empty());
                assert(sub@.tableau.branches == other_view.branches);
            }
            t.append(sub);
            proof {
                let bt = sp_branch_view(branches_pre[done]).tableau;
                assert(bt.expectations + Seq::<ExpectView>::empty() =~= bt.expectations);
                assert(TabView {
                    expectations: bt.expectations + Seq::<ExpectView>::empty(),
                    branches: bt.branches,
                } == TabView { expectations: bt.expectations, branches: bt.branches });
                assert(sp_tab_view(t) == sp_graft(bt, other_view.branches));
            }
            new_branches.push(TableauBranch { tableau: t, expectation: b_id });
        }

        self.branches = new_branches;
        proof {
            lemma_branches_view(self.branches@);
            lemma_graft_all_view(branches_pre, other_view.branches);
            assert(sp_branches_view(self.branches@) =~= sp_graft_all(
                sp_branches_view(branches_pre),
                other_view.branches,
            ));
        }
    }
}

/// The width sum over a non-empty list splits off its last element.
proof fn lemma_width_sum_last(bs: Seq<BranchView>)
    requires
        bs.len() > 0,
    ensures
        sp_width_sum(bs) == sp_width_sum(bs.drop_last()) + sp_width(bs.last().tableau),
    decreases bs.len(),
{
    if bs.len() == 1 {
        assert(bs.drop_last() =~= Seq::<BranchView>::empty());
        assert(bs.drop_first() =~= Seq::<BranchView>::empty());
    } else {
        lemma_width_sum_last(bs.drop_first());
        assert(bs.drop_last().drop_first() =~= bs.drop_first().drop_last());
        assert(bs.drop_first().last() == bs.last());
        assert(bs.drop_last()[0] == bs[0]);
    }
}

/// Grafting below a branch list grafts below each branch's tableau.
proof fn lemma_graft_all_view(ts: Seq<TableauBranch>, bs: Seq<BranchView>)
    ensures
        sp_graft_all(sp_branches_view(ts), bs).len() == ts.len(),
        forall|k: int|
            0 <= k < ts.len() ==> sp_graft_all(sp_branches_view(ts), bs)[k] == (BranchView {
                tableau: sp_graft(sp_branch_view(#[trigger] ts[k]).tableau, bs),
                expectation: sp_branch_view(ts[k]).expectation,
            }),
    decreases ts.len(),
{
    lemma_branches_view(ts);
    if ts.len() > 0 {
        lemma_graft_all_view(ts.drop_first(), bs);
        lemma_branches_view(ts.drop_first());
        assert(sp_branches_view(ts).drop_first() =~= sp_branches_view(ts.drop_first()));
        assert forall|k: int| 0 <= k < ts.len() implies sp_graft_all(sp_branches_view(ts), bs)[k]
            == (BranchView {
            tableau: sp_graft(sp_branch_view(#[trigger] ts[k]).tableau, bs),
            expectation: sp_branch_view(ts[k]).expectation,
        }) by {
            if k > 0 {
                assert(sp_graft_all(sp_branches_view(ts), bs)[k] == sp_graft_all(
                    sp_branches_view(ts.drop_first()),
                    bs,
                )[k - 1]);
                assert(ts.drop_first()[k - 1] == ts[k]);
            }
        }
    }
}

/// Issues the monotonically increasing decomposition ids of one build.
#[derive(Default)]
pub struct TableauBuilder {
    pub id: u32,
}

impl TableauBuilder {
    /// A fresh id; each decomposition step takes one.
    pub fn next_id(&mut self) -> (r: u32)
        requires
            old(self).id < u32::MAX,
        ensures
            r == old(self).id,
            final(self).id == old(self).id + 1,
    {
        let id = self.id;
        self.id = self.id + 1;
        id
    }

    /// A truth literal yields a leaf: one expectation, no branches.
    #[must_use]
    pub fn build_truth_value(
        &mut self,
        expr: &Expression,
        _truth_value: &TruthValueExpression,
        expect: bool,
    ) -> (r: Tableau)
        requires
            old(self).id < u32::MAX,
        ensures
            r@ == sp_leaf(expr@, expect, old(self).id as nat),
            final(self).id == old(self).id + 1,
    {
        let id = self.next_id();
        let r = Tableau {
            expectations: vec![Expectation::new(expr.clone(), expect, id)],
            branches: Vec::new(),
        };
        proof {
            assert(r.expectations.deep_view() =~= seq![
                ExpectView { expr: expr@, truth_value: expect, id: id as nat },
            ]);
            assert(sp_branches_view(r.branches@) =~= Seq::<BranchView>::empty());
        }
        r
    }

    /// An atomic expression yields a leaf: one expectation, no branches.
    #[must_use]
    pub fn build_atomic(
        &mut self,
        expr: &Expression,
        _atomic: &AtomicExpression,
        expect: bool,
    ) -> (r: Tableau)
        requires
            old(self).id < u32::MAX,
        ensures
            r@ == sp_leaf(expr@, expect, old(self).id as nat),
            final(self).id == old(self).id + 1,
    {
        let id = self.next_id();
        let r = Tableau {
            expectations: vec![Expectation::new(expr.clone(), expect, id)],
            branches: Vec::new(),
        };
        proof {
            assert(r.expectations.deep_view() =~= seq![
                ExpectView { expr: expr@, truth_value: expect, id: id as nat },
            ]);
            assert(sp_branches_view(r.branches@) =~= Seq::<BranchView>::empty());
        }
        r
    }

    /// A parenthesis is transparent: the inner expression is decomposed.
    #[must_use]
    pub fn build_paren(
        &mut self,
        _expr: &Expression,
        paren: &ParenExpression,
        expect: bool,
    ) -> (r: Tableau)
        requires
            old(self).id as nat + sp_count(paren.expression@) <= u32::MAX,
        ensures
            ({
                let p = sp_build(paren.expression@, expect, old(self).id as nat);
                r@ == p.0 && final(self).id as nat == p.1
            }),
        decreases paren.expression@.size(), 1int,
    {
        self.build_expression(&paren.expression, expect)
    }

    /// A negated expression is decomposed with the expected value flipped.
    #[must_use]
    pub fn build_negation(&mut self, operand: &Expression, expect: bool) -> (r: Tableau)
        requires
            old(self).id as nat + sp_count(operand@) <= u32::MAX,
        ensures
            ({
                let p = sp_build(operand@, !expect, old(self).id as nat);
                r@ == p.0 && final(self).id as nat == p.1
            }),
        decreases operand@.size(), 1int,
    {
        self.build_expression(operand, !expect)
    }

    /// A unary expression: one expectation with a single branch holding the
    /// operand decomposed under the flipped expected value.
    #[must_use]
    pub fn build_unary(
        &mut self,
        expr: &Expression,
        unary: &UnaryExpression,
        expect: bool,
    ) -> (r: Tableau)
        requires
            old(self).id as nat + 1 + sp_count(unary.operand@) <= u32::MAX,
        ensures
            ({
                let id0 = old(self).id as nat;
                let p = sp_build(unary.operand@, !expect, id0 + 1);
                r@ == sp_fork1(expr@, expect, id0, p.0) && final(self).id as nat == p.1
            }),
        decreases unary.operand@.size(), 1int,
    {
        let id = self.next_id();

        let tableau = match unary.operator {
            UnaryOperator::Negation(_) => self.build_expression(&unary.operand, !expect),
        };

        let r = Tableau {
            expectations: vec![Expectation::new(expr.clone(), expect, id)],
            branches: vec![TableauBranch::new(tableau, id)],
        };
        proof {
            assert(r.expectations.deep_view() =~= seq![
                ExpectView { expr: expr@, truth_value: expect, id: id as nat },
            ]);
            lemma_branches_view(r.branches@);
            assert(sp_branches_view(r.branches@) =~= seq![
                BranchView {
                    tableau: sp_build(unary.operand@, !expect, id as nat + 1).0,
                    expectation: id as nat,
                },
            ]);
        }
        r
    }

    /// A conjunction expected true is an alpha rule: one branch holding both
    /// operands' tableaux; expected false it is a beta rule: two branches.
    #[must_use]
    pub fn build_conjunction(
        &mut self,
        expr: &Expression,
        lhs: &Expression,
        rhs: &Expression,
        expect: bool,
    ) -> (r: Tableau)
        requires
            old(self).id as nat + 1 + sp_count(lhs@) + sp_count(rhs@) <= u32::MAX,
        ensures
            ({
                let p = sp_build_conjunction(expr@, lhs@, rhs@, expect, old(self).id as nat);
                r@ == p.0 && final(self).id as nat == p.1
            }),
        decreases lhs@.size() + rhs@.size(), 0int,
    {
        proof {
            lhs@.lemma_size_pos();
            rhs@.lemma_size_pos();
            lemma_sp_count_pos(lhs@);
            lemma_sp_count_pos(rhs@);
            lemma_sp_build_id(lhs@, expect, old(self).id as nat + 1);
        }
        let id = self.next_id();

        if expect == true {
            let mut lhs_tableau = self.build_expression(lhs, true);
            let rhs_tableau = self.build_expression(rhs, true);

            lhs_tableau.append(TableauBranch::new(rhs_tableau, id));

            let r = Tableau {
                expectations: vec![Expectation::new(expr.clone(), true, id)],
                branches: vec![TableauBranch::new(lhs_tableau, id)],
            };
            proof {
                assert(r.expectations.deep_view() =~= seq![
                    ExpectView { expr: expr@, truth_value: true, id: id as nat },
                ]);
                lemma_branches_view(r.branches@);
                assert(r@ == sp_build_conjunction(expr@, lhs@, rhs@, true, id as nat).0) by {
                    assert(sp_branches_view(r.branches@) =~= sp_build_conjunction(
                        expr@,
                        lhs@,
                        rhs@,
                        true,
                        id as nat,
                    ).0.branches);
                }
            }
            r
        } else {
            let lhs_tableau = self.build_expression(lhs, false);
            let rhs_tableau = self.build_expression(rhs, false);

            let r = Tableau {
                expectations: vec![Expectation::new(expr.clone(), false, id)],
                branches: vec![
                    TableauBranch::new(lhs_tableau, id),
                    TableauBranch::new(rhs_tableau, id),
                ],
            };
            proof {
                assert(r.expectations.deep_view() =~= seq![
                    ExpectView { expr: expr@, truth_value: false, id: id as nat },
                ]);
                lemma_branches_view(r.branches@);
                assert(r@ == sp_build_conjunction(expr@, lhs@, rhs@, false, id as nat).0) by {
                    assert(sp_branches_view(r.branches@) =~= sp_build_conjunction(
                        expr@,
                        lhs@,
                        rhs@,
                        false,
                        id as nat,
                    ).0.branches);
                }
            }
            r
        }
    }

    /// A disjunction expected true is a beta rule; expected false an alpha
    /// rule.
    #[must_use]
    pub fn build_disjunction(
        &mut self,
        expr: &Expression,
        lhs: &Expression,
        rhs: &Expression,
        expect: bool,
    ) -> (r: Tableau)
        requires
            old(self).id as nat + 1 + sp_count(lhs@) + sp_count(rhs@) <= u32::MAX,
        ensures
            ({
                let p = sp_build_disjunction(expr@, lhs@, rhs@, expect, old(self).id as nat);
                r@ == p.0 && final(self).id as nat == p.1
            }),
        decreases lhs@.size() + rhs@.size(), 0int,
    {
        proof {
            lhs@.lemma_size_pos();
            rhs@.lemma_size_pos();
            lemma_sp_count_pos(lhs@);
            lemma_sp_count_pos(rhs@);
            lemma_sp_build_id(lhs@, expect, old(self).id as nat + 1);
        }
        let id = self.next_id();

        if expect == true {
            let lhs_tableau = self.build_expression(lhs, true);
            let rhs_tableau = self.build_expression(rhs, true);

            let r = Tableau {
                expectations: vec![Expectation::new(expr.clone(), true, id)],
                branches: vec![
                    TableauBranch::new(lhs_tableau, id),
                    TableauBranch::new(rhs_tableau, id),
                ],
            };
            proof {
                assert(r.expectations.deep_view() =~= seq![
                    ExpectView { expr: expr@, truth_value: true, id: id as nat },
                ]);
                lemma_branches_view(r.branches@);
                assert(r@ == sp_build_disjunction(expr@, lhs@, rhs@, true, id as nat).0) by {
                    assert(sp_branches_view(r.branches@) =~= sp_build_disjunction(
                        expr@,
                        lhs@,
                        rhs@,
                        true,
                        id as nat,
                    ).0.branches);
                }
            }
            r
        } else {
            let mut lhs_tableau = self.build_expression(lhs, false);
            let rhs_tableau = self.build_expression(rhs, false);

            lhs_tableau.append(TableauBranch::new(rhs_tableau, id));

            let r = Tableau {
                expectations: vec![Expectation::new(expr.clone(), false, id)],
                branches: vec![TableauBranch::new(lhs_tableau, id)],
            };
            proof {
                assert(r.expectations.deep_view() =~= seq![
                    ExpectView { expr: expr@, truth_value: false, id: id as nat },
                ]);
                lemma_branches_view(r.branches@);
                assert(r@ == sp_build_disjunction(expr@, lhs@, rhs@, false, id as nat).0) by {
                    assert(sp_branches_view(r.branches@) =~= sp_build_disjunction(
                        expr@,
                        lhs@,
                        rhs@,
                        false,
                        id as nat,
                    ).0.branches);
                }
            }
            r
        }
    }

    /// An implication expected true is a beta rule over the negated left
    /// operand and the right operand; expected false an alpha rule.
    #[must_use]
    pub fn build_implication(
        &mut self,
        expr: &Expression,
        lhs: &Expression,
        rhs: &Expression,
        expect: bool,
    ) -> (r: Tableau)
        requires
            old(self).id as nat + 1 + sp_count(lhs@) + sp_count(rhs@) <= u32::MAX,
        ensures
            ({
                let p = sp_build_implication(expr@, lhs@, rhs@, expect, old(self).id as nat);
                r@ == p.0 && final(self).id as nat == p.1
            }),
        decreases lhs@.size() + rhs@.size(), 0int,
    {
        proof {
            lhs@.lemma_size_pos();
            rhs@.lemma_size_pos();
            lemma_sp_count_pos(lhs@);
            lemma_sp_count_pos(rhs@);
            lemma_sp_build_id(lhs@, !expect, old(self).id as nat + 1);
        }
        let id = self.next_id();

        if expect == true {
            let lhs_tableau = self.build_expression(lhs, false);
            let rhs_tableau = self.build_expression(rhs, true);

            let r = Tableau {
                expectations: vec![Expectation::new(expr.clone(), true, id)],
                branches: vec![
                    TableauBranch::new(lhs_tableau, id),
                    TableauBranch::new(rhs_tableau, id),
                ],
            };
            proof {
                assert(r.expectations.deep_view() =~= seq![
                    ExpectView { expr: expr@, truth_value: true, id: id as nat },
                ]);
                lemma_branches_view(r.branches@);
                assert(r@ == sp_build_implication(expr@, lhs@, rhs@, true, id as nat).0) by {
                    assert(sp_branches_view(r.branches@) =~= sp_build_implication(
                        expr@,
                        lhs@,
                        rhs@,
                        true,
                        id as nat,
                    ).0.branches);
                }
            }
            r
        } else {
            let mut lhs_tableau = self.build_expression(lhs, true);
            let rhs_tableau = self.build_expression(rhs, false);

            lhs_tableau.append(TableauBranch::new(rhs_tableau, id));

            let r = Tableau {
                expectations: vec![Expectation::new(expr.clone(), false, id)],
                branches: vec![TableauBranch::new(lhs_tableau, id)],
            };
            proof {
                assert(r.expectations.deep_view() =~= seq![
                    ExpectView { expr: expr@, truth_value: false, id: id as nat },
                ]);
                lemma_branches_view(r.branches@);
                assert(r@ == sp_build_implication(expr@, lhs@, rhs@, false, id as nat).0) by {
                    assert(sp_branches_view(r.branches@) =~= sp_build_implication(
                        expr@,
                        lhs@,
                        rhs@,
                        false,
                        id as nat,
                    ).0.branches);
                }
            }
            r
        }
    }

    /// An exclusive disjunction decomposes as an equivalence with the
    /// expected value negated.
    #[must_use]
    pub fn build_exclusive(
        &mut self,
        expr: &Expression,
        lhs: &Expression,
        rhs: &Expression,
        expect: bool,
    ) -> (r: Tableau)
        requires
            old(self).id as nat + 1 + 2 * sp_count(lhs@) + 2 * sp_count(rhs@) <= u32::MAX,
        ensures
            ({
                let p = sp_build_exclusive(expr@, lhs@, rhs@, expect, old(self).id as nat);
                r@ == p.0 && final(self).id as nat == p.1
            }),
        decreases lhs@.size() + rhs@.size(), 1int,
    {
        self.build_equivalence(expr, lhs, rhs, !expect)
    }

    /// An equivalence opens two branches, one per agreeing polarity of the
    /// operands, each an alpha pair.
    #[must_use]
    pub fn build_equivalence(
        &mut self,
        expr: &Expression,
        lhs: &Expression,
        rhs: &Expression,
        expect: bool,
    ) -> (r: Tableau)
        requires
            old(self).id as nat + 1 + 2 * sp_count(lhs@) + 2 * sp_count(rhs@) <= u32::MAX,
        ensures
            ({
                let p = sp_build_equivalence(expr@, lhs@, rhs@, expect, old(self).id as nat);
                r@ == p.0 && final(self).id as nat == p.1
            }),
        decreases lhs@.size() + rhs@.size(), 0int,
    {
        proof {
            lhs@.lemma_size_pos();
            rhs@.lemma_size_pos();
            lemma_sp_count_pos(lhs@);
            lemma_sp_count_pos(rhs@);
            let id0 = old(self).id as nat;
            lemma_sp_build_id(lhs@, true, id0 + 1);
            lemma_sp_build_id(rhs@, expect, sp_build(lhs@, true, id0 + 1).1);
            lemma_sp_build_id(
                lhs@,
                false,
                sp_build(rhs@, expect, sp_build(lhs@, true, id0 + 1).1).1,
            );
        }
        let id = self.next_id();

        if expect == true {
            let mut lhs_a = self.build_expression(lhs, true);
            let rhs_a = self.build_expression(rhs, true);

            lhs_a.append(TableauBranch::new(rhs_a, id));

            let mut lhs_b = self.build_expression(lhs, false);
            let rhs_b = self.build_expression(rhs, false);

            lhs_b.append(TableauBranch::new(rhs_b, id));

            let r = Tableau {
                expectations: vec![Expectation::new(expr.clone(), true, id)],
                branches: vec![TableauBranch::new(lhs_a, id), TableauBranch::new(lhs_b, id)],
            };
            proof {
                assert(r.expectations.deep_view() =~= seq![
                    ExpectView { expr: expr@, truth_value: true, id: id as nat },
                ]);
                lemma_branches_view(r.branches@);
                assert(r@ == sp_build_equivalence(expr@, lhs@, rhs@, true, id as nat).0) by {
                    assert(sp_branches_view(r.branches@) =~= sp_build_equivalence(
                        expr@,
                        lhs@,
                        rhs@,
                        true,
                        id as nat,
                    ).0.branches);
                }
            }
            r
        } else {
            let mut lhs_a = self.build_expression(lhs, true);
            let rhs_a = self.build_expression(rhs, false);

            lhs_a.append(TableauBranch::new(rhs_a, id));

            let mut lhs_b = self.build_expression(lhs, false);
            let rhs_b = self.build_expression(rhs, true);

            lhs_b.append(TableauBranch::new(rhs_b, id));

            let r = Tableau {
                expectations: vec![Expectation::new(expr.clone(), false, id)],
                branches: vec![TableauBranch::new(lhs_a, id), TableauBranch::new(lhs_b, id)],
            };
            proof {
                assert(r.expectations.deep_view() =~= seq![
                    ExpectView { expr: expr@, truth_value: false, id: id as nat },
                ]);
                lemma_branches_view(r.branches@);
                assert(r@ == sp_build_equivalence(expr@, lhs@, rhs@, false, id as nat).0) by {
                    assert(sp_branches_view(r.branches@) =~= sp_build_equivalence(
                        expr@,
                        lhs@,
                        rhs@,
                        false,
                        id as nat,
                    ).0.branches);
                }
            }
            r
        }
    }

    /// Dispatches a binary expression to the rule of its operator.
    #[must_use]
    pub fn build_binary(
        &mut self,
        expr: &Expression,
        binary: &BinaryExpression,
        expect: bool,
    ) -> (r: Tableau)
        requires
            old(self).id as nat + (match binary.operator@ {
                BinOpView::ExclusiveDisjunction(_) => 1 + 2 * sp_count(binary.lhs@) + 2
                    * sp_count(binary.rhs@),
                BinOpView::Equivalence(_) => 1 + 2 * sp_count(binary.lhs@) + 2 * sp_count(
                    binary.rhs@,
                ),
                _ => 1 + sp_count(binary.lhs@) + sp_count(binary.rhs@),
            }) <= u32::MAX,
        ensures
            ({
                let id0 = old(self).id as nat;
                let p = match binary.operator@ {
                    BinOpView::Conjunction(_) => sp_build_conjunction(
                        expr@,
                        binary.lhs@,
                        binary.rhs@,
                        expect,
                        id0,
                    ),
                    BinOpView::Disjunction(_) => sp_build_disjunction(
                        expr@,
                        binary.lhs@,
                        binary.rhs@,
                        expect,
                        id0,
                    ),
                    BinOpView::ExclusiveDisjunction(_) => sp_build_exclusive(
                        expr@,
                        binary.lhs@,
                        binary.rhs@,
                        expect,
                        id0,
                    ),
                    BinOpView::Implication(_) => sp_build_implication(
                        expr@,
                        binary.lhs@,
                        binary.rhs@,
                        expect,
                        id0,
                    ),
                    BinOpView::Equivalence(_) => sp_build_equivalence(
                        expr@,
                        binary.lhs@,
                        binary.rhs@,
                        expect,
                        id0,
                    ),
                };
                r@ == p.0 && final(self).id as nat == p.1
            }),
        decreases binary.lhs@.size() + binary.rhs@.size(), 2int,
    {
        match binary.operator {
            BinaryOperator::Conjunction(_) => self.build_conjunction(
                expr,
                &binary.lhs,
                &binary.rhs,
                expect,
            ),
            BinaryOperator::Disjunction(_) => self.build_disjunction(
                expr,
                &binary.lhs,
                &binary.rhs,
                expect,
            ),
            BinaryOperator::ExclusiveDisjunction(_) => self.build_exclusive(
                expr,
                &binary.lhs,
                &binary.rhs,
                expect,
            ),
            BinaryOperator::Implication(_) => self.build_implication(
                expr,
                &binary.lhs,
                &binary.rhs,
                expect,
            ),
            BinaryOperator::Equivalence(_) => self.build_equivalence(
                expr,
                &binary.lhs,
                &binary.rhs,
                expect,
            ),
        }
    }

    /// Decomposes a whole expression by the rule of its top node.
    #[must_use]
    pub fn build_expression(&mut self, expr: &Expression, expect: bool) -> (r: Tableau)
        requires
            old(self).id as nat + sp_count(expr@) <= u32::MAX,
        ensures
            ({
                let p = sp_build(expr@, expect, old(self).id as nat);
                r@ == p.0 && final(self).id as nat == p.1
            }),
        decreases expr@.size(), 0int,
    {
        proof {
            lemma_sp_count_pos(expr@);
        }
        match &*expr.kind {
            ExpressionKind::TruthValue(value) => self.build_truth_value(expr, value, expect),
            ExpressionKind::Atomic(atomic) => self.build_atomic(expr, atomic, expect),
            ExpressionKind::Paren(paren) => self.build_paren(expr, paren, expect),
            ExpressionKind::Unary(unary) => self.build_unary(expr, unary, expect),
            ExpressionKind::Binary(binary) => self.build_binary(expr, binary, expect),
        }
    }
}

/// The number of decomposition steps that building a tableau for the
/// expression would take, where it fits the id counter; [`None`] where it
/// does not.
fn decomposition_steps(e: &Expression) -> (r: Option<u32>)
    ensures
        r == (if sp_count(e@) <= u32::MAX {
            Some(sp_count(e@) as u32)
        } else {
            None::<u32>
        }),
    decreases e,
{
    match &*e.kind {
        ExpressionKind::TruthValue(_) => Some(1),
        ExpressionKind::Atomic(_) => Some(1),
        ExpressionKind::Paren(p) => decomposition_steps(&p.expression),
        ExpressionKind::Unary(u) => match decomposition_steps(&u.operand) {
            Some(n) => n.checked_add(1),
            None => None,
        },
        ExpressionKind::Binary(b) => {
            let left = decomposition_steps(&b.lhs);
            let right = decomposition_steps(&b.rhs);
            match (left, right) {
                (Some(a), Some(c)) => match b.operator {
                    BinaryOperator::ExclusiveDisjunction(_) | BinaryOperator::Equivalence(_) => {
                        match a.checked_mul(2) {
                            Some(a2) => match c.checked_mul(2) {
                                Some(c2) => match a2.checked_add(c2) {
                                    Some(sum) => sum.checked_add(1),
                                    None => None,
                                },
                                None => None,
                            },
                            None => None,
                        }
                    },
                    _ => match a.checked_add(c) {
                        Some(sum) => sum.checked_add(1),
                        None => None,
                    },
                },
                _ => None,
            }
        },
    }
}

impl Tableau {
    /// Lexes and parses `source` and decomposes the expression under the
    /// expected truth value `expect`; fails with the first lexical or
    /// syntactic error, or where the expression would take more
    /// decomposition steps than the id counter can issue.
    pub fn parse(source: &str, expect: bool) -> (r: Result<Self, Error>)
        ensures
            ({
                let eof = sv(source@.len() as int, 0);
                match sp_tokenize(source@, 0) {
                    Err(le) => r matches Err(e) && e@ == le,
                    Ok(toks) => match sp_parse(toks, 0, eof) {
                        Err(pe) => r matches Err(e) && e@ == pe,
                        Ok(p) => if sp_count(p.0) <= u32::MAX {
                            r matches Ok(t) && t@ == sp_build(p.0, expect, 0).0
                        } else {
                            r matches Err(e) && e@ == ErrView::msg_only(
                                "expression too large to decompose"@,
                            )
                        },
                    },
                }
            }),
    {
        let mut tokens = match TokenStream::parse(source) {
            Ok(t) => t,
            Err(e) => return Err(e),
        };
        let parser = Parser::new();
        let expression = match parser.parse(&mut tokens) {
            Ok(e) => e,
            Err(e) => return Err(e),
        };
        match decomposition_steps(&expression) {
            Some(_) => {
                let mut builder = TableauBuilder { id: 0 };
                Ok(builder.build_expression(&expression, expect))
            },
            None => Err(Error::new().with_msg("expression too large to decompose")),
        }
    }
}

} // verus!
