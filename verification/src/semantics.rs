use vstd::prelude::*;

use crate::ast::ExprView;
use crate::solve::{
    sp_apply_expectation, sp_apply_expectations, sp_clean, sp_clean_from, sp_extract,
    sp_extract_branches, sp_push_sol, sp_push_sols, sp_retained, sp_sol_contains, sp_sol_get,
    sp_sol_pairs_sub, SolView,
};
use crate::tableau::{
    sp_append, sp_build, sp_graft, sp_graft_all, BranchView, ExpectView, TabView,
};
use crate::token::BinOpView;

verus! {

/// Whether the assignment `env` meets one expectation: an atomic expectation
/// pins the variable's value, a truth-value expectation must agree with its
/// literal, and any other expectation constrains nothing by itself (its
/// content is represented by the expectations its decomposition produced).
pub open spec fn sat_exp(exp: ExpectView, env: Map<Seq<char>, bool>) -> bool {
    match exp.expr {
        ExprView::Atomic { name, .. } => env[name] == exp.truth_value,
        ExprView::TruthValue { value, .. } => value == exp.truth_value,
        _ => true,
    }
}

/// Whether the assignment meets every expectation of a list.
pub open spec fn sat_exps(exps: Seq<ExpectView>, env: Map<Seq<char>, bool>) -> bool {
    forall|k: int| 0 <= k < exps.len() ==> sat_exp(#[trigger] exps[k], env)
}

/// Whether the assignment satisfies some branch of a list.
pub open spec fn branch_sat(bs: Seq<BranchView>, env: Map<Seq<char>, bool>) -> bool
    decreases bs,
{
    if bs.len() == 0 {
        false
    } else {
        tab_sat(bs[0].tableau, env) || branch_sat(bs.drop_first(), env)
    }
}

/// Whether the assignment satisfies some root-to-leaf path of the tableau:
/// it meets every expectation at this node and, where branches exist, some
/// branch below.
pub open spec fn tab_sat(t: TabView, env: Map<Seq<char>, bool>) -> bool
    decreases t,
{
    sat_exps(t.expectations, env) && (t.branches.len() == 0 || branch_sat(t.branches, env))
}

/// Whether the assignment extends the partial assignment `sol`.
pub open spec fn env_extends(env: Map<Seq<char>, bool>, sol: SolView) -> bool {
    forall|k: int| 0 <= k < sol.len() ==> env[(#[trigger] sol[k]).0] == sol[k].1
}

/// Whether the assignment extends some solution of the list.
pub open spec fn some_extended(sols: Seq<SolView>, env: Map<Seq<char>, bool>) -> bool {
    exists|k: int| 0 <= k < sols.len() && env_extends(env, #[trigger] sols[k])
}

/// A single-expectation list is met exactly when its one expectation is.
proof fn lemma_sat_single(ex: ExpectView, env: Map<Seq<char>, bool>)
    ensures
        sat_exps(seq![ex], env) <==> sat_exp(ex, env),
{
    let exps = seq![ex];
    assert(exps[0] == ex);
    if sat_exp(ex, env) {
        assert forall|k: int| 0 <= k < exps.len() implies sat_exp(#[trigger] exps[k], env) by {
            assert(exps[k] == ex);
        }
    }
}

/// A found assignment pair is in the list.
proof fn lemma_get_some(sol: SolView, name: Seq<char>, v: bool)
    requires
        sp_sol_get(sol, name) == Some(v),
    ensures
        sp_sol_contains(sol, name, v),
    decreases sol,
{
    if sol.len() > 0 {
        if sol[0].0 == name {
            assert(sol[0] == (name, v));
        } else {
            lemma_get_some(sol.drop_first(), name, v);
            let k = choose|k: int|
                0 <= k < sol.drop_first().len() && sol.drop_first()[k] == (name, v);
            assert(sol[k + 1] == (name, v));
        }
    }
}

/// Pushing one assignment onto one solution keeps exactly the assignments
/// that also bind the pushed variable to the pushed value.
proof fn lemma_push_sol_sat(sol: SolView, name: Seq<char>, value: bool, env: Map<Seq<char>, bool>)
    ensures
        match sp_push_sol(sol, name, value) {
            Some(s2) => env_extends(env, s2) <==> (env_extends(env, sol) && env[name] == value),
            None => !(env_extends(env, sol) && env[name] == value),
        },
{
    match sp_sol_get(sol, name) {
        Some(v) => {
            lemma_get_some(sol, name, v);
            let k = choose|k: int| 0 <= k < sol.len() && (#[trigger] sol[k]) == (name, v);
            if v == value {
                assert(env_extends(env, sol) ==> env[name] == value) by {
                    if env_extends(env, sol) {
                        assert(env[sol[k].0] == sol[k].1);
                    }
                }
            } else {
                if env_extends(env, sol) {
                    assert(env[sol[k].0] == sol[k].1);
                }
            }
        },
        None => {
            let s2 = sol.push((name, value));
            assert forall|k: int| 0 <= k < sol.len() implies s2[k] == sol[k] by {}
            assert(s2[sol.len() as int] == (name, value));
            if env_extends(env, s2) {
                assert forall|k: int| 0 <= k < sol.len() implies env[(#[trigger] sol[k]).0]
                    == sol[k].1 by {
                    assert(s2[k] == sol[k]);
                    assert(env[s2[k].0] == s2[k].1);
                }
                assert(env[s2[sol.len() as int].0] == s2[sol.len() as int].1);
            }
            if env_extends(env, sol) && env[name] == value {
                assert forall|k: int| 0 <= k < s2.len() implies env[(#[trigger] s2[k]).0]
                    == s2[k].1 by {
                    if k < sol.len() {
                        assert(s2[k] == sol[k]);
                        assert(env[sol[k].0] == sol[k].1);
                    }
                }
            }
        },
    }
}

/// Pushing one assignment onto a solution list: the assignment extends some
/// surviving solution exactly when it extends some original solution and
/// binds the pushed variable to the pushed value.
proof fn lemma_push_sols_sat(
    sols: Seq<SolView>,
    name: Seq<char>,
    value: bool,
    env: Map<Seq<char>, bool>,
)
    ensures
        some_extended(sp_push_sols(sols, name, value), env) <==> (env[name] == value
            && some_extended(sols, env)),
    decreases sols,
{
    if sols.len() == 0 {
    } else {
        lemma_push_sols_sat(sols.drop_first(), name, value, env);
        lemma_push_sol_sat(sols[0], name, value, env);
        let rest = sp_push_sols(sols.drop_first(), name, value);
        match sp_push_sol(sols[0], name, value) {
            Some(s2) => {
                let all = seq![s2] + rest;
                assert(all[0] == s2);
                assert(all.drop_first() =~= rest);
                if some_extended(all, env) {
                    let k = choose|k: int|
                        0 <= k < all.len() && env_extends(env, #[trigger] all[k]);
                    if k == 0 {
                        assert(env_extends(env, sols[0]));
                        assert(some_extended(sols, env));
                    } else {
                        assert(all[k] == rest[k - 1]);
                        assert(some_extended(rest, env));
                        let m = choose|m: int|
                            0 <= m < sols.drop_first().len() && env_extends(
                                env,
                                #[trigger] sols.drop_first()[m],
                            );
                        assert(sols[m + 1] == sols.drop_first()[m]);
                        assert(some_extended(sols, env));
                    }
                }
                if env[name] == value && some_extended(sols, env) {
                    let k = choose|k: int|
                        0 <= k < sols.len() && env_extends(env, #[trigger] sols[k]);
                    if k == 0 {
                        assert(env_extends(env, all[0]));
                        assert(some_extended(all, env));
                    } else {
                        assert(sols.drop_first()[k - 1] == sols[k]);
                        assert(some_extended(sols.drop_first(), env));
                        let m = choose|m: int|
                            0 <= m < rest.len() && env_extends(env, #[trigger] rest[m]);
                        assert(all[m + 1] == rest[m]);
                        assert(some_extended(all, env));
                    }
                }
            },
            None => {
                if some_extended(rest, env) {
                    let m = choose|m: int|
                        0 <= m < sols.drop_first().len() && env_extends(
                            env,
                            #[trigger] sols.drop_first()[m],
                        );
                    assert(sols[m + 1] == sols.drop_first()[m]);
                    assert(some_extended(sols, env));
                }
                if env[name] == value && some_extended(sols, env) {
                    let k = choose|k: int|
                        0 <= k < sols.len() && env_extends(env, #[trigger] sols[k]);
                    assert(k != 0);
                    assert(sols.drop_first()[k - 1] == sols[k]);
                    assert(some_extended(sols.drop_first(), env));
                }
            },
        }
    }
}

/// Applying one expectation keeps exactly the solutions whose extensions
/// meet it.
proof fn lemma_apply_exp_sat(sols: Seq<SolView>, exp: ExpectView, env: Map<Seq<char>, bool>)
    ensures
        some_extended(sp_apply_expectation(sols, exp), env) <==> (sat_exp(exp, env)
            && some_extended(sols, env)),
{
    match exp.expr {
        ExprView::Atomic { name, .. } => {
            lemma_push_sols_sat(sols, name, exp.truth_value, env);
        },
        _ => {},
    }
}

/// Applying a list of expectations keeps exactly the solutions whose
/// extensions meet them all.
proof fn lemma_apply_exps_sat(
    sols: Seq<SolView>,
    exps: Seq<ExpectView>,
    env: Map<Seq<char>, bool>,
)
    ensures
        some_extended(sp_apply_expectations(sols, exps), env) <==> (sat_exps(exps, env)
            && some_extended(sols, env)),
    decreases exps,
{
    if exps.len() == 0 {
    } else {
        lemma_apply_exp_sat(sols, exps[0], env);
        lemma_apply_exps_sat(sp_apply_expectation(sols, exps[0]), exps.drop_first(), env);
        assert(sat_exps(exps, env) <==> (sat_exp(exps[0], env) && sat_exps(
            exps.drop_first(),
            env,
        ))) by {
            if sat_exp(exps[0], env) && sat_exps(exps.drop_first(), env) {
                assert forall|k: int| 0 <= k < exps.len() implies sat_exp(
                    #[trigger] exps[k],
                    env,
                ) by {
                    if k > 0 {
                        assert(exps.drop_first()[k - 1] == exps[k]);
                    }
                }
            }
            if sat_exps(exps, env) {
                assert forall|k: int| 0 <= k < exps.drop_first().len() implies sat_exp(
                    #[trigger] exps.drop_first()[k],
                    env,
                ) by {
                    assert(exps.drop_first()[k] == exps[k + 1]);
                }
            }
        }
    }
}

/// The assignment extends some extracted solution exactly when it satisfies
/// some root-to-leaf path of the tableau.
pub proof fn lemma_extract_sat(t: TabView, env: Map<Seq<char>, bool>)
    ensures
        some_extended(sp_extract(t), env) <==> tab_sat(t, env),
    decreases t,
{
    let base = if t.branches.len() == 0 {
        seq![Seq::<(Seq<char>, bool)>::empty()]
    } else {
        sp_extract_branches(t.branches)
    };
    if t.branches.len() == 0 {
        assert(env_extends(env, base[0]));
        assert(some_extended(base, env));
    } else {
        lemma_extract_branches_sat(t.branches, env);
    }
    lemma_apply_exps_sat(base, t.expectations, env);
}

/// The assignment extends some solution of the concatenated branch
/// extractions exactly when it satisfies some branch.
proof fn lemma_extract_branches_sat(bs: Seq<BranchView>, env: Map<Seq<char>, bool>)
    ensures
        some_extended(sp_extract_branches(bs), env) <==> branch_sat(bs, env),
    decreases bs,
{
    if bs.len() == 0 {
    } else {
        lemma_extract_sat(bs[0].tableau, env);
        lemma_extract_branches_sat(bs.drop_first(), env);
        let head = sp_extract(bs[0].tableau);
        let rest = sp_extract_branches(bs.drop_first());
        let all = head + rest;
        if some_extended(all, env) {
            let k = choose|k: int| 0 <= k < all.len() && env_extends(env, #[trigger] all[k]);
            if k < head.len() {
                assert(all[k] == head[k]);
                assert(some_extended(head, env));
            } else {
                assert(all[k] == rest[k - head.len()]);
                assert(some_extended(rest, env));
            }
        }
        if some_extended(head, env) {
            let k = choose|k: int| 0 <= k < head.len() && env_extends(env, #[trigger] head[k]);
            assert(all[k] == head[k]);
            assert(some_extended(all, env));
        }
        if some_extended(rest, env) {
            let k = choose|k: int| 0 <= k < rest.len() && env_extends(env, #[trigger] rest[k]);
            assert(all[head.len() + k] == rest[k]);
            assert(some_extended(all, env));
        }
    }
}

/// Grafting branches below every leaf: the result is satisfied exactly when
/// the original tableau is satisfied and some grafted branch is.
proof fn lemma_graft_sat(t: TabView, bs: Seq<BranchView>, env: Map<Seq<char>, bool>)
    requires
        bs.len() > 0,
    ensures
        tab_sat(sp_graft(t, bs), env) <==> (tab_sat(t, env) && branch_sat(bs, env)),
    decreases t,
{
    if t.branches.len() == 0 {
    } else {
        lemma_graft_all_sat(t.branches, bs, env);
    }
}

/// Grafting below each branch of a list.
proof fn lemma_graft_all_sat(ts: Seq<BranchView>, bs: Seq<BranchView>, env: Map<Seq<char>, bool>)
    requires
        bs.len() > 0,
    ensures
        branch_sat(sp_graft_all(ts, bs), env) <==> (branch_sat(ts, env) && branch_sat(bs, env)),
    decreases ts,
{
    if ts.len() == 0 {
    } else {
        lemma_graft_sat(ts[0].tableau, bs, env);
        lemma_graft_all_sat(ts.drop_first(), bs, env);
        let head = BranchView { tableau: sp_graft(ts[0].tableau, bs), expectation: ts[0].expectation };
        let all = seq![head] + sp_graft_all(ts.drop_first(), bs);
        assert(all[0] == head);
        assert(all.drop_first() =~= sp_graft_all(ts.drop_first(), bs));
    }
}

/// Appending one tableau onto another: the result is satisfied exactly when
/// both are.
proof fn lemma_append_sat(t: TabView, o: TabView, env: Map<Seq<char>, bool>)
    ensures
        tab_sat(sp_append(t, o), env) <==> (tab_sat(t, env) && tab_sat(o, env)),
{
    let merged = TabView { expectations: t.expectations + o.expectations, branches: t.branches };
    assert(sat_exps(merged.expectations, env) <==> (sat_exps(t.expectations, env) && sat_exps(
        o.expectations,
        env,
    ))) by {
        if sat_exps(merged.expectations, env) {
            assert forall|k: int| 0 <= k < t.expectations.len() implies sat_exp(
                #[trigger] t.expectations[k],
                env,
            ) by {
                assert(merged.expectations[k] == t.expectations[k]);
                assert(sat_exp(merged.expectations[k], env));
            }
            assert forall|k: int| 0 <= k < o.expectations.len() implies sat_exp(
                #[trigger] o.expectations[k],
                env,
            ) by {
                assert(merged.expectations[t.expectations.len() + k] == o.expectations[k]);
                assert(sat_exp(merged.expectations[t.expectations.len() + k], env));
            }
        }
        if sat_exps(t.expectations, env) && sat_exps(o.expectations, env) {
            assert forall|k: int| 0 <= k < merged.expectations.len() implies sat_exp(
                #[trigger] merged.expectations[k],
                env,
            ) by {
                if k < t.expectations.len() {
                    assert(merged.expectations[k] == t.expectations[k]);
                } else {
                    assert(merged.expectations[k] == o.expectations[k - t.expectations.len()]);
                }
            }
        }
    }
    if o.branches.len() == 0 {
        if t.branches.len() == 0 {
        } else {
            lemma_graft_all_sat_empty(t.branches, o.branches, env);
        }
    } else {
        lemma_graft_sat(merged, o.branches, env);
    }
}

/// Grafting an empty branch list changes nothing a path needs.
proof fn lemma_graft_all_sat_empty(
    ts: Seq<BranchView>,
    bs: Seq<BranchView>,
    env: Map<Seq<char>, bool>,
)
    requires
        bs.len() == 0,
    ensures
        branch_sat(sp_graft_all(ts, bs), env) <==> branch_sat(ts, env),
    decreases ts,
{
    if ts.len() == 0 {
    } else {
        lemma_graft_empty_sat(ts[0].tableau, bs, env);
        lemma_graft_all_sat_empty(ts.drop_first(), bs, env);
        let head = BranchView { tableau: sp_graft(ts[0].tableau, bs), expectation: ts[0].expectation };
        let all = seq![head] + sp_graft_all(ts.drop_first(), bs);
        assert(all[0] == head);
        assert(all.drop_first() =~= sp_graft_all(ts.drop_first(), bs));
    }
}

/// Grafting an empty branch list below a tableau keeps it satisfied exactly
/// when it was.
proof fn lemma_graft_empty_sat(t: TabView, bs: Seq<BranchView>, env: Map<Seq<char>, bool>)
    requires
        bs.len() == 0,
    ensures
        tab_sat(sp_graft(t, bs), env) <==> tab_sat(t, env),
    decreases t,
{
    if t.branches.len() == 0 {
    } else {
        lemma_graft_all_sat_empty(t.branches, bs, env);
    }
}

/// The tableau built for an expression under an expected truth value is
/// satisfied by exactly the assignments under which the expression evaluates
/// to that value.
pub proof fn lemma_build_sat(e: ExprView, expect: bool, id: nat, env: Map<Seq<char>, bool>)
    ensures
        tab_sat(sp_build(e, expect, id).0, env) <==> (e.eval(env) == expect),
    decreases e, 1int,
{
    match e {
        ExprView::TruthValue { .. } => {
            lemma_sat_single(ExpectView { expr: e, truth_value: expect, id }, env);
        },
        ExprView::Atomic { .. } => {
            lemma_sat_single(ExpectView { expr: e, truth_value: expect, id }, env);
        },
        ExprView::Paren { inner, .. } => {
            lemma_build_sat(*inner, expect, id, env);
        },
        ExprView::Unary { operand, .. } => {
            lemma_build_sat(*operand, !expect, id + 1, env);
            let (sub, _) = sp_build(*operand, !expect, id + 1);
            let f = crate::tableau::sp_fork1(e, expect, id, sub);
            lemma_sat_single(ExpectView { expr: e, truth_value: expect, id }, env);
            assert(f.branches[0].tableau == sub);
            assert(f.branches.drop_first() =~= Seq::<BranchView>::empty());
            assert(!branch_sat(Seq::<BranchView>::empty(), env));
        },
        ExprView::Binary { lhs, op, rhs, .. } => {
            let l = *lhs;
            let r = *rhs;
            match op {
                BinOpView::Conjunction(_) => {
                    if expect {
                        lemma_alpha_case(e, l, true, r, true, true, id, env);
                    } else {
                        lemma_beta_case(e, l, false, r, false, false, id, env);
                    }
                },
                BinOpView::Disjunction(_) => {
                    if expect {
                        lemma_beta_case(e, l, true, r, true, true, id, env);
                    } else {
                        lemma_alpha_case(e, l, false, r, false, false, id, env);
                    }
                },
                BinOpView::Implication(_) => {
                    if expect {
                        lemma_beta_case(e, l, false, r, true, true, id, env);
                    } else {
                        lemma_alpha_case(e, l, true, r, false, false, id, env);
                    }
                },
                BinOpView::ExclusiveDisjunction(_) => {
                    lemma_equiv_case(e, l, r, !expect, id, env);
                },
                BinOpView::Equivalence(_) => {
                    lemma_equiv_case(e, l, r, expect, id, env);
                },
            }
        },
    }
}

/// One alpha branch: both operand tableaux must be satisfied.
proof fn lemma_alpha_case(
    e: ExprView,
    l: ExprView,
    l_expect: bool,
    r: ExprView,
    r_expect: bool,
    expect: bool,
    id: nat,
    env: Map<Seq<char>, bool>,
)
    requires
        decreases_to!(e => l),
        decreases_to!(e => r),
        !(e is Atomic),
        !(e is TruthValue),
    ensures
        ({
            let (lt, id2) = sp_build(l, l_expect, id + 1);
            let (rt, id3) = sp_build(r, r_expect, id2);
            tab_sat(crate::tableau::sp_fork1(e, expect, id, sp_append(lt, rt)), env) <==> (
            l.eval(env) == l_expect && r.eval(env) == r_expect)
        }),
    decreases e, 0int,
{
    let (lt, id2) = sp_build(l, l_expect, id + 1);
    let (rt, id3) = sp_build(r, r_expect, id2);
    lemma_build_sat(l, l_expect, id + 1, env);
    lemma_build_sat(r, r_expect, id2, env);
    lemma_append_sat(lt, rt, env);
    let f = crate::tableau::sp_fork1(e, expect, id, sp_append(lt, rt));
    lemma_sat_single(ExpectView { expr: e, truth_value: expect, id }, env);
    assert(f.branches[0].tableau == sp_append(lt, rt));
    assert(f.branches.drop_first() =~= Seq::<BranchView>::empty());
    assert(!branch_sat(Seq::<BranchView>::empty(), env));
}

/// Two beta branches: one operand tableau must be satisfied.
proof fn lemma_beta_case(
    e: ExprView,
    l: ExprView,
    l_expect: bool,
    r: ExprView,
    r_expect: bool,
    expect: bool,
    id: nat,
    env: Map<Seq<char>, bool>,
)
    requires
        decreases_to!(e => l),
        decreases_to!(e => r),
        !(e is Atomic),
        !(e is TruthValue),
    ensures
        ({
            let (lt, id2) = sp_build(l, l_expect, id + 1);
            let (rt, id3) = sp_build(r, r_expect, id2);
            tab_sat(crate::tableau::sp_fork2(e, expect, id, lt, rt), env) <==> (l.eval(env)
                == l_expect || r.eval(env) == r_expect)
        }),
    decreases e, 0int,
{
    let (lt, id2) = sp_build(l, l_expect, id + 1);
    let (rt, id3) = sp_build(r, r_expect, id2);
    lemma_build_sat(l, l_expect, id + 1, env);
    lemma_build_sat(r, r_expect, id2, env);
    let f = crate::tableau::sp_fork2(e, expect, id, lt, rt);
    lemma_sat_single(ExpectView { expr: e, truth_value: expect, id }, env);
    let tail = f.branches.drop_first();
    assert(f.branches[0].tableau == lt);
    assert(tail[0].tableau == rt);
    assert(tail.drop_first() =~= Seq::<BranchView>::empty());
    assert(!branch_sat(Seq::<BranchView>::empty(), env));
    assert(branch_sat(tail, env) <==> tab_sat(rt, env));
}

/// The two equivalence branches: the operands agree with the polarity pair.
proof fn lemma_equiv_case(
    e: ExprView,
    l: ExprView,
    r: ExprView,
    v: bool,
    id: nat,
    env: Map<Seq<char>, bool>,
)
    requires
        decreases_to!(e => l),
        decreases_to!(e => r),
        !(e is Atomic),
        !(e is TruthValue),
    ensures
        ({
            let (la, id2) = sp_build(l, true, id + 1);
            let (ra, id3) = sp_build(r, v, id2);
            let (lb, id4) = sp_build(l, false, id3);
            let (rb, id5) = sp_build(r, !v, id4);
            tab_sat(
                crate::tableau::sp_fork2(e, v, id, sp_append(la, ra), sp_append(lb, rb)),
                env,
            ) <==> ((l.eval(env) && r.eval(env) == v) || (!l.eval(env) && r.eval(env) == !v))
        }),
    decreases e, 0int,
{
    let (la, id2) = sp_build(l, true, id + 1);
    let (ra, id3) = sp_build(r, v, id2);
    let (lb, id4) = sp_build(l, false, id3);
    let (rb, id5) = sp_build(r, !v, id4);
    lemma_build_sat(l, true, id + 1, env);
    lemma_build_sat(r, v, id2, env);
    lemma_build_sat(l, false, id3, env);
    lemma_build_sat(r, !v, id4, env);
    lemma_append_sat(la, ra, env);
    lemma_append_sat(lb, rb, env);
    let f = crate::tableau::sp_fork2(e, v, id, sp_append(la, ra), sp_append(lb, rb));
    lemma_sat_single(ExpectView { expr: e, truth_value: v, id }, env);
    let tail = f.branches.drop_first();
    assert(f.branches[0].tableau == sp_append(la, ra));
    assert(tail[0].tableau == sp_append(lb, rb));
    assert(tail.drop_first() =~= Seq::<BranchView>::empty());
    assert(!branch_sat(Seq::<BranchView>::empty(), env));
    assert(branch_sat(tail, env) <==> tab_sat(sp_append(lb, rb), env));
}

/// Every pair of a solution is among its own pairs.
proof fn lemma_pairs_sub_refl(a: SolView)
    ensures
        sp_sol_pairs_sub(a, a),
{
    assert forall|k: int| 0 <= k < a.len() implies sp_sol_contains(
        a,
        (#[trigger] a[k]).0,
        a[k].1,
    ) by {
        assert(a[k] == (a[k].0, a[k].1));
    }
}

/// Pair containment chains.
proof fn lemma_pairs_sub_trans(a: SolView, b: SolView, c: SolView)
    requires
        sp_sol_pairs_sub(a, b),
        sp_sol_pairs_sub(b, c),
    ensures
        sp_sol_pairs_sub(a, c),
{
    assert forall|k: int| 0 <= k < a.len() implies sp_sol_contains(
        c,
        (#[trigger] a[k]).0,
        a[k].1,
    ) by {
        assert(sp_sol_contains(b, a[k].0, a[k].1));
        let m = choose|m: int| 0 <= m < b.len() && (#[trigger] b[m]) == (a[k].0, a[k].1);
        assert(sp_sol_contains(c, b[m].0, b[m].1));
    }
}

/// An assignment that extends a solution extends every solution whose pairs
/// it contains.
proof fn lemma_extends_sub(env: Map<Seq<char>, bool>, a: SolView, b: SolView)
    requires
        sp_sol_pairs_sub(a, b),
        env_extends(env, b),
    ensures
        env_extends(env, a),
{
    assert forall|k: int| 0 <= k < a.len() implies env[(#[trigger] a[k]).0] == a[k].1 by {
        assert(sp_sol_contains(b, a[k].0, a[k].1));
        let m = choose|m: int| 0 <= m < b.len() && (#[trigger] b[m]) == (a[k].0, a[k].1);
        assert(env[b[m].0] == b[m].1);
    }
}

/// The positions that the cleaning pass keeps, from `j` on.
pub open spec fn sp_retained_indices(sols: Seq<SolView>, j: int) -> Seq<int>
    decreases sols.len() - j,
{
    if j < 0 || j >= sols.len() {
        Seq::empty()
    } else {
        (if sp_retained(sols, j) {
            seq![j]
        } else {
            Seq::empty()
        }) + sp_retained_indices(sols, j + 1)
    }
}

/// The cleaned list holds exactly the solutions at the retained positions,
/// in strictly increasing order of position.
proof fn lemma_clean_indices(sols: Seq<SolView>, j: int)
    ensures
        sp_clean_from(sols, j).len() == sp_retained_indices(sols, j).len(),
        forall|k: int|
            0 <= k < sp_retained_indices(sols, j).len() ==> {
                let i = #[trigger] sp_retained_indices(sols, j)[k];
                &&& j <= i < sols.len()
                &&& sp_retained(sols, i)
                &&& sp_clean_from(sols, j)[k] == sols[i]
            },
        forall|k1: int, k2: int|
            0 <= k1 < k2 < sp_retained_indices(sols, j).len() ==> #[trigger] sp_retained_indices(
                sols,
                j,
            )[k1] < #[trigger] sp_retained_indices(sols, j)[k2],
    decreases sols.len() - j,
{
    if j < 0 || j >= sols.len() {
    } else {
        lemma_clean_indices(sols, j + 1);
        let head_c = if sp_retained(sols, j) {
            seq![sols[j]]
        } else {
            Seq::<SolView>::empty()
        };
        let head_i = if sp_retained(sols, j) {
            seq![j]
        } else {
            Seq::<int>::empty()
        };
        let rest_c = sp_clean_from(sols, j + 1);
        let rest_i = sp_retained_indices(sols, j + 1);
        assert forall|k: int| 0 <= k < (head_i + rest_i).len() implies {
            let i = #[trigger] (head_i + rest_i)[k];
            &&& j <= i < sols.len()
            &&& sp_retained(sols, i)
            &&& (head_c + rest_c)[k] == sols[i]
        } by {
            if k < head_i.len() {
            } else {
                assert((head_i + rest_i)[k] == rest_i[k - head_i.len()]);
                assert((head_c + rest_c)[k] == rest_c[k - head_c.len()]);
            }
        }
    }
}

/// A duplicated solution has a first occurrence that nothing earlier
/// duplicates.
proof fn lemma_first_equal(sols: Seq<SolView>, j: int)
    requires
        0 <= j < sols.len(),
    ensures
        exists|j0: int|
            0 <= j0 <= j && sols[j0] == sols[j] && !crate::solve::sp_dup_earlier(sols, j0),
    decreases j,
{
    if !crate::solve::sp_dup_earlier(sols, j) {
        assert(0 <= j <= j && sols[j] == sols[j] && !crate::solve::sp_dup_earlier(sols, j));
    } else {
        let i = choose|i: int| 0 <= i < j && sols[i] == sols[j];
        lemma_first_equal(sols, i);
        let j0 = choose|j0: int|
            0 <= j0 <= i && sols[j0] == sols[i] && !crate::solve::sp_dup_earlier(sols, j0);
        assert(0 <= j0 <= j && sols[j0] == sols[j] && !crate::solve::sp_dup_earlier(sols, j0));
    }
}

/// Every solution of the list is covered by some retained solution whose
/// pairs it contains: cleaning loses no satisfying assignment.
pub proof fn lemma_clean_covers(sols: Seq<SolView>, j: int)
    requires
        0 <= j < sols.len(),
    ensures
        exists|k: int|
            0 <= k < sp_clean(sols).len() && sp_sol_pairs_sub(#[trigger] sp_clean(sols)[k], sols[j]),
    decreases sols[j].len(),
{
    lemma_clean_indices(sols, 0);
    if sp_retained(sols, j) {
        lemma_retained_position(sols, j);
        let k = choose|k: int|
            0 <= k < sp_clean(sols).len() && #[trigger] sp_clean(sols)[k] == sols[j];
        lemma_pairs_sub_refl(sols[j]);
        assert(sp_sol_pairs_sub(sp_clean(sols)[k], sols[j]));
    } else if crate::solve::sp_subsumed(sols, j) {
        let i = choose|i: int|
            0 <= i < sols.len() && (#[trigger] sols[i]).len() < sols[j].len()
                && sp_sol_pairs_sub(sols[i], sols[j]);
        lemma_clean_covers(sols, i);
        let k = choose|k: int|
            0 <= k < sp_clean(sols).len() && sp_sol_pairs_sub(
                #[trigger] sp_clean(sols)[k],
                sols[i],
            );
        lemma_pairs_sub_trans(sp_clean(sols)[k], sols[i], sols[j]);
    } else {
        lemma_first_equal(sols, j);
        let j0 = choose|j0: int|
            0 <= j0 <= j && sols[j0] == sols[j] && !crate::solve::sp_dup_earlier(sols, j0);
        if crate::solve::sp_subsumed(sols, j0) {
            let i = choose|i: int|
                0 <= i < sols.len() && (#[trigger] sols[i]).len() < sols[j0].len()
                    && sp_sol_pairs_sub(sols[i], sols[j0]);
            lemma_clean_covers(sols, i);
            let k = choose|k: int|
                0 <= k < sp_clean(sols).len() && sp_sol_pairs_sub(
                    #[trigger] sp_clean(sols)[k],
                    sols[i],
                );
            lemma_pairs_sub_trans(sp_clean(sols)[k], sols[i], sols[j0]);
        } else {
            assert(sp_retained(sols, j0));
            lemma_retained_position(sols, j0);
            let k = choose|k: int|
                0 <= k < sp_clean(sols).len() && #[trigger] sp_clean(sols)[k] == sols[j0];
            lemma_pairs_sub_refl(sols[j0]);
            assert(sp_sol_pairs_sub(sp_clean(sols)[k], sols[j]));
        }
    }
}

/// A retained solution stands in the cleaned list.
proof fn lemma_retained_position(sols: Seq<SolView>, j: int)
    requires
        0 <= j < sols.len(),
        sp_retained(sols, j),
    ensures
        exists|k: int|
            0 <= k < sp_clean(sols).len() && #[trigger] sp_clean(sols)[k] == sols[j],
{
    lemma_retained_from(sols, 0, j);
    let k = choose|k: int|
        0 <= k < sp_clean_from(sols, 0).len() && #[trigger] sp_clean_from(sols, 0)[k]
            == sols[j];
    assert(sp_clean(sols)[k] == sols[j]);
}

/// A retained solution at or after `i` stands in the suffix clean.
proof fn lemma_retained_from(sols: Seq<SolView>, i: int, j: int)
    requires
        0 <= i <= j < sols.len(),
        sp_retained(sols, j),
    ensures
        exists|k: int|
            0 <= k < sp_clean_from(sols, i).len() && #[trigger] sp_clean_from(sols, i)[k]
                == sols[j],
    decreases j - i,
{
    let head = if sp_retained(sols, i) {
        seq![sols[i]]
    } else {
        Seq::<SolView>::empty()
    };
    let rest = sp_clean_from(sols, i + 1);
    assert(sp_clean_from(sols, i) == head + rest);
    if i == j {
        assert((head + rest)[0] == sols[j]);
        assert(sp_clean_from(sols, i)[0] == sols[j]);
    } else {
        lemma_retained_from(sols, i + 1, j);
        let k = choose|k: int| 0 <= k < rest.len() && #[trigger] rest[k] == sols[j];
        assert((head + rest)[head.len() + k] == sols[j]);
        assert(sp_clean_from(sols, i)[head.len() as int + k] == sols[j]);
    }
}

/// Cleaning twice is cleaning once: the cleaned list is already free of
/// duplicates and of subsumed members.
pub proof fn lemma_clean_idempotent(sols: Seq<SolView>)
    ensures
        sp_clean(sp_clean(sols)) == sp_clean(sols),
{
    let c = sp_clean(sols);
    lemma_clean_indices(sols, 0);
    assert forall|j: int| 0 <= j < c.len() implies sp_retained(c, j) by {
        let ji = sp_retained_indices(sols, 0)[j];
        assert(c[j] == sols[ji] && sp_retained(sols, ji));
        if crate::solve::sp_subsumed(c, j) {
            let i = choose|i: int|
                0 <= i < c.len() && (#[trigger] c[i]).len() < c[j].len() && sp_sol_pairs_sub(
                    c[i],
                    c[j],
                );
            let ii = sp_retained_indices(sols, 0)[i];
            assert(c[i] == sols[ii]);
            assert(crate::solve::sp_subsumed(sols, ji));
        }
        if crate::solve::sp_dup_earlier(c, j) {
            let i = choose|i: int| 0 <= i < j && c[i] == c[j];
            let ii = sp_retained_indices(sols, 0)[i];
            assert(c[i] == sols[ii] && sp_retained(sols, ii));
            assert(ii < ji);
            assert(crate::solve::sp_dup_earlier(sols, ji));
        }
    }
    lemma_all_retained_clean(c, 0);
    assert(sp_clean(c) =~= c.subrange(0, c.len() as int));
    assert(c.subrange(0, c.len() as int) =~= c);
}

/// Cleaning a list whose members are all retained keeps it unchanged.
proof fn lemma_all_retained_clean(sols: Seq<SolView>, j: int)
    requires
        0 <= j <= sols.len(),
        forall|k: int| 0 <= k < sols.len() ==> sp_retained(sols, k),
    ensures
        sp_clean_from(sols, j) == sols.subrange(j, sols.len() as int),
    decreases sols.len() - j,
{
    if j >= sols.len() {
        assert(sols.subrange(j, sols.len() as int) =~= Seq::<SolView>::empty());
    } else {
        lemma_all_retained_clean(sols, j + 1);
        assert(sp_clean_from(sols, j) =~= sols.subrange(j, sols.len() as int)) by {
            assert(sp_retained(sols, j));
            assert(sp_clean_from(sols, j) == seq![sols[j]] + sp_clean_from(sols, j + 1));
        }
    }
}

/// Soundness of the whole pipeline: every assignment that extends a cleaned
/// solution of the tableau built for `e` under expected value `expect` makes
/// `e` evaluate to `expect`.
pub proof fn lemma_solutions_sound(
    e: ExprView,
    expect: bool,
    env: Map<Seq<char>, bool>,
    k: int,
)
    requires
        0 <= k < sp_clean(sp_extract(sp_build(e, expect, 0).0)).len(),
        env_extends(env, sp_clean(sp_extract(sp_build(e, expect, 0).0))[k]),
    ensures
        e.eval(env) == expect,
{
    let sols = sp_extract(sp_build(e, expect, 0).0);
    lemma_clean_indices(sols, 0);
    let ji = sp_retained_indices(sols, 0)[k];
    assert(sp_clean(sols)[k] == sols[ji]);
    assert(some_extended(sols, env));
    lemma_extract_sat(sp_build(e, expect, 0).0, env);
    lemma_build_sat(e, expect, 0, env);
}

/// Completeness of the whole pipeline: every assignment under which `e`
/// evaluates to `expect` extends at least one cleaned solution.
pub proof fn lemma_solutions_complete(e: ExprView, expect: bool, env: Map<Seq<char>, bool>)
    requires
        e.eval(env) == expect,
    ensures
        exists|k: int|
            0 <= k < sp_clean(sp_extract(sp_build(e, expect, 0).0)).len() && env_extends(
                env,
                #[trigger] sp_clean(sp_extract(sp_build(e, expect, 0).0))[k],
            ),
{
    let sols = sp_extract(sp_build(e, expect, 0).0);
    lemma_build_sat(e, expect, 0, env);
    lemma_extract_sat(sp_build(e, expect, 0).0, env);
    assert(some_extended(sols, env));
    let j = choose|j: int| 0 <= j < sols.len() && env_extends(env, #[trigger] sols[j]);
    lemma_clean_covers(sols, j);
    let k = choose|k: int|
        0 <= k < sp_clean(sols).len() && sp_sol_pairs_sub(#[trigger] sp_clean(sols)[k], sols[j]);
    lemma_extends_sub(env, sp_clean(sols)[k], sols[j]);
}

} // verus!
