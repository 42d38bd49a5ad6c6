//! The engine's laws: what every `command` call preserves, and what the
//! single-command batches do, proved once and for all over the model in
//! [`crate::model`].

use vstd::prelude::*;

use crate::automata::AutomatonCommand;
use crate::automata::Continuation;
use crate::automata::Rule;
use crate::model::AutomatonModel;
use crate::model::EngineModel;
use crate::model::ReportModel;
use crate::model::bump;
use crate::model::command_step;
use crate::model::empty_report;
use crate::model::has_die;
use crate::model::has_state_change;
use crate::model::hop_cloned;
use crate::model::hop_in_place;
use crate::model::memo_clone;
use crate::model::reactivate;
use crate::model::recruit_step;
use crate::model::run_commands;
use crate::model::spawned_model;
use crate::model::victory_walk;
use crate::model::wf;
use crate::model::wf_link;

verus! {

/// How one automaton's value may evolve: state never rewinds, children are
/// only appended, and its rule, route and ancestry link are fixed.
pub open spec fn preserved_entry(a: AutomatonModel, b: AutomatonModel) -> bool {
    &&& b.rule == a.rule
    &&& b.route == a.route
    &&& b.parent == a.parent
    &&& b.state >= a.state
    &&& b.children.len() >= a.children.len()
    &&& forall|k: int| 0 <= k < a.children.len() ==> b.children[k] == a.children[k]
}

/// Every automaton alive in `pre` is still there in `post`, evolved only as
/// `preserved_entry` allows.
pub open spec fn preserved(pre: Seq<AutomatonModel>, post: Seq<AutomatonModel>) -> bool {
    &&& post.len() >= pre.len()
    &&& forall|i: int| 0 <= i < pre.len() ==> preserved_entry(pre[i], #[trigger] post[i])
}

/// `post` is `pre` with automata appended and nothing else changed at all.
pub open spec fn extended(pre: Seq<AutomatonModel>, post: Seq<AutomatonModel>) -> bool {
    &&& post.len() >= pre.len()
    &&& forall|i: int| 0 <= i < pre.len() ==> pre[i] == #[trigger] post[i]
}

proof fn lemma_preserved_trans(
    a: Seq<AutomatonModel>,
    b: Seq<AutomatonModel>,
    c: Seq<AutomatonModel>,
)
    requires
        preserved(a, b),
        preserved(b, c),
    ensures
        preserved(a, c),
{
    assert forall|i: int| 0 <= i < a.len() implies preserved_entry(a[i], #[trigger] c[i]) by {
        assert(preserved_entry(a[i], b[i]));
        assert(preserved_entry(b[i], c[i]));
    }
}

proof fn lemma_extended_is_preserved(a: Seq<AutomatonModel>, b: Seq<AutomatonModel>)
    requires
        extended(a, b),
    ensures
        preserved(a, b),
{
    assert forall|i: int| 0 <= i < a.len() implies preserved_entry(a[i], #[trigger] b[i]) by {
        assert(a[i] == b[i]);
    }
}

/// A `Recruit` command only appends: it touches no existing automaton and
/// leaves the victory and remove findings alone.
proof fn lemma_recruit_step_extends(
    m: EngineModel,
    auto: nat,
    rule: Rule,
    route: nat,
    how_many: nat,
    on_victory: Continuation,
    die: bool,
    i: nat,
)
    ensures
        extended(m.arena, recruit_step(m, auto, rule, route, how_many, on_victory, die, i).arena),
        recruit_step(m, auto, rule, route, how_many, on_victory, die, i).report.victorious
            == m.report.victorious,
    decreases how_many - i,
{
    if i >= how_many {
    } else {
        let pick = if die && i == 0 {
            (m, auto)
        } else {
            memo_clone(m, auto)
        };
        let m1 = pick.0;
        let par = pick.1;
        let h = m1.arena.len();
        let m2 = EngineModel {
            arena: m1.arena.push(spawned_model(rule, route + i, par, on_victory)),
            report: ReportModel { new_recruits: m1.report.new_recruits.push(h), ..m1.report },
            ..m1
        };
        lemma_recruit_step_extends(m2, auto, rule, route, how_many, on_victory, die, i + 1);
        assert(extended(m.arena, m2.arena));
        let fin = recruit_step(m, auto, rule, route, how_many, on_victory, die, i).arena;
        assert forall|t: int| 0 <= t < m.arena.len() implies m.arena[t] == #[trigger] fin[t] by {
            assert(m.arena[t] == m2.arena[t]);
        }
    }
}

/// A `Victory` walk evolves existing automata only as `preserved_entry`
/// allows: ancestors advance and gain children, everything else stays.
proof fn lemma_walk_preserves(m: EngineModel, node: nat, anchor: nat, die: bool)
    ensures
        preserved(m.arena, victory_walk(m, node, anchor, die).arena),
    decreases anchor,
{
    if anchor >= m.arena.len() || node >= m.arena.len() {
    } else {
        match m.arena[anchor as int].parent {
            None => {},
            Some((p, cont)) => {
                if p < anchor {
                    let arena2 = if die {
                        hop_in_place(m.arena, p, node)
                    } else {
                        hop_cloned(m.arena, p, node)
                    };
                    let newnode = if die {
                        p
                    } else {
                        m.arena.len() + 1
                    };
                    let m2 = EngineModel { arena: arena2, ..m };
                    assert(preserved(m.arena, arena2));
                    match cont {
                        Continuation::PassDie => {
                            lemma_walk_preserves(m2, newnode, p, true);
                            lemma_preserved_trans(
                                m.arena,
                                arena2,
                                victory_walk(m2, newnode, p, true).arena,
                            );
                        },
                        Continuation::PassAdvance => {
                            let m3 = EngineModel {
                                report: reactivate(m2.report, newnode),
                                ..m2
                            };
                            lemma_walk_preserves(m3, newnode, p, false);
                            lemma_preserved_trans(
                                m.arena,
                                arena2,
                                victory_walk(m3, newnode, p, false).arena,
                            );
                        },
                        Continuation::Advance => {},
                    }
                }
            },
        }
    }
}

/// Along a `Victory` walk the overall winner, once reported, is an automaton
/// without a parent; and a winner can only be reported at a root.
proof fn lemma_walk_victorious(m: EngineModel, node: nat, anchor: nat, die: bool)
    requires
        m.report.victorious matches Some(v) ==> v < m.arena.len() && m.arena[v as int].parent
            is None,
        (node < m.arena.len() && anchor < m.arena.len()) ==> m.arena[node as int].parent
            == m.arena[anchor as int].parent,
    ensures
        victory_walk(m, node, anchor, die).report.victorious matches Some(v) ==> v
            < victory_walk(m, node, anchor, die).arena.len() && victory_walk(
            m,
            node,
            anchor,
            die,
        ).arena[v as int].parent is None,
    decreases anchor,
{
    if anchor >= m.arena.len() || node >= m.arena.len() {
    } else {
        match m.arena[anchor as int].parent {
            None => {},
            Some((p, cont)) => {
                if p < anchor {
                    let arena2 = if die {
                        hop_in_place(m.arena, p, node)
                    } else {
                        hop_cloned(m.arena, p, node)
                    };
                    let newnode = if die {
                        p
                    } else {
                        m.arena.len() + 1
                    };
                    let m2 = EngineModel { arena: arena2, ..m };
                    assert(arena2[newnode as int].parent == arena2[p as int].parent);
                    match cont {
                        Continuation::PassDie => {
                            lemma_walk_victorious(m2, newnode, p, true);
                        },
                        Continuation::PassAdvance => {
                            let m3 = EngineModel {
                                report: reactivate(m2.report, newnode),
                                ..m2
                            };
                            lemma_walk_victorious(m3, newnode, p, false);
                        },
                        Continuation::Advance => {},
                    }
                }
            },
        }
    }
}

/// The combined induction over one batch: existing automata evolve only as
/// `preserved_entry` allows, a reported winner is a root, and a batch without
/// `Advance` and `Victory` leaves every existing automaton exactly as it was.
proof fn lemma_command_step_props(
    m: EngineModel,
    auto: nat,
    actions: Seq<AutomatonCommand>,
    i: nat,
)
    requires
        auto < m.arena.len(),
        m.report.victorious matches Some(v) ==> v < m.arena.len() && m.arena[v as int].parent
            is None,
    ensures
        preserved(m.arena, command_step(m, auto, actions, i).arena),
        command_step(m, auto, actions, i).report.victorious matches Some(v) ==> v < command_step(
            m,
            auto,
            actions,
            i,
        ).arena.len() && command_step(m, auto, actions, i).arena[v as int].parent is None,
        (forall|k: int|
            i <= k < actions.len() ==> !((#[trigger] actions[k]) is Advance || actions[k]
                is Victory)) ==> extended(m.arena, command_step(m, auto, actions, i).arena),
    decreases actions.len() - i,
{
    if i >= actions.len() {
    } else {
        let quiet = forall|k: int|
            i + 1 <= k < actions.len() ==> !((#[trigger] actions[k]) is Advance || actions[k]
                is Victory);
        match actions[i as int] {
            AutomatonCommand::Advance => {
                let m2 = EngineModel {
                    arena: m.arena.update(auto as int, bump(m.arena[auto as int])),
                    ..m
                };
                assert(preserved(m.arena, m2.arena));
                lemma_command_step_props(m2, auto, actions, i + 1);
                lemma_preserved_trans(m.arena, m2.arena, command_step(m2, auto, actions, i + 1).arena);
            },
            AutomatonCommand::Die => {
                let m2 = EngineModel { report: ReportModel { remove: true, ..m.report }, ..m };
                lemma_command_step_props(m2, auto, actions, i + 1);
            },
            AutomatonCommand::Fallthrough => {
                let m2 = EngineModel { report: ReportModel { fallthrough: true, ..m.report }, ..m };
                lemma_command_step_props(m2, auto, actions, i + 1);
            },
            AutomatonCommand::Recruit { rule, route, how_many, on_victory } => {
                let m2 = recruit_step(
                    m,
                    auto,
                    rule,
                    route as nat,
                    how_many as nat,
                    on_victory,
                    has_die(actions),
                    0,
                );
                lemma_recruit_step_extends(
                    m,
                    auto,
                    rule,
                    route as nat,
                    how_many as nat,
                    on_victory,
                    has_die(actions),
                    0,
                );
                lemma_extended_is_preserved(m.arena, m2.arena);
                lemma_command_step_props(m2, auto, actions, i + 1);
                lemma_preserved_trans(m.arena, m2.arena, command_step(m2, auto, actions, i + 1).arena);
                if quiet && !(actions[i as int] is Advance || actions[i as int] is Victory) {
                    assert forall|t: int|
                        0 <= t < m.arena.len() implies m.arena[t] == #[trigger] command_step(
                        m2,
                        auto,
                        actions,
                        i + 1,
                    ).arena[t] by {
                        assert(m.arena[t] == m2.arena[t]);
                    }
                }
            },
            AutomatonCommand::Victory => {
                let m1 = EngineModel {
                    arena: m.arena.update(auto as int, bump(m.arena[auto as int])),
                    ..m
                };
                let m2 = victory_walk(m1, auto, auto, has_die(actions));
                assert(preserved(m.arena, m1.arena));
                lemma_walk_preserves(m1, auto, auto, has_die(actions));
                lemma_walk_victorious(m1, auto, auto, has_die(actions));
                lemma_preserved_trans(m.arena, m1.arena, m2.arena);
                lemma_command_step_props(m2, auto, actions, i + 1);
                lemma_preserved_trans(m.arena, m2.arena, command_step(m2, auto, actions, i + 1).arena);
            },
        }
    }
}

/// A call can only move an automaton forward: for every automaton alive
/// before `command`, its state never decreases, its rule, route and ancestry
/// link stay exactly as set at creation, and its children are only appended
/// to; and a batch holding neither `Advance` nor `Victory` — the only two
/// commands that move state — leaves every existing automaton untouched.
pub proof fn law_command_preserves_existing(
    arena: Seq<AutomatonModel>,
    auto: nat,
    actions: Seq<AutomatonCommand>,
)
    requires
        auto < arena.len(),
    ensures
        preserved(arena, run_commands(arena, auto, actions).arena),
        !has_state_change(actions) ==> extended(arena, run_commands(arena, auto, actions).arena),
{
    let m0 = EngineModel { arena, memo: None, report: empty_report() };
    lemma_command_step_props(m0, auto, actions, 0);
    if !has_state_change(actions) {
        assert forall|k: int|
            0 <= k < actions.len() implies !((#[trigger] actions[k]) is Advance || actions[k]
            is Victory) by {
            if actions[k] is Advance || actions[k] is Victory {
                assert(has_state_change(actions));
            }
        }
    }
}

/// The overall-victorious automaton, when a call reports one, has no
/// ancestry link: victory only surfaces at a root.
pub proof fn law_victorious_is_root(
    arena: Seq<AutomatonModel>,
    auto: nat,
    actions: Seq<AutomatonCommand>,
)
    requires
        auto < arena.len(),
    ensures
        run_commands(arena, auto, actions).report.victorious matches Some(v) ==> v < run_commands(
            arena,
            auto,
            actions,
        ).arena.len() && run_commands(arena, auto, actions).arena[v as int].parent is None,
{
    let m0 = EngineModel { arena, memo: None, report: empty_report() };
    lemma_command_step_props(m0, auto, actions, 0);
}

/// A lone `Advance` does exactly one thing: the target's state rises by one,
/// and the report is empty — no recruits, no reactivations, no winner, no
/// removal, no fallthrough.
pub proof fn law_single_advance(arena: Seq<AutomatonModel>, auto: nat)
    requires
        auto < arena.len(),
    ensures
        ({
            let r = run_commands(arena, auto, seq![AutomatonCommand::Advance]);
            &&& r.arena == arena.update(auto as int, bump(arena[auto as int]))
            &&& r.arena[auto as int].state == arena[auto as int].state + 1
            &&& r.report == empty_report()
        }),
{
    let acts = seq![AutomatonCommand::Advance];
    let m0 = EngineModel { arena, memo: None, report: empty_report() };
    let m1 = EngineModel { arena: arena.update(auto as int, bump(arena[auto as int])), ..m0 };
    assert(acts[0] is Advance);
    assert(command_step(m0, auto, acts, 0) == command_step(m1, auto, acts, 1));
    assert(command_step(m1, auto, acts, 1) == m1);
}

/// A lone `Die` does exactly one thing: the report carries `remove` and
/// nothing else, and no automaton changes.
pub proof fn law_single_die(arena: Seq<AutomatonModel>, auto: nat)
    requires
        auto < arena.len(),
    ensures
        ({
            let r = run_commands(arena, auto, seq![AutomatonCommand::Die]);
            &&& r.arena == arena
            &&& r.report == (ReportModel { remove: true, ..empty_report() })
        }),
{
    let acts = seq![AutomatonCommand::Die];
    let m0 = EngineModel { arena, memo: None, report: empty_report() };
    let m1 = EngineModel { report: ReportModel { remove: true, ..empty_report() }, ..m0 };
    assert(acts[0] is Die);
    assert(command_step(m0, auto, acts, 0) == command_step(m1, auto, acts, 1));
    assert(command_step(m1, auto, acts, 1) == m1);
}

/// Branching preserves the original: a lone two-way `Recruit` yields exactly
/// two recruits at state 0 on consecutive routes, both parented onto one
/// shared copy of the target, while the target itself — and every other
/// automaton — is left untouched.
pub proof fn law_branch_preserves_original(
    arena: Seq<AutomatonModel>,
    auto: nat,
    rule: Rule,
    route: u32,
    on_victory: Continuation,
)
    requires
        auto < arena.len(),
    ensures
        ({
            let n = arena.len();
            let acts = seq![
                AutomatonCommand::Recruit { rule, route, how_many: 2, on_victory },
            ];
            let r = run_commands(arena, auto, acts);
            &&& r.arena == arena.push(arena[auto as int]).push(
                spawned_model(rule, route as nat, n, on_victory),
            ).push(spawned_model(rule, route as nat + 1, n, on_victory))
            &&& r.arena[auto as int] == arena[auto as int]
            &&& r.report == (ReportModel {
                new_recruits: seq![n + 1, n + 2],
                ..empty_report()
            })
        }),
{
    let n = arena.len();
    let acts = seq![AutomatonCommand::Recruit { rule, route, how_many: 2, on_victory }];
    assert(!has_die(acts)) by {
        if has_die(acts) {
            let k = choose|k: int| 0 <= k < acts.len() && acts[k] is Die;
            assert(acts[0] is Recruit);
        }
    }
    let m0 = EngineModel { arena, memo: None, report: empty_report() };
    // First spawn: the shared clone is made, then the recruit.
    let ma = EngineModel { arena: arena.push(arena[auto as int]), memo: Some(n), ..m0 };
    let mb = EngineModel {
        arena: ma.arena.push(spawned_model(rule, route as nat, n, on_victory)),
        report: ReportModel { new_recruits: seq![n + 1], ..empty_report() },
        ..ma
    };
    // Second spawn reuses the clone.
    let mc = EngineModel {
        arena: mb.arena.push(spawned_model(rule, route as nat + 1, n, on_victory)),
        report: ReportModel { new_recruits: seq![n + 1, n + 2], ..empty_report() },
        ..mb
    };
    assert(recruit_step(m0, auto, rule, route as nat, 2, on_victory, false, 0) == recruit_step(
        mb,
        auto,
        rule,
        route as nat,
        2,
        on_victory,
        false,
        1,
    )) by {
        assert(memo_clone(m0, auto) == (ma, n));
        assert(mb.report.new_recruits =~= ma.report.new_recruits.push(n + 1));
    }
    assert(recruit_step(mb, auto, rule, route as nat, 2, on_victory, false, 1) == recruit_step(
        mc,
        auto,
        rule,
        route as nat,
        2,
        on_victory,
        false,
        2,
    )) by {
        assert(mc.report.new_recruits =~= mb.report.new_recruits.push(n + 2));
    }
    assert(recruit_step(mc, auto, rule, route as nat, 2, on_victory, false, 2) == mc);
    assert(acts[0] == AutomatonCommand::Recruit { rule, route, how_many: 2, on_victory });
    assert(command_step(m0, auto, acts, 0) == command_step(mc, auto, acts, 1));
    assert(command_step(mc, auto, acts, 1) == mc);
}

/// Exclusive branching: a two-way `Recruit` next to a `Die` parents the first
/// recruit onto the target itself — the target will not act again — and the
/// second onto a distinct copy holding the target's pre-call value; the
/// report carries the two recruits and `remove`, nothing else.
pub proof fn law_exclusive_branch(
    arena: Seq<AutomatonModel>,
    auto: nat,
    rule: Rule,
    route: u32,
    on_victory: Continuation,
)
    requires
        auto < arena.len(),
    ensures
        ({
            let n = arena.len();
            let acts = seq![
                AutomatonCommand::Recruit { rule, route, how_many: 2, on_victory },
                AutomatonCommand::Die,
            ];
            let r = run_commands(arena, auto, acts);
            &&& r.arena == arena.push(spawned_model(rule, route as nat, auto, on_victory)).push(
                arena[auto as int],
            ).push(spawned_model(rule, route as nat + 1, n + 1, on_victory))
            &&& r.arena[n as int].parent == Some((auto, on_victory))
            &&& n + 1 != auto && r.arena[(n + 1) as int] == arena[auto as int]
            &&& r.arena[(n + 2) as int].parent == Some(((n + 1) as nat, on_victory))
            &&& r.report == (ReportModel {
                new_recruits: seq![n, n + 2],
                remove: true,
                ..empty_report()
            })
        }),
{
    let n = arena.len();
    let acts = seq![
        AutomatonCommand::Recruit { rule, route, how_many: 2, on_victory },
        AutomatonCommand::Die,
    ];
    assert(has_die(acts)) by {
        assert(acts[1] is Die);
    }
    let m0 = EngineModel { arena, memo: None, report: empty_report() };
    // First spawn parents straight onto the target.
    let ma = EngineModel {
        arena: arena.push(spawned_model(rule, route as nat, auto, on_victory)),
        report: ReportModel { new_recruits: seq![n], ..empty_report() },
        ..m0
    };
    // Second spawn makes the shared clone and parents onto it.
    let mb = EngineModel { arena: ma.arena.push(arena[auto as int]), memo: Some(n + 1), ..ma };
    let mc = EngineModel {
        arena: mb.arena.push(spawned_model(rule, route as nat + 1, n + 1, on_victory)),
        report: ReportModel { new_recruits: seq![n, n + 2], ..empty_report() },
        ..mb
    };
    assert(recruit_step(m0, auto, rule, route as nat, 2, on_victory, true, 0) == recruit_step(
        ma,
        auto,
        rule,
        route as nat,
        2,
        on_victory,
        true,
        1,
    )) by {
        assert(ma.report.new_recruits =~= m0.report.new_recruits.push(n));
    }
    assert(recruit_step(ma, auto, rule, route as nat, 2, on_victory, true, 1) == recruit_step(
        mc,
        auto,
        rule,
        route as nat,
        2,
        on_victory,
        true,
        2,
    )) by {
        assert(memo_clone(ma, auto) == (mb, (n + 1) as nat));
        assert(mc.report.new_recruits =~= ma.report.new_recruits.push(n + 2));
    }
    assert(recruit_step(mc, auto, rule, route as nat, 2, on_victory, true, 2) == mc);
    assert(acts[0] == AutomatonCommand::Recruit { rule, route, how_many: 2, on_victory });
    assert(command_step(m0, auto, acts, 0) == command_step(mc, auto, acts, 1));
    let md = EngineModel { report: ReportModel { remove: true, ..mc.report }, ..mc };
    assert(acts[1] is Die);
    assert(command_step(mc, auto, acts, 1) == command_step(md, auto, acts, 2));
    assert(command_step(md, auto, acts, 2) == md);
    assert(run_commands(arena, auto, acts).report =~= md.report);
}

/// Root victory: a lone `Victory` on a parentless automaton advances it once
/// and reports it as the overall winner, with nothing else in the report and
/// no other automaton touched.
pub proof fn law_root_victory(arena: Seq<AutomatonModel>, auto: nat)
    requires
        auto < arena.len(),
        arena[auto as int].parent is None,
    ensures
        ({
            let r = run_commands(arena, auto, seq![AutomatonCommand::Victory]);
            &&& r.arena == arena.update(auto as int, bump(arena[auto as int]))
            &&& r.arena[auto as int].state == arena[auto as int].state + 1
            &&& r.report == (ReportModel { victorious: Some(auto), ..empty_report() })
        }),
{
    let acts = seq![AutomatonCommand::Victory];
    assert(!has_die(acts)) by {
        if has_die(acts) {
            let k = choose|k: int| 0 <= k < acts.len() && acts[k] is Die;
            assert(acts[0] is Victory);
        }
    }
    let m0 = EngineModel { arena, memo: None, report: empty_report() };
    let m1 = EngineModel { arena: arena.update(auto as int, bump(arena[auto as int])), ..m0 };
    assert(m1.arena[auto as int].parent is None);
    let m2 = EngineModel {
        report: ReportModel { victorious: Some(auto), ..empty_report() },
        ..m1
    };
    assert(victory_walk(m1, auto, auto, false) == m2);
    assert(acts[0] is Victory);
    assert(command_step(m0, auto, acts, 0) == command_step(m2, auto, acts, 1));
    assert(command_step(m2, auto, acts, 1) == m2);
}

/// Propagated victory through an `Advance` link: a lone `Victory` on a child
/// advances the child in place, then reactivates a fresh copy of the parent —
/// advanced once and holding, as its last child, a copy of the child after
/// its victory — while the parent itself is left untouched and no overall
/// winner is reported.
pub proof fn law_propagated_victory(arena: Seq<AutomatonModel>, auto: nat, p: nat)
    requires
        wf(arena),
        auto < arena.len(),
        arena[auto as int].parent == Some((p, Continuation::Advance)),
    ensures
        ({
            let n = arena.len();
            let b = arena.update(auto as int, bump(arena[auto as int]));
            let r = run_commands(arena, auto, seq![AutomatonCommand::Victory]);
            &&& r.arena == b.push(b[auto as int]).push(
                AutomatonModel {
                    state: arena[p as int].state + 1,
                    children: arena[p as int].children.push(n),
                    ..arena[p as int]
                },
            )
            &&& r.arena[p as int] == arena[p as int]
            &&& r.arena[auto as int].state == arena[auto as int].state + 1
            &&& r.arena[n as int] == bump(arena[auto as int])
            &&& r.arena[(n + 1) as int].state == arena[p as int].state + 1
            &&& r.arena[(n + 1) as int].children.last() == n
            &&& r.report == (ReportModel { reactivated: seq![n + 1], ..empty_report() })
        }),
{
    let n = arena.len();
    let acts = seq![AutomatonCommand::Victory];
    assert(!has_die(acts)) by {
        if has_die(acts) {
            let k = choose|k: int| 0 <= k < acts.len() && acts[k] is Die;
            assert(acts[0] is Victory);
        }
    }
    assert(wf_link(arena, auto as int));
    assert(p < auto);
    let m0 = EngineModel { arena, memo: None, report: empty_report() };
    let b = arena.update(auto as int, bump(arena[auto as int]));
    let m1 = EngineModel { arena: b, ..m0 };
    assert(m1.arena[auto as int].parent == Some((p, Continuation::Advance)));
    assert(b[p as int] == arena[p as int]);
    let arena2 = hop_cloned(b, p, auto);
    let m2 = EngineModel {
        arena: arena2,
        report: ReportModel { reactivated: seq![n + 1], ..empty_report() },
        ..m1
    };
    assert(victory_walk(m1, auto, auto, false) == m2) by {
        assert(reactivate(m1.report, n + 1).reactivated =~= seq![(n + 1) as nat]);
    }
    assert(acts[0] is Victory);
    assert(command_step(m0, auto, acts, 0) == command_step(m2, auto, acts, 1));
    assert(command_step(m2, auto, acts, 1) == m2);
    assert(arena2 == b.push(b[auto as int]).push(
        AutomatonModel {
            state: arena[p as int].state + 1,
            children: arena[p as int].children.push(n),
            ..arena[p as int]
        },
    )) by {
        assert(b[auto as int] == bump(arena[auto as int]));
        assert(arena2 =~~= b.push(b[auto as int]).push(
            AutomatonModel {
                state: arena[p as int].state + 1,
                children: arena[p as int].children.push(n),
                ..arena[p as int]
            },
        ));
    }
}

} // verus!
