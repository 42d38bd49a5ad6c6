//! Mathematical model of the automaton arena and of one `command` call.
//!
//! Handles are plain indices into a sequence of automaton values; the
//! interpreter below states, step by step, what a batch of commands does to
//! that sequence and to the per-call report. The executable engine in
//! `automata` is proved to compute exactly this.

use vstd::prelude::*;

use crate::automata::AutomatonCommand;
use crate::automata::Continuation;
use crate::automata::Rule;

verus! {

/// Value of one automaton: its identity triple, its ancestry link and its
/// ordered children, all handles written as arena indices.
#[verifier::ext_equal]
pub ghost struct AutomatonModel {
    pub rule: Rule,
    pub route: nat,
    pub state: nat,
    pub parent: Option<(nat, Continuation)>,
    pub children: Seq<nat>,
}

/// Value of the report one `command` call hands back.
#[verifier::ext_equal]
pub ghost struct ReportModel {
    pub new_recruits: Seq<nat>,
    pub reactivated: Seq<nat>,
    pub victorious: Option<nat>,
    pub remove: bool,
    pub fallthrough: bool,
}

/// The state a batch is interpreted against: the arena, the at-most-once
/// shared clone made for this batch, and the report built so far.
#[verifier::ext_equal]
pub ghost struct EngineModel {
    pub arena: Seq<AutomatonModel>,
    pub memo: Option<nat>,
    pub report: ReportModel,
}

pub open spec fn empty_report() -> ReportModel {
    ReportModel {
        new_recruits: Seq::empty(),
        reactivated: Seq::empty(),
        victorious: None,
        remove: false,
        fallthrough: false,
    }
}

/// A freshly recruited automaton: state 0 and no parent.
pub open spec fn fresh_model(rule: Rule, route: nat) -> AutomatonModel {
    AutomatonModel { rule, route, state: 0, parent: None, children: Seq::empty() }
}

/// An automaton spawned during a `Recruit` command: state 0, parented at birth.
pub open spec fn spawned_model(
    rule: Rule,
    route: nat,
    parent: nat,
    on_victory: Continuation,
) -> AutomatonModel {
    AutomatonModel { rule, route, state: 0, parent: Some((parent, on_victory)), children: Seq::empty() }
}

/// The same automaton with its state advanced by one.
pub open spec fn bump(a: AutomatonModel) -> AutomatonModel {
    AutomatonModel { state: a.state + 1, ..a }
}

/// Every ancestry link points strictly backwards and every child handle is in
/// bounds: what the arena guarantees of the handles it hands out.
pub open spec fn wf_link(arena: Seq<AutomatonModel>, i: int) -> bool {
    &&& (arena[i].parent matches Some((p, c)) ==> p < i)
    &&& forall|k: int| 0 <= k < arena[i].children.len() ==> arena[i].children[k] < arena.len()
}

pub open spec fn wf(arena: Seq<AutomatonModel>) -> bool {
    forall|i: int| 0 <= i < arena.len() ==> #[trigger] wf_link(arena, i)
}

/// Every automaton's state stays at or below `b`.
pub open spec fn states_below(arena: Seq<AutomatonModel>, b: int) -> bool {
    forall|i: int| 0 <= i < arena.len() ==> (#[trigger] arena[i].state) <= b
}

/// Whether the batch holds a `Die` command.
pub open spec fn has_die(actions: Seq<AutomatonCommand>) -> bool {
    exists|i: int| 0 <= i < actions.len() && actions[i] is Die
}

/// Whether the batch holds an `Advance` or a `Victory` command: the only two
/// that may move any state.
pub open spec fn has_state_change(actions: Seq<AutomatonCommand>) -> bool {
    exists|i: int|
        0 <= i < actions.len() && (actions[i] is Advance || actions[i] is Victory)
}

/// The shared clone of `auto` for this batch: reused when it already exists,
/// made exactly once otherwise.
pub open spec fn memo_clone(m: EngineModel, auto: nat) -> (EngineModel, nat) {
    match m.memo {
        Some(c) => (m, c),
        None => (
            EngineModel {
                arena: m.arena.push(m.arena[auto as int]),
                memo: Some(m.arena.len()),
                ..m
            },
            m.arena.len(),
        ),
    }
}

/// One `Recruit` command, from the `i`-th spawn on: each spawn takes the next
/// route and parents onto `auto` itself (first spawn, when the batch also
/// retires `auto`) or onto the shared clone.
pub open spec fn recruit_step(
    m: EngineModel,
    auto: nat,
    rule: Rule,
    route: nat,
    how_many: nat,
    on_victory: Continuation,
    die: bool,
    i: nat,
) -> EngineModel
    decreases how_many - i,
{
    if i >= how_many {
        m
    } else {
        let pick = if die && i == 0 { (m, auto) } else { memo_clone(m, auto) };
        let m1 = pick.0;
        let par = pick.1;
        let h = m1.arena.len();
        let m2 = EngineModel {
            arena: m1.arena.push(spawned_model(rule, route + i, par, on_victory)),
            report: ReportModel { new_recruits: m1.report.new_recruits.push(h), ..m1.report },
            ..m1
        };
        recruit_step(m2, auto, rule, route, how_many, on_victory, die, i + 1)
    }
}

pub open spec fn reactivate(r: ReportModel, h: nat) -> ReportModel {
    ReportModel { reactivated: r.reactivated.push(h), ..r }
}

/// One ancestor hop of a `Victory` propagation, with exclusive rights: the
/// parent is advanced in place and the finished node appended to its children.
pub open spec fn hop_in_place(arena: Seq<AutomatonModel>, p: nat, node: nat) -> Seq<AutomatonModel> {
    arena.update(
        p as int,
        AutomatonModel {
            state: arena[p as int].state + 1,
            children: arena[p as int].children.push(node),
            ..arena[p as int]
        },
    )
}

/// One ancestor hop without exclusive rights: a clone of the parent is
/// advanced and given a clone of the finished node, the parent kept intact.
/// The node's clone sits at the old length, the parent's clone right after.
pub open spec fn hop_cloned(arena: Seq<AutomatonModel>, p: nat, node: nat) -> Seq<AutomatonModel> {
    arena.push(arena[node as int]).push(
        AutomatonModel {
            state: arena[p as int].state + 1,
            children: arena[p as int].children.push(arena.len()),
            ..arena[p as int]
        },
    )
}

/// The upward walk of a `Victory`. `node` is the automaton just completed
/// (possibly a clone); `anchor` is the position in the original ancestry whose
/// link `node` carries, so the walk climbs a strictly descending chain.
pub open spec fn victory_walk(m: EngineModel, node: nat, anchor: nat, die: bool) -> EngineModel
    decreases anchor,
{
    if anchor >= m.arena.len() || node >= m.arena.len() {
        m
    } else {
        match m.arena[anchor as int].parent {
            None => EngineModel {
                report: ReportModel { victorious: Some(node), ..m.report },
                ..m
            },
            Some((p, cont)) => {
                if p < anchor {
                    let arena2 = if die {
                        hop_in_place(m.arena, p, node)
                    } else {
                        hop_cloned(m.arena, p, node)
                    };
                    let newnode = if die { p } else { m.arena.len() + 1 };
                    let m2 = EngineModel { arena: arena2, ..m };
                    match cont {
                        Continuation::PassDie => victory_walk(m2, newnode, p, true),
                        Continuation::PassAdvance => victory_walk(
                            EngineModel { report: reactivate(m2.report, newnode), ..m2 },
                            newnode,
                            p,
                            false,
                        ),
                        Continuation::Advance => EngineModel {
                            report: reactivate(m2.report, newnode),
                            ..m2
                        },
                    }
                } else {
                    m
                }
            },
        }
    }
}

/// The batch, from its `i`-th command on, each applied to the same target.
pub open spec fn command_step(
    m: EngineModel,
    auto: nat,
    actions: Seq<AutomatonCommand>,
    i: nat,
) -> EngineModel
    decreases actions.len() - i,
{
    if i >= actions.len() {
        m
    } else {
        let m2 = match actions[i as int] {
            AutomatonCommand::Advance => EngineModel {
                arena: m.arena.update(auto as int, bump(m.arena[auto as int])),
                ..m
            },
            AutomatonCommand::Die => EngineModel {
                report: ReportModel { remove: true, ..m.report },
                ..m
            },
            AutomatonCommand::Recruit { rule, route, how_many, on_victory } => recruit_step(
                m,
                auto,
                rule,
                route as nat,
                how_many as nat,
                on_victory,
                has_die(actions),
                0,
            ),
            AutomatonCommand::Victory => {
                let m1 = EngineModel {
                    arena: m.arena.update(auto as int, bump(m.arena[auto as int])),
                    ..m
                };
                victory_walk(m1, auto, auto, has_die(actions))
            },
            AutomatonCommand::Fallthrough => EngineModel {
                report: ReportModel { fallthrough: true, ..m.report },
                ..m
            },
        };
        command_step(m2, auto, actions, i + 1)
    }
}

/// Advancing one automaton's state leaves every ancestry link intact.
pub proof fn lemma_wf_bump(arena: Seq<AutomatonModel>, h: nat)
    requires
        wf(arena),
        h < arena.len(),
    ensures
        wf(arena.update(h as int, bump(arena[h as int]))),
{
    let post = arena.update(h as int, bump(arena[h as int]));
    assert forall|i: int| 0 <= i < post.len() implies #[trigger] wf_link(post, i) by {
        assert(wf_link(arena, i));
        assert(post[i].parent == arena[i].parent);
        assert(post[i].children == arena[i].children);
    }
}

/// Appending a copy of an automaton keeps the arena well formed.
pub proof fn lemma_wf_push_clone(arena: Seq<AutomatonModel>, src: nat)
    requires
        wf(arena),
        src < arena.len(),
    ensures
        wf(arena.push(arena[src as int])),
{
    let post = arena.push(arena[src as int]);
    assert forall|i: int| 0 <= i < post.len() implies #[trigger] wf_link(post, i) by {
        if i < arena.len() {
            assert(wf_link(arena, i));
        } else {
            assert(post[i] == arena[src as int]);
            assert(wf_link(arena, src as int));
        }
    }
}

/// Appending a fresh spawn whose parent handle is in bounds keeps the arena
/// well formed.
pub proof fn lemma_wf_spawn(
    arena: Seq<AutomatonModel>,
    rule: Rule,
    route: nat,
    par: nat,
    on_victory: Continuation,
)
    requires
        wf(arena),
        par < arena.len(),
    ensures
        wf(arena.push(spawned_model(rule, route, par, on_victory))),
{
    let post = arena.push(spawned_model(rule, route, par, on_victory));
    assert forall|i: int| 0 <= i < post.len() implies #[trigger] wf_link(post, i) by {
        if i < arena.len() {
            assert(wf_link(arena, i));
        }
    }
}

/// An in-place hop keeps the arena well formed.
pub proof fn lemma_wf_hop_in_place(arena: Seq<AutomatonModel>, p: nat, node: nat)
    requires
        wf(arena),
        p < arena.len(),
        node < arena.len(),
    ensures
        wf(hop_in_place(arena, p, node)),
{
    let post = hop_in_place(arena, p, node);
    assert forall|i: int| 0 <= i < post.len() implies #[trigger] wf_link(post, i) by {
        assert(wf_link(arena, i));
        if i == p {
            assert(post[i].parent == arena[i].parent);
            assert(forall|k: int|
                0 <= k < post[i].children.len() ==> post[i].children[k] < post.len());
        } else {
            assert(post[i] == arena[i]);
        }
    }
}

/// A cloning hop keeps the arena well formed.
pub proof fn lemma_wf_hop_cloned(arena: Seq<AutomatonModel>, p: nat, node: nat)
    requires
        wf(arena),
        p < arena.len(),
        node < arena.len(),
    ensures
        wf(hop_cloned(arena, p, node)),
{
    let post = hop_cloned(arena, p, node);
    assert forall|i: int| 0 <= i < post.len() implies #[trigger] wf_link(post, i) by {
        if i < arena.len() {
            assert(wf_link(arena, i));
            assert(post[i] == arena[i]);
        } else if i == arena.len() {
            assert(post[i] == arena[node as int]);
            assert(wf_link(arena, node as int));
        } else {
            assert(wf_link(arena, p as int));
            assert(post[i].parent == arena[p as int].parent);
        }
    }
}

/// What one `command` call does: fold the whole batch over the arena, starting
/// with no shared clone and an empty report.
pub open spec fn run_commands(
    arena: Seq<AutomatonModel>,
    auto: nat,
    actions: Seq<AutomatonCommand>,
) -> EngineModel {
    command_step(EngineModel { arena, memo: None, report: empty_report() }, auto, actions, 0)
}

} // verus!
