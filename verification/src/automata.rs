//! The automaton arena and its command interpreter.
//!
//! An `Army` owns every automaton made during one parse attempt, in stable
//! index-addressed storage; a `Rawtomaton` is a plain handle into it. The
//! `command` method applies an ordered batch of commands to one automaton,
//! cloning ancestors exactly where another live path could still observe
//! them, and reports recruits, reactivations and victory to the driver.

use vstd::prelude::*;

use crate::model::AutomatonModel;
use crate::model::EngineModel;
use crate::model::ReportModel;
use crate::model::bump;
use crate::model::command_step;
use crate::model::empty_report;
use crate::model::fresh_model;
use crate::model::has_die;
use crate::model::hop_cloned;
use crate::model::hop_in_place;
use crate::model::lemma_wf_bump;
use crate::model::lemma_wf_hop_cloned;
use crate::model::lemma_wf_hop_in_place;
use crate::model::lemma_wf_push_clone;
use crate::model::lemma_wf_spawn;
use crate::model::memo_clone;
use crate::model::reactivate;
use crate::model::recruit_step;
use crate::model::run_commands;
use crate::model::spawned_model;
use crate::model::states_below;
use crate::model::victory_walk;
use crate::model::wf;
use crate::model::wf_link;

verus! {

/// Identifier for one grammar rule: a registry id handed out by whatever
/// compiled the grammar. Equality-comparable and otherwise opaque.
#[derive(Clone, Copy, PartialEq, Eq, Structural, Debug)]
pub struct Rule(pub u32);

/// Non-owning handle to one automaton inside the `Army` that made it. Valid
/// only against that same arena; compared by value.
#[derive(Clone, Copy, PartialEq, Eq, Structural, Debug)]
pub struct Rawtomaton(usize);

impl View for Rawtomaton {
    type V = nat;

    closed spec fn view(&self) -> nat {
        self.0 as nat
    }
}

/// The model value of the interpreter's shared-clone memo.
pub open spec fn memo_view(m: Option<Rawtomaton>) -> Option<nat> {
    match m {
        Some(h) => Some(h@),
        None => None,
    }
}

/// Policy on an ancestry link: how a child's victory affects its parent.
#[derive(Clone, Copy, PartialEq, Eq, Structural, Debug)]
pub enum Continuation {
    /// The parent completes too, with exclusive rights from here on up.
    PassDie,
    /// The parent completes and also rejoins the working set.
    PassAdvance,
    /// The parent advances and rejoins the working set; the walk stops.
    Advance,
}

/// Commands that automata can execute at each step.
///
/// They can do as many of these as they need at each step.
#[derive(Clone, Copy, PartialEq, Eq, Structural, Debug)]
pub enum AutomatonCommand {
    /// Spawn `how_many` automata for `rule`, at routes `route`, `route + 1`, …
    Recruit { rule: Rule, route: u32, how_many: u32, on_victory: Continuation },
    /// Increase state by one.
    Advance,
    /// The target finished its route; walk the ancestry applying each link's
    /// continuation.
    Victory,
    /// Drop the target from the working set; its storage stays put.
    Die,
    /// The current symbol was not consumed and must be offered again.
    Fallthrough,
}

impl Default for AutomatonCommand {
    fn default() -> (c: AutomatonCommand)
        ensures
            c == AutomatonCommand::Die,
    {
        AutomatonCommand::Die
    }
}

/// One in-progress attempt to match a (rule, route) pair. Its children are
/// the completed sub-matches, in completion order; its ancestry link is fixed
/// at creation.
#[derive(Debug)]
pub struct Automaton {
    pub rule: Rule,
    pub route: u32,
    pub state: u32,
    pub parent: Option<(Rawtomaton, Continuation)>,
    pub children: Vec<Rawtomaton>,
}

impl View for Automaton {
    type V = AutomatonModel;

    open spec fn view(&self) -> AutomatonModel {
        AutomatonModel {
            rule: self.rule,
            route: self.route as nat,
            state: self.state as nat,
            parent: match self.parent {
                Some((h, c)) => Some((h@, c)),
                None => None,
            },
            children: self.children@.map_values(|h: Rawtomaton| h@),
        }
    }
}

impl PartialEq for Automaton {
    /// Automata are identified by their (rule, route, state) triple.
    fn eq(&self, other: &Automaton) -> bool {
        self.rule == other.rule && self.route == other.route && self.state == other.state
    }
}

impl vstd::std_specs::cmp::PartialEqSpecImpl for Automaton {
    open spec fn obeys_eq_spec() -> bool {
        true
    }

    open spec fn eq_spec(&self, other: &Automaton) -> bool {
        self.rule == other.rule && self.route == other.route && self.state == other.state
    }
}

impl Eq for Automaton {}

/// What one `command` call reports back to the driver.
#[derive(Debug)]
pub struct CommandResult {
    pub new_recruits: Vec<Rawtomaton>,
    pub reactivated: Vec<Rawtomaton>,
    pub victorious: Option<Rawtomaton>,
    pub remove: bool,
    pub fallthrough: bool,
}

impl View for CommandResult {
    type V = ReportModel;

    open spec fn view(&self) -> ReportModel {
        ReportModel {
            new_recruits: self.new_recruits@.map_values(|h: Rawtomaton| h@),
            reactivated: self.reactivated@.map_values(|h: Rawtomaton| h@),
            victorious: match self.victorious {
                Some(h) => Some(h@),
                None => None,
            },
            remove: self.remove,
            fallthrough: self.fallthrough,
        }
    }
}

impl Default for CommandResult {
    fn default() -> (r: CommandResult)
        ensures
            r@ == empty_report(),
    {
        let r = CommandResult {
            new_recruits: Vec::new(),
            reactivated: Vec::new(),
            victorious: None,
            remove: false,
            fallthrough: false,
        };
        proof {
            assert(r@.new_recruits =~= empty_report().new_recruits);
            assert(r@.reactivated =~= empty_report().reactivated);
        }
        r
    }
}

/// The arena: sole owner of every automaton of one parse attempt, with O(1)
/// allocation and handles that stay valid for the attempt's whole life.
pub struct Army {
    automata: Vec<Automaton>,
}

impl View for Army {
    type V = Seq<AutomatonModel>;

    closed spec fn view(&self) -> Seq<AutomatonModel> {
        self.automata@.map_values(|a: Automaton| a@)
    }
}

impl Army {
    pub fn new() -> (a: Army)
        ensures
            a@ == Seq::<AutomatonModel>::empty(),
    {
        let a = Army { automata: Vec::new() };
        proof {
            assert(a@ =~= Seq::<AutomatonModel>::empty());
        }
        a
    }

    /// Allocates a fresh automaton for `rule` at `route`: state 0, no parent.
    pub fn recruit(&mut self, rule: Rule, route: u32) -> (h: Rawtomaton)
        ensures
            final(self)@ == old(self)@.push(fresh_model(rule, route as nat)),
            h@ == old(self)@.len(),
            wf(old(self)@) ==> wf(final(self)@),
    {
        let h = Rawtomaton(self.automata.len());
        self.automata.push(
            Automaton { rule, route, state: 0, parent: None, children: Vec::new() },
        );
        proof {
            assert(self@ =~~= old(self)@.push(fresh_model(rule, route as nat)));
            if wf(old(self)@) {
                assert forall|i: int| 0 <= i < self@.len() implies #[trigger] wf_link(self@, i) by {
                    if i < old(self)@.len() {
                        assert(wf_link(old(self)@, i));
                    }
                }
            }
        }
        h
    }

    /// How many automata this arena holds.
    pub fn len(&self) -> (n: usize)
        ensures
            n == self@.len(),
    {
        self.automata.len()
    }

    /// Read access to the automaton a handle names.
    pub fn get(&self, auto: Rawtomaton) -> (a: &Automaton)
        requires
            auto@ < self@.len(),
        ensures
            a@ == self@[auto@ as int],
    {
        &self.automata[auto.0]
    }

    /// Applies `actions`, in order, to the automaton at `auto`, and reports
    /// the effects: the automata spawned by `Recruit`, the ancestors a
    /// `Victory` reactivated, the overall winner if the walk reached a root,
    /// and the remove and fallthrough flags. Ancestors are cloned before any
    /// mutation exactly where another live path could still observe them.
    ///
    /// `auto` must be a handle this same arena handed out; the state bounds
    /// only keep the fixed-width counters from wrapping.
    #[verifier::loop_isolation(false)]
    pub fn command(&mut self, auto: Rawtomaton, actions: &Vec<AutomatonCommand>) -> (r: CommandResult)
        requires
            wf(old(self)@),
            auto@ < old(self)@.len(),
            states_below(old(self)@, u32::MAX - actions@.len()),
            forall|k: int|
                0 <= k < actions@.len() ==> match #[trigger] actions@[k] {
                    AutomatonCommand::Recruit { route, how_many, .. } => route + how_many
                        <= u32::MAX + 1,
                    _ => true,
                },
        ensures
            final(self)@ == run_commands(old(self)@, auto@, actions@).arena,
            r@ == run_commands(old(self)@, auto@, actions@).report,
            wf(final(self)@),
    {
        let ghost target = run_commands(old(self)@, auto@, actions@);
        let ghost bound0: int = u32::MAX - actions@.len();
        let die_in_batch = batch_has_die(actions);
        let mut result = CommandResult::default();
        let mut memo: Option<Rawtomaton> = None;
        let n = actions.len();
        let mut i: usize = 0;
        while i < n
            invariant
                i <= n,
                auto@ < self@.len(),
                wf(self@),
                states_below(self@, bound0 + i),
                match memo {
                    Some(c) => c@ < self@.len(),
                    None => true,
                },
                command_step(
                    EngineModel { arena: self@, memo: memo_view(memo), report: result@ },
                    auto@,
                    actions@,
                    i as nat,
                ) == target,
            decreases n - i,
        {
            let ghost pre = EngineModel { arena: self@, memo: memo_view(memo), report: result@ };
            let act = actions[i];
            match act {
                AutomatonCommand::Advance => {
                    proof {
                        assert(self@[auto@ as int].state <= bound0 + i);
                    }
                    self.bump_state(auto);
                    proof {
                        let post = EngineModel {
                            arena: self@,
                            memo: memo_view(memo),
                            report: result@,
                        };
                        assert(post =~~= EngineModel {
                            arena: pre.arena.update(auto@ as int, bump(pre.arena[auto@ as int])),
                            ..pre
                        });
                        assert(command_step(pre, auto@, actions@, i as nat) == command_step(
                            post,
                            auto@,
                            actions@,
                            (i + 1) as nat,
                        ));
                        lemma_wf_bump(pre.arena, auto@);
                        assert(states_below(self@, bound0 + i + 1)) by {
                            assert forall|t: int|
                                0 <= t < self@.len() implies (#[trigger] self@[t].state) <= bound0
                                + i + 1 by {
                                assert(pre.arena[t].state <= bound0 + i);
                            }
                        }
                    }
                }
                AutomatonCommand::Die => {
                    result.remove = true;
                    proof {
                        let post = EngineModel {
                            arena: self@,
                            memo: memo_view(memo),
                            report: result@,
                        };
                        assert(post =~~= EngineModel {
                            report: ReportModel { remove: true, ..pre.report },
                            ..pre
                        });
                        assert(command_step(pre, auto@, actions@, i as nat) == command_step(
                            post,
                            auto@,
                            actions@,
                            (i + 1) as nat,
                        ));
                    }
                }
                AutomatonCommand::Fallthrough => {
                    result.fallthrough = true;
                    proof {
                        let post = EngineModel {
                            arena: self@,
                            memo: memo_view(memo),
                            report: result@,
                        };
                        assert(post =~~= EngineModel {
                            report: ReportModel { fallthrough: true, ..pre.report },
                            ..pre
                        });
                        assert(command_step(pre, auto@, actions@, i as nat) == command_step(
                            post,
                            auto@,
                            actions@,
                            (i + 1) as nat,
                        ));
                    }
                }
                AutomatonCommand::Recruit { rule, route, how_many, on_victory } => {
                    proof {
                        assert(actions@[i as int] == act);
                    }
                    let ghost arm_target = recruit_step(
                        pre,
                        auto@,
                        rule,
                        route as nat,
                        how_many as nat,
                        on_victory,
                        has_die(actions@),
                        0,
                    );
                    let mut j: u32 = 0;
                    while j < how_many
                        invariant
                            j <= how_many,
                            auto@ < self@.len(),
                            wf(self@),
                            states_below(self@, bound0 + i),
                            match memo {
                                Some(c) => c@ < self@.len(),
                                None => true,
                            },
                            recruit_step(
                                EngineModel {
                                    arena: self@,
                                    memo: memo_view(memo),
                                    report: result@,
                                },
                                auto@,
                                rule,
                                route as nat,
                                how_many as nat,
                                on_victory,
                                die_in_batch,
                                j as nat,
                            ) == arm_target,
                        decreases how_many - j,
                    {
                        let ghost qre = EngineModel {
                            arena: self@,
                            memo: memo_view(memo),
                            report: result@,
                        };
                        let parent_handle: Rawtomaton;
                        if die_in_batch && j == 0 {
                            parent_handle = auto;
                        } else {
                            match memo {
                                Some(c) => {
                                    parent_handle = c;
                                }
                                None => {
                                    proof {
                                        lemma_wf_push_clone(self@, auto@);
                                    }
                                    let c = self.alloc_clone(auto);
                                    memo = Some(c);
                                    parent_handle = c;
                                }
                            }
                        }
                        let ghost mid = EngineModel {
                            arena: self@,
                            memo: memo_view(memo),
                            report: result@,
                        };
                        proof {
                            if die_in_batch && j == 0 {
                                assert(mid =~~= qre);
                                assert(parent_handle@ == auto@);
                            } else {
                                assert((mid, parent_handle@) =~~= memo_clone(qre, auto@));
                            }
                            lemma_wf_spawn(
                                self@,
                                rule,
                                route as nat + j as nat,
                                parent_handle@,
                                on_victory,
                            );
                        }
                        let h = Rawtomaton(self.automata.len());
                        self.automata.push(
                            Automaton {
                                rule,
                                route: route + j,
                                state: 0,
                                parent: Some((parent_handle, on_victory)),
                                children: Vec::new(),
                            },
                        );
                        result.new_recruits.push(h);
                        proof {
                            let post = EngineModel {
                                arena: self@,
                                memo: memo_view(memo),
                                report: result@,
                            };
                            assert(post =~~= EngineModel {
                                arena: mid.arena.push(
                                    spawned_model(
                                        rule,
                                        route as nat + j as nat,
                                        parent_handle@,
                                        on_victory,
                                    ),
                                ),
                                report: ReportModel {
                                    new_recruits: mid.report.new_recruits.push(h@),
                                    ..mid.report
                                },
                                ..mid
                            });
                            assert(recruit_step(
                                qre,
                                auto@,
                                rule,
                                route as nat,
                                how_many as nat,
                                on_victory,
                                die_in_batch,
                                j as nat,
                            ) == recruit_step(
                                post,
                                auto@,
                                rule,
                                route as nat,
                                how_many as nat,
                                on_victory,
                                die_in_batch,
                                (j + 1) as nat,
                            ));
                            assert(states_below(self@, bound0 + i)) by {
                                assert forall|t: int|
                                    0 <= t < self@.len() implies (#[trigger] self@[t].state)
                                    <= bound0 + i by {
                                    if t < qre.arena.len() {
                                        assert(qre.arena[t].state <= bound0 + i);
                                    } else if t < mid.arena.len() {
                                        assert(qre.arena[auto@ as int].state <= bound0 + i);
                                    }
                                }
                            }
                        }
                        j += 1;
                    }
                    proof {
                        let post = EngineModel {
                            arena: self@,
                            memo: memo_view(memo),
                            report: result@,
                        };
                        assert(post == arm_target);
                        assert(die_in_batch == has_die(actions@));
                        assert(command_step(pre, auto@, actions@, i as nat) == command_step(
                            post,
                            auto@,
                            actions@,
                            (i + 1) as nat,
                        ));
                        assert(states_below(self@, bound0 + i + 1)) by {
                            assert forall|t: int|
                                0 <= t < self@.len() implies (#[trigger] self@[t].state) <= bound0
                                + i + 1 by {
                                assert(self@[t].state <= bound0 + i);
                            }
                        }
                    }
                }
                AutomatonCommand::Victory => {
                    proof {
                        assert(actions@[i as int] == act);
                        assert(self@[auto@ as int].state <= bound0 + i);
                        lemma_wf_bump(self@, auto@);
                    }
                    self.bump_state(auto);
                    let ghost m1 = EngineModel {
                        arena: self@,
                        memo: memo_view(memo),
                        report: result@,
                    };
                    let ghost walk_target = victory_walk(m1, auto@, auto@, has_die(actions@));
                    proof {
                        assert(m1 =~~= EngineModel {
                            arena: pre.arena.update(auto@ as int, bump(pre.arena[auto@ as int])),
                            ..pre
                        });
                    }
                    let mut cur = auto;
                    let ghost mut anchor: nat = auto@;
                    let mut die = die_in_batch;
                    let mut done = false;
                    while !done
                        invariant
                            cur@ < self@.len(),
                            anchor < self@.len(),
                            auto@ < self@.len(),
                            wf(self@),
                            self@[cur@ as int].parent == self@[anchor as int].parent,
                            states_below(self@, bound0 + i + 1),
                            forall|t: int|
                                0 <= t < anchor ==> (#[trigger] self@[t].state) <= bound0 + i,
                            match memo {
                                Some(c) => c@ < self@.len(),
                                None => true,
                            },
                            if done {
                                EngineModel { arena: self@, memo: memo_view(memo), report: result@ }
                                    == walk_target
                            } else {
                                victory_walk(
                                    EngineModel {
                                        arena: self@,
                                        memo: memo_view(memo),
                                        report: result@,
                                    },
                                    cur@,
                                    anchor,
                                    die,
                                ) == walk_target
                            },
                        decreases anchor + (if done { 0int } else { 1int }),
                    {
                        let ghost qre = EngineModel {
                            arena: self@,
                            memo: memo_view(memo),
                            report: result@,
                        };
                        let ghost cur0 = cur@;
                        let ghost anchor0 = anchor;
                        let parent_link = self.automata[cur.0].parent;
                        match parent_link {
                            None => {
                                result.victorious = Some(cur);
                                done = true;
                                proof {
                                    let post = EngineModel {
                                        arena: self@,
                                        memo: memo_view(memo),
                                        report: result@,
                                    };
                                    assert(post =~~= EngineModel {
                                        report: ReportModel {
                                            victorious: Some(cur0),
                                            ..qre.report
                                        },
                                        ..qre
                                    });
                                    assert(victory_walk(qre, cur0, anchor0, die) == post);
                                }
                            }
                            Some((p, cont)) => {
                                proof {
                                    assert(wf_link(self@, anchor as int));
                                    assert(self@[p@ as int].state <= bound0 + i);
                                }
                                let newnode: Rawtomaton;
                                if die {
                                    proof {
                                        lemma_wf_hop_in_place(self@, p@, cur@);
                                    }
                                    self.advance_parent_in_place(p, cur);
                                    newnode = p;
                                } else {
                                    proof {
                                        lemma_wf_hop_cloned(self@, p@, cur@);
                                    }
                                    newnode = self.advance_parent_cloned(p, cur);
                                }
                                let ghost die0 = die;
                                cur = newnode;
                                proof {
                                    anchor = p@;
                                }
                                match cont {
                                    Continuation::PassDie => {
                                        die = true;
                                    }
                                    Continuation::PassAdvance => {
                                        result.reactivated.push(cur);
                                        die = false;
                                    }
                                    Continuation::Advance => {
                                        result.reactivated.push(cur);
                                        done = true;
                                    }
                                }
                                proof {
                                    let post = EngineModel {
                                        arena: self@,
                                        memo: memo_view(memo),
                                        report: result@,
                                    };
                                    let arena2 = if die0 {
                                        hop_in_place(qre.arena, p@, cur0)
                                    } else {
                                        hop_cloned(qre.arena, p@, cur0)
                                    };
                                    let m2 = EngineModel { arena: arena2, ..qre };
                                    assert(self@ == arena2);
                                    assert(cur@ == (if die0 { p@ } else { qre.arena.len() + 1 }));
                                    match cont {
                                        Continuation::PassDie => {
                                            assert(post =~~= m2);
                                            assert(victory_walk(qre, cur0, anchor0, die0)
                                                == victory_walk(post, cur@, anchor, die));
                                        }
                                        Continuation::PassAdvance => {
                                            assert(post =~~= EngineModel {
                                                report: reactivate(m2.report, cur@),
                                                ..m2
                                            });
                                            assert(victory_walk(qre, cur0, anchor0, die0)
                                                == victory_walk(post, cur@, anchor, die));
                                        }
                                        Continuation::Advance => {
                                            assert(post =~~= EngineModel {
                                                report: reactivate(m2.report, cur@),
                                                ..m2
                                            });
                                            assert(victory_walk(qre, cur0, anchor0, die0) == post);
                                        }
                                    }
                                    assert(states_below(self@, bound0 + i + 1)) by {
                                        assert forall|t: int|
                                            0 <= t < self@.len() implies (#[trigger] self@[
                                            t].state) <= bound0 + i + 1 by {
                                            if t < qre.arena.len() {
                                                assert(qre.arena[t].state <= bound0 + i + 1);
                                            } else {
                                                assert(qre.arena[p@ as int].state <= bound0 + i);
                                                assert(qre.arena[cur0 as int].state <= bound0 + i
                                                    + 1);
                                            }
                                        }
                                    }
                                    assert forall|t: int|
                                        0 <= t < anchor implies (#[trigger] self@[t].state)
                                        <= bound0 + i by {
                                        assert(qre.arena[t].state <= bound0 + i);
                                    }
                                }
                            }
                        }
                    }
                    proof {
                        let post = EngineModel {
                            arena: self@,
                            memo: memo_view(memo),
                            report: result@,
                        };
                        assert(post == walk_target);
                        assert(die_in_batch == has_die(actions@));
                        assert(command_step(pre, auto@, actions@, i as nat) == command_step(
                            post,
                            auto@,
                            actions@,
                            (i + 1) as nat,
                        ));
                    }
                }
            }
            i += 1;
        }
        proof {
            let post = EngineModel { arena: self@, memo: memo_view(memo), report: result@ };
            assert(command_step(post, auto@, actions@, n as nat) == post);
            assert(post == target);
        }
        result
    }

    /// Appends a field-for-field copy of the automaton at `auto`.
    fn alloc_clone(&mut self, auto: Rawtomaton) -> (h: Rawtomaton)
        requires
            auto@ < old(self)@.len(),
        ensures
            final(self)@ == old(self)@.push(old(self)@[auto@ as int]),
            h@ == old(self)@.len(),
    {
        let a = duplicate(&self.automata[auto.0]);
        let h = Rawtomaton(self.automata.len());
        self.automata.push(a);
        proof {
            assert(self@ =~~= old(self)@.push(old(self)@[auto@ as int]));
        }
        h
    }

    /// Moves the automaton at `h` one state forward.
    fn bump_state(&mut self, h: Rawtomaton)
        requires
            h@ < old(self)@.len(),
            old(self)@[h@ as int].state < u32::MAX,
        ensures
            final(self)@ == old(self)@.update(h@ as int, bump(old(self)@[h@ as int])),
    {
        let s = self.automata[h.0].state;
        self.automata[h.0].state = s + 1;
        proof {
            assert(self@ =~~= old(self)@.update(h@ as int, bump(old(self)@[h@ as int])));
        }
    }

    /// One `Victory` hop with exclusive rights: the parent at `p` advances in
    /// place and takes `node` as its next child.
    fn advance_parent_in_place(&mut self, p: Rawtomaton, node: Rawtomaton)
        requires
            p@ < old(self)@.len(),
            old(self)@[p@ as int].state < u32::MAX,
        ensures
            final(self)@ == hop_in_place(old(self)@, p@, node@),
    {
        let s = self.automata[p.0].state;
        self.automata[p.0].state = s + 1;
        self.automata[p.0].children.push(node);
        proof {
            assert(self@ =~~= hop_in_place(old(self)@, p@, node@));
        }
    }

    /// One `Victory` hop without exclusive rights: a copy of `node` is stored,
    /// then an advanced copy of the parent at `p` that holds it as its next
    /// child; the parent itself stays untouched. Returns the parent's copy.
    fn advance_parent_cloned(&mut self, p: Rawtomaton, node: Rawtomaton) -> (h: Rawtomaton)
        requires
            p@ < old(self)@.len(),
            node@ < old(self)@.len(),
            old(self)@[p@ as int].state < u32::MAX,
        ensures
            final(self)@ == hop_cloned(old(self)@, p@, node@),
            h@ == old(self)@.len() + 1,
    {
        let nodeclone = duplicate(&self.automata[node.0]);
        let nc = Rawtomaton(self.automata.len());
        self.automata.push(nodeclone);
        let mut pclone = duplicate(&self.automata[p.0]);
        let s = pclone.state;
        pclone.state = s + 1;
        pclone.children.push(nc);
        let h = Rawtomaton(self.automata.len());
        self.automata.push(pclone);
        proof {
            assert(self@ =~~= hop_cloned(old(self)@, p@, node@));
        }
        h
    }
}

/// A field-for-field copy of one automaton.
fn duplicate(a: &Automaton) -> (r: Automaton)
    ensures
        r@ == a@,
{
    let mut children: Vec<Rawtomaton> = Vec::new();
    let mut k: usize = 0;
    while k < a.children.len()
        invariant
            k <= a.children@.len(),
            children@ == a.children@.subrange(0, k as int),
        decreases a.children@.len() - k,
    {
        children.push(a.children[k]);
        proof {
            assert(children@ =~= a.children@.subrange(0, k as int + 1));
        }
        k += 1;
    }
    proof {
        assert(children@ =~= a.children@);
    }
    let r = Automaton { rule: a.rule, route: a.route, state: a.state, parent: a.parent, children };
    proof {
        assert(r@ =~~= a@);
    }
    r
}

/// Whether the batch holds a `Die` command.
fn batch_has_die(actions: &Vec<AutomatonCommand>) -> (b: bool)
    ensures
        b == has_die(actions@),
{
    let mut found = false;
    let mut k: usize = 0;
    while k < actions.len()
        invariant
            k <= actions@.len(),
            found == exists|j: int| 0 <= j < k && actions@[j] is Die,
        decreases actions@.len() - k,
    {
        if actions[k] == AutomatonCommand::Die {
            found = true;
        }
        k += 1;
    }
    found
}

} // verus!
