use parce::automata::Army;
use parce::automata::AutomatonCommand;
use parce::automata::Continuation;
use parce::automata::Rule;

#[test]
fn recruit_is_fresh() {
    let mut army = Army::new();
    let a = army.recruit(Rule(7), 3);
    let auto = army.get(a);
    assert_eq!(auto.rule, Rule(7));
    assert_eq!(auto.route, 3);
    assert_eq!(auto.state, 0);
    assert!(auto.parent.is_none());
    assert!(auto.children.is_empty());
    assert_eq!(army.len(), 1);
}

#[test]
fn advance_increments_state_and_nothing_else() {
    let mut army = Army::new();
    let a = army.recruit(Rule(1), 0);
    let r = army.command(a, &vec![AutomatonCommand::Advance]);
    assert_eq!(army.get(a).state, 1);
    assert!(r.new_recruits.is_empty());
    assert!(r.reactivated.is_empty());
    assert!(r.victorious.is_none());
    assert!(!r.remove);
    assert!(!r.fallthrough);
    assert_eq!(army.len(), 1);
}

#[test]
fn die_reports_remove_and_nothing_else() {
    let mut army = Army::new();
    let a = army.recruit(Rule(1), 0);
    let r = army.command(a, &vec![AutomatonCommand::Die]);
    assert!(r.remove);
    assert!(r.new_recruits.is_empty());
    assert!(r.reactivated.is_empty());
    assert!(r.victorious.is_none());
    assert!(!r.fallthrough);
    assert_eq!(army.get(a).state, 0);
    assert_eq!(army.len(), 1);
}

#[test]
fn fallthrough_reports_fallthrough_and_nothing_else() {
    let mut army = Army::new();
    let a = army.recruit(Rule(1), 0);
    let r = army.command(a, &vec![AutomatonCommand::Fallthrough]);
    assert!(r.fallthrough);
    assert!(!r.remove);
    assert!(r.new_recruits.is_empty());
    assert!(r.reactivated.is_empty());
    assert!(r.victorious.is_none());
}

#[test]
fn branching_preserves_the_original() {
    let mut army = Army::new();
    let a = army.recruit(Rule(1), 0);
    for _ in 0..5 {
        army.command(a, &vec![AutomatonCommand::Advance]);
    }
    assert_eq!(army.get(a).state, 5);
    let batch = vec![AutomatonCommand::Recruit {
        rule: Rule(9),
        route: 0,
        how_many: 2,
        on_victory: Continuation::Advance,
    }];
    let r = army.command(a, &batch);
    assert_eq!(r.new_recruits.len(), 2);
    let first = army.get(r.new_recruits[0]);
    let second = army.get(r.new_recruits[1]);
    assert_eq!(first.rule, Rule(9));
    assert_eq!(second.rule, Rule(9));
    assert_eq!(first.state, 0);
    assert_eq!(second.state, 0);
    assert_eq!(first.route, 0);
    assert_eq!(second.route, 1);
    // The original is untouched: both recruits parent onto one shared copy.
    assert_eq!(army.get(a).state, 5);
    assert!(!r.remove);
    assert!(r.reactivated.is_empty());
    assert!(r.victorious.is_none());
    assert!(!r.fallthrough);
    let (p1, _) = first.parent.expect("first recruit has a parent");
    let (p2, _) = second.parent.expect("second recruit has a parent");
    assert_ne!(p1, a);
    assert_eq!(p1, p2);
    assert_eq!(army.get(p1).state, 5);
}

#[test]
fn exclusive_branching_parents_first_recruit_in_place() {
    let mut army = Army::new();
    let a = army.recruit(Rule(1), 4);
    for _ in 0..5 {
        army.command(a, &vec![AutomatonCommand::Advance]);
    }
    let pre_rule = army.get(a).rule;
    let pre_route = army.get(a).route;
    let pre_state = army.get(a).state;
    let batch = vec![
        AutomatonCommand::Recruit {
            rule: Rule(9),
            route: 0,
            how_many: 2,
            on_victory: Continuation::Advance,
        },
        AutomatonCommand::Die,
    ];
    let r = army.command(a, &batch);
    assert!(r.remove);
    assert_eq!(r.new_recruits.len(), 2);
    // The first recruit parents onto the target itself, by identity.
    let (p1, _) = army.get(r.new_recruits[0]).parent.expect("first recruit has a parent");
    assert_eq!(p1, a);
    // The second parents onto a distinct node equal to the target's pre-call
    // value.
    let (p2, _) = army.get(r.new_recruits[1]).parent.expect("second recruit has a parent");
    assert_ne!(p2, a);
    let copy = army.get(p2);
    assert_eq!(copy.rule, pre_rule);
    assert_eq!(copy.route, pre_route);
    assert_eq!(copy.state, pre_state);
}

#[test]
fn recruit_of_zero_is_a_no_op() {
    let mut army = Army::new();
    let a = army.recruit(Rule(1), 0);
    let before = army.len();
    let batch = vec![AutomatonCommand::Recruit {
        rule: Rule(9),
        route: 0,
        how_many: 0,
        on_victory: Continuation::Advance,
    }];
    let r = army.command(a, &batch);
    assert!(r.new_recruits.is_empty());
    assert!(r.reactivated.is_empty());
    assert!(r.victorious.is_none());
    assert!(!r.remove);
    assert!(!r.fallthrough);
    // Not even the shared clone is made: it is created lazily, on first need.
    assert_eq!(army.len(), before);
}

#[test]
fn root_victory_reports_the_winner_without_removal() {
    let mut army = Army::new();
    let a = army.recruit(Rule(0), 0);
    let r = army.command(a, &vec![AutomatonCommand::Victory]);
    assert_eq!(r.victorious, Some(a));
    assert_eq!(army.get(a).state, 1);
    assert!(r.new_recruits.is_empty());
    assert!(r.reactivated.is_empty());
    assert!(!r.fallthrough);
    // The node is not marked removed: the driver must stop tracking it.
    assert!(!r.remove);
}

#[test]
fn propagated_victory_reactivates_a_copy_and_keeps_the_parent() {
    let mut army = Army::new();
    let root = army.recruit(Rule(0), 0);
    let r1 = army.command(
        root,
        &vec![AutomatonCommand::Recruit {
            rule: Rule(1),
            route: 0,
            how_many: 1,
            on_victory: Continuation::Advance,
        }],
    );
    let child = r1.new_recruits[0];
    let (parent, _) = army.get(child).parent.expect("child has a parent");
    let parent_pre_state = army.get(parent).state;
    let parent_pre_children = army.get(parent).children.len();

    let r2 = army.command(child, &vec![AutomatonCommand::Victory]);
    assert!(r2.victorious.is_none());
    assert!(!r2.remove);
    assert_eq!(r2.reactivated.len(), 1);
    let fresh = r2.reactivated[0];
    assert_ne!(fresh, parent);
    // The reactivated copy advanced once and ends with a copy of the child
    // after its victory.
    let fresh_auto = army.get(fresh);
    assert_eq!(fresh_auto.state, parent_pre_state + 1);
    let last = *fresh_auto.children.last().expect("copy holds the finished child");
    let finished = army.get(last);
    assert_eq!(finished.rule, Rule(1));
    assert_eq!(finished.route, 0);
    assert_eq!(finished.state, 1);
    // The original parent is untouched.
    assert_eq!(army.get(parent).state, parent_pre_state);
    assert_eq!(army.get(parent).children.len(), parent_pre_children);
}

#[test]
fn victory_ripples_through_pass_advance_links() {
    let mut army = Army::new();
    let root = army.recruit(Rule(0), 0);
    let r1 = army.command(
        root,
        &vec![AutomatonCommand::Recruit {
            rule: Rule(1),
            route: 0,
            how_many: 1,
            on_victory: Continuation::PassAdvance,
        }],
    );
    let mid = r1.new_recruits[0];
    let r2 = army.command(
        mid,
        &vec![AutomatonCommand::Recruit {
            rule: Rule(2),
            route: 0,
            how_many: 1,
            on_victory: Continuation::PassAdvance,
        }],
    );
    let leaf = r2.new_recruits[0];

    let r3 = army.command(leaf, &vec![AutomatonCommand::Victory]);
    // Both ancestor copies rejoin the working set, in walk order, and the
    // walk reaches a copy of the parentless root: overall victory.
    assert_eq!(r3.reactivated.len(), 2);
    let top = r3.victorious.expect("the walk reaches the root");
    let top_auto = army.get(top);
    assert_eq!(top_auto.rule, Rule(0));
    assert_eq!(top_auto.state, 1);
    assert!(top_auto.parent.is_none());
    // The middle copy advanced once and holds the finished leaf.
    let mid_copy = army.get(r3.reactivated[0]);
    assert_eq!(mid_copy.rule, Rule(1));
    assert_eq!(mid_copy.state, 1);
    assert_eq!(mid_copy.children.len(), 1);
    // The second reactivation is the root's copy, reported before the walk
    // moved past it.
    assert_eq!(r3.reactivated[1], top);
}

#[test]
fn victory_with_die_mutates_ancestors_in_place() {
    let mut army = Army::new();
    let root = army.recruit(Rule(0), 0);
    let r1 = army.command(
        root,
        &vec![AutomatonCommand::Recruit {
            rule: Rule(1),
            route: 0,
            how_many: 1,
            on_victory: Continuation::PassDie,
        }],
    );
    let child = r1.new_recruits[0];
    let (parent, _) = army.get(child).parent.expect("child has a parent");
    let arena_before = army.len();

    let r2 = army.command(child, &vec![AutomatonCommand::Victory, AutomatonCommand::Die]);
    assert!(r2.remove);
    assert!(r2.reactivated.is_empty());
    // Exclusive rights: the parent itself advanced and took the child, by
    // identity, as its next child; no clone was made anywhere.
    assert_eq!(r2.victorious, Some(parent));
    let parent_auto = army.get(parent);
    assert_eq!(parent_auto.state, 1);
    assert_eq!(parent_auto.children.len(), 1);
    assert_eq!(parent_auto.children[0], child);
    assert_eq!(army.get(child).state, 1);
    assert_eq!(army.len(), arena_before);
}

#[test]
fn batch_order_is_respected() {
    let mut army = Army::new();
    let a = army.recruit(Rule(3), 0);
    let r = army.command(
        a,
        &vec![
            AutomatonCommand::Advance,
            AutomatonCommand::Advance,
            AutomatonCommand::Fallthrough,
        ],
    );
    assert_eq!(army.get(a).state, 2);
    assert!(r.fallthrough);
    assert!(!r.remove);
}

#[test]
fn drives_a_two_symbol_match() {
    // One rule, one route: consume 'a', then 'b', then complete. The driver
    // loop keeps a working set, asks a hand-written table for each automaton's
    // batch, and merges what the engine reports back.
    let mut army = Army::new();
    let root = army.recruit(Rule(0), 0);
    let mut active = vec![root];
    let input = ['a', 'b'];
    let mut winner = None;
    for c in input.iter() {
        let mut next = Vec::new();
        for a in active {
            let state = army.get(a).state;
            let batch = match (state, *c) {
                (0, 'a') => vec![AutomatonCommand::Advance],
                (1, 'b') => vec![AutomatonCommand::Victory, AutomatonCommand::Die],
                _ => vec![AutomatonCommand::Die],
            };
            let r = army.command(a, &batch);
            if !r.remove {
                next.push(a);
            }
            for h in r.new_recruits {
                next.push(h);
            }
            for h in r.reactivated {
                next.push(h);
            }
            if let Some(v) = r.victorious {
                winner = Some(v);
            }
        }
        active = next;
    }
    let w = winner.expect("the input matches the rule");
    let auto = army.get(w);
    assert_eq!(auto.rule, Rule(0));
    assert!(auto.parent.is_none());
    assert_eq!(auto.state, 2);
}

#[test]
fn shared_clone_is_made_once_per_batch() {
    let mut army = Army::new();
    let a = army.recruit(Rule(3), 0);
    let before = army.len();
    let batch = vec![
        AutomatonCommand::Recruit {
            rule: Rule(4),
            route: 0,
            how_many: 2,
            on_victory: Continuation::Advance,
        },
        AutomatonCommand::Recruit {
            rule: Rule(5),
            route: 7,
            how_many: 1,
            on_victory: Continuation::Advance,
        },
    ];
    let r = army.command(a, &batch);
    assert_eq!(r.new_recruits.len(), 3);
    // One shared clone serves all three spawns across both commands.
    assert_eq!(army.len(), before + 4);
    let (p1, _) = army.get(r.new_recruits[0]).parent.unwrap();
    let (p2, _) = army.get(r.new_recruits[1]).parent.unwrap();
    let (p3, _) = army.get(r.new_recruits[2]).parent.unwrap();
    assert_eq!(p1, p2);
    assert_eq!(p2, p3);
    assert_eq!(army.get(r.new_recruits[2]).rule, Rule(5));
    assert_eq!(army.get(r.new_recruits[2]).route, 7);
}
