//! Navigation and restack planning.

use zyra::data::{SolMetadata, Stack, StackBranch};
use zyra::errors::AppError;
use zyra::nav::{plan_next, plan_prev, resolve_goto, GotoStep, NextStep};
use zyra::restack::restack_plan;

fn branch_at(name: &str, commit: &str, parent: &str, now: i64) -> StackBranch {
    let mut b = StackBranch::new_at(String::from(name), String::from(commit), now);
    b.set_parent(parent);
    b
}

/// root <- mid <- leaf, plus a stray branch whose parent vanished.
fn chain_stack() -> Stack {
    let mut stack = Stack::new_at(String::from("root"), String::from("main"), 100);
    stack.add_branch(branch_at("mid", "c1", "root", 110)).unwrap();
    stack.add_branch(branch_at("leaf", "c2", "mid", 120)).unwrap();
    stack.add_branch(branch_at("stray", "c3", "ghost", 130)).unwrap();
    stack
}

fn chain_store() -> SolMetadata {
    let mut store = SolMetadata::initial();
    store.add_stack(&chain_stack()).unwrap();
    store
}

#[test]
fn ancestry_follows_parents_to_the_root() {
    let stack = chain_stack();
    let path = stack.get_ancestry("leaf");
    let names: Vec<&str> = path.iter().map(|b| b.name.as_str()).collect();
    assert_eq!(names, vec!["root", "mid", "leaf"]);
}

#[test]
fn ancestry_truncates_at_a_dangling_parent() {
    let stack = chain_stack();
    let path = stack.get_ancestry("stray");
    let names: Vec<&str> = path.iter().map(|b| b.name.as_str()).collect();
    assert_eq!(names, vec!["stray"]);
}

#[test]
fn path_to_head_is_the_root_alone() {
    let stack = chain_stack();
    let path = stack.get_path_to_head();
    let names: Vec<&str> = path.iter().map(|b| b.name.as_str()).collect();
    assert_eq!(names, vec!["root"]);
}

#[test]
fn prev_at_root_fails() {
    let store = chain_store();
    assert!(matches!(
        plan_prev(&store, "root"),
        Err(AppError::NoPreviousBranch)
    ));
}

#[test]
fn prev_on_dangling_parent_fails() {
    let store = chain_store();
    assert!(matches!(
        plan_prev(&store, "stray"),
        Err(AppError::NoPreviousBranch)
    ));
}

#[test]
fn prev_follows_one_hop_to_the_parent() {
    let store = chain_store();
    assert_eq!(plan_prev(&store, "leaf").unwrap(), "mid");
}

#[test]
fn next_without_children_fails() {
    let store = chain_store();
    assert!(matches!(plan_next(&store, "leaf"), Err(AppError::NoNextBranch)));
}

#[test]
fn next_with_one_child_switches_without_prompting() {
    let store = chain_store();
    match plan_next(&store, "mid").unwrap() {
        NextStep::SwitchTo(b) => assert_eq!(b, "leaf"),
        NextStep::PickChild(_) => panic!("one child must not prompt"),
    }
}

#[test]
fn next_with_many_children_prompts_in_creation_order() {
    let mut stack = Stack::new_at(String::from("s"), String::from("main"), 100);
    stack.add_branch(branch_at("late", "c", "s", 300)).unwrap();
    stack.add_branch(branch_at("early", "c", "s", 200)).unwrap();
    let mut store = SolMetadata::initial();
    store.add_stack(&stack).unwrap();
    match plan_next(&store, "s").unwrap() {
        NextStep::PickChild(names) => assert_eq!(names, vec!["early", "late"]),
        NextStep::SwitchTo(_) => panic!("two children must prompt"),
    }
}

#[test]
fn detached_navigation_is_positional() {
    let mut store = chain_store();
    store
        .set_detached_head_context(String::from("root"), String::from("mid"))
        .unwrap();
    match plan_next(&store, "whatever").unwrap() {
        NextStep::SwitchTo(b) => assert_eq!(b, "leaf"),
        NextStep::PickChild(_) => panic!("detached moves are positional"),
    }
    assert_eq!(plan_prev(&store, "whatever").unwrap(), "root");
    // boundaries clamp with errors
    store
        .set_detached_head_context(String::from("root"), String::from("stray"))
        .unwrap();
    assert!(matches!(plan_next(&store, "x"), Err(AppError::NoNextBranch)));
    store
        .set_detached_head_context(String::from("root"), String::from("root"))
        .unwrap();
    assert!(matches!(plan_prev(&store, "x"), Err(AppError::NoPreviousBranch)));
}

#[test]
fn goto_resolves_stack_then_branch_then_commit() {
    let store = chain_store();
    match resolve_goto(&store, "root", "mid", false).unwrap() {
        GotoStep::SwitchToStackRoot(b) => assert_eq!(b, "root"),
        other => panic!("expected the stack root, got {:?}", name_of(&other)),
    }
    match resolve_goto(&store, "leaf", "mid", false).unwrap() {
        GotoStep::SwitchToBranch(b) => assert_eq!(b, "leaf"),
        other => panic!("expected a branch switch, got {:?}", name_of(&other)),
    }
    match resolve_goto(&store, "abc123", "mid", true).unwrap() {
        GotoStep::DetachToCommit { stack_name, branch_name } => {
            assert_eq!(stack_name, "root");
            assert_eq!(branch_name, "mid");
        }
        other => panic!("expected a detach, got {:?}", name_of(&other)),
    }
    match resolve_goto(&store, "nothing", "mid", false) {
        Err(AppError::Other(m)) => {
            assert_eq!(m, "Could not find stack, branch, or commit 'nothing'")
        }
        other => panic!("expected not-found, got {:?}", other.map(|s| name_of(&s))),
    }
}

fn name_of(step: &GotoStep) -> &'static str {
    match step {
        GotoStep::SwitchToStackRoot(_) => "stack-root",
        GotoStep::SwitchToBranch(_) => "branch",
        GotoStep::DetachToCommit { .. } => "detach",
    }
}

#[test]
fn restack_plan_from_current_branch_only() {
    let stack = chain_stack();
    let steps = restack_plan(&stack, false, "mid").unwrap();
    let pairs: Vec<(&str, &str)> = steps
        .iter()
        .map(|s| (s.branch.as_str(), s.parent.as_str()))
        .collect();
    assert_eq!(pairs, vec![("mid", "root"), ("leaf", "mid"), ("stray", "ghost")]);
}

#[test]
fn restack_plan_all_skips_the_root() {
    let stack = chain_stack();
    let steps = restack_plan(&stack, true, "ignored").unwrap();
    assert_eq!(steps.len(), 3);
    for step in &steps {
        assert_ne!(step.branch, "root");
        assert!(!step.parent.is_empty());
    }
}

#[test]
fn restack_plan_unknown_current_branch_fails() {
    let stack = chain_stack();
    match restack_plan(&stack, false, "ghost") {
        Err(AppError::Other(m)) => assert_eq!(m, "Current branch not found in stack"),
        other => panic!("expected a missing current branch, got {:?}", other.is_ok()),
    }
}

#[test]
fn mid_pass_failure_leaves_the_persisted_text_untouched() {
    // A pass that stops early has updated hashes in memory only: the text
    // persisted before the pass still shows every pre-restack hash.
    let mut store = chain_store();
    let persisted = store.to_json();
    let steps = {
        let stack = store.get_current_stack("mid").unwrap();
        restack_plan(stack, false, "mid").unwrap()
    };
    // the first step succeeds, the second fails: only the first is recorded
    store
        .update_branch_commit_hash(steps[0].branch.as_str(), "rebased-1", "mid")
        .unwrap();
    let reloaded = SolMetadata::from_json(persisted.as_str()).unwrap();
    assert_eq!(store.stacks[0].branches[1].commit_hash, "rebased-1");
    assert_eq!(reloaded.stacks[0].branches[1].commit_hash, "c1");
    assert_eq!(reloaded.stacks[0].branches[2].commit_hash, "c2");
}
