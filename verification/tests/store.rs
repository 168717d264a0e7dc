//! Store and stack data-model behavior.

use zyra::data::{BranchStatus, SolMetadata, Stack, StackBranch};
use zyra::errors::AppError;

fn branch_at(name: &str, commit: &str, parent: &str, now: i64) -> StackBranch {
    let mut b = StackBranch::new_at(String::from(name), String::from(commit), now);
    b.set_parent(parent);
    b
}

fn demo_stack() -> Stack {
    let mut stack = Stack::new_at(String::from("feature"), String::from("main"), 100);
    stack.add_branch(branch_at("feature-1", "c1", "feature", 110)).unwrap();
    stack.add_branch(branch_at("feature-2", "c2", "feature-1", 120)).unwrap();
    stack
}

fn demo_store() -> SolMetadata {
    let mut store = SolMetadata::initial();
    store.add_stack(&demo_stack()).unwrap();
    store
}

#[test]
fn new_branch_fields() {
    let b = StackBranch::new_at(String::from("a"), String::from("h"), 7);
    assert_eq!(b.name, "a");
    assert_eq!(b.commit_hash, "h");
    assert_eq!(b.pr_id, -1);
    assert!(matches!(b.status, BranchStatus::Pending));
    assert_eq!(b.parent, "");
    assert_eq!(b.created_at, 7);
    assert_eq!(b.updated_at, 7);
}

#[test]
fn new_stack_has_one_root() {
    let s = Stack::new_at(String::from("st"), String::from("main"), 1);
    assert_eq!(s.branches.len(), 1);
    assert_eq!(s.branches[0].name, "st");
    assert_eq!(s.branches[0].commit_hash, "main");
    assert_eq!(s.branches[0].parent, "");
    assert_eq!(s.head_branch.name, "st");
}

#[test]
fn store_branch_lookup_spans_stacks() {
    let mut store = SolMetadata::initial();
    store.add_stack(&Stack::new_at(String::from("one"), String::from("main"), 1)).unwrap();
    store.add_stack(&Stack::new_at(String::from("two"), String::from("main"), 2)).unwrap();
    assert!(store.has_branch("one"));
    assert!(store.has_branch("two"));
    assert!(!store.has_branch("three"));
    assert!(store.has_stack("one"));
    assert!(!store.has_stack("three"));
}

#[test]
fn add_stack_rejects_duplicate_name() {
    let mut store = demo_store();
    let dup = Stack::new_at(String::from("feature"), String::from("main"), 5);
    match store.add_stack(&dup) {
        Err(AppError::Other(m)) => assert_eq!(m, "Stack already exists."),
        other => panic!("expected a collision error, got {:?}", other),
    }
    assert_eq!(store.stacks.len(), 1);
}

#[test]
fn plan_new_branch_rejects_duplicates() {
    let store = demo_store();
    match store.plan_new_branch("feature-1", &None, "feature-1") {
        Err(AppError::Other(m)) => assert_eq!(m, "Branch already exists."),
        other => panic!("expected a duplicate error, got {:?}", other),
    }
    assert!(store.plan_new_branch("feature-3", &None, "feature-1").is_ok());
    match store.plan_new_branch("feature-3", &Some(String::from("ghost")), "feature-1") {
        Err(AppError::Other(m)) => assert_eq!(m, "Branch does not exist."),
        other => panic!("expected a missing-from error, got {:?}", other),
    }
}

#[test]
fn plan_init_rejects_collisions() {
    let store = demo_store();
    match store.plan_init("feature", true) {
        Err(AppError::Other(m)) => assert_eq!(m, "Stack already exists."),
        other => panic!("expected a stack collision, got {:?}", other),
    }
    match store.plan_init("feature-1", true) {
        Err(AppError::Other(m)) => assert_eq!(m, "Branch already exists."),
        other => panic!("expected a branch collision, got {:?}", other),
    }
    match store.plan_init("fresh", false) {
        Err(AppError::Other(m)) => assert_eq!(m, "Base branch does not exist."),
        other => panic!("expected a missing base, got {:?}", other),
    }
    assert!(store.plan_init("fresh", true).is_ok());
}

#[test]
fn get_children_sorted_by_creation_then_insertion() {
    let mut stack = Stack::new_at(String::from("s"), String::from("main"), 100);
    stack.add_branch(branch_at("late", "c", "s", 300)).unwrap();
    stack.add_branch(branch_at("early", "c", "s", 200)).unwrap();
    stack.add_branch(branch_at("tie-a", "c", "s", 250)).unwrap();
    stack.add_branch(branch_at("tie-b", "c", "s", 250)).unwrap();
    let kids = stack.get_children("s").unwrap();
    let names: Vec<&str> = kids.iter().map(|b| b.name.as_str()).collect();
    assert_eq!(names, vec!["early", "tie-a", "tie-b", "late"]);
}

#[test]
fn update_branch_commit_hash_mirrors_root_copy() {
    let mut stack = demo_stack();
    stack.update_branch_commit_hash("feature", "newtip").unwrap();
    assert_eq!(stack.branches[0].commit_hash, "newtip");
    assert_eq!(stack.head_branch.commit_hash, "newtip");
    stack.update_branch_commit_hash("feature-1", "other").unwrap();
    assert_eq!(stack.branches[1].commit_hash, "other");
    assert_eq!(stack.head_branch.commit_hash, "newtip");
    match stack.update_branch_commit_hash("ghost", "x") {
        Err(AppError::Other(m)) => assert_eq!(m, "Branch 'ghost' not found in stack"),
        other => panic!("expected a missing branch, got {:?}", other),
    }
}

#[test]
fn remove_branch_leaves_dangling_children() {
    let mut stack = demo_stack();
    stack.remove_branch("feature-1").unwrap();
    assert!(!stack.has_branch("feature-1"));
    assert!(stack.has_branch("feature-2"));
    assert_eq!(stack.branches[1].parent, "feature-1");
    assert!(matches!(stack.remove_branch("feature-1"), Err(AppError::Other(_))));
}

#[test]
fn store_update_branch_pr_and_status() {
    let mut store = demo_store();
    store.update_branch_pr_id("feature-1", 42, "feature-2").unwrap();
    assert_eq!(store.stacks[0].branches[1].pr_id, 42);
    store.update_branch_status("feature-1", BranchStatus::Merged, "feature-2").unwrap();
    assert!(matches!(store.stacks[0].branches[1].status, BranchStatus::Merged));
    // a write to the root mirrors into the denormalized copy
    store.update_branch_pr_id("feature", 7, "feature-1").unwrap();
    assert_eq!(store.stacks[0].head_branch.pr_id, 7);
    assert!(matches!(
        store.update_branch_pr_id("zzz", 1, "nowhere"),
        Err(AppError::BranchNotPartOfStack)
    ));
}

#[test]
fn detached_context_round_trip() {
    let mut store = demo_store();
    assert!(!store.is_in_detached_head());
    store
        .set_detached_head_context(String::from("feature"), String::from("feature-1"))
        .unwrap();
    assert!(store.is_in_detached_head());
    let ctx = store.get_detached_head_context().unwrap();
    assert_eq!(ctx.stack_name, "feature");
    assert_eq!(ctx.branch_name, "feature-1");
    store.clear_detached_head_context();
    assert!(store.get_detached_head_context().is_none());
}

#[test]
fn get_current_stack_by_contained_branch() {
    let store = demo_store();
    let s = store.get_current_stack("feature-2").unwrap();
    assert_eq!(s.name, "feature");
    assert!(matches!(
        store.get_current_stack("elsewhere"),
        Err(AppError::BranchNotPartOfStack)
    ));
}
