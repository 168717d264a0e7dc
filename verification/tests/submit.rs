//! Submission planning, reconciliation and the composite body.

use zyra::data::{BranchStatus, SolMetadata, Stack, StackBranch};
use zyra::errors::AppError;
use zyra::submit::{
    build_pr_body, find_pr_for_branch, plan_reconcile, should_submit_branch, submit_order,
    update_branch_pr_info, validate_branch_for_submission, validate_repository, PrRecord,
    RemoteAction,
};

fn branch_at(name: &str, commit: &str, parent: &str, now: i64) -> StackBranch {
    let mut b = StackBranch::new_at(String::from(name), String::from(commit), now);
    b.set_parent(parent);
    b
}

fn pr(number: u64, head: &str, base: &str) -> PrRecord {
    PrRecord {
        number,
        head_ref: String::from(head),
        base_ref: String::from(base),
    }
}

#[test]
fn validate_repository_checks_the_report() {
    assert!(validate_repository(true).is_ok());
    assert!(matches!(
        validate_repository(false),
        Err(AppError::Git(zyra::errors::GitError::NotGitRepository))
    ));
}

#[test]
fn correct_remote_pr_means_no_mutating_call() {
    let mut b = branch_at("feat", "c", "main", 1);
    b.set_pr_id(12);
    let existing = Some(pr(12, "feat", "main"));
    let plan = plan_reconcile(&b, &existing);
    assert!(matches!(plan.action, RemoteAction::NoRemoteChange));
    assert!(plan.cache_update.is_none());
}

#[test]
fn remote_id_wins_over_the_cache() {
    let mut b = branch_at("feat", "c", "main", 1);
    b.set_pr_id(12);
    let existing = Some(pr(99, "feat", "main"));
    let plan = plan_reconcile(&b, &existing);
    assert_eq!(plan.cache_update, Some(99));
    assert!(matches!(plan.action, RemoteAction::NoRemoteChange));
}

#[test]
fn wrong_base_updates_and_missing_creates() {
    let b = branch_at("feat", "c", "main", 1);
    let wrong = Some(pr(5, "feat", "develop"));
    assert!(matches!(
        plan_reconcile(&b, &wrong).action,
        RemoteAction::UpdatePr
    ));
    let none: Option<PrRecord> = None;
    let plan = plan_reconcile(&b, &none);
    assert!(matches!(plan.action, RemoteAction::CreatePr));
    assert!(plan.cache_update.is_none());
}

#[test]
fn find_pr_matches_plain_and_owner_qualified_heads() {
    let prs = vec![
        pr(1, "other", "main"),
        pr(2, "someone:feat", "main"),
        pr(3, "feat", "main"),
    ];
    let found = find_pr_for_branch(&prs, "feat").unwrap();
    assert_eq!(found.number, 2);
    assert!(find_pr_for_branch(&prs, "absent").is_none());
}

#[test]
fn composite_body_lists_three_statuses_in_order() {
    let mut a = branch_at("one", "c", "root", 1);
    a.status = BranchStatus::Pending;
    let mut b = branch_at("two", "c", "one", 2);
    b.status = BranchStatus::Merged;
    let mut c = branch_at("three", "c", "two", 3);
    c.status = BranchStatus::Conflict;
    let body = build_pr_body(String::from("Base text."), &vec![a, b, c]);
    let bullets: Vec<&str> = body.lines().filter(|l| l.starts_with("- ")).collect();
    assert_eq!(bullets.len(), 3);
    assert_eq!(bullets[0], "- \u{23f3} one");
    assert_eq!(bullets[1], "- \u{2705} two");
    assert_eq!(bullets[2], "- \u{274c} three");
    assert!(body.starts_with("Base text.\n\n### Stack Information\n"));
}

#[test]
fn composite_body_shows_cached_pr_numbers() {
    let mut a = branch_at("one", "c", "root", 1);
    a.set_pr_id(41);
    let body = build_pr_body(String::new(), &vec![a]);
    assert!(body.ends_with("- \u{23f3} one (PR #41)"));
}

#[test]
fn composite_body_of_empty_snapshot_is_the_base_alone() {
    let body = build_pr_body(String::from("only this"), &vec![]);
    assert_eq!(body, "only this");
}

#[test]
fn submission_validation_requires_commits_and_live_parent() {
    let branches = vec![
        branch_at("root", "c", "", 1),
        branch_at("mid", "c", "root", 2),
    ];
    let b = branch_at("leaf", "c", "mid", 3);
    assert!(validate_branch_for_submission(&b, &branches, true).is_ok());
    assert!(matches!(
        validate_branch_for_submission(&b, &branches, false),
        Err(AppError::Other(_))
    ));
    let mut merged = branch_at("mid", "c", "root", 2);
    merged.status = BranchStatus::Merged;
    let with_merged = vec![branch_at("root", "c", "", 1), merged];
    match validate_branch_for_submission(&b, &with_merged, true) {
        Err(AppError::Other(m)) => assert!(m.contains("already been merged")),
        other => panic!("expected a merged-parent error, got {:?}", other.is_ok()),
    }
}

#[test]
fn roots_and_commitless_branches_are_skipped() {
    let root = branch_at("root", "c", "", 1);
    let child = branch_at("child", "c", "root", 2);
    assert!(!should_submit_branch(&root, true));
    assert!(!should_submit_branch(&child, false));
    assert!(should_submit_branch(&child, true));
}

#[test]
fn submit_order_is_preorder_with_siblings_in_stored_order() {
    let mut stack = Stack::new_at(String::from("root"), String::from("main"), 1);
    stack.add_branch(branch_at("a", "c", "root", 50)).unwrap();
    stack.add_branch(branch_at("b", "c", "root", 40)).unwrap();
    stack.add_branch(branch_at("a1", "c", "a", 60)).unwrap();
    stack.add_branch(branch_at("a2", "c", "a", 70)).unwrap();
    stack.add_branch(branch_at("b1", "c", "b", 80)).unwrap();
    let order = submit_order(&stack).unwrap();
    assert_eq!(order, vec!["a", "a1", "a2", "b", "b1"]);
}

#[test]
fn skipping_a_branch_skips_its_subtree() {
    let mut stack = Stack::new_at(String::from("root"), String::from("main"), 1);
    stack.add_branch(branch_at("a", "c", "root", 50)).unwrap();
    stack.add_branch(branch_at("b", "c", "root", 40)).unwrap();
    stack.add_branch(branch_at("a1", "c", "a", 60)).unwrap();
    stack.add_branch(branch_at("a11", "c", "a1", 65)).unwrap();
    let below_a = zyra::submit::preorder_from(&stack, "a");
    assert_eq!(below_a, vec!["a1", "a11"]);
    let below_b = zyra::submit::preorder_from(&stack, "b");
    assert!(below_b.is_empty());
}

#[test]
fn submit_order_without_a_root_fails() {
    let mut stack = Stack::new_at(String::from("root"), String::from("main"), 1);
    stack.branches[0].set_parent("elsewhere");
    match submit_order(&stack) {
        Err(AppError::Other(m)) => {
            assert_eq!(m, "Could not find the root branch in the stack")
        }
        other => panic!("expected a missing root, got {:?}", other.is_ok()),
    }
}

#[test]
fn confirmed_pr_forces_pending_and_caches_the_id() {
    let mut stack = Stack::new_at(String::from("root"), String::from("main"), 1);
    let mut b = branch_at("feat", "c", "root", 2);
    b.status = BranchStatus::Conflict;
    stack.add_branch(b).unwrap();
    let mut store = SolMetadata::initial();
    store.add_stack(&stack).unwrap();
    update_branch_pr_info(&mut store, "feat", 321, "feat").unwrap();
    let updated = &store.stacks[0].branches[1];
    assert_eq!(updated.pr_id, 321);
    assert!(matches!(updated.status, BranchStatus::Pending));
}
