//! Executor-report parsing, rendering helpers, and text utilities.

use zyra::data::{BranchStatus, Stack, StackBranch};
use zyra::display::{BranchDisplay, StackDisplay};
use zyra::errors::{AppError, GitHubError};
use zyra::repo::{
    choose_remote, get_current_branch, map_github_error, parse_owner_repo, resolve_token,
    RepoStatus,
};
use zyra::strutil::{i64_to_string, u64_to_string};

fn branch_at(name: &str, commit: &str, parent: &str, now: i64) -> StackBranch {
    let mut b = StackBranch::new_at(String::from(name), String::from(commit), now);
    b.set_parent(parent);
    b
}

#[test]
fn current_branch_comes_from_the_report() {
    let status = RepoStatus {
        is_repo: true,
        current_branch: String::from("work"),
        current_commit: String::from("abc"),
    };
    assert_eq!(get_current_branch(&status), "work");
}

#[test]
fn owner_repo_parses_ssh_and_https_remotes() {
    let (o, r) = parse_owner_repo("git@github.com:acme/widgets.git").unwrap();
    assert_eq!((o.as_str(), r.as_str()), ("acme", "widgets"));
    let (o, r) = parse_owner_repo("https://github.com/acme/widgets.git").unwrap();
    assert_eq!((o.as_str(), r.as_str()), ("acme", "widgets"));
    let (o, r) = parse_owner_repo("https://github.com/acme/widgets").unwrap();
    assert_eq!((o.as_str(), r.as_str()), ("acme", "widgets"));
    match parse_owner_repo("nonsense") {
        Err(AppError::Other(m)) => assert_eq!(m, "Invalid remote URL"),
        other => panic!("expected an invalid URL, got {:?}", other.is_ok()),
    }
}

#[test]
fn remote_choice_prefers_the_single_then_origin_then_first() {
    let one = vec![String::from("upstream")];
    assert_eq!(choose_remote(&one).unwrap(), "upstream");
    let with_origin = vec![String::from("fork"), String::from("origin")];
    assert_eq!(choose_remote(&with_origin).unwrap(), "origin");
    let neither = vec![String::from("fork"), String::from("mirror")];
    assert_eq!(choose_remote(&neither).unwrap(), "fork");
    let empty: Vec<String> = vec![];
    assert!(matches!(choose_remote(&empty), Err(AppError::Other(_))));
}

#[test]
fn github_errors_map_by_status_text() {
    assert!(matches!(
        map_github_error("HTTP 401 Unauthorized"),
        GitHubError::AuthenticationError
    ));
    assert!(matches!(
        map_github_error("thing was Not Found"),
        GitHubError::NotFound(_)
    ));
    assert!(matches!(
        map_github_error("403: rate limit hit"),
        GitHubError::RateLimitExceeded
    ));
    match map_github_error("socket closed") {
        GitHubError::RequestError(m) => assert_eq!(m, "GitHub API error: socket closed"),
        other => panic!("expected a request error, got {:?}", other),
    }
}

#[test]
fn token_resolution_order_is_tool_then_generic_then_helper() {
    let t = |s: &str| Some(String::from(s));
    assert_eq!(resolve_token(t("a"), t("b"), t("c"), t("d")), t("a"));
    assert_eq!(resolve_token(None, t("b"), t("c"), t("d")), t("b"));
    assert_eq!(resolve_token(None, None, t("c"), t("d")), t("c"));
    assert_eq!(resolve_token(None, None, None, t("d")), t("d"));
    assert_eq!(resolve_token(None, None, None, None), None);
}

fn demo_stack() -> Stack {
    let mut stack = Stack::new_at(String::from("demo"), String::from("main"), 1);
    stack
        .add_branch(branch_at("demo-1", "0123456789abcdef", "demo", 2))
        .unwrap();
    let mut b = branch_at("demo-2", "fff", "demo-1", 3);
    b.status = BranchStatus::Merged;
    b.set_pr_id(9);
    stack.add_branch(b).unwrap();
    stack
}

#[test]
fn snapshot_shortens_commits_and_labels_statuses() {
    let snap: StackDisplay = demo_stack().display_snapshot();
    assert_eq!(snap.stack, "demo");
    let rows: Vec<&BranchDisplay> = snap.branches.iter().collect();
    assert_eq!(rows[1].name, "demo-1");
    assert_eq!(rows[1].commit, "0123456");
    assert_eq!(rows[1].status, "Pending");
    assert_eq!(rows[2].commit, "fff");
    assert_eq!(rows[2].status, "Merged");
}

#[test]
fn simple_display_joins_names_with_arrows() {
    assert_eq!(
        demo_stack().simple_display(),
        "demo \u{279c} demo-1 \u{279c} demo-2"
    );
}

#[test]
fn json_renderings_parse_back_with_serde() {
    let stack = demo_stack();
    for pretty in [false, true] {
        let text = stack.json(pretty);
        let value: serde_json::Value = serde_json::from_str(text.as_str()).unwrap();
        assert_eq!(value["stack"], "demo");
        assert_eq!(value["branches"][1]["name"], "demo-1");
        assert_eq!(value["branches"][1]["commit"], "0123456");
        assert_eq!(value["branches"][2]["status"], "Merged");
    }
    assert!(stack.json(true).contains('\n'));
    assert!(!stack.json(false).contains('\n'));
}

#[test]
fn pretty_json_matches_the_standard_layout() {
    let mut stack = Stack::new_at(String::from("s"), String::from("main"), 1);
    stack.branches[0].commit_hash = String::from("abc");
    stack.head_branch.commit_hash = String::from("abc");
    let ours = stack.json(true);
    let expected = "{\n  \"stack\": \"s\",\n  \"branches\": [\n    {\n      \"name\": \"s\",\n      \"status\": \"Pending\",\n      \"commit\": \"abc\"\n    }\n  ]\n}";
    assert_eq!(ours, expected);
}

#[test]
fn decimal_rendering_handles_signs_and_extremes() {
    assert_eq!(u64_to_string(0), "0");
    assert_eq!(u64_to_string(90210), "90210");
    assert_eq!(i64_to_string(-1), "-1");
    assert_eq!(i64_to_string(i64::MIN), "-9223372036854775808");
    assert_eq!(i64_to_string(i64::MAX), "9223372036854775807");
}

#[test]
fn branch_listings_split_trim_and_drop_empties() {
    let raw = "  main\r\nfeature/one\n\n   \nfeature/two  \n";
    let parsed = zyra::repo::parse_branch_list(raw);
    assert_eq!(parsed, vec!["main", "feature/one", "feature/two"]);
    assert_eq!(zyra::repo::parse_branch_list(""), Vec::<String>::new());
}

#[test]
fn status_labels_are_the_canonical_names() {
    assert_eq!(BranchStatus::Pending.label(), "Pending");
    assert_eq!(BranchStatus::Merged.label(), "Merged");
    assert_eq!(BranchStatus::Conflict.label(), "Conflict");
    assert_eq!(BranchStatus::Testing.label(), "Testing");
}
