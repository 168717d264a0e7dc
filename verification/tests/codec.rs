//! The persisted document: encode/decode round trips and legacy tolerance.

use zyra::data::{BranchStatus, SolMetadata, Stack, StackBranch};

fn branch_at(name: &str, commit: &str, parent: &str, now: i64) -> StackBranch {
    let mut b = StackBranch::new_at(String::from(name), String::from(commit), now);
    b.set_parent(parent);
    b
}

fn rich_store() -> SolMetadata {
    let mut one = Stack::new_at(String::from("alpha"), String::from("main"), 100);
    one.add_branch(branch_at("alpha-1", "aaa1111", "alpha", 110)).unwrap();
    let mut b2 = branch_at("alpha-2", "aaa2222", "alpha-1", 120);
    b2.set_pr_id(77);
    b2.status = BranchStatus::Merged;
    one.add_branch(b2).unwrap();
    let mut two = Stack::new_at(String::from("beta"), String::from("develop"), -5);
    two.add_branch(branch_at("beta-1", "bbb1111", "beta", 130)).unwrap();
    let mut store = SolMetadata::initial();
    store.add_stack(&one).unwrap();
    store.add_stack(&two).unwrap();
    store
        .set_detached_head_context(String::from("alpha"), String::from("alpha-1"))
        .unwrap();
    store
}

fn assert_same_store(a: &SolMetadata, b: &SolMetadata) {
    assert_eq!(a.version, b.version);
    assert_eq!(a.stacks.len(), b.stacks.len());
    for (sa, sb) in a.stacks.iter().zip(b.stacks.iter()) {
        assert_eq!(sa.name, sb.name);
        assert_eq!(sa.base_branch, sb.base_branch);
        assert_eq!(sa.created_at, sb.created_at);
        assert_eq!(sa.updated_at, sb.updated_at);
        assert_eq!(sa.branches.len(), sb.branches.len());
        let mut pairs: Vec<(&StackBranch, &StackBranch)> =
            vec![(&sa.head_branch, &sb.head_branch)];
        for (ba, bb) in sa.branches.iter().zip(sb.branches.iter()) {
            pairs.push((ba, bb));
        }
        for (ba, bb) in pairs {
            assert_eq!(ba.name, bb.name);
            assert_eq!(ba.commit_hash, bb.commit_hash);
            assert_eq!(ba.pr_id, bb.pr_id);
            assert_eq!(ba.parent, bb.parent);
            assert_eq!(ba.created_at, bb.created_at);
            assert_eq!(ba.updated_at, bb.updated_at);
            assert_eq!(
                format!("{:?}", ba.status),
                format!("{:?}", bb.status)
            );
        }
    }
    match (&a.detached_head_context, &b.detached_head_context) {
        (None, None) => {}
        (Some(x), Some(y)) => {
            assert_eq!(x.stack_name, y.stack_name);
            assert_eq!(x.branch_name, y.branch_name);
        }
        _ => panic!("detached records differ"),
    }
}

#[test]
fn round_trip_empty_store() {
    let store = SolMetadata::initial();
    let text = store.to_json();
    let back = SolMetadata::from_json(text.as_str()).unwrap();
    assert_same_store(&store, &back);
}

#[test]
fn round_trip_one_stack() {
    let mut store = SolMetadata::initial();
    store.add_stack(&Stack::new_at(String::from("solo"), String::from("main"), 42)).unwrap();
    let text = store.to_json();
    let back = SolMetadata::from_json(text.as_str()).unwrap();
    assert_same_store(&store, &back);
}

#[test]
fn round_trip_many_stacks() {
    let store = rich_store();
    let text = store.to_json();
    let back = SolMetadata::from_json(text.as_str()).unwrap();
    assert_same_store(&store, &back);
}

#[test]
fn encoding_is_valid_json_for_serde() {
    let store = rich_store();
    let text = store.to_json();
    let value: serde_json::Value = serde_json::from_str(text.as_str()).unwrap();
    assert_eq!(value["version"], "0.1.0");
    assert_eq!(value["stacks"][0]["name"], "alpha");
    assert_eq!(value["stacks"][0]["branches"][2]["pr_id"], 77);
    assert_eq!(value["stacks"][0]["branches"][2]["status"], "Merged");
    assert_eq!(value["stacks"][1]["created_at"], -5);
    assert_eq!(value["detached_head_context"]["branch_name"], "alpha-1");
}

#[test]
fn legacy_nulls_normalize_and_extra_field_drops() {
    let text = r#"
    {
      "stacks": [
        {
          "name": "old",
          "base_branch": "main",
          "head_branch": {
            "name": "old",
            "commit_hash": "main",
            "pr_id": null,
            "status": "Pending",
            "parent": null,
            "depth": 0,
            "created_at": 10,
            "updated_at": 11
          },
          "branches": [
            {
              "depth": 3,
              "name": "old",
              "commit_hash": "main",
              "pr_id": null,
              "status": "Testing",
              "parent": null,
              "created_at": 10,
              "updated_at": 11
            }
          ],
          "created_at": 10,
          "updated_at": 11
        }
      ],
      "version": "0.0.9"
    }
    "#;
    let store = SolMetadata::from_json(text).unwrap();
    assert_eq!(store.version, "0.0.9");
    let b = &store.stacks[0].branches[0];
    assert_eq!(b.parent, "");
    assert_eq!(b.pr_id, -1);
    assert!(matches!(b.status, BranchStatus::Testing));
    assert_eq!(store.stacks[0].head_branch.parent, "");
    assert!(store.detached_head_context.is_none());
}

#[test]
fn fields_decode_in_any_order() {
    let mut text = String::new();
    text.push_str(r#"{"version":"1","detached_head_context":null,"stacks":[{"updated_at":2,"#);
    text.push_str(r#""created_at":1,"branches":[],"head_branch":{"updated_at":2,"created_at":1,"#);
    text.push_str(r#""parent":"","status":"Conflict","pr_id":5,"commit_hash":"h","name":"n"},"#);
    text.push_str(r#""base_branch":"main","name":"s"}]}"#);
    let text = text.as_str();
    let store = SolMetadata::from_json(text).unwrap();
    assert_eq!(store.stacks[0].name, "s");
    assert_eq!(store.stacks[0].head_branch.pr_id, 5);
    assert!(matches!(
        store.stacks[0].head_branch.status,
        BranchStatus::Conflict
    ));
    assert_eq!(store.stacks[0].branches.len(), 0);
}

#[test]
fn extreme_integers_round_trip() {
    let mut b = StackBranch::new_at(String::from("edge"), String::from("h"), i64::MIN);
    b.updated_at = i64::MAX;
    b.pr_id = i64::MAX;
    let mut stack = Stack::new_at(String::from("edge"), String::from("main"), 0);
    stack.branches[0] = b.clone();
    stack.head_branch = b;
    let mut store = SolMetadata::initial();
    store.add_stack(&stack).unwrap();
    let text = store.to_json();
    let back = SolMetadata::from_json(text.as_str()).unwrap();
    assert_same_store(&store, &back);
    assert_eq!(back.stacks[0].branches[0].created_at, i64::MIN);
    assert_eq!(back.stacks[0].branches[0].pr_id, i64::MAX);
}

#[test]
fn corrupt_documents_are_refused() {
    for bad in [
        "",
        "{",
        "[]",
        r#"{"version":"1"}"#,
        r#"{"stacks":[],"version":1,"detached_head_context":null}"#,
        r#"{"stacks":[],"version":"1","detached_head_context":null} trailing"#,
        r#"{"stacks":[{"name":"s"}],"version":"1"}"#,
    ] {
        assert!(
            SolMetadata::from_json(bad).is_err(),
            "expected refusal of {:?}",
            bad
        );
    }
}

#[test]
fn duplicate_fields_are_refused() {
    let text = r#"{"stacks":[],"version":"1","version":"2"}"#;
    assert!(SolMetadata::from_json(text).is_err());
}
