//! The navigation engine: the decisions behind moving the working tree among
//! branches, stacks and raw commits.  The functions here plan; the binary
//! around the library performs the switch and hands the refreshed tip back to
//! the store's mutators.

use vstd::prelude::*;

use crate::data::{
    children_of, is_first_containing_idx, is_first_stack_idx, seq_has_branch, sort_by_time,
    spec_has_stack, spec_store_has_branch, SolMetadata,
};
use crate::errors::AppError;

verus! {

/// Where a `goto` request resolves to.
pub enum GotoStep {
    /// The target names a stack: switch to its root branch.
    SwitchToStackRoot(String),
    /// The target names a branch of the current stack: switch to it.
    SwitchToBranch(String),
    /// The target is a reachable raw commit: detach, remembering the stack
    /// and branch the excursion started from.
    DetachToCommit { stack_name: String, branch_name: String },
}

/// What a `next` request resolves to.
pub enum NextStep {
    /// A single target branch: switch without prompting.
    SwitchTo(String),
    /// Several children: the caller must put their names, in this order, to
    /// an external single-choice prompt.
    PickChild(Vec<String>),
}

/// The message reported when a `goto` target matches nothing.
pub open spec fn msg_goto_not_found(name: Seq<char>) -> Seq<char> {
    "Could not find stack, branch, or commit '"@ + name + "'"@
}

/// Resolves a `goto` target against the store: a stack name wins, then a
/// branch of the current stack, then a reachable raw commit
/// (`name_is_commit` carries the executor's answer); anything else is not
/// found.
pub fn resolve_goto(
    store: &SolMetadata,
    name: &str,
    current_branch: &str,
    name_is_commit: bool,
) -> (r: Result<GotoStep, AppError>)
    ensures
        match r {
            Result::Ok(step) => match step {
                GotoStep::SwitchToStackRoot(b) => {
                    &&& spec_has_stack(store@.stacks, name@)
                    &&& exists|i: int|
                        is_first_stack_idx(store@.stacks, name@, i) && b@
                            == store@.stacks[i].head_branch.name
                },
                GotoStep::SwitchToBranch(b) => {
                    &&& !spec_has_stack(store@.stacks, name@)
                    &&& spec_store_has_branch(store@.stacks, name@)
                    &&& exists|i: int|
                        is_first_containing_idx(store@.stacks, current_branch@, i)
                            && seq_has_branch(store@.stacks[i].branches, name@)
                    &&& b@ == name@
                },
                GotoStep::DetachToCommit { stack_name, branch_name } => {
                    &&& !spec_has_stack(store@.stacks, name@)
                    &&& name_is_commit
                    &&& exists|i: int|
                        {
                            &&& is_first_containing_idx(store@.stacks, current_branch@, i)
                            &&& stack_name@ == store@.stacks[i].name
                            &&& !(spec_store_has_branch(store@.stacks, name@) && seq_has_branch(
                                store@.stacks[i].branches,
                                name@,
                            ))
                        }
                    &&& branch_name@ == current_branch@
                },
            },
            Result::Err(e) => match e {
                AppError::BranchNotPartOfStack => {
                    &&& !spec_has_stack(store@.stacks, name@)
                    &&& !spec_store_has_branch(store@.stacks, current_branch@)
                },
                AppError::Other(m) => {
                    &&& !spec_has_stack(store@.stacks, name@)
                    &&& spec_store_has_branch(store@.stacks, current_branch@)
                    &&& !name_is_commit
                    &&& m@ == msg_goto_not_found(name@)
                    &&& exists|i: int|
                        is_first_containing_idx(store@.stacks, current_branch@, i)
                            && !(spec_store_has_branch(store@.stacks, name@) && seq_has_branch(
                            #[trigger] store@.stacks[i].branches,
                            name@,
                        ))
                },
                _ => false,
            },
        },
{
    if store.has_stack(name) {
        let stack = match store.get_stack(name) {
            Result::Ok(s) => s,
            Result::Err(e) => {
                proof {
                    assert(false);
                }
                return Result::Err(e);
            },
        };
        return Result::Ok(GotoStep::SwitchToStackRoot(stack.head_branch.name.clone()));
    }
    let current_stack = match store.get_current_stack(current_branch) {
        Result::Ok(s) => s,
        Result::Err(e) => {
            return Result::Err(e);
        },
    };
    if store.has_branch(name) && current_stack.has_branch(name) {
        return Result::Ok(GotoStep::SwitchToBranch(name.to_owned()));
    }
    if name_is_commit {
        return Result::Ok(
            GotoStep::DetachToCommit {
                stack_name: current_stack.name.clone(),
                branch_name: current_branch.to_owned(),
            },
        );
    }
    let mut m = String::from_str("Could not find stack, branch, or commit '");
    m.append(name);
    m.append("'");
    Result::Err(AppError::Other(m))
}

/// What `plan_next` promises of its result.
pub open spec fn plan_next_post(mv: crate::data::StoreV, cur: Seq<char>, r: Result<
    NextStep,
    AppError,
>) -> bool {
        match r {
            Result::Ok(step) => match mv.detached {
                Option::Some(ctx) => exists|i: int, bi: int|
                    {
                        &&& is_first_stack_idx(mv.stacks, ctx.stack_name, i)
                        &&& #[trigger] crate::data::is_first_branch_idx(
                            mv.stacks[i].branches,
                            ctx.branch_name,
                            bi,
                        )
                        &&& bi + 1 < mv.stacks[i].branches.len()
                        &&& step matches NextStep::SwitchTo(b) && b@ == mv.stacks[i].branches[
                            bi + 1
                        ].name
                    },
                Option::None => exists|i: int|
                    {
                        &&& #[trigger] is_first_containing_idx(mv.stacks, cur, i)
                        &&& {
                            let ch = sort_by_time(
                                children_of(mv.stacks[i].branches, cur),
                            );
                            match step {
                                NextStep::SwitchTo(b) => ch.len() == 1 && b@ == ch[0].name,
                                NextStep::PickChild(names) => ch.len() > 1 && names@.len()
                                    == ch.len() && forall|k: int|
                                    0 <= k < ch.len() ==> (#[trigger] names@[k])@ == ch[k].name,
                            }
                        }
                    },
            },
            Result::Err(e) => match mv.detached {
                Option::Some(ctx) => match e {
                    AppError::NoNextBranch => exists|i: int, bi: int|
                        {
                            &&& is_first_stack_idx(mv.stacks, ctx.stack_name, i)
                            &&& #[trigger] crate::data::is_first_branch_idx(
                                mv.stacks[i].branches,
                                ctx.branch_name,
                                bi,
                            )
                            &&& bi + 1 == mv.stacks[i].branches.len()
                        },
                    AppError::Other(m) => {
                        ||| (!spec_has_stack(mv.stacks, ctx.stack_name) && m@
                            == "Stack not found"@)
                        ||| (exists|i: int|
                            #[trigger] is_first_stack_idx(mv.stacks, ctx.stack_name, i)
                                && !seq_has_branch(mv.stacks[i].branches, ctx.branch_name)
                                && m@ == msg_branch_missing(ctx.branch_name))
                    },
                    _ => false,
                },
                Option::None => match e {
                    AppError::BranchNotPartOfStack => !spec_store_has_branch(
                        mv.stacks,
                        cur,
                    ),
                    AppError::NoNextBranch => exists|i: int|
                        #[trigger] is_first_containing_idx(mv.stacks, cur, i)
                            && sort_by_time(
                            children_of(mv.stacks[i].branches, cur),
                        ).len() == 0,
                    _ => false,
                },
            },
        }
}

/// Plans one `next` hop.  Detached, it moves one position forward in the
/// recorded stack's branch list and the caller clears the detached record on
/// success.  Attached, it inspects the current branch's children: none fails,
/// one switches without prompting, several ask the caller to prompt.
#[verifier::rlimit(100)]
#[verifier::spinoff_prover]
pub fn plan_next(store: &SolMetadata, current_branch: &str) -> (r: Result<NextStep, AppError>)
    ensures
        plan_next_post(store@, current_branch@, r),
{
    match store.get_detached_head_context() {
        Option::Some(ctx) => {
            let stack = match store.get_stack(ctx.stack_name.as_str()) {
                Result::Ok(s) => s,
                Result::Err(e) => {
                    let r: Result<NextStep, AppError> = Result::Err(e);
                    proof {
                        assert(plan_next_post(store@, current_branch@, r));
                    }
                    return r;
                },
            };
            proof {
                let i = choose|i: int|
                    is_first_stack_idx(store@.stacks, ctx@.stack_name, i) && stack@
                        == store@.stacks[i];
                assert(is_first_stack_idx(store@.stacks, ctx@.stack_name, i));
            }
            match crate::data::find_branch_index(&stack.branches, ctx.branch_name.as_str()) {
                Option::Some(bi) => {
                    let n = stack.branches.len();
                    proof {
                        assert(bi < n);
                        let i = choose|i: int|
                            is_first_stack_idx(store@.stacks, ctx@.stack_name, i) && stack@
                                == store@.stacks[i];
                        assert(crate::data::is_first_branch_idx(
                            store@.stacks[i].branches,
                            ctx@.branch_name,
                            bi as int,
                        ));
                    }
                    if bi + 1 < n {
                        let target = stack.branches[bi + 1].name.clone();
                        proof {
                            let i = choose|i: int|
                                is_first_stack_idx(store@.stacks, ctx@.stack_name, i) && stack@
                                    == store@.stacks[i];
                            assert(is_first_stack_idx(store@.stacks, ctx@.stack_name, i));
                            assert(crate::data::is_first_branch_idx(
                                store@.stacks[i].branches,
                                ctx@.branch_name,
                                bi as int,
                            ));
                            assert(bi + 1 < store@.stacks[i].branches.len());
                            assert(target@ == store@.stacks[i].branches[bi as int + 1].name);
                        }
                        let r: Result<NextStep, AppError> = Result::Ok(
                            NextStep::SwitchTo(target),
                        );
                        proof {
                            let i = choose|i: int|
                                is_first_stack_idx(store@.stacks, ctx@.stack_name, i) && stack@
                                    == store@.stacks[i];
                            match store@.detached {
                                Option::Some(c2) => {
                                    assert(c2 == ctx@);
                                    assert(is_first_stack_idx(store@.stacks, c2.stack_name, i));
                                    assert(crate::data::is_first_branch_idx(
                                        store@.stacks[i].branches,
                                        c2.branch_name,
                                        bi as int,
                                    ));
                                },
                                Option::None => {
                                    assert(false);
                                },
                            }
                            assert(plan_next_post(store@, current_branch@, r));
                        }
                        r
                    } else {
                        let r: Result<NextStep, AppError> = Result::Err(AppError::NoNextBranch);
                        proof {
                            let i = choose|i: int|
                                is_first_stack_idx(store@.stacks, ctx@.stack_name, i) && stack@
                                    == store@.stacks[i];
                            match store@.detached {
                                Option::Some(c2) => {
                                    assert(c2 == ctx@);
                                    assert(is_first_stack_idx(store@.stacks, c2.stack_name, i));
                                    assert(crate::data::is_first_branch_idx(
                                        store@.stacks[i].branches,
                                        c2.branch_name,
                                        bi as int,
                                    ));
                                },
                                Option::None => {
                                    assert(false);
                                },
                            }
                            assert(plan_next_post(store@, current_branch@, r));
                        }
                        r
                    }
                },
                Option::None => {
                    let mut m = String::from_str("Could not find branch '");
                    m.append(ctx.branch_name.as_str());
                    m.append("' in stack");
                    let r: Result<NextStep, AppError> = Result::Err(AppError::Other(m));
                    proof {
                        assert(plan_next_post(store@, current_branch@, r));
                    }
                    r
                },
            }
        },
        Option::None => {
            let stack = match store.get_current_stack(current_branch) {
                Result::Ok(s) => s,
                Result::Err(e) => {
                    return Result::Err(e);
                },
            };
            proof {
                let i = choose|i: int|
                    is_first_containing_idx(store@.stacks, current_branch@, i) && stack@
                        == store@.stacks[i];
                assert(is_first_containing_idx(store@.stacks, current_branch@, i));
            }
            let children = match stack.get_children(current_branch) {
                Result::Ok(c) => c,
                Result::Err(e) => {
                    proof {
                        assert(false);
                    }
                    return Result::Err(e);
                },
            };
            if children.len() == 0 {
                let r: Result<NextStep, AppError> = Result::Err(AppError::NoNextBranch);
                proof {
                    assert(plan_next_post(store@, current_branch@, r));
                }
                r
            } else if children.len() == 1 {
                let r: Result<NextStep, AppError> = Result::Ok(
                    NextStep::SwitchTo(children[0].name.clone()),
                );
                proof {
                    assert(plan_next_post(store@, current_branch@, r));
                }
                r
            } else {
                let ghost ch = sort_by_time(children_of(stack@.branches, current_branch@));
                let mut names: Vec<String> = Vec::new();
                let n = children.len();
                let mut i: usize = 0;
                while i < n
                    invariant
                        n == children@.len(),
                        children@.map_values(|b: &crate::data::StackBranch| b@) == ch,
                        0 <= i <= n,
                        names@.len() == i,
                        forall|k: int| 0 <= k < i ==> (#[trigger] names@[k])@ == ch[k].name,
                    decreases n - i,
                {
                    names.push(children[i].name.clone());
                    i = i + 1;
                }
                let r: Result<NextStep, AppError> = Result::Ok(
                    NextStep::PickChild(names),
                );
                proof {
                    assert(plan_next_post(store@, current_branch@, r));
                }
                r
            }
        },
    }
}

/// The message reported when the recorded detached branch has vanished from
/// its stack.
pub open spec fn msg_branch_missing(name: Seq<char>) -> Seq<char> {
    "Could not find branch '"@ + name + "' in stack"@
}

/// What `plan_prev` promises of its result.
pub open spec fn plan_prev_post(mv: crate::data::StoreV, cur: Seq<char>, r: Result<
    String,
    AppError,
>) -> bool {
        match r {
            Result::Ok(b) => match mv.detached {
                Option::Some(ctx) => exists|i: int, bi: int|
                    {
                        &&& is_first_stack_idx(mv.stacks, ctx.stack_name, i)
                        &&& #[trigger] crate::data::is_first_branch_idx(
                            mv.stacks[i].branches,
                            ctx.branch_name,
                            bi,
                        )
                        &&& bi >= 1
                        &&& b@ == mv.stacks[i].branches[bi - 1].name
                    },
                Option::None => exists|i: int, bi: int|
                    {
                        &&& is_first_containing_idx(mv.stacks, cur, i)
                        &&& #[trigger] crate::data::is_first_branch_idx(
                            mv.stacks[i].branches,
                            cur,
                            bi,
                        )
                        &&& mv.stacks[i].branches[bi].parent.len() > 0
                        &&& seq_has_branch(
                            mv.stacks[i].branches,
                            mv.stacks[i].branches[bi].parent,
                        )
                        &&& b@ == mv.stacks[i].branches[bi].parent
                    },
            },
            Result::Err(e) => match mv.detached {
                Option::Some(ctx) => match e {
                    AppError::NoPreviousBranch => exists|i: int|
                        #[trigger] is_first_stack_idx(mv.stacks, ctx.stack_name, i)
                            && crate::data::is_first_branch_idx(
                            mv.stacks[i].branches,
                            ctx.branch_name,
                            0,
                        ),
                    AppError::Other(m) => {
                        ||| (!spec_has_stack(mv.stacks, ctx.stack_name) && m@
                            == "Stack not found"@)
                        ||| (exists|i: int|
                            #[trigger] is_first_stack_idx(mv.stacks, ctx.stack_name, i)
                                && !seq_has_branch(mv.stacks[i].branches, ctx.branch_name)
                                && m@ == msg_branch_missing(ctx.branch_name))
                    },
                    _ => false,
                },
                Option::None => match e {
                    AppError::BranchNotPartOfStack => !spec_store_has_branch(
                        mv.stacks,
                        cur,
                    ),
                    AppError::NoPreviousBranch => exists|i: int, bi: int|
                        {
                            &&& is_first_containing_idx(
                                mv.stacks,
                                cur,
                                i,
                            )
                            &&& #[trigger] crate::data::is_first_branch_idx(
                                mv.stacks[i].branches,
                                cur,
                                bi,
                            )
                            &&& (mv.stacks[i].branches[bi].parent.len() == 0
                                || !seq_has_branch(
                                mv.stacks[i].branches,
                                mv.stacks[i].branches[bi].parent,
                            ))
                        },
                    _ => false,
                },
            },
        }
}

/// Plans one `prev` hop.  Detached, it moves one position backward in the
/// recorded stack's branch list.  Attached, it follows exactly one hop to the
/// parent, failing at the root or on a dangling parent reference.
#[verifier::rlimit(100)]
#[verifier::spinoff_prover]
pub fn plan_prev(store: &SolMetadata, current_branch: &str) -> (r: Result<String, AppError>)
    ensures
        plan_prev_post(store@, current_branch@, r),
{
    match store.get_detached_head_context() {
        Option::Some(ctx) => {
            let stack = match store.get_stack(ctx.stack_name.as_str()) {
                Result::Ok(s) => s,
                Result::Err(e) => {
                    let r: Result<String, AppError> = Result::Err(e);
                    proof {
                        assert(plan_prev_post(store@, current_branch@, r));
                    }
                    return r;
                },
            };
            proof {
                let i = choose|i: int|
                    is_first_stack_idx(store@.stacks, ctx@.stack_name, i) && stack@
                        == store@.stacks[i];
                assert(is_first_stack_idx(store@.stacks, ctx@.stack_name, i));
            }
            match crate::data::find_branch_index(&stack.branches, ctx.branch_name.as_str()) {
                Option::Some(bi) => {
                    let n = stack.branches.len();
                    proof {
                        assert(bi < n);
                        let i = choose|i: int|
                            is_first_stack_idx(store@.stacks, ctx@.stack_name, i) && stack@
                                == store@.stacks[i];
                        assert(crate::data::is_first_branch_idx(
                            store@.stacks[i].branches,
                            ctx@.branch_name,
                            bi as int,
                        ));
                    }
                    if bi >= 1 {
                        let target = stack.branches[bi - 1].name.clone();
                        proof {
                            let i = choose|i: int|
                                is_first_stack_idx(store@.stacks, ctx@.stack_name, i) && stack@
                                    == store@.stacks[i];
                            assert(is_first_stack_idx(store@.stacks, ctx@.stack_name, i));
                            assert(crate::data::is_first_branch_idx(
                                store@.stacks[i].branches,
                                ctx@.branch_name,
                                bi as int,
                            ));
                            assert(target@ == store@.stacks[i].branches[bi as int - 1].name);
                        }
                        let r: Result<String, AppError> = Result::Ok(target);
                        proof {
                            let i = choose|i: int|
                                is_first_stack_idx(store@.stacks, ctx@.stack_name, i) && stack@
                                    == store@.stacks[i];
                            match store@.detached {
                                Option::Some(c2) => {
                                    assert(c2 == ctx@);
                                    assert(is_first_stack_idx(store@.stacks, c2.stack_name, i));
                                    assert(crate::data::is_first_branch_idx(
                                        store@.stacks[i].branches,
                                        c2.branch_name,
                                        bi as int,
                                    ));
                                },
                                Option::None => {
                                    assert(false);
                                },
                            }
                            assert(plan_prev_post(store@, current_branch@, r));
                        }
                        r
                    } else {
                        let r: Result<String, AppError> = Result::Err(
                            AppError::NoPreviousBranch,
                        );
                        proof {
                            let i = choose|i: int|
                                is_first_stack_idx(store@.stacks, ctx@.stack_name, i) && stack@
                                    == store@.stacks[i];
                            match store@.detached {
                                Option::Some(c2) => {
                                    assert(c2 == ctx@);
                                    assert(is_first_stack_idx(store@.stacks, c2.stack_name, i));
                                    assert(crate::data::is_first_branch_idx(
                                        store@.stacks[i].branches,
                                        c2.branch_name,
                                        bi as int,
                                    ));
                                },
                                Option::None => {
                                    assert(false);
                                },
                            }
                            assert(plan_prev_post(store@, current_branch@, r));
                        }
                        r
                    }
                },
                Option::None => {
                    let mut m = String::from_str("Could not find branch '");
                    m.append(ctx.branch_name.as_str());
                    m.append("' in stack");
                    let r: Result<String, AppError> = Result::Err(AppError::Other(m));
                    proof {
                        assert(plan_prev_post(store@, current_branch@, r));
                    }
                    r
                },
            }
        },
        Option::None => {
            let stack = match store.get_current_stack(current_branch) {
                Result::Ok(s) => s,
                Result::Err(e) => {
                    return Result::Err(e);
                },
            };
            proof {
                let i = choose|i: int|
                    is_first_containing_idx(store@.stacks, current_branch@, i) && stack@
                        == store@.stacks[i];
                assert(is_first_containing_idx(store@.stacks, current_branch@, i));
            }
            match crate::data::find_branch_index(&stack.branches, current_branch) {
                Option::Some(bi) => {
                    proof {
                        assert(bi < stack.branches@.len());
                        let i = choose|i: int|
                            is_first_containing_idx(store@.stacks, current_branch@, i) && stack@
                                == store@.stacks[i];
                        assert(crate::data::is_first_branch_idx(
                            store@.stacks[i].branches,
                            current_branch@,
                            bi as int,
                        ));
                    }
                    let parent = &stack.branches[bi].parent;
                    if parent.as_str().unicode_len() == 0 {
                        let r: Result<String, AppError> = Result::Err(
                            AppError::NoPreviousBranch,
                        );
                        proof {
                            assert(plan_prev_post(store@, current_branch@, r));
                        }
                        r
                    } else if stack.has_branch(parent.as_str()) {
                        let target = parent.clone();
                        proof {
                            let i = choose|i: int|
                                is_first_containing_idx(store@.stacks, current_branch@, i)
                                    && stack@ == store@.stacks[i];
                            assert(is_first_containing_idx(store@.stacks, current_branch@, i));
                            assert(crate::data::is_first_branch_idx(
                                store@.stacks[i].branches,
                                current_branch@,
                                bi as int,
                            ));
                            assert(store@.stacks[i].branches[bi as int].parent.len() > 0);
                            assert(seq_has_branch(
                                store@.stacks[i].branches,
                                store@.stacks[i].branches[bi as int].parent,
                            ));
                            assert(target@ == store@.stacks[i].branches[bi as int].parent);
                        }
                        let r: Result<String, AppError> = Result::Ok(target);
                        proof {
                            assert(plan_prev_post(store@, current_branch@, r));
                        }
                        r
                    } else {
                        let r: Result<String, AppError> = Result::Err(
                            AppError::NoPreviousBranch,
                        );
                        proof {
                            assert(plan_prev_post(store@, current_branch@, r));
                        }
                        r
                    }
                },
                Option::None => {
                    proof {
                        assert(false);
                    }
                    Result::Err(AppError::NoPreviousBranch)
                },
            }
        },
    }
}

} // verus!
