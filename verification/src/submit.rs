//! The submission engine: validation of what may be submitted, the pre-order
//! walk over a whole stack, the composite pull-request body, and the
//! reconciliation decision between the local cache and the remote record.
//! Pushing and the remote calls themselves are the binary's job; every
//! decision between them is made here.

use vstd::prelude::*;

use crate::data::{
    children_of, is_first_branch_idx, is_first_containing_idx, seq_has_branch, BranchStatus,
    BranchV, SolMetadata, Stack, StackBranch, StackV, StoreV,
};
use crate::errors::{AppError, GitError};
use crate::strutil::{spec_u64_string, str_eq};

verus! {

/// What the interactive collaborator gathers for a pull request.
pub struct PullRequestDetails {
    pub title: String,
    pub body: String,
    pub draft: bool,
}

/// Mathematical model of a remote pull-request record.
#[verifier::ext_equal]
pub ghost struct PrRecordV {
    pub number: int,
    pub head_ref: Seq<char>,
    pub base_ref: Seq<char>,
}

/// What the library reads of a remote pull request: its number, its source
/// branch and its target branch.
pub struct PrRecord {
    pub number: u64,
    pub head_ref: String,
    pub base_ref: String,
}

impl View for PrRecord {
    type V = PrRecordV;

    open spec fn view(&self) -> PrRecordV {
        PrRecordV { number: self.number as int, head_ref: self.head_ref@, base_ref: self.base_ref@ }
    }
}

/// Checks the executor's report that the working directory is inside a
/// version-controlled tree; fetching afterwards stays with the caller.
pub fn validate_repository(is_repo: bool) -> (r: Result<(), AppError>)
    ensures
        r is Ok <==> is_repo,
        !is_repo ==> (r matches Result::Err(e) && e matches AppError::Git(g)
            && g is NotGitRepository),
{
    if is_repo {
        Result::Ok(())
    } else {
        Result::Err(AppError::Git(GitError::NotGitRepository))
    }
}

/// Recaches the current branch's tip in the store; the caller persists the
/// store right after.
pub fn update_current_branch_state(
    store: &mut SolMetadata,
    current_branch: &str,
    current_commit: &str,
) -> (r: Result<(), AppError>)
    ensures
        match r {
            Result::Ok(u) => exists|si: int, bi: int, t: int|
                {
                    &&& is_first_containing_idx(old(store)@.stacks, current_branch@, si)
                    &&& is_first_branch_idx(old(store)@.stacks[si].branches, current_branch@, bi)
                    &&& final(store)@ == (StoreV {
                        stacks: old(store)@.stacks.update(
                            si,
                            #[trigger] crate::data::stack_with_commit(
                                old(store)@.stacks[si],
                                bi,
                                current_commit@,
                                t,
                            ),
                        ),
                        ..old(store)@
                    })
                },
            Result::Err(e) => {
                &&& final(store)@ == old(store)@
                &&& match e {
                    AppError::BranchNotPartOfStack => !crate::data::spec_store_has_branch(
                        old(store)@.stacks,
                        current_branch@,
                    ),
                    AppError::Other(m) => exists|si: int|
                        {
                            &&& is_first_containing_idx(old(store)@.stacks, current_branch@, si)
                            &&& !seq_has_branch(
                                #[trigger] old(store)@.stacks[si].branches,
                                current_branch@,
                            )
                            &&& m@ == crate::data::msg_branch_not_in_stack(current_branch@)
                        },
                    _ => false,
                }
            },
        },
{
    store.update_branch_commit_hash(current_branch, current_commit, current_branch)
}

/// Recaches a just-switched-to branch's tip in the store; the working tree is
/// on that branch, so the current stack is resolved through it.
pub fn update_branch_state(
    store: &mut SolMetadata,
    branch_name: &str,
    current_commit: &str,
) -> (r: Result<(), AppError>)
    ensures
        match r {
            Result::Ok(u) => exists|si: int, bi: int, t: int|
                {
                    &&& is_first_containing_idx(old(store)@.stacks, branch_name@, si)
                    &&& is_first_branch_idx(old(store)@.stacks[si].branches, branch_name@, bi)
                    &&& final(store)@ == (StoreV {
                        stacks: old(store)@.stacks.update(
                            si,
                            #[trigger] crate::data::stack_with_commit(
                                old(store)@.stacks[si],
                                bi,
                                current_commit@,
                                t,
                            ),
                        ),
                        ..old(store)@
                    })
                },
            Result::Err(e) => {
                &&& final(store)@ == old(store)@
                &&& match e {
                    AppError::BranchNotPartOfStack => !crate::data::spec_store_has_branch(
                        old(store)@.stacks,
                        branch_name@,
                    ),
                    AppError::Other(m) => exists|si: int|
                        {
                            &&& is_first_containing_idx(old(store)@.stacks, branch_name@, si)
                            &&& !seq_has_branch(
                                #[trigger] old(store)@.stacks[si].branches,
                                branch_name@,
                            )
                            &&& m@ == crate::data::msg_branch_not_in_stack(branch_name@)
                        },
                    _ => false,
                }
            },
        },
{
    store.update_branch_commit_hash(branch_name, current_commit, branch_name)
}

/// `s` with the branch at `bi` given pull-request id `id` and status Pending
/// at time `t`, the root copy mirrored, and the stack's update time stamped.
pub open spec fn stack_with_pr_info(s: StackV, bi: int, id: int, t: int) -> StackV {
    StackV {
        branches: s.branches.update(
            bi,
            (BranchV {
                pr_id: id,
                status: BranchStatus::Pending,
                updated_at: t,
                ..s.branches[bi]
            }),
        ),
        head_branch: if s.head_branch.name == s.branches[bi].name {
            BranchV {
                pr_id: id,
                status: BranchStatus::Pending,
                updated_at: t,
                ..s.head_branch
            }
        } else {
            s.head_branch
        },
        updated_at: t,
        ..s
    }
}

/// Records a confirmed create or update of a pull request: caches its id and
/// forces the local status to Pending, within the current stack.
pub fn update_branch_pr_info(
    store: &mut SolMetadata,
    branch_name: &str,
    pr_id: u64,
    current_branch: &str,
) -> (r: Result<(), AppError>)
    requires
        pr_id <= i64::MAX as u64,
    ensures
        match r {
            Result::Ok(u) => exists|si: int, bi: int, t: int|
                {
                    &&& is_first_containing_idx(old(store)@.stacks, current_branch@, si)
                    &&& is_first_branch_idx(old(store)@.stacks[si].branches, branch_name@, bi)
                    &&& final(store)@ == (StoreV {
                        stacks: old(store)@.stacks.update(
                            si,
                            #[trigger] stack_with_pr_info(
                                old(store)@.stacks[si],
                                bi,
                                pr_id as int,
                                t,
                            ),
                        ),
                        ..old(store)@
                    })
                },
            Result::Err(e) => {
                &&& final(store)@ == old(store)@
                &&& match e {
                    AppError::BranchNotPartOfStack => !crate::data::spec_store_has_branch(
                        old(store)@.stacks,
                        current_branch@,
                    ),
                    AppError::Other(m) => exists|si: int|
                        {
                            &&& is_first_containing_idx(old(store)@.stacks, current_branch@, si)
                            &&& !seq_has_branch(
                                #[trigger] old(store)@.stacks[si].branches,
                                branch_name@,
                            )
                            &&& m@ == crate::data::msg_branch_not_in_stack(branch_name@)
                        },
                    _ => false,
                }
            },
        },
{
    let ghost prev = store@;
    match crate::data::find_containing_stack_index(&store.stacks, current_branch) {
        Option::Some(si) => {
            match crate::data::find_branch_index(&store.stacks[si].branches, branch_name) {
                Option::Some(bi) => {
                    let t = crate::data::now_timestamp();
                    store.stacks[si].branches[bi].pr_id = pr_id as i64;
                    store.stacks[si].branches[bi].status = BranchStatus::Pending;
                    store.stacks[si].branches[bi].updated_at = t;
                    store.stacks[si].updated_at = t;
                    if str_eq(store.stacks[si].head_branch.name.as_str(), branch_name) {
                        store.stacks[si].head_branch.pr_id = pr_id as i64;
                        store.stacks[si].head_branch.status = BranchStatus::Pending;
                        store.stacks[si].head_branch.updated_at = t;
                    }
                    proof {
                        let sv = prev.stacks[si as int];
                        assert(final(store)@.stacks[si as int].branches =~= sv.branches.update(
                            bi as int,
                            (BranchV {
                                pr_id: pr_id as int,
                                status: BranchStatus::Pending,
                                updated_at: t as int,
                                ..sv.branches[bi as int]
                            }),
                        ));
                        assert(final(store)@.stacks[si as int] =~= stack_with_pr_info(
                            sv,
                            bi as int,
                            pr_id as int,
                            t as int,
                        ));
                        assert(final(store)@.stacks =~= prev.stacks.update(
                            si as int,
                            stack_with_pr_info(sv, bi as int, pr_id as int, t as int),
                        ));
                        assert(final(store)@ =~= (StoreV {
                            stacks: final(store)@.stacks,
                            ..prev
                        }));
                    }
                    Result::Ok(())
                },
                Option::None => {
                    let mut m = String::from_str("Branch '");
                    m.append(branch_name);
                    m.append("' not found in stack");
                    Result::Err(AppError::Other(m))
                },
            }
        },
        Option::None => Result::Err(AppError::BranchNotPartOfStack),
    }
}

/// The message reported when nothing sits between a branch and its parent.
pub open spec fn msg_nothing_to_submit(parent: Seq<char>, name: Seq<char>) -> Seq<char> {
    "No commits found between '"@ + parent + "' and '"@ + name + "'. Nothing to submit."@
}

/// The message reported when the parent is already merged.
pub open spec fn msg_parent_merged(parent: Seq<char>) -> Seq<char> {
    "Failed to create a pull request. The parent branch '"@ + parent
        + "' has already been merged. Please run 'zyra sync' to rebase the branch first."@
}

/// Validates a branch for single-branch submission: there must be commits
/// between its parent and itself (`has_commits` carries the executor's
/// answer), and a parent recorded in the stack must not be Merged.
pub fn validate_branch_for_submission(
    branch: &StackBranch,
    all_branches: &Vec<StackBranch>,
    has_commits: bool,
) -> (r: Result<(), AppError>)
    ensures
        ({
            let bs = all_branches@.map_values(|b: StackBranch| b@);
            let parent_merged = exists|i: int|
                is_first_branch_idx(bs, branch@.parent, i) && bs[i].status
                    == BranchStatus::Merged;
            match r {
                Result::Ok(u) => has_commits && !parent_merged,
                Result::Err(e) => {
                    &&& e matches AppError::Other(m)
                    &&& if !has_commits {
                        m@ == msg_nothing_to_submit(branch@.parent, branch@.name)
                    } else {
                        parent_merged && m@ == msg_parent_merged(branch@.parent)
                    }
                },
            }
        }),
{
    if !has_commits {
        let mut m = String::from_str("No commits found between '");
        m.append(branch.parent.as_str());
        m.append("' and '");
        m.append(branch.name.as_str());
        m.append("'. Nothing to submit.");
        return Result::Err(AppError::Other(m));
    }
    let ghost bs = all_branches@.map_values(|b: StackBranch| b@);
    match crate::data::find_branch_index(all_branches, branch.parent.as_str()) {
        Option::Some(i) => {
            proof {
                assert forall|j: int|
                    is_first_branch_idx(bs, branch@.parent, j) implies j == i as int by {
                    assert(is_first_branch_idx(bs, branch@.parent, i as int));
                }
            }
            match all_branches[i].status {
                BranchStatus::Merged => {
                    proof {
                        assert(is_first_branch_idx(bs, branch@.parent, i as int));
                        assert(bs[i as int].status == BranchStatus::Merged);
                    }
                    let mut m = String::from_str(
                        "Failed to create a pull request. The parent branch '",
                    );
                    m.append(branch.parent.as_str());
                    m.append(
                        "' has already been merged. Please run 'zyra sync' to rebase the branch first.",
                    );
                    Result::Err(AppError::Other(m))
                },
                _ => Result::Ok(()),
            }
        },
        Option::None => {
            proof {
                assert forall|j: int| !is_first_branch_idx(bs, branch@.parent, j) by {
                    if is_first_branch_idx(bs, branch@.parent, j) {
                        assert(seq_has_branch(bs, branch@.parent));
                    }
                }
            }
            Result::Ok(())
        },
    }
}

/// Whether a branch takes part in a whole-stack submission: never the root,
/// and only when commits sit between it and its parent.
pub fn should_submit_branch(branch: &StackBranch, has_commits: bool) -> (r: bool)
    ensures
        r == (branch@.parent.len() > 0 && has_commits),
{
    branch.parent.as_str().unicode_len() > 0 && has_commits
}

/// Pre-order names of the subtrees rooted at each of `kids`, siblings in
/// stored order: each child's name, then its own subtree.
pub open spec fn preorder_list(bs: Seq<BranchV>, kids: Seq<BranchV>, fuel: nat) -> Seq<Seq<char>>
    decreases fuel, 1 + kids.len(),
{
    if kids.len() == 0 {
        Seq::<Seq<char>>::empty()
    } else {
        seq![kids[0].name] + preorder_under(bs, kids[0].name, fuel) + preorder_list(
            bs,
            kids.skip(1),
            fuel,
        )
    }
}

/// Pre-order names strictly below the branch named `name`: parent before
/// children, siblings in stored order.  `fuel` bounds the walk so that even a
/// hand-edited state with a parent cycle terminates.
pub open spec fn preorder_under(bs: Seq<BranchV>, name: Seq<char>, fuel: nat) -> Seq<Seq<char>>
    decreases fuel, 0int,
{
    if fuel == 0 {
        Seq::<Seq<char>>::empty()
    } else {
        preorder_list(bs, children_of(bs, name), (fuel - 1) as nat)
    }
}

/// Collects the children of `parent` in stored order.
fn stored_children<'a>(branches: &'a Vec<StackBranch>, parent: &str) -> (r: Vec<&'a StackBranch>)
    ensures
        r@.map_values(|b: &StackBranch| b@) == children_of(
            branches@.map_values(|b: StackBranch| b@),
            parent@,
        ),
{
    let ghost bs = branches@.map_values(|b: StackBranch| b@);
    let mut out: Vec<&StackBranch> = Vec::new();
    let n = branches.len();
    let mut i: usize = 0;
    proof {
        assert(out@.map_values(|b: &StackBranch| b@) =~= children_of(
            bs.subrange(0, 0),
            parent@,
        ));
    }
    while i < n
        invariant
            n == branches@.len(),
            bs == branches@.map_values(|b: StackBranch| b@),
            0 <= i <= n,
            out@.map_values(|b: &StackBranch| b@) == children_of(
                bs.subrange(0, i as int),
                parent@,
            ),
        decreases n - i,
    {
        let ghost pre = bs.subrange(0, i as int);
        let ghost post = bs.subrange(0, i as int + 1);
        if str_eq(branches[i].parent.as_str(), parent) {
            let ghost before = out@.map_values(|b: &StackBranch| b@);
            out.push(&branches[i]);
            proof {
                assert(post.drop_last() =~= pre);
                assert(out@.map_values(|b: &StackBranch| b@) =~= before.push(bs[i as int]));
            }
        } else {
            proof {
                assert(post.drop_last() =~= pre);
            }
        }
        i = i + 1;
    }
    proof {
        assert(bs.subrange(0, n as int) =~= bs);
    }
    out
}

/// Collects, in pre-order, the names strictly below the branch named
/// `parent`.
fn preorder_collect(branches: &Vec<StackBranch>, parent: &str, fuel: usize) -> (r: Vec<String>)
    ensures
        r@.map_values(|s: String| s@) == preorder_under(
            branches@.map_values(|b: StackBranch| b@),
            parent@,
            fuel as nat,
        ),
    decreases fuel,
{
    let ghost bs = branches@.map_values(|b: StackBranch| b@);
    let mut out: Vec<String> = Vec::new();
    proof {
        assert(out@.map_values(|s: String| s@) =~= Seq::<Seq<char>>::empty());
    }
    if fuel == 0 {
        return out;
    }
    let kids = stored_children(branches, parent);
    let ghost kidsv = kids@.map_values(|b: &StackBranch| b@);
    let n = kids.len();
    let mut i: usize = 0;
    proof {
        assert(kidsv.skip(0) =~= kidsv);
        assert(out@.map_values(|s: String| s@) + preorder_list(bs, kidsv, (fuel - 1) as nat)
            =~= preorder_list(bs, kidsv, (fuel - 1) as nat));
    }
    while i < n
        invariant
            n == kids@.len(),
            fuel >= 1,
            bs == branches@.map_values(|b: StackBranch| b@),
            kidsv == kids@.map_values(|b: &StackBranch| b@),
            0 <= i <= n,
            out@.map_values(|s: String| s@) + preorder_list(
                bs,
                kidsv.skip(i as int),
                (fuel - 1) as nat,
            ) == preorder_list(bs, kidsv, (fuel - 1) as nat),
        decreases n - i,
    {
        let ghost before = out@.map_values(|s: String| s@);
        let child = kids[i];
        out.push(child.name.clone());
        let mut sub = preorder_collect(branches, child.name.as_str(), fuel - 1);
        let ghost subv = sub@.map_values(|s: String| s@);
        out.append(&mut sub);
        proof {
            let rest = kidsv.skip(i as int);
            assert(rest[0] == kidsv[i as int]);
            assert(rest.skip(1) =~= kidsv.skip(i as int + 1));
            assert(preorder_list(bs, rest, (fuel - 1) as nat) == seq![kidsv[i as int].name]
                + preorder_under(bs, kidsv[i as int].name, (fuel - 1) as nat) + preorder_list(
                bs,
                kidsv.skip(i as int + 1),
                (fuel - 1) as nat,
            ));
            assert(out@.map_values(|s: String| s@) =~= before + seq![kidsv[i as int].name]
                + subv);
            assert(out@.map_values(|s: String| s@) + preorder_list(
                bs,
                kidsv.skip(i as int + 1),
                (fuel - 1) as nat,
            ) =~= before + preorder_list(bs, rest, (fuel - 1) as nat));
        }
        i = i + 1;
    }
    proof {
        assert(kidsv.skip(n as int) =~= Seq::<BranchV>::empty());
        assert(out@.map_values(|s: String| s@) =~= out@.map_values(|s: String| s@)
            + preorder_list(bs, kidsv.skip(n as int), (fuel - 1) as nat));
        assert(preorder_under(bs, parent@, fuel as nat) == preorder_list(
            bs,
            children_of(bs, parent@),
            (fuel - 1) as nat,
        ));
    }
    out
}

/// The pre-order names strictly below the named branch: what a whole-stack
/// pass skips together with a branch it skips.
pub fn preorder_from(stack: &Stack, branch_name: &str) -> (r: Vec<String>)
    requires
        stack.branches@.len() < usize::MAX,
    ensures
        r@.map_values(|s: String| s@) == preorder_under(
            stack@.branches,
            branch_name@,
            stack@.branches.len() + 1,
        ),
{
    preorder_collect(&stack.branches, branch_name, stack.branches.len() + 1)
}

/// Whether `i` is the first position in `bs` holding a root branch.
pub open spec fn is_first_root_idx(bs: Seq<BranchV>, i: int) -> bool {
    &&& 0 <= i < bs.len()
    &&& bs[i].parent.len() == 0
    &&& forall|j: int| 0 <= j < i ==> (#[trigger] bs[j]).parent.len() > 0
}

/// The order a whole-stack submission processes branches in: starting at the
/// root's children, parent before children, siblings in stored order.  The
/// root itself is never submitted.
pub fn submit_order(stack: &Stack) -> (r: Result<Vec<String>, AppError>)
    requires
        stack.branches@.len() < usize::MAX,
    ensures
        match r {
            Result::Ok(v) => exists|i: int|
                #[trigger] is_first_root_idx(stack@.branches, i) && v@.map_values(|s: String| s@)
                    == preorder_under(
                    stack@.branches,
                    stack@.branches[i].name,
                    stack@.branches.len() + 1,
                ),
            Result::Err(e) => {
                &&& forall|j: int|
                    0 <= j < stack@.branches.len() ==> (#[trigger] stack@.branches[j]).parent.len()
                        > 0
                &&& e matches AppError::Other(m) && m@
                    == "Could not find the root branch in the stack"@
            },
        },
{
    let ghost bs = stack@.branches;
    let n = stack.branches.len();
    let mut i: usize = 0;
    while i < n
        invariant
            n == stack.branches@.len(),
            n < usize::MAX,
            bs == stack@.branches,
            0 <= i <= n,
            forall|j: int| 0 <= j < i ==> (#[trigger] bs[j]).parent.len() > 0,
        decreases n - i,
    {
        if stack.branches[i].parent.as_str().unicode_len() == 0 {
            let root_name = stack.branches[i].name.clone();
            let order = preorder_collect(&stack.branches, root_name.as_str(), n + 1);
            proof {
                assert(is_first_root_idx(bs, i as int));
            }
            return Result::Ok(order);
        }
        i = i + 1;
    }
    Result::Err(AppError::Other(String::from_str("Could not find the root branch in the stack")))
}

/// The remote side of a reconciliation decision.
#[derive(PartialEq, Eq, Structural, Debug, Clone, Copy)]
pub enum RemoteAction {
    /// The remote pull request already targets the right parent: no mutating
    /// remote call is made.
    NoRemoteChange,
    /// The remote pull request targets the wrong base: gather fresh details
    /// and update its title, body and base in one call.
    UpdatePr,
    /// No open pull request exists for the branch: create one onto the
    /// branch's parent.
    CreatePr,
}

/// A reconciliation decision: what to write back into the local cache, and
/// what to do remotely.
pub struct ReconcilePlan {
    /// The remote's identifier, when it differs from the cached one — the
    /// remote wins.
    pub cache_update: Option<u64>,
    pub action: RemoteAction,
}

/// Decides how to reconcile a branch with the remote record found for it.
/// When the remote pull request already exists and already targets the
/// branch's current parent, nothing mutating is planned beyond the caller's
/// idempotent push.
pub fn plan_reconcile(branch: &StackBranch, existing: &Option<PrRecord>) -> (r: ReconcilePlan)
    requires
        match existing {
            Option::Some(pr) => pr.number <= i64::MAX as u64,
            Option::None => true,
        },
    ensures
        match existing {
            Option::Some(pr) => {
                &&& r.cache_update == (if branch@.pr_id != pr@.number {
                    Option::Some(pr.number)
                } else {
                    Option::<u64>::None
                })
                &&& r.action == (if pr@.base_ref != branch@.parent {
                    RemoteAction::UpdatePr
                } else {
                    RemoteAction::NoRemoteChange
                })
            },
            Option::None => r.cache_update is None && r.action == RemoteAction::CreatePr,
        },
        (existing matches Option::Some(pr) && pr@.base_ref == branch@.parent) ==> r.action
            == RemoteAction::NoRemoteChange,
{
    match existing {
        Option::Some(pr) => {
            let cache_update = if branch.pr_id != pr.number as i64 {
                Option::Some(pr.number)
            } else {
                Option::None
            };
            let action = if !str_eq(pr.base_ref.as_str(), branch.parent.as_str()) {
                RemoteAction::UpdatePr
            } else {
                RemoteAction::NoRemoteChange
            };
            ReconcilePlan { cache_update, action }
        },
        Option::None => ReconcilePlan {
            cache_update: Option::None,
            action: RemoteAction::CreatePr,
        },
    }
}

/// Whether a remote head reference names this branch: either exactly, or as
/// the branch part of an `owner:branch` pair.
pub open spec fn head_matches(head: Seq<char>, name: Seq<char>) -> bool {
    head == name || (head.len() > name.len() && head.subrange(
        head.len() - name.len() - 1,
        head.len() as int,
    ) == seq![':'] + name)
}

fn head_matches_exec(head: &str, name: &str) -> (r: bool)
    ensures
        r == head_matches(head@, name@),
{
    if str_eq(head, name) {
        return true;
    }
    let hl = head.unicode_len();
    let nl = name.unicode_len();
    if hl <= nl {
        proof {
            assert(!head_matches(head@, name@));
        }
        return false;
    }
    let start = hl - nl - 1;
    if head.get_char(start) != ':' {
        proof {
            if head_matches(head@, name@) {
                assert(head@.subrange(start as int, hl as int)[0] == (seq![':'] + name@)[0]);
            }
        }
        return false;
    }
    let mut j: usize = 0;
    while j < nl
        invariant
            hl == head@.len(),
            nl == name@.len(),
            hl > nl,
            start == hl - nl - 1,
            head@[start as int] == ':',
            0 <= j <= nl,
            forall|k: int| 0 <= k < j ==> head@[start + 1 + k] == name@[k],
        decreases nl - j,
    {
        if head.get_char(start + 1 + j) != name.get_char(j) {
            proof {
                if head_matches(head@, name@) {
                    assert(head@.subrange(start as int, hl as int)[1 + j] == (seq![':']
                        + name@)[1 + j]);
                }
            }
            return false;
        }
        j = j + 1;
    }
    proof {
        assert(head@.subrange(start as int, hl as int) =~= seq![':'] + name@);
    }
    true
}

/// Finds the first open pull request whose source matches the branch name,
/// as the remote listed them.
pub fn find_pr_for_branch<'a>(prs: &'a Vec<PrRecord>, branch_name: &str) -> (r: Option<
    &'a PrRecord,
>)
    ensures
        match r {
            Option::Some(p) => exists|i: int|
                {
                    &&& 0 <= i < prs@.len()
                    &&& p@ == prs@[i]@
                    &&& head_matches(#[trigger] prs@[i]@.head_ref, branch_name@)
                    &&& forall|j: int|
                        0 <= j < i ==> !head_matches(#[trigger] prs@[j]@.head_ref, branch_name@)
                },
            Option::None => forall|j: int|
                0 <= j < prs@.len() ==> !head_matches(
                    #[trigger] prs@[j]@.head_ref,
                    branch_name@,
                ),
        },
{
    let n = prs.len();
    let mut i: usize = 0;
    while i < n
        invariant
            n == prs@.len(),
            0 <= i <= n,
            forall|j: int|
                0 <= j < i ==> !head_matches(#[trigger] prs@[j]@.head_ref, branch_name@),
        decreases n - i,
    {
        if head_matches_exec(prs[i].head_ref.as_str(), branch_name) {
            proof {
                assert(head_matches(prs@[i as int]@.head_ref, branch_name@));
            }
            return Option::Some(&prs[i]);
        }
        i = i + 1;
    }
    Option::None
}

/// The status glyph shown in the composite body.
pub open spec fn spec_glyph(st: BranchStatus) -> Seq<char> {
    match st {
        BranchStatus::Pending => "\u{23f3}"@,
        BranchStatus::Merged => "\u{2705}"@,
        BranchStatus::Conflict => "\u{274c}"@,
        BranchStatus::Testing => "\u{1f9ea}"@,
    }
}

fn status_glyph(st: BranchStatus) -> (r: &'static str)
    ensures
        r@ == spec_glyph(st),
{
    match st {
        BranchStatus::Pending => "\u{23f3}",
        BranchStatus::Merged => "\u{2705}",
        BranchStatus::Conflict => "\u{274c}",
        BranchStatus::Testing => "\u{1f9ea}",
    }
}

/// One bullet of the composite body: a status glyph, the branch name, and
/// the cached pull-request number when one is present.
pub open spec fn spec_bullet(b: BranchV) -> Seq<char> {
    "\n- "@ + spec_glyph(b.status) + " "@ + b.name + (if b.pr_id > 0 {
        " (PR #"@ + spec_u64_string(b.pr_id as nat) + ")"@
    } else {
        Seq::<char>::empty()
    })
}

/// One bullet per branch, in the snapshot's stored order.
pub open spec fn spec_bullets(bs: Seq<BranchV>) -> Seq<char>
    decreases bs.len(),
{
    if bs.len() == 0 {
        Seq::<char>::empty()
    } else {
        spec_bullets(bs.drop_last()) + spec_bullet(bs.last())
    }
}

/// The composite pull-request body: the human-authored text, then one
/// deterministic bullet per branch of the snapshot.
pub open spec fn spec_pr_body(base: Seq<char>, bs: Seq<BranchV>) -> Seq<char> {
    if bs.len() == 0 {
        base
    } else {
        base + "\n\n### Stack Information\n"@ + "This PR is part of a stack of branches:\n"@
            + spec_bullets(bs)
    }
}

/// Builds the composite body from the human-authored text and the stack
/// snapshot.
pub fn build_pr_body(base_body: String, all_branches: &Vec<StackBranch>) -> (r: String)
    ensures
        r@ == spec_pr_body(base_body@, all_branches@.map_values(|b: StackBranch| b@)),
{
    let ghost bs = all_branches@.map_values(|b: StackBranch| b@);
    let ghost base = base_body@;
    let mut out = base_body;
    if all_branches.len() == 0 {
        return out;
    }
    out.append("\n\n### Stack Information\n");
    out.append("This PR is part of a stack of branches:\n");
    let n = all_branches.len();
    let mut i: usize = 0;
    proof {
        assert(spec_bullets(bs.subrange(0, 0)) =~= Seq::<char>::empty());
        assert(out@ =~= base + "\n\n### Stack Information\n"@
            + "This PR is part of a stack of branches:\n"@ + spec_bullets(bs.subrange(0, 0)));
    }
    while i < n
        invariant
            n == all_branches@.len(),
            bs == all_branches@.map_values(|b: StackBranch| b@),
            0 <= i <= n,
            out@ == base + "\n\n### Stack Information\n"@
                + "This PR is part of a stack of branches:\n"@ + spec_bullets(
                bs.subrange(0, i as int),
            ),
        decreases n - i,
    {
        let b = &all_branches[i];
        let ghost before = out@;
        out.append("\n- ");
        out.append(status_glyph(b.status));
        out.append(" ");
        out.append(b.name.as_str());
        if b.pr_id > 0 {
            out.append(" (PR #");
            let num = crate::strutil::u64_to_string(b.pr_id as u64);
            out.append(num.as_str());
            out.append(")");
        }
        proof {
            let pre = bs.subrange(0, i as int);
            let post = bs.subrange(0, i as int + 1);
            assert(post.drop_last() =~= pre);
            assert(post.last() == bs[i as int]);
            assert(out@ =~= before + spec_bullet(bs[i as int]));
            assert(out@ =~= base + "\n\n### Stack Information\n"@
                + "This PR is part of a stack of branches:\n"@ + spec_bullets(post));
        }
        i = i + 1;
    }
    proof {
        assert(bs.subrange(0, n as int) =~= bs);
    }
    out
}

} // verus!
