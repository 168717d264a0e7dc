//! The cascading-rebase planner: which branches are replayed onto their
//! parents, and in what order.  The binary walks the plan, invoking the
//! executor's rebase per step, recording each new tip in memory through the
//! store's mutators, and saving once after the whole range — a step that
//! fails aborts the rebase and stops the pass, leaving the earlier hashes
//! updated in memory only.

use vstd::prelude::*;

use crate::data::{is_first_branch_idx, seq_has_branch, BranchV, Stack};
use crate::errors::AppError;

verus! {

/// Mathematical model of one rebase step.
#[verifier::ext_equal]
pub ghost struct RebaseStepV {
    pub branch: Seq<char>,
    pub parent: Seq<char>,
}

/// One planned rebase: replay `branch` onto the current tip of `parent`.
pub struct RebaseStep {
    pub branch: String,
    pub parent: String,
}

impl View for RebaseStep {
    type V = RebaseStepV;

    open spec fn view(&self) -> RebaseStepV {
        RebaseStepV { branch: self.branch@, parent: self.parent@ }
    }
}

/// The rebase steps for `bs[start..]`: one step per branch with a non-empty
/// parent, in stored order; roots are never rebased.
pub open spec fn spec_restack_steps(bs: Seq<BranchV>, start: int) -> Seq<RebaseStepV>
    decreases bs.len() - start,
{
    if start < 0 || start >= bs.len() {
        Seq::<RebaseStepV>::empty()
    } else if bs[start].parent.len() == 0 {
        spec_restack_steps(bs, start + 1)
    } else {
        seq![RebaseStepV { branch: bs[start].name, parent: bs[start].parent }]
            + spec_restack_steps(bs, start + 1)
    }
}

/// Every planned step targets a non-root branch at or after the start index:
/// the pass rebases only the requested range and never a root.
pub proof fn law_restack_steps_in_range(bs: Seq<BranchV>, start: int)
    ensures
        forall|k: int|
            0 <= k < spec_restack_steps(bs, start).len() ==> {
                let step = #[trigger] spec_restack_steps(bs, start)[k];
                &&& step.parent.len() > 0
                &&& exists|j: int|
                    start <= j < bs.len() && bs[j].name == step.branch && (#[trigger] bs[j]).parent
                        == step.parent
            },
    decreases bs.len() - start,
{
    if 0 <= start < bs.len() {
        law_restack_steps_in_range(bs, start + 1);
        assert forall|k: int|
            0 <= k < spec_restack_steps(bs, start).len() implies {
            let step = #[trigger] spec_restack_steps(bs, start)[k];
            &&& step.parent.len() > 0
            &&& exists|j: int|
                start <= j < bs.len() && bs[j].name == step.branch && (#[trigger] bs[j]).parent
                    == step.parent
        } by {
            let tail = spec_restack_steps(bs, start + 1);
            if bs[start].parent.len() == 0 {
                assert(spec_restack_steps(bs, start)[k] == tail[k]);
            } else {
                if k == 0 {
                    assert(bs[start].name == spec_restack_steps(bs, start)[0].branch);
                } else {
                    assert(spec_restack_steps(bs, start)[k] == tail[k - 1]);
                }
            }
        }
    }
}

/// Plans a restack pass over `stack`: with `all`, every branch from position
/// one onward; otherwise from the current branch's position onward.  Roots
/// (branches with an empty parent) are skipped.
pub fn restack_plan(stack: &Stack, all: bool, current_branch: &str) -> (r: Result<
    Vec<RebaseStep>,
    AppError,
>)
    ensures
        match r {
            Result::Ok(v) => {
                &&& all ==> v@.map_values(|s: RebaseStep| s@) == spec_restack_steps(
                    stack@.branches,
                    1,
                )
                &&& !all ==> exists|i: int|
                    #[trigger] is_first_branch_idx(stack@.branches, current_branch@, i) && v@
                        .map_values(|s: RebaseStep| s@) == spec_restack_steps(stack@.branches, i)
            },
            Result::Err(e) => {
                &&& !all
                &&& !seq_has_branch(stack@.branches, current_branch@)
                &&& e matches AppError::Other(m) && m@ == "Current branch not found in stack"@
            },
        },
{
    let ghost bs = stack@.branches;
    let start: usize = if all {
        1
    } else {
        match crate::data::find_branch_index(&stack.branches, current_branch) {
            Option::Some(i) => i,
            Option::None => {
                return Result::Err(
                    AppError::Other(String::from_str("Current branch not found in stack")),
                );
            },
        }
    };
    let mut steps: Vec<RebaseStep> = Vec::new();
    let n = stack.branches.len();
    let mut i: usize = start;
    proof {
        assert(steps@.map_values(|s: RebaseStep| s@) =~= Seq::<RebaseStepV>::empty());
    }
    while i < n
        invariant
            n == stack.branches@.len(),
            bs == stack@.branches,
            start <= i <= n || (start >= n && i == start),
            steps@.map_values(|s: RebaseStep| s@) + spec_restack_steps(bs, i as int)
                == spec_restack_steps(bs, start as int),
        decreases n - i,
    {
        let b = &stack.branches[i];
        if b.parent.as_str().unicode_len() > 0 {
            let ghost before = steps@.map_values(|s: RebaseStep| s@);
            let step = RebaseStep { branch: b.name.clone(), parent: b.parent.clone() };
            steps.push(step);
            proof {
                assert(steps@.map_values(|s: RebaseStep| s@) =~= before.push(
                    (RebaseStepV { branch: bs[i as int].name, parent: bs[i as int].parent }),
                ));
                assert(spec_restack_steps(bs, i as int) == seq![
                    (RebaseStepV { branch: bs[i as int].name, parent: bs[i as int].parent }),
                ] + spec_restack_steps(bs, i as int + 1));
                assert(steps@.map_values(|s: RebaseStep| s@) + spec_restack_steps(
                    bs,
                    i as int + 1,
                ) =~= before + spec_restack_steps(bs, i as int));
            }
        }
        i = i + 1;
    }
    proof {
        assert(spec_restack_steps(bs, i as int) =~= Seq::<RebaseStepV>::empty());
        assert(steps@.map_values(|s: RebaseStep| s@) =~= steps@.map_values(|s: RebaseStep| s@)
            + Seq::<RebaseStepV>::empty());
    }
    Result::Ok(steps)
}

} // verus!
