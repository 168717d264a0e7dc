//! The branch-stack data model: branches with parent links, stacks as rooted
//! trees of branches, and the store that persists every stack.

use vstd::prelude::*;

use crate::errors::AppError;

verus! {

/// The sentinel a branch's pull-request id holds while no pull request is
/// known for it.
pub const PR_ID_NONE: i64 = -1;

/// Sync state of a branch within its stack.
#[derive(Clone, Copy, Debug, PartialEq, Eq, Structural)]
pub enum BranchStatus {
    Pending,
    Merged,
    Conflict,
    Testing,
}

/// The canonical name of a status.
pub open spec fn status_label_seq(st: BranchStatus) -> Seq<char> {
    match st {
        BranchStatus::Pending => "Pending"@,
        BranchStatus::Merged => "Merged"@,
        BranchStatus::Conflict => "Conflict"@,
        BranchStatus::Testing => "Testing"@,
    }
}

impl BranchStatus {
    /// The status name, as rendered into reports and the persisted document.
    pub fn label(&self) -> (r: &'static str)
        ensures
            r@ == status_label_seq(*self),
    {
        match self {
            BranchStatus::Pending => "Pending",
            BranchStatus::Merged => "Merged",
            BranchStatus::Conflict => "Conflict",
            BranchStatus::Testing => "Testing",
        }
    }
}

/// Mathematical model of a branch: every field as a plain value.
#[verifier::ext_equal]
pub ghost struct BranchV {
    pub name: Seq<char>,
    pub commit_hash: Seq<char>,
    pub pr_id: int,
    pub status: BranchStatus,
    pub parent: Seq<char>,
    pub created_at: int,
    pub updated_at: int,
}

/// An individual branch in a stack.  `parent` names the parent branch in the
/// same stack and is empty for a root; `commit_hash` is an advisory cache of
/// the last known tip; timestamps are seconds.
pub struct StackBranch {
    pub name: String,
    pub commit_hash: String,
    pub pr_id: i64,
    pub status: BranchStatus,
    pub parent: String,
    pub created_at: i64,
    pub updated_at: i64,
}

impl View for StackBranch {
    type V = BranchV;

    open spec fn view(&self) -> BranchV {
        BranchV {
            name: self.name@,
            commit_hash: self.commit_hash@,
            pr_id: self.pr_id as int,
            status: self.status,
            parent: self.parent@,
            created_at: self.created_at as int,
            updated_at: self.updated_at as int,
        }
    }
}

/// Mathematical model of a stack.
#[verifier::ext_equal]
pub ghost struct StackV {
    pub name: Seq<char>,
    pub base_branch: Seq<char>,
    pub head_branch: BranchV,
    pub branches: Seq<BranchV>,
    pub created_at: int,
    pub updated_at: int,
}

/// One rooted tree of branches.  `head_branch` is a denormalized copy of the
/// root branch; every write to the root in `branches` mirrors into it.  The
/// branch list keeps insertion order, which is not necessarily topological.
pub struct Stack {
    pub name: String,
    pub base_branch: String,
    pub head_branch: StackBranch,
    pub branches: Vec<StackBranch>,
    pub created_at: i64,
    pub updated_at: i64,
}

impl View for Stack {
    type V = StackV;

    open spec fn view(&self) -> StackV {
        StackV {
            name: self.name@,
            base_branch: self.base_branch@,
            head_branch: self.head_branch@,
            branches: self.branches@.map_values(|b: StackBranch| b@),
            created_at: self.created_at as int,
            updated_at: self.updated_at as int,
        }
    }
}

/// Mathematical model of a detached-head record.
#[verifier::ext_equal]
pub ghost struct DetachedV {
    pub stack_name: Seq<char>,
    pub branch_name: Seq<char>,
}

/// Marks that the working tree sits on a raw commit reachable from
/// `branch_name` of `stack_name`.
pub struct DetachedHeadContext {
    pub stack_name: String,
    pub branch_name: String,
}

impl View for DetachedHeadContext {
    type V = DetachedV;

    open spec fn view(&self) -> DetachedV {
        DetachedV { stack_name: self.stack_name@, branch_name: self.branch_name@ }
    }
}

/// Mathematical model of the whole store.
#[verifier::ext_equal]
pub ghost struct StoreV {
    pub stacks: Seq<StackV>,
    pub version: Seq<char>,
    pub detached: Option<DetachedV>,
}

/// The persisted collection of all stacks, plus the schema version and the
/// optional detached-head record.
pub struct SolMetadata {
    pub stacks: Vec<Stack>,
    pub version: String,
    pub detached_head_context: Option<DetachedHeadContext>,
}

impl View for SolMetadata {
    type V = StoreV;

    open spec fn view(&self) -> StoreV {
        StoreV {
            stacks: self.stacks@.map_values(|s: Stack| s@),
            version: self.version@,
            detached: match self.detached_head_context {
                Option::Some(c) => Option::Some(c@),
                Option::None => Option::None,
            },
        }
    }
}

/// Whether some branch in `bs` is named `n`.
pub open spec fn seq_has_branch(bs: Seq<BranchV>, n: Seq<char>) -> bool {
    exists|i: int| 0 <= i < bs.len() && bs[i].name == n
}

/// Whether `i` is the first position in `bs` holding a branch named `n`.
pub open spec fn is_first_branch_idx(bs: Seq<BranchV>, n: Seq<char>, i: int) -> bool {
    &&& 0 <= i < bs.len()
    &&& bs[i].name == n
    &&& forall|j: int| 0 <= j < i ==> bs[j].name != n
}

/// `b` with its commit hash replaced by `c` and its update time by `t`.
pub open spec fn branch_with_commit(b: BranchV, c: Seq<char>, t: int) -> BranchV {
    BranchV { commit_hash: c, updated_at: t, ..b }
}

/// Reads the clock.
///
/// Relies on `chrono::Utc::now`: the current time as a UTC timestamp in
/// seconds.  Nothing can be promised of a clock reading, so callers treat the
/// result as an arbitrary value.
#[verifier::external_body]
pub(crate) fn now_timestamp() -> i64 {
    chrono::Utc::now().timestamp()
}

/// Finds the first branch in `branches` named `name`.
pub(crate) fn find_branch_index(branches: &Vec<StackBranch>, name: &str) -> (r: Option<usize>)
    ensures
        match r {
            Option::Some(i) => is_first_branch_idx(
                branches@.map_values(|b: StackBranch| b@),
                name@,
                i as int,
            ),
            Option::None => !seq_has_branch(branches@.map_values(|b: StackBranch| b@), name@),
        },
{
    let ghost bs = branches@.map_values(|b: StackBranch| b@);
    let n = branches.len();
    let mut i: usize = 0;
    while i < n
        invariant
            n == branches@.len(),
            bs == branches@.map_values(|b: StackBranch| b@),
            0 <= i <= n,
            forall|j: int| 0 <= j < i ==> bs[j].name != name@,
        decreases n - i,
    {
        if crate::strutil::str_eq(branches[i].name.as_str(), name) {
            return Option::Some(i);
        }
        i = i + 1;
    }
    Option::None
}

/// The branches of `bs` whose parent field is `parent`, in stored order.
pub open spec fn children_of(bs: Seq<BranchV>, parent: Seq<char>) -> Seq<BranchV>
    decreases bs.len(),
{
    if bs.len() == 0 {
        Seq::<BranchV>::empty()
    } else if bs.last().parent == parent {
        children_of(bs.drop_last(), parent).push(bs.last())
    } else {
        children_of(bs.drop_last(), parent)
    }
}

/// Inserts `b` into `s` before every element created strictly later, after
/// everything created at the same time or earlier: the insertion step of a
/// stable sort by creation time.
pub open spec fn insert_by_time(s: Seq<BranchV>, b: BranchV) -> Seq<BranchV>
    decreases s.len(),
{
    if s.len() == 0 {
        seq![b]
    } else if b.created_at < s.last().created_at {
        insert_by_time(s.drop_last(), b).push(s.last())
    } else {
        s.push(b)
    }
}

/// Stable sort by creation time: ties keep their relative order.
pub open spec fn sort_by_time(s: Seq<BranchV>) -> Seq<BranchV>
    decreases s.len(),
{
    if s.len() == 0 {
        Seq::<BranchV>::empty()
    } else {
        insert_by_time(sort_by_time(s.drop_last()), s.last())
    }
}

/// `insert_by_time` places `b` exactly at the boundary `j` between the
/// elements created no later than `b` and the suffix created strictly later.
proof fn lemma_insert_by_time_split(s: Seq<BranchV>, b: BranchV, j: int)
    requires
        0 <= j <= s.len(),
        forall|k: int| j <= k < s.len() ==> s[k].created_at > b.created_at,
        j > 0 ==> s[j - 1].created_at <= b.created_at,
    ensures
        insert_by_time(s, b) == s.subrange(0, j).push(b) + s.subrange(j, s.len() as int),
    decreases s.len(),
{
    if s.len() == 0 {
        assert(insert_by_time(s, b) =~= s.subrange(0, j).push(b) + s.subrange(j, s.len() as int));
    } else if b.created_at < s.last().created_at {
        assert(j < s.len());
        let dl = s.drop_last();
        lemma_insert_by_time_split(dl, b, j);
        assert(dl.subrange(0, j) =~= s.subrange(0, j));
        assert(dl.subrange(j, dl.len() as int) =~= s.subrange(j, s.len() as int - 1));
        assert(insert_by_time(s, b) =~= s.subrange(0, j).push(b) + s.subrange(
            j,
            s.len() as int,
        ));
    } else {
        assert(j == s.len());
        assert(insert_by_time(s, b) =~= s.subrange(0, j).push(b) + s.subrange(
            j,
            s.len() as int,
        ));
    }
}

impl StackBranch {
    /// A fresh branch with the given tip cache, no parent, no pull request,
    /// and both timestamps set to `now`.
    pub fn new_at(name: String, commit_hash: String, now: i64) -> (r: StackBranch)
        ensures
            r@ == (BranchV {
                name: name@,
                commit_hash: commit_hash@,
                pr_id: PR_ID_NONE as int,
                status: BranchStatus::Pending,
                parent: Seq::<char>::empty(),
                created_at: now as int,
                updated_at: now as int,
            }),
    {
        let r = StackBranch {
            name,
            commit_hash,
            pr_id: PR_ID_NONE,
            status: BranchStatus::Pending,
            parent: String::new(),
            created_at: now,
            updated_at: now,
        };
        proof {
            assert(r@.parent =~= Seq::<char>::empty());
            assert(r@ =~= (BranchV {
                name: r.name@,
                commit_hash: r.commit_hash@,
                pr_id: PR_ID_NONE as int,
                status: BranchStatus::Pending,
                parent: Seq::<char>::empty(),
                created_at: now as int,
                updated_at: now as int,
            }));
        }
        r
    }

    /// A fresh branch stamped with the current time.
    pub fn new(name: String, commit_hash: String) -> (r: StackBranch)
        ensures
            r@.name == name@,
            r@.commit_hash == commit_hash@,
            r@.pr_id == PR_ID_NONE as int,
            r@.status == BranchStatus::Pending,
            r@.parent == Seq::<char>::empty(),
            r@.created_at == r@.updated_at,
    {
        let now = now_timestamp();
        StackBranch::new_at(name, commit_hash, now)
    }

    /// Sets the status and stamps the update time.
    pub fn set_status(&mut self, status: BranchStatus)
        ensures
            final(self)@ == (BranchV {
                status: status,
                updated_at: final(self)@.updated_at,
                ..old(self)@
            }),
    {
        self.status = status;
        self.updated_at = now_timestamp();
    }

    /// Sets the cached tip commit and stamps the update time.
    pub fn set_commit_hash(&mut self, commit_hash: &str)
        ensures
            final(self)@ == (BranchV {
                commit_hash: commit_hash@,
                updated_at: final(self)@.updated_at,
                ..old(self)@
            }),
    {
        self.commit_hash = commit_hash.to_owned();
        self.updated_at = now_timestamp();
    }

    /// Records the external pull-request identifier.
    pub fn set_pr_id(&mut self, pr_id: u64)
        requires
            pr_id <= i64::MAX as u64,
        ensures
            final(self)@ == (BranchV { pr_id: pr_id as int, ..old(self)@ }),
    {
        self.pr_id = pr_id as i64;
    }

    /// Repoints the branch at a new parent.
    pub fn set_parent(&mut self, parent: &str)
        ensures
            final(self)@ == (BranchV { parent: parent@, ..old(self)@ }),
    {
        self.parent = parent.to_owned();
    }
}

impl Clone for StackBranch {
    /// An exact copy.
    fn clone(&self) -> (r: Self)
        ensures
            r == *self,
    {
        StackBranch {
            name: self.name.clone(),
            commit_hash: self.commit_hash.clone(),
            pr_id: self.pr_id,
            status: self.status,
            parent: self.parent.clone(),
            created_at: self.created_at,
            updated_at: self.updated_at,
        }
    }
}

/// The message reported when `name` is not a branch of the stack at hand.
pub open spec fn msg_branch_not_in_stack(name: Seq<char>) -> Seq<char> {
    "Branch '"@ + name + "' not found in stack"@
}

/// `s` with the branch at `bi` recached to commit `c` at time `t`, the
/// denormalized root copy mirrored when that branch is the root, and the
/// stack's own update time stamped: the single routine every commit-hash
/// write funnels through.
pub open spec fn stack_with_commit(s: StackV, bi: int, c: Seq<char>, t: int) -> StackV {
    StackV {
        branches: s.branches.update(bi, branch_with_commit(s.branches[bi], c, t)),
        head_branch: if s.head_branch.name == s.branches[bi].name {
            branch_with_commit(s.head_branch, c, t)
        } else {
            s.head_branch
        },
        updated_at: t,
        ..s
    }
}

impl Stack {
    /// A fresh stack: one root branch named after the stack, whose tip cache
    /// starts out as the base branch name, mirrored into the root copy.
    pub fn new_at(name: String, base_branch: String, now: i64) -> (r: Stack)
        ensures
            r@.name == name@,
            r@.base_branch == base_branch@,
            r@.branches.len() == 1,
            r@.branches[0] == (BranchV {
                name: name@,
                commit_hash: base_branch@,
                pr_id: PR_ID_NONE as int,
                status: BranchStatus::Pending,
                parent: Seq::<char>::empty(),
                created_at: now as int,
                updated_at: now as int,
            }),
            r@.head_branch == r@.branches[0],
            r@.created_at == now as int,
            r@.updated_at == now as int,
    {
        let branch = StackBranch::new_at(name.clone(), base_branch.clone(), now);
        let head = branch.clone();
        let mut branches: Vec<StackBranch> = Vec::new();
        branches.push(branch);
        let r = Stack { name, base_branch, head_branch: head, branches, created_at: now, updated_at: now };
        proof {
            assert(r@.branches =~= seq![r.branches@[0]@]);
        }
        r
    }

    /// A fresh stack stamped with the current time.
    pub fn new(name: String, base_branch: String) -> (r: Stack)
        ensures
            r@.name == name@,
            r@.base_branch == base_branch@,
            r@.branches.len() == 1,
            r@.branches[0].name == name@,
            r@.branches[0].commit_hash == base_branch@,
            r@.branches[0].pr_id == PR_ID_NONE as int,
            r@.branches[0].status == BranchStatus::Pending,
            r@.branches[0].parent == Seq::<char>::empty(),
            r@.head_branch == r@.branches[0],
            r@.created_at == r@.updated_at,
    {
        let now = now_timestamp();
        Stack::new_at(name, base_branch, now)
    }

    /// Appends a branch.  Name uniqueness is enforced by the store and the
    /// callers, not here.
    pub fn add_branch(&mut self, branch: StackBranch) -> (r: Result<(), AppError>)
        ensures
            r is Ok,
            final(self)@ == (StackV { branches: old(self)@.branches.push(branch@), ..old(self)@ }),
    {
        let ghost prev = self@;
        self.branches.push(branch);
        proof {
            assert(final(self)@.branches =~= prev.branches.push(branch@));
            assert(final(self)@ =~= (StackV { branches: prev.branches.push(branch@), ..prev }));
        }
        Result::Ok(())
    }

    /// Looks a branch up by name; the first match wins.
    pub fn get_branch(&self, name: &str) -> (r: Result<&StackBranch, AppError>)
        ensures
            match r {
                Result::Ok(b) => exists|i: int|
                    is_first_branch_idx(self@.branches, name@, i) && b@ == self@.branches[i],
                Result::Err(e) => {
                    &&& !seq_has_branch(self@.branches, name@)
                    &&& e matches AppError::Other(m) && m@ == "Branch not found"@
                },
            },
    {
        match find_branch_index(&self.branches, name) {
            Option::Some(i) => {
                let b = &self.branches[i];
                proof {
                    assert(b@ == self@.branches[i as int]);
                    assert(is_first_branch_idx(self@.branches, name@, i as int));
                }
                Result::Ok(b)
            },
            Option::None => Result::Err(
                AppError::Other(String::from_str("Branch not found")),
            ),
        }
    }

    /// Whether a branch of that name is in this stack.
    pub fn has_branch(&self, name: &str) -> (r: bool)
        ensures
            r == seq_has_branch(self@.branches, name@),
    {
        match find_branch_index(&self.branches, name) {
            Option::Some(_) => true,
            Option::None => false,
        }
    }

    /// Removes the first branch of that name from the list.  The denormalized
    /// root copy and the other branches' parent fields are left as they are:
    /// traversals tolerate the dangling references this can leave behind.
    pub fn remove_branch(&mut self, branch_name: &str) -> (r: Result<(), AppError>)
        ensures
            match r {
                Result::Ok(u) => exists|i: int|
                    is_first_branch_idx(old(self)@.branches, branch_name@, i) && final(self)@
                        == (StackV { branches: old(self)@.branches.remove(i), ..old(self)@ }),
                Result::Err(e) => {
                    &&& !seq_has_branch(old(self)@.branches, branch_name@)
                    &&& final(self)@ == old(self)@
                    &&& e matches AppError::Other(m) && m@ == "Branch not found"@
                },
            },
    {
        let ghost prev = self@;
        match find_branch_index(&self.branches, branch_name) {
            Option::Some(i) => {
                self.branches.remove(i);
                proof {
                    assert(final(self)@.branches =~= prev.branches.remove(i as int));
                    assert(final(self)@ =~= (StackV {
                        branches: prev.branches.remove(i as int),
                        ..prev
                    }));
                }
                Result::Ok(())
            },
            Option::None => Result::Err(
                AppError::Other(String::from_str("Branch not found")),
            ),
        }
    }

    /// The children of `branch_name`, ordered by creation time ascending,
    /// ties by insertion order — stable across repeated calls.
    pub fn get_children<'a>(&'a self, branch_name: &str) -> (r: Result<
        Vec<&'a StackBranch>,
        AppError,
    >)
        ensures
            match r {
                Result::Ok(v) => v@.map_values(|b: &StackBranch| b@) == sort_by_time(
                    children_of(self@.branches, branch_name@),
                ),
                Result::Err(e) => false,
            },
    {
        let ghost all = self@.branches;
        let mut result: Vec<&StackBranch> = Vec::new();
        let n = self.branches.len();
        let mut i: usize = 0;
        while i < n
            invariant
                n == self.branches@.len(),
                all == self@.branches,
                0 <= i <= n,
                result@.map_values(|b: &StackBranch| b@) == sort_by_time(
                    children_of(all.subrange(0, i as int), branch_name@),
                ),
            decreases n - i,
        {
            let ghost seen = all.subrange(0, i as int);
            if crate::strutil::str_eq(self.branches[i].parent.as_str(), branch_name) {
                let b = &self.branches[i];
                let ghost sorted = sort_by_time(children_of(seen, branch_name@));
                // scan from the right for the stable insertion point
                let mut j: usize = result.len();
                while j > 0 && result[j - 1].created_at > b.created_at
                    invariant
                        0 <= j <= result@.len(),
                        result@.map_values(|x: &StackBranch| x@) == sorted,
                        forall|k: int|
                            j <= k < result@.len() ==> sorted[k].created_at > b@.created_at,
                    decreases j,
                {
                    j = j - 1;
                }
                result.insert(j, b);
                proof {
                    lemma_insert_by_time_split(sorted, b@, j as int);
                    let post = all.subrange(0, i as int + 1);
                    assert(post.drop_last() =~= seen);
                    assert(children_of(post, branch_name@) == children_of(seen, branch_name@).push(
                        b@,
                    ));
                    assert(children_of(seen, branch_name@).push(b@).drop_last() =~= children_of(
                        seen,
                        branch_name@,
                    ));
                    assert(sort_by_time(children_of(post, branch_name@)) == insert_by_time(
                        sorted,
                        b@,
                    ));
                    assert(result@.map_values(|x: &StackBranch| x@) =~= sorted.subrange(
                        0,
                        j as int,
                    ).push(b@) + sorted.subrange(j as int, sorted.len() as int));
                }
            } else {
                proof {
                    let post = all.subrange(0, i as int + 1);
                    assert(post.drop_last() =~= seen);
                    assert(children_of(post, branch_name@) == children_of(seen, branch_name@));
                }
            }
            i = i + 1;
        }
        proof {
            assert(all.subrange(0, n as int) =~= all);
        }
        Result::Ok(result)
    }

    /// Recaches the named branch's tip commit, mirroring the root copy when
    /// needed and stamping the stack's update time.
    pub fn update_branch_commit_hash(&mut self, branch_name: &str, commit_hash: &str) -> (r:
        Result<(), AppError>)
        ensures
            match r {
                Result::Ok(u) => exists|i: int, t: int|
                    is_first_branch_idx(old(self)@.branches, branch_name@, i) && final(self)@
                        == stack_with_commit(old(self)@, i, commit_hash@, t),
                Result::Err(e) => {
                    &&& !seq_has_branch(old(self)@.branches, branch_name@)
                    &&& final(self)@ == old(self)@
                    &&& e matches AppError::Other(m) && m@ == msg_branch_not_in_stack(branch_name@)
                },
            },
    {
        let ghost prev = self@;
        match find_branch_index(&self.branches, branch_name) {
            Option::Some(i) => {
                let t = now_timestamp();
                self.branches[i].commit_hash = commit_hash.to_owned();
                self.branches[i].updated_at = t;
                self.updated_at = t;
                if crate::strutil::str_eq(self.head_branch.name.as_str(), branch_name) {
                    self.head_branch.commit_hash = commit_hash.to_owned();
                    self.head_branch.updated_at = t;
                }
                proof {
                    assert(final(self)@.branches =~= prev.branches.update(
                        i as int,
                        branch_with_commit(prev.branches[i as int], commit_hash@, t as int),
                    ));
                    assert(final(self)@ =~= stack_with_commit(
                        prev,
                        i as int,
                        commit_hash@,
                        t as int,
                    ));
                }
                Result::Ok(())
            },
            Option::None => {
                let mut m = String::from_str("Branch '");
                m.append(branch_name);
                m.append("' not found in stack");
                Result::Err(AppError::Other(m))
            },
        }
    }
}

/// Whether some stack in `stacks` is named `n`.
pub open spec fn spec_has_stack(stacks: Seq<StackV>, n: Seq<char>) -> bool {
    exists|i: int| 0 <= i < stacks.len() && stacks[i].name == n
}

/// Whether `i` is the first position in `stacks` holding a stack named `n`.
pub open spec fn is_first_stack_idx(stacks: Seq<StackV>, n: Seq<char>, i: int) -> bool {
    &&& 0 <= i < stacks.len()
    &&& stacks[i].name == n
    &&& forall|j: int| 0 <= j < i ==> stacks[j].name != n
}

/// Whether some stack in `stacks` contains a branch named `n`.
pub open spec fn spec_store_has_branch(stacks: Seq<StackV>, n: Seq<char>) -> bool {
    exists|i: int| 0 <= i < stacks.len() && seq_has_branch(#[trigger] stacks[i].branches, n)
}

/// Whether `i` is the first position in `stacks` whose stack contains a
/// branch named `n`.
pub open spec fn is_first_containing_idx(stacks: Seq<StackV>, n: Seq<char>, i: int) -> bool {
    &&& 0 <= i < stacks.len()
    &&& seq_has_branch(stacks[i].branches, n)
    &&& forall|j: int| 0 <= j < i ==> !seq_has_branch(#[trigger] stacks[j].branches, n)
}

/// `s` with the branch at `bi` given pull-request id `id` (root copy
/// mirrored) and the stack's update time stamped to `t`.
pub open spec fn stack_with_pr(s: StackV, bi: int, id: int, t: int) -> StackV {
    StackV {
        branches: s.branches.update(bi, (BranchV { pr_id: id, ..s.branches[bi] })),
        head_branch: if s.head_branch.name == s.branches[bi].name {
            BranchV { pr_id: id, ..s.head_branch }
        } else {
            s.head_branch
        },
        updated_at: t,
        ..s
    }
}

/// `s` with the branch at `bi` given status `st` at time `t` (root copy
/// mirrored) and the stack's update time stamped.
pub open spec fn stack_with_status(s: StackV, bi: int, st: BranchStatus, t: int) -> StackV {
    StackV {
        branches: s.branches.update(bi, (BranchV { status: st, updated_at: t, ..s.branches[bi] })),
        head_branch: if s.head_branch.name == s.branches[bi].name {
            BranchV { status: st, updated_at: t, ..s.head_branch }
        } else {
            s.head_branch
        },
        updated_at: t,
        ..s
    }
}

/// Well-formedness of one stack: at least one branch, branch names unique
/// within the stack, exactly one root (a branch with an empty parent) with
/// the denormalized copy equal to it, and every non-empty parent naming a
/// branch of the same stack.
pub open spec fn stack_wf(s: StackV) -> bool {
    &&& s.branches.len() >= 1
    &&& forall|i: int, j: int|
        0 <= i < j < s.branches.len() ==> s.branches[i].name != s.branches[j].name
    &&& exists|i: int|
        {
            &&& 0 <= i < s.branches.len()
            &&& (#[trigger] s.branches[i]).parent.len() == 0
            &&& s.head_branch == s.branches[i]
        }
    &&& forall|i: int, j: int|
        0 <= i < s.branches.len() && 0 <= j < s.branches.len() && (
        #[trigger] s.branches[i]).parent.len() == 0 && (#[trigger] s.branches[j]).parent.len() == 0
            ==> i == j
    &&& forall|i: int|
        0 <= i < s.branches.len() && (#[trigger] s.branches[i]).parent.len() > 0
            ==> seq_has_branch(s.branches, s.branches[i].parent)
}

/// Well-formedness of the whole store: every stack well formed, stack names
/// unique, and branch names unique across the entire store.
pub open spec fn store_wf(stacks: Seq<StackV>) -> bool {
    &&& forall|i: int| 0 <= i < stacks.len() ==> stack_wf(#[trigger] stacks[i])
    &&& forall|i: int, j: int| 0 <= i < j < stacks.len() ==> stacks[i].name != stacks[j].name
    &&& forall|i: int, j: int, bi: int, bj: int|
        0 <= i < stacks.len() && 0 <= j < stacks.len() && i != j && 0 <= bi
            < stacks[i].branches.len() && 0 <= bj < stacks[j].branches.len() ==> (
        #[trigger] stacks[i].branches[bi]).name != (#[trigger] stacks[j].branches[bj]).name
}

/// A fresh stack is well formed: one root, mirrored into the head copy.
pub proof fn law_new_stack_wf(s: StackV)
    requires
        s.branches.len() == 1,
        s.branches[0].parent.len() == 0,
        s.head_branch == s.branches[0],
    ensures
        stack_wf(s),
{
}

/// The single commit-update routine keeps a stack well formed: names and
/// parents are untouched, and the denormalized head copy is mirrored exactly
/// when the updated branch is the root.
pub proof fn law_commit_update_preserves_wf(s: StackV, bi: int, c: Seq<char>, t: int)
    requires
        stack_wf(s),
        0 <= bi < s.branches.len(),
    ensures
        stack_wf(stack_with_commit(s, bi, c, t)),
{
    let s2 = stack_with_commit(s, bi, c, t);
    let root = choose|i: int|
        0 <= i < s.branches.len() && (#[trigger] s.branches[i]).parent.len() == 0 && s.head_branch
            == s.branches[i];
    assert forall|i: int|
        0 <= i < s2.branches.len() && (#[trigger] s2.branches[i]).parent.len() > 0
            implies seq_has_branch(s2.branches, s2.branches[i].parent) by {
        assert(s2.branches[i].parent == s.branches[i].parent);
        assert(seq_has_branch(s.branches, s.branches[i].parent));
        let w = choose|j: int|
            0 <= j < s.branches.len() && s.branches[j].name == s.branches[i].parent;
        assert(s2.branches[w].name == s.branches[i].parent);
    }
    if bi == root {
        assert(s2.head_branch == s2.branches[root]);
    } else {
        assert(s.branches[bi].name != s.branches[root].name);
        assert(s2.head_branch == s2.branches[root]);
    }
    assert(0 <= root < s2.branches.len() && s2.branches[root].parent.len() == 0 && s2.head_branch
        == s2.branches[root]);
}

/// The pull-request-id update routine keeps a stack well formed, for the
/// same reason the commit update does.
pub proof fn law_pr_update_preserves_wf(s: StackV, bi: int, id: int, t: int)
    requires
        stack_wf(s),
        0 <= bi < s.branches.len(),
    ensures
        stack_wf(stack_with_pr(s, bi, id, t)),
{
    let s2 = stack_with_pr(s, bi, id, t);
    let root = choose|i: int|
        0 <= i < s.branches.len() && (#[trigger] s.branches[i]).parent.len() == 0 && s.head_branch
            == s.branches[i];
    assert forall|i: int|
        0 <= i < s2.branches.len() && (#[trigger] s2.branches[i]).parent.len() > 0
            implies seq_has_branch(s2.branches, s2.branches[i].parent) by {
        assert(s2.branches[i].parent == s.branches[i].parent);
        assert(seq_has_branch(s.branches, s.branches[i].parent));
        let w = choose|j: int|
            0 <= j < s.branches.len() && s.branches[j].name == s.branches[i].parent;
        assert(s2.branches[w].name == s.branches[i].parent);
    }
    if bi == root {
        assert(s2.head_branch == s2.branches[root]);
    } else {
        assert(s.branches[bi].name != s.branches[root].name);
        assert(s2.head_branch == s2.branches[root]);
    }
    assert(0 <= root < s2.branches.len() && s2.branches[root].parent.len() == 0 && s2.head_branch
        == s2.branches[root]);
}

/// The status update routine keeps a stack well formed, for the same reason
/// the commit update does.
pub proof fn law_status_update_preserves_wf(s: StackV, bi: int, st: BranchStatus, t: int)
    requires
        stack_wf(s),
        0 <= bi < s.branches.len(),
    ensures
        stack_wf(stack_with_status(s, bi, st, t)),
{
    let s2 = stack_with_status(s, bi, st, t);
    let root = choose|i: int|
        0 <= i < s.branches.len() && (#[trigger] s.branches[i]).parent.len() == 0 && s.head_branch
            == s.branches[i];
    assert forall|i: int|
        0 <= i < s2.branches.len() && (#[trigger] s2.branches[i]).parent.len() > 0
            implies seq_has_branch(s2.branches, s2.branches[i].parent) by {
        assert(s2.branches[i].parent == s.branches[i].parent);
        assert(seq_has_branch(s.branches, s.branches[i].parent));
        let w = choose|j: int|
            0 <= j < s.branches.len() && s.branches[j].name == s.branches[i].parent;
        assert(s2.branches[w].name == s.branches[i].parent);
    }
    if bi == root {
        assert(s2.head_branch == s2.branches[root]);
    } else {
        assert(s.branches[bi].name != s.branches[root].name);
        assert(s2.head_branch == s2.branches[root]);
    }
    assert(0 <= root < s2.branches.len() && s2.branches[root].parent.len() == 0 && s2.head_branch
        == s2.branches[root]);
}

/// How many stacks of `stacks` contain a branch named `n`.
pub open spec fn count_stacks_with(stacks: Seq<StackV>, n: Seq<char>) -> nat
    decreases stacks.len(),
{
    if stacks.len() == 0 {
        0
    } else {
        count_stacks_with(stacks.drop_last(), n) + if seq_has_branch(stacks.last().branches, n) {
            1nat
        } else {
            0nat
        }
    }
}

proof fn lemma_count_of_unique_witness(stacks: Seq<StackV>, n: Seq<char>, w: int)
    requires
        0 <= w < stacks.len(),
        seq_has_branch(stacks[w].branches, n),
        forall|j: int|
            0 <= j < stacks.len() && j != w ==> !seq_has_branch(#[trigger] stacks[j].branches, n),
    ensures
        count_stacks_with(stacks, n) == 1,
    decreases stacks.len(),
{
    if w == stacks.len() - 1 {
        lemma_count_of_no_witness(stacks.drop_last(), n);
    } else {
        lemma_count_of_unique_witness(stacks.drop_last(), n, w);
    }
}

proof fn lemma_count_of_no_witness(stacks: Seq<StackV>, n: Seq<char>)
    requires
        forall|j: int| 0 <= j < stacks.len() ==> !seq_has_branch(#[trigger] stacks[j].branches, n),
    ensures
        count_stacks_with(stacks, n) == 0,
    decreases stacks.len(),
{
    if stacks.len() > 0 {
        lemma_count_of_no_witness(stacks.drop_last(), n);
    }
}

proof fn lemma_count_pos(stacks: Seq<StackV>, n: Seq<char>)
    requires
        count_stacks_with(stacks, n) > 0,
    ensures
        spec_store_has_branch(stacks, n),
    decreases stacks.len(),
{
    if stacks.len() > 0 {
        if seq_has_branch(stacks.last().branches, n) {
            assert(seq_has_branch(stacks[stacks.len() - 1].branches, n));
        } else {
            lemma_count_pos(stacks.drop_last(), n);
            let w = choose|i: int|
                0 <= i < stacks.drop_last().len() && seq_has_branch(
                    #[trigger] stacks.drop_last()[i].branches,
                    n,
                );
            assert(seq_has_branch(stacks[w].branches, n));
        }
    }
}

/// In a well-formed store a branch name is never shared: the store knows the
/// name exactly when exactly one stack contains a branch so named.
pub proof fn law_branch_name_unique(stacks: Seq<StackV>, n: Seq<char>)
    requires
        store_wf(stacks),
    ensures
        spec_store_has_branch(stacks, n) <==> count_stacks_with(stacks, n) == 1,
{
    if spec_store_has_branch(stacks, n) {
        let w = choose|i: int|
            0 <= i < stacks.len() && seq_has_branch(#[trigger] stacks[i].branches, n);
        assert forall|j: int|
            0 <= j < stacks.len() && j != w implies !seq_has_branch(
            #[trigger] stacks[j].branches,
            n,
        ) by {
            if seq_has_branch(stacks[j].branches, n) {
                let bw = choose|b: int|
                    0 <= b < stacks[w].branches.len() && stacks[w].branches[b].name == n;
                let bj = choose|b: int|
                    0 <= b < stacks[j].branches.len() && stacks[j].branches[b].name == n;
                assert(stacks[w].branches[bw].name != stacks[j].branches[bj].name);
            }
        }
        lemma_count_of_unique_witness(stacks, n, w);
    }
    if count_stacks_with(stacks, n) == 1 {
        lemma_count_pos(stacks, n);
    }
}

/// Finds the first stack in `stacks` named `name`.
pub(crate) fn find_stack_index(stacks: &Vec<Stack>, name: &str) -> (r: Option<usize>)
    ensures
        match r {
            Option::Some(i) => is_first_stack_idx(
                stacks@.map_values(|s: Stack| s@),
                name@,
                i as int,
            ),
            Option::None => !spec_has_stack(stacks@.map_values(|s: Stack| s@), name@),
        },
{
    let ghost sv = stacks@.map_values(|s: Stack| s@);
    let n = stacks.len();
    let mut i: usize = 0;
    while i < n
        invariant
            n == stacks@.len(),
            sv == stacks@.map_values(|s: Stack| s@),
            0 <= i <= n,
            forall|j: int| 0 <= j < i ==> sv[j].name != name@,
        decreases n - i,
    {
        if crate::strutil::str_eq(stacks[i].name.as_str(), name) {
            return Option::Some(i);
        }
        i = i + 1;
    }
    Option::None
}

/// Finds the first stack in `stacks` containing a branch named `branch_name`.
pub(crate) fn find_containing_stack_index(stacks: &Vec<Stack>, branch_name: &str) -> (r: Option<
    usize,
>)
    ensures
        match r {
            Option::Some(i) => is_first_containing_idx(
                stacks@.map_values(|s: Stack| s@),
                branch_name@,
                i as int,
            ),
            Option::None => !spec_store_has_branch(
                stacks@.map_values(|s: Stack| s@),
                branch_name@,
            ),
        },
{
    let ghost sv = stacks@.map_values(|s: Stack| s@);
    let n = stacks.len();
    let mut i: usize = 0;
    while i < n
        invariant
            n == stacks@.len(),
            sv == stacks@.map_values(|s: Stack| s@),
            0 <= i <= n,
            forall|j: int| 0 <= j < i ==> !seq_has_branch(#[trigger] sv[j].branches, branch_name@),
        decreases n - i,
    {
        if stacks[i].has_branch(branch_name) {
            return Option::Some(i);
        }
        i = i + 1;
    }
    Option::None
}

impl Clone for DetachedHeadContext {
    /// An exact copy.
    fn clone(&self) -> (r: Self)
        ensures
            r == *self,
    {
        DetachedHeadContext {
            stack_name: self.stack_name.clone(),
            branch_name: self.branch_name.clone(),
        }
    }
}

impl Clone for Stack {
    /// A copy with the same model.
    fn clone(&self) -> (r: Self)
        ensures
            r@ == self@,
    {
        let mut branches: Vec<StackBranch> = Vec::new();
        let n = self.branches.len();
        let mut i: usize = 0;
        while i < n
            invariant
                n == self.branches@.len(),
                branches@ =~= self.branches@.subrange(0, i as int),
                0 <= i <= n,
            decreases n - i,
        {
            branches.push(self.branches[i].clone());
            i = i + 1;
        }
        proof {
            assert(branches@ =~= self.branches@);
        }
        let r = Stack {
            name: self.name.clone(),
            base_branch: self.base_branch.clone(),
            head_branch: self.head_branch.clone(),
            branches,
            created_at: self.created_at,
            updated_at: self.updated_at,
        };
        proof {
            assert(r@ =~= self@);
        }
        r
    }
}

impl SolMetadata {
    /// The store a repository starts with: no stacks, current schema version,
    /// not detached.
    pub fn initial() -> (r: SolMetadata)
        ensures
            r@.stacks.len() == 0,
            r@.version == "0.1.0"@,
            r@.detached is None,
    {
        let r = SolMetadata {
            stacks: Vec::new(),
            version: String::from_str("0.1.0"),
            detached_head_context: Option::None,
        };
        proof {
            assert(r@.stacks =~= Seq::<StackV>::empty());
        }
        r
    }

    /// Adds a stack; fails on a name collision.
    pub fn add_stack(&mut self, stack: &Stack) -> (r: Result<(), AppError>)
        ensures
            match r {
                Result::Ok(u) => {
                    &&& !spec_has_stack(old(self)@.stacks, stack@.name)
                    &&& final(self)@ == (StoreV {
                        stacks: old(self)@.stacks.push(stack@),
                        ..old(self)@
                    })
                },
                Result::Err(e) => {
                    &&& spec_has_stack(old(self)@.stacks, stack@.name)
                    &&& final(self)@ == old(self)@
                    &&& e matches AppError::Other(m) && m@ == "Stack already exists."@
                },
            },
    {
        let ghost prev = self@;
        match find_stack_index(&self.stacks, stack.name.as_str()) {
            Option::Some(_) => Result::Err(
                AppError::Other(String::from_str("Stack already exists.")),
            ),
            Option::None => {
                self.stacks.push(stack.clone());
                proof {
                    assert(final(self)@.stacks =~= prev.stacks.push(stack@));
                    assert(final(self)@ =~= (StoreV {
                        stacks: prev.stacks.push(stack@),
                        ..prev
                    }));
                }
                Result::Ok(())
            },
        }
    }

    /// Whether a stack of that name exists.
    pub fn has_stack(&self, name: &str) -> (r: bool)
        ensures
            r == spec_has_stack(self@.stacks, name@),
    {
        match find_stack_index(&self.stacks, name) {
            Option::Some(_) => true,
            Option::None => false,
        }
    }

    /// Whether any stack contains a branch of that name.
    pub fn has_branch(&self, name: &str) -> (r: bool)
        ensures
            r == spec_store_has_branch(self@.stacks, name@),
    {
        match find_containing_stack_index(&self.stacks, name) {
            Option::Some(_) => true,
            Option::None => false,
        }
    }

    /// Looks a stack up by name; the first match wins.
    pub fn get_stack(&self, name: &str) -> (r: Result<&Stack, AppError>)
        ensures
            match r {
                Result::Ok(s) => exists|i: int|
                    is_first_stack_idx(self@.stacks, name@, i) && s@ == self@.stacks[i],
                Result::Err(e) => {
                    &&& !spec_has_stack(self@.stacks, name@)
                    &&& e matches AppError::Other(m) && m@ == "Stack not found"@
                },
            },
    {
        match find_stack_index(&self.stacks, name) {
            Option::Some(i) => {
                let s = &self.stacks[i];
                proof {
                    assert(s@ == self@.stacks[i as int]);
                    assert(is_first_stack_idx(self@.stacks, name@, i as int));
                }
                Result::Ok(s)
            },
            Option::None => Result::Err(AppError::Other(String::from_str("Stack not found"))),
        }
    }

    /// The stack the working tree is on, resolved through the executor's
    /// reported current branch: the first stack containing it.
    pub fn get_current_stack(&self, current_branch: &str) -> (r: Result<&Stack, AppError>)
        ensures
            match r {
                Result::Ok(s) => exists|i: int|
                    is_first_containing_idx(self@.stacks, current_branch@, i) && s@
                        == self@.stacks[i],
                Result::Err(e) => {
                    &&& !spec_store_has_branch(self@.stacks, current_branch@)
                    &&& e is BranchNotPartOfStack
                },
            },
    {
        match find_containing_stack_index(&self.stacks, current_branch) {
            Option::Some(i) => {
                let s = &self.stacks[i];
                proof {
                    assert(s@ == self@.stacks[i as int]);
                    assert(is_first_containing_idx(self@.stacks, current_branch@, i as int));
                }
                Result::Ok(s)
            },
            Option::None => Result::Err(AppError::BranchNotPartOfStack),
        }
    }

    /// The position of the stack the working tree is on; the mutating
    /// counterpart of `get_current_stack`.
    pub fn get_current_stack_index(&self, current_branch: &str) -> (r: Result<usize, AppError>)
        ensures
            match r {
                Result::Ok(i) => is_first_containing_idx(
                    self@.stacks,
                    current_branch@,
                    i as int,
                ),
                Result::Err(e) => {
                    &&& !spec_store_has_branch(self@.stacks, current_branch@)
                    &&& e is BranchNotPartOfStack
                },
            },
    {
        match find_containing_stack_index(&self.stacks, current_branch) {
            Option::Some(i) => Result::Ok(i),
            Option::None => Result::Err(AppError::BranchNotPartOfStack),
        }
    }

    /// Recaches a branch's tip commit within the current stack.
    pub fn update_branch_commit_hash(
        &mut self,
        branch_name: &str,
        commit_hash: &str,
        current_branch: &str,
    ) -> (r: Result<(), AppError>)
        ensures
            match r {
                Result::Ok(u) => exists|si: int, bi: int, t: int|
                    {
                        &&& is_first_containing_idx(old(self)@.stacks, current_branch@, si)
                        &&& is_first_branch_idx(old(self)@.stacks[si].branches, branch_name@, bi)
                        &&& final(self)@ == (StoreV {
                            stacks: old(self)@.stacks.update(
                                si,
                                #[trigger] stack_with_commit(
                                    old(self)@.stacks[si],
                                    bi,
                                    commit_hash@,
                                    t,
                                ),
                            ),
                            ..old(self)@
                        })
                    },
                Result::Err(e) => {
                    &&& final(self)@ == old(self)@
                    &&& match e {
                        AppError::BranchNotPartOfStack => !spec_store_has_branch(
                            old(self)@.stacks,
                            current_branch@,
                        ),
                        AppError::Other(m) => exists|si: int|
                            {
                                &&& is_first_containing_idx(old(self)@.stacks, current_branch@, si)
                                &&& !seq_has_branch(
                                    #[trigger] old(self)@.stacks[si].branches,
                                    branch_name@,
                                )
                                &&& m@ == msg_branch_not_in_stack(branch_name@)
                            },
                        _ => false,
                    }
                },
            },
    {
        let ghost prev = self@;
        match find_containing_stack_index(&self.stacks, current_branch) {
            Option::Some(si) => {
                let r = self.stacks[si].update_branch_commit_hash(branch_name, commit_hash);
                match r {
                    Result::Ok(u) => {
                        proof {
                            assert(final(self)@.stacks =~= prev.stacks.update(
                                si as int,
                                final(self)@.stacks[si as int],
                            ));
                            assert(final(self)@ =~= (StoreV {
                                stacks: final(self)@.stacks,
                                ..prev
                            }));
                        }
                        Result::Ok(())
                    },
                    Result::Err(e) => {
                        proof {
                            assert(final(self)@.stacks =~= prev.stacks);
                            assert(final(self)@ =~= prev);
                        }
                        Result::Err(e)
                    },
                }
            },
            Option::None => Result::Err(AppError::BranchNotPartOfStack),
        }
    }

    /// Records a branch's pull-request identifier within the current stack.
    pub fn update_branch_pr_id(
        &mut self,
        branch_name: &str,
        pr_id: u64,
        current_branch: &str,
    ) -> (r: Result<(), AppError>)
        requires
            pr_id <= i64::MAX as u64,
        ensures
            match r {
                Result::Ok(u) => exists|si: int, bi: int, t: int|
                    {
                        &&& is_first_containing_idx(old(self)@.stacks, current_branch@, si)
                        &&& is_first_branch_idx(old(self)@.stacks[si].branches, branch_name@, bi)
                        &&& final(self)@ == (StoreV {
                            stacks: old(self)@.stacks.update(
                                si,
                                #[trigger] stack_with_pr(
                                    old(self)@.stacks[si],
                                    bi,
                                    pr_id as int,
                                    t,
                                ),
                            ),
                            ..old(self)@
                        })
                    },
                Result::Err(e) => {
                    &&& final(self)@ == old(self)@
                    &&& match e {
                        AppError::BranchNotPartOfStack => !spec_store_has_branch(
                            old(self)@.stacks,
                            current_branch@,
                        ),
                        AppError::Other(m) => exists|si: int|
                            {
                                &&& is_first_containing_idx(old(self)@.stacks, current_branch@, si)
                                &&& !seq_has_branch(
                                    #[trigger] old(self)@.stacks[si].branches,
                                    branch_name@,
                                )
                                &&& m@ == msg_branch_not_in_stack(branch_name@)
                            },
                        _ => false,
                    }
                },
            },
    {
        let ghost prev = self@;
        match find_containing_stack_index(&self.stacks, current_branch) {
            Option::Some(si) => {
                match find_branch_index(&self.stacks[si].branches, branch_name) {
                    Option::Some(bi) => {
                        let t = now_timestamp();
                        self.stacks[si].branches[bi].pr_id = pr_id as i64;
                        self.stacks[si].updated_at = t;
                        if crate::strutil::str_eq(
                            self.stacks[si].head_branch.name.as_str(),
                            branch_name,
                        ) {
                            self.stacks[si].head_branch.pr_id = pr_id as i64;
                        }
                        proof {
                            let sv = prev.stacks[si as int];
                            assert(final(self)@.stacks[si as int].branches =~= sv.branches.update(
                                bi as int,
                                (BranchV { pr_id: pr_id as int, ..sv.branches[bi as int] }),
                            ));
                            assert(final(self)@.stacks[si as int] =~= stack_with_pr(
                                sv,
                                bi as int,
                                pr_id as int,
                                t as int,
                            ));
                            assert(final(self)@.stacks =~= prev.stacks.update(
                                si as int,
                                stack_with_pr(sv, bi as int, pr_id as int, t as int),
                            ));
                            assert(final(self)@ =~= (StoreV {
                                stacks: final(self)@.stacks,
                                ..prev
                            }));
                        }
                        Result::Ok(())
                    },
                    Option::None => {
                        let mut m = String::from_str("Branch '");
                        m.append(branch_name);
                        m.append("' not found in stack");
                        Result::Err(AppError::Other(m))
                    },
                }
            },
            Option::None => Result::Err(AppError::BranchNotPartOfStack),
        }
    }

    /// Records a branch's status within the current stack.
    pub fn update_branch_status(
        &mut self,
        branch_name: &str,
        status: BranchStatus,
        current_branch: &str,
    ) -> (r: Result<(), AppError>)
        ensures
            match r {
                Result::Ok(u) => exists|si: int, bi: int, t: int|
                    {
                        &&& is_first_containing_idx(old(self)@.stacks, current_branch@, si)
                        &&& is_first_branch_idx(old(self)@.stacks[si].branches, branch_name@, bi)
                        &&& final(self)@ == (StoreV {
                            stacks: old(self)@.stacks.update(
                                si,
                                #[trigger] stack_with_status(old(self)@.stacks[si], bi, status, t),
                            ),
                            ..old(self)@
                        })
                    },
                Result::Err(e) => {
                    &&& final(self)@ == old(self)@
                    &&& match e {
                        AppError::BranchNotPartOfStack => !spec_store_has_branch(
                            old(self)@.stacks,
                            current_branch@,
                        ),
                        AppError::Other(m) => exists|si: int|
                            {
                                &&& is_first_containing_idx(old(self)@.stacks, current_branch@, si)
                                &&& !seq_has_branch(
                                    #[trigger] old(self)@.stacks[si].branches,
                                    branch_name@,
                                )
                                &&& m@ == msg_branch_not_in_stack(branch_name@)
                            },
                        _ => false,
                    }
                },
            },
    {
        let ghost prev = self@;
        match find_containing_stack_index(&self.stacks, current_branch) {
            Option::Some(si) => {
                match find_branch_index(&self.stacks[si].branches, branch_name) {
                    Option::Some(bi) => {
                        let t = now_timestamp();
                        self.stacks[si].branches[bi].status = status;
                        self.stacks[si].branches[bi].updated_at = t;
                        self.stacks[si].updated_at = t;
                        if crate::strutil::str_eq(
                            self.stacks[si].head_branch.name.as_str(),
                            branch_name,
                        ) {
                            self.stacks[si].head_branch.status = status;
                            self.stacks[si].head_branch.updated_at = t;
                        }
                        proof {
                            let sv = prev.stacks[si as int];
                            assert(final(self)@.stacks[si as int].branches =~= sv.branches.update(
                                bi as int,
                                (BranchV {
                                    status: status,
                                    updated_at: t as int,
                                    ..sv.branches[bi as int]
                                }),
                            ));
                            assert(final(self)@.stacks[si as int] =~= stack_with_status(
                                sv,
                                bi as int,
                                status,
                                t as int,
                            ));
                            assert(final(self)@.stacks =~= prev.stacks.update(
                                si as int,
                                stack_with_status(sv, bi as int, status, t as int),
                            ));
                            assert(final(self)@ =~= (StoreV {
                                stacks: final(self)@.stacks,
                                ..prev
                            }));
                        }
                        Result::Ok(())
                    },
                    Option::None => {
                        let mut m = String::from_str("Branch '");
                        m.append(branch_name);
                        m.append("' not found in stack");
                        Result::Err(AppError::Other(m))
                    },
                }
            },
            Option::None => Result::Err(AppError::BranchNotPartOfStack),
        }
    }

    /// Validates a request to create a branch: the name must be new
    /// store-wide, and a `from` branch must exist within the current stack.
    pub fn plan_new_branch(
        &self,
        name: &str,
        from: &Option<String>,
        current_branch: &str,
    ) -> (r: Result<(), AppError>)
        ensures
            match r {
                Result::Ok(u) => {
                    &&& spec_store_has_branch(self@.stacks, current_branch@)
                    &&& !spec_store_has_branch(self@.stacks, name@)
                    &&& match from {
                        Option::Some(fb) => exists|i: int|
                            is_first_containing_idx(self@.stacks, current_branch@, i)
                                && spec_store_has_branch(self@.stacks, fb@) && seq_has_branch(
                                #[trigger] self@.stacks[i].branches,
                                fb@,
                            ),
                        Option::None => true,
                    }
                },
                Result::Err(e) => match e {
                    AppError::BranchNotPartOfStack => !spec_store_has_branch(
                        self@.stacks,
                        current_branch@,
                    ),
                    AppError::Other(m) => {
                        ||| (spec_store_has_branch(self@.stacks, name@) && m@
                            == "Branch already exists."@)
                        ||| (from matches Option::Some(fb) && !spec_store_has_branch(
                            self@.stacks,
                            fb@,
                        ) && m@ == "Branch does not exist."@)
                        ||| (from matches Option::Some(fb) && exists|i: int|
                            is_first_containing_idx(self@.stacks, current_branch@, i)
                                && !seq_has_branch(#[trigger] self@.stacks[i].branches, fb@) && m@
                            == "Branch does not exist in current stack."@)
                    },
                    _ => false,
                },
            },
    {
        let current_stack = match self.get_current_stack(current_branch) {
            Result::Ok(s) => s,
            Result::Err(e) => {
                return Result::Err(e);
            },
        };
        if current_stack.has_branch(name) || self.has_branch(name) {
            proof {
                let i = choose|i: int|
                    is_first_containing_idx(self@.stacks, current_branch@, i) && current_stack@
                        == self@.stacks[i];
                assert(seq_has_branch(self@.stacks[i].branches, name@) || spec_store_has_branch(
                    self@.stacks,
                    name@,
                ));
            }
            return Result::Err(AppError::Other(String::from_str("Branch already exists.")));
        }
        match from {
            Option::Some(fb) => {
                if !self.has_branch(fb.as_str()) {
                    return Result::Err(
                        AppError::Other(String::from_str("Branch does not exist.")),
                    );
                }
                if !current_stack.has_branch(fb.as_str()) {
                    proof {
                        let i = choose|i: int|
                            is_first_containing_idx(self@.stacks, current_branch@, i)
                                && current_stack@ == self@.stacks[i];
                        assert(is_first_containing_idx(self@.stacks, current_branch@, i));
                    }
                    return Result::Err(
                        AppError::Other(
                            String::from_str("Branch does not exist in current stack."),
                        ),
                    );
                }
                proof {
                    let i = choose|i: int|
                        is_first_containing_idx(self@.stacks, current_branch@, i) && current_stack@
                            == self@.stacks[i];
                    assert(is_first_containing_idx(self@.stacks, current_branch@, i));
                    assert(seq_has_branch(self@.stacks[i].branches, fb@));
                }
                Result::Ok(())
            },
            Option::None => Result::Ok(()),
        }
    }

    /// Validates a request to start a stack: the name must collide with no
    /// stack and no branch, and the base branch must exist in the repository
    /// (`base_exists` carries the executor's answer).
    pub fn plan_init(&self, name: &str, base_exists: bool) -> (r: Result<(), AppError>)
        ensures
            match r {
                Result::Ok(u) => {
                    &&& !spec_has_stack(self@.stacks, name@)
                    &&& !spec_store_has_branch(self@.stacks, name@)
                    &&& base_exists
                },
                Result::Err(e) => {
                    &&& e matches AppError::Other(m)
                    &&& if spec_has_stack(self@.stacks, name@) {
                        m@ == "Stack already exists."@
                    } else if spec_store_has_branch(self@.stacks, name@) {
                        m@ == "Branch already exists."@
                    } else {
                        !base_exists && m@ == "Base branch does not exist."@
                    }
                },
            },
    {
        if self.has_stack(name) {
            return Result::Err(AppError::Other(String::from_str("Stack already exists.")));
        }
        if self.has_branch(name) {
            return Result::Err(AppError::Other(String::from_str("Branch already exists.")));
        }
        if !base_exists {
            return Result::Err(AppError::Other(String::from_str("Base branch does not exist.")));
        }
        Result::Ok(())
    }

    /// Records the detached-head excursion context.
    pub fn set_detached_head_context(&mut self, stack_name: String, branch_name: String) -> (r:
        Result<(), AppError>)
        ensures
            r is Ok,
            final(self)@ == (StoreV {
                detached: Option::Some(
                    DetachedV { stack_name: stack_name@, branch_name: branch_name@ },
                ),
                ..old(self)@
            }),
    {
        self.detached_head_context = Option::Some(
            DetachedHeadContext { stack_name, branch_name },
        );
        Result::Ok(())
    }

    /// Clears the detached-head excursion context.
    pub fn clear_detached_head_context(&mut self)
        ensures
            final(self)@ == (StoreV { detached: Option::None, ..old(self)@ }),
    {
        self.detached_head_context = Option::None;
    }

    /// The detached-head excursion context, if any.
    pub fn get_detached_head_context(&self) -> (r: Option<&DetachedHeadContext>)
        ensures
            match r {
                Option::Some(c) => self@.detached == Option::Some(c@),
                Option::None => self@.detached is None,
            },
    {
        self.detached_head_context.as_ref()
    }

    /// Whether the working tree is recorded as sitting on a raw commit.
    pub fn is_in_detached_head(&self) -> (r: bool)
        ensures
            r == (self@.detached is Some),
    {
        self.detached_head_context.is_some()
    }
}

} // verus!
