//! Read-side views of a stack: ancestry traversal, the stable serializable
//! snapshot, and its plain-text and structured renderings.  Colored or
//! graphical layouts are presentation concerns layered on top of these by the
//! binary around the library.

use vstd::prelude::*;

use crate::data::{
    is_first_branch_idx, seq_has_branch, status_label_seq, BranchV, Stack, StackBranch,
};

verus! {

/// The first position in `bs` holding a branch named `n`, or `-1`.
pub open spec fn first_branch_idx(bs: Seq<BranchV>, n: Seq<char>) -> int
    decreases bs.len(),
{
    if bs.len() == 0 {
        -1
    } else if bs[0].name == n {
        0
    } else {
        let r = first_branch_idx(bs.skip(1), n);
        if r == -1 {
            -1
        } else {
            1 + r
        }
    }
}

pub proof fn lemma_first_branch_idx(bs: Seq<BranchV>, n: Seq<char>)
    ensures
        first_branch_idx(bs, n) == -1 <==> !seq_has_branch(bs, n),
        first_branch_idx(bs, n) != -1 ==> is_first_branch_idx(bs, n, first_branch_idx(bs, n)),
    decreases bs.len(),
{
    if bs.len() > 0 && bs[0].name != n {
        lemma_first_branch_idx(bs.skip(1), n);
        let sk = bs.skip(1);
        assert(forall|j: int| 0 <= j < sk.len() ==> sk[j] == bs[j + 1]);
        if seq_has_branch(bs, n) {
            let w = choose|i: int| 0 <= i < bs.len() && bs[i].name == n;
            assert(sk[w - 1].name == n);
            assert(seq_has_branch(sk, n));
        }
        if seq_has_branch(sk, n) {
            let w = choose|i: int| 0 <= i < sk.len() && sk[i].name == n;
            assert(bs[w + 1].name == n);
            assert(seq_has_branch(bs, n));
        }
        if first_branch_idx(sk, n) != -1 {
            let r = first_branch_idx(sk, n);
            assert(is_first_branch_idx(sk, n, r));
            assert(bs[r + 1].name == n);
            assert forall|j: int| 0 <= j < r + 1 implies bs[j].name != n by {
                if j >= 1 {
                    assert(sk[j - 1] == bs[j]);
                }
            }
            assert(is_first_branch_idx(bs, n, r + 1));
        }
    }
}

/// The path from the highest reachable ancestor down to the branch named
/// `name`: follows parent links upward until an empty parent or a dangling
/// reference is met, then lists the branches root-first.  A dangling
/// reference truncates the path silently; `fuel` bounds the walk so that even
/// a hand-edited state with a parent cycle terminates.
pub open spec fn spec_ancestry(bs: Seq<BranchV>, name: Seq<char>, fuel: nat) -> Seq<BranchV>
    decreases fuel,
{
    if fuel == 0 {
        Seq::<BranchV>::empty()
    } else {
        let i = first_branch_idx(bs, name);
        if i < 0 {
            Seq::<BranchV>::empty()
        } else {
            let b = bs[i];
            if b.parent.len() == 0 {
                seq![b]
            } else {
                spec_ancestry(bs, b.parent, (fuel - 1) as nat).push(b)
            }
        }
    }
}

fn ancestry_rec<'a>(branches: &'a Vec<StackBranch>, name: &str, fuel: usize) -> (r: Vec<
    &'a StackBranch,
>)
    ensures
        r@.map_values(|b: &StackBranch| b@) == spec_ancestry(
            branches@.map_values(|b: StackBranch| b@),
            name@,
            fuel as nat,
        ),
    decreases fuel,
{
    let ghost bs = branches@.map_values(|b: StackBranch| b@);
    let empty: Vec<&'a StackBranch> = Vec::new();
    proof {
        assert(empty@.map_values(|b: &StackBranch| b@) =~= Seq::<BranchV>::empty());
    }
    if fuel == 0 {
        return empty;
    }
    match crate::data::find_branch_index(branches, name) {
        Option::None => {
            proof {
                lemma_first_branch_idx(bs, name@);
            }
            empty
        },
        Option::Some(i) => {
            proof {
                lemma_first_branch_idx(bs, name@);
                assert(is_first_branch_idx(bs, name@, first_branch_idx(bs, name@)));
                assert(i as int == first_branch_idx(bs, name@));
            }
            let b = &branches[i];
            if b.parent.as_str().unicode_len() == 0 {
                let mut one = empty;
                one.push(b);
                proof {
                    assert(one@.map_values(|x: &StackBranch| x@) =~= seq![bs[i as int]]);
                }
                one
            } else {
                let mut path = ancestry_rec(branches, b.parent.as_str(), fuel - 1);
                path.push(b);
                proof {
                    assert(path@.map_values(|x: &StackBranch| x@) =~= spec_ancestry(
                        bs,
                        bs[i as int].parent,
                        (fuel - 1) as nat,
                    ).push(bs[i as int]));
                }
                path
            }
        },
    }
}

impl Stack {
    /// The ancestry of the named branch: the path from its highest reachable
    /// ancestor down to the branch itself, truncated silently at a dangling
    /// parent reference.
    pub fn get_ancestry<'a>(&'a self, branch_name: &str) -> (r: Vec<&'a StackBranch>)
        requires
            self.branches@.len() < usize::MAX,
        ensures
            r@.map_values(|b: &StackBranch| b@) == spec_ancestry(
                self@.branches,
                branch_name@,
                self@.branches.len() + 1,
            ),
    {
        ancestry_rec(&self.branches, branch_name, self.branches.len() + 1)
    }

    /// The path from the root down to the denormalized head copy's branch.
    pub fn get_path_to_head<'a>(&'a self) -> (r: Vec<&'a StackBranch>)
        requires
            self.branches@.len() < usize::MAX,
        ensures
            r@.map_values(|b: &StackBranch| b@) == spec_ancestry(
                self@.branches,
                self@.head_branch.name,
                self@.branches.len() + 1,
            ),
    {
        ancestry_rec(&self.branches, self.head_branch.name.as_str(), self.branches.len() + 1)
    }
}

/// Branch names in stored order, joined by arrow separators.
pub open spec fn spec_simple_display(bs: Seq<BranchV>) -> Seq<char>
    decreases bs.len(),
{
    if bs.len() == 0 {
        Seq::<char>::empty()
    } else if bs.len() == 1 {
        bs[0].name
    } else {
        spec_simple_display(bs.drop_last()) + " \u{279c} "@ + bs.last().name
    }
}

/// The shortened form of a tip hash shown in reports: its first seven
/// characters, or the whole text when it is shorter.
pub open spec fn spec_short_commit(h: Seq<char>) -> Seq<char> {
    if h.len() > 7 {
        h.subrange(0, 7)
    } else {
        h
    }
}

fn short_commit(hash: &str) -> (r: String)
    ensures
        r@ == spec_short_commit(hash@),
{
    if hash.unicode_len() > 7 {
        String::from_str(hash.substring_char(0, 7))
    } else {
        hash.to_owned()
    }
}

/// One branch of the stable serializable snapshot.
pub struct BranchDisplay {
    pub name: String,
    pub status: String,
    pub commit: String,
}

/// The stable serializable snapshot of a stack: its name and, per branch in
/// stored order, the branch name, the status label and the shortened tip.
pub struct StackDisplay {
    pub stack: String,
    pub branches: Vec<BranchDisplay>,
}

/// What one snapshot row must hold of its source branch.
pub open spec fn branch_display_matches(d: BranchDisplay, b: BranchV) -> bool {
    &&& d.name@ == b.name
    &&& d.status@ == status_label_seq(b.status)
    &&& d.commit@ == spec_short_commit(b.commit_hash)
}

impl Stack {
    /// Builds the stable serializable snapshot.
    pub fn display_snapshot(&self) -> (r: StackDisplay)
        ensures
            r.stack@ == self@.name,
            r.branches@.len() == self@.branches.len(),
            forall|i: int|
                0 <= i < self@.branches.len() ==> branch_display_matches(
                    #[trigger] r.branches@[i],
                    self@.branches[i],
                ),
    {
        let mut rows: Vec<BranchDisplay> = Vec::new();
        let n = self.branches.len();
        let mut i: usize = 0;
        while i < n
            invariant
                n == self.branches@.len(),
                0 <= i <= n,
                rows@.len() == i,
                forall|k: int|
                    0 <= k < i ==> branch_display_matches(
                        #[trigger] rows@[k],
                        self@.branches[k],
                    ),
            decreases n - i,
        {
            let b = &self.branches[i];
            let row = BranchDisplay {
                name: b.name.clone(),
                status: String::from_str(b.status.label()),
                commit: short_commit(b.commit_hash.as_str()),
            };
            rows.push(row);
            i = i + 1;
        }
        StackDisplay { stack: self.name.clone(), branches: rows }
    }

    /// One line naming every branch in stored order, joined by arrows:
    /// see `spec_simple_display`.
    pub fn simple_display(&self) -> (r: String)
        ensures
            r@ == spec_simple_display(self@.branches),
    {
        let mut out = String::new();
        let n = self.branches.len();
        let mut i: usize = 0;
        while i < n
            invariant
                n == self.branches@.len(),
                0 <= i <= n,
                out@ == spec_simple_display(self@.branches.subrange(0, i as int)),
            decreases n - i,
        {
            if i > 0 {
                out.append(" \u{279c} ");
            }
            out.append(self.branches[i].name.as_str());
            proof {
                let pre = self@.branches.subrange(0, i as int);
                let post = self@.branches.subrange(0, i as int + 1);
                assert(post.drop_last() =~= pre);
                assert(post.last() == self@.branches[i as int]);
                assert(out@ =~= spec_simple_display(post));
            }
            i = i + 1;
        }
        proof {
            assert(self@.branches.subrange(0, n as int) =~= self@.branches);
        }
        out
    }

    /// The snapshot as a structured document: compact, or indented when
    /// `pretty` is asked for.
    pub fn json(&self, pretty: bool) -> (r: String)
        ensures
            pretty ==> r@ == spec_json_pretty(self@.name, spec_display_of(self@)),
            !pretty ==> r@ == spec_json_compact(self@.name, spec_display_of(self@)),
    {
        let snap = self.display_snapshot();
        proof {
            assert(snap.branches@.map_values(|x: BranchDisplay| row_of(x)) =~= spec_display_of(
                self@,
            ));
        }
        if pretty {
            json_pretty_of(&snap)
        } else {
            json_compact_of(&snap)
        }
    }
}

/// The name, status label and short commit of each branch, as rendered into
/// the structured output.
pub open spec fn spec_display_of(v: crate::data::StackV) -> Seq<(Seq<char>, Seq<char>, Seq<char>)> {
    v.branches.map_values(
        |b: BranchV| (b.name, status_label_seq(b.status), spec_short_commit(b.commit_hash)),
    )
}

/// The compact structured rendering of a snapshot.
pub open spec fn spec_json_compact(
    stack: Seq<char>,
    rows: Seq<(Seq<char>, Seq<char>, Seq<char>)>,
) -> Seq<char> {
    "{\"stack\":"@ + quoted(stack) + ",\"branches\":["@ + compact_rows(rows) + "]}"@
}

/// A quoted string in the structured output.
pub open spec fn quoted(v: Seq<char>) -> Seq<char> {
    seq!['"'] + v + seq!['"']
}

/// Compact rows joined by commas.
pub open spec fn compact_rows(rows: Seq<(Seq<char>, Seq<char>, Seq<char>)>) -> Seq<char>
    decreases rows.len(),
{
    if rows.len() == 0 {
        Seq::<char>::empty()
    } else if rows.len() == 1 {
        compact_row(rows[0])
    } else {
        compact_rows(rows.drop_last()) + ","@ + compact_row(rows.last())
    }
}

/// One compact row.
pub open spec fn compact_row(row: (Seq<char>, Seq<char>, Seq<char>)) -> Seq<char> {
    "{\"name\":"@ + quoted(row.0) + ",\"status\":"@ + quoted(row.1) + ",\"commit\":"@ + quoted(
        row.2,
    ) + "}"@
}

/// The indented structured rendering of a snapshot.
pub open spec fn spec_json_pretty(
    stack: Seq<char>,
    rows: Seq<(Seq<char>, Seq<char>, Seq<char>)>,
) -> Seq<char> {
    "{\n  \"stack\": "@ + quoted(stack) + ",\n  \"branches\": "@ + (if rows.len() == 0 {
        "[]"@
    } else {
        "[\n"@ + pretty_rows(rows) + "\n  ]"@
    }) + "\n}"@
}

/// Indented rows joined by commas.
pub open spec fn pretty_rows(rows: Seq<(Seq<char>, Seq<char>, Seq<char>)>) -> Seq<char>
    decreases rows.len(),
{
    if rows.len() == 0 {
        Seq::<char>::empty()
    } else if rows.len() == 1 {
        pretty_row(rows[0])
    } else {
        pretty_rows(rows.drop_last()) + ",\n"@ + pretty_row(rows.last())
    }
}

/// One indented row.
pub open spec fn pretty_row(row: (Seq<char>, Seq<char>, Seq<char>)) -> Seq<char> {
    "    {\n      \"name\": "@ + quoted(row.0) + ",\n      \"status\": "@ + quoted(row.1)
        + ",\n      \"commit\": "@ + quoted(row.2) + "\n    }"@
}

/// The row triple a snapshot row stands for.
pub open spec fn row_of(d: BranchDisplay) -> (Seq<char>, Seq<char>, Seq<char>) {
    (d.name@, d.status@, d.commit@)
}

fn push_quoted(out: &mut String, v: &str)
    ensures
        final(out)@ == old(out)@ + quoted(v@),
{
    let ghost prev = out@;
    out.append("\"");
    out.append(v);
    out.append("\"");
    proof {
        reveal_strlit("\"");
        assert("\""@ =~= seq!['"']);
        assert(final(out)@ =~= prev + quoted(v@));
    }
}

fn json_compact_of(snap: &StackDisplay) -> (r: String)
    ensures
        r@ == spec_json_compact(snap.stack@, snap.branches@.map_values(|x: BranchDisplay| row_of(x))),
{
    let ghost rows = snap.branches@.map_values(|x: BranchDisplay| row_of(x));
    let mut out = String::new();
    out.append("{\"stack\":");
    push_quoted(&mut out, snap.stack.as_str());
    out.append(",\"branches\":[");
    let n = snap.branches.len();
    let mut i: usize = 0;
    while i < n
        invariant
            n == snap.branches@.len(),
            rows == snap.branches@.map_values(|x: BranchDisplay| row_of(x)),
            0 <= i <= n,
            out@ == "{\"stack\":"@ + quoted(snap.stack@) + ",\"branches\":["@ + compact_rows(
                rows.subrange(0, i as int),
            ),
        decreases n - i,
    {
        if i > 0 {
            out.append(",");
            proof {
                reveal_strlit(",");
                assert(","@ =~= seq![',']);
            }
        }
        let row = &snap.branches[i];
        out.append("{\"name\":");
        push_quoted(&mut out, row.name.as_str());
        out.append(",\"status\":");
        push_quoted(&mut out, row.status.as_str());
        out.append(",\"commit\":");
        push_quoted(&mut out, row.commit.as_str());
        out.append("}");
        proof {
            let pre = rows.subrange(0, i as int);
            let post = rows.subrange(0, i as int + 1);
            assert(post.drop_last() =~= pre);
            assert(post.last() == rows[i as int]);
            assert(out@ =~= "{\"stack\":"@ + quoted(snap.stack@) + ",\"branches\":["@
                + compact_rows(post));
        }
        i = i + 1;
    }
    proof {
        assert(rows.subrange(0, n as int) =~= rows);
    }
    out.append("]}");
    proof {
        assert(out@ =~= spec_json_compact(snap.stack@, rows));
    }
    out
}

fn json_pretty_of(snap: &StackDisplay) -> (r: String)
    ensures
        r@ == spec_json_pretty(snap.stack@, snap.branches@.map_values(|x: BranchDisplay| row_of(x))),
{
    let ghost rows = snap.branches@.map_values(|x: BranchDisplay| row_of(x));
    let mut out = String::new();
    out.append("{\n  \"stack\": ");
    push_quoted(&mut out, snap.stack.as_str());
    out.append(",\n  \"branches\": ");
    let n = snap.branches.len();
    if n == 0 {
        out.append("[]");
    } else {
        out.append("[\n");
        let mut i: usize = 0;
        while i < n
            invariant
                n == snap.branches@.len(),
                n >= 1,
                rows == snap.branches@.map_values(|x: BranchDisplay| row_of(x)),
                0 <= i <= n,
                out@ == "{\n  \"stack\": "@ + quoted(snap.stack@) + ",\n  \"branches\": "@
                    + "[\n"@ + pretty_rows(rows.subrange(0, i as int)),
            decreases n - i,
        {
            if i > 0 {
                out.append(",\n");
                proof {
                    reveal_strlit(",\n");
                }
            }
            let row = &snap.branches[i];
            out.append("    {\n      \"name\": ");
            push_quoted(&mut out, row.name.as_str());
            out.append(",\n      \"status\": ");
            push_quoted(&mut out, row.status.as_str());
            out.append(",\n      \"commit\": ");
            push_quoted(&mut out, row.commit.as_str());
            out.append("\n    }");
            proof {
                let pre = rows.subrange(0, i as int);
                let post = rows.subrange(0, i as int + 1);
                assert(post.drop_last() =~= pre);
                assert(post.last() == rows[i as int]);
                if i == 0 {
                    assert(pretty_rows(pre) =~= Seq::<char>::empty());
                }
                assert(","@ + "\n"@ =~= ",\n"@) by {
                    reveal_strlit(",");
                    reveal_strlit("\n");
                    reveal_strlit(",\n");
                }
                assert(out@ =~= "{\n  \"stack\": "@ + quoted(snap.stack@) + ",\n  \"branches\": "@
                    + "[\n"@ + pretty_rows(post));
            }
            i = i + 1;
        }
        proof {
            assert(rows.subrange(0, n as int) =~= rows);
        }
        out.append("\n  ]");
    }
    out.append("\n}");
    proof {
        assert(out@ =~= spec_json_pretty(snap.stack@, rows));
    }
    out
}

} // verus!
