//! The persisted-store document format: a JSON-shaped text codec written
//! directly on character sequences, with a proved encode/decode round trip.
//!
//! The decoder tolerates what older files contain: surrounding whitespace,
//! fields in any order, a `null` parent (read as the empty string), a `null`
//! pull-request id (read as the sentinel), an absent detached-head record,
//! and unknown extra fields such as the obsolete `depth`, which are skipped
//! silently.

use vstd::prelude::*;

use crate::data::{
    BranchStatus, BranchV, DetachedHeadContext, DetachedV, SolMetadata, Stack, StackBranch,
    StackV, StoreV,
};
use crate::errors::AppError;
use crate::strutil::{spec_digit_char, spec_i64_string, spec_u64_string};
use vstd::seq_lib::lemma_concat_associative;

verus! {

/// Whitespace the decoder skips between tokens.
pub open spec fn is_ws(c: char) -> bool {
    c == ' ' || c == '\t' || c == '\n' || c == '\r'
}

/// Decimal digit test.
pub open spec fn is_digit(c: char) -> bool {
    ('0' as int) <= (c as int) && (c as int) <= ('9' as int)
}

/// Value of a decimal digit character.
pub open spec fn digit_val(c: char) -> int {
    c as int - ('0' as int)
}

/// The first position at or after `i` that holds no whitespace.
pub open spec fn skip_ws(s: Seq<char>, i: int) -> int
    decreases s.len() - i,
{
    if i < s.len() && is_ws(s[i]) {
        skip_ws(s, i + 1)
    } else {
        i
    }
}

/// The position of the closing quote of a string that starts (after its
/// opening quote) at `i`; `-1` when the text ends first or an escape
/// character appears, which this format does not use.
pub open spec fn scan_string_end(s: Seq<char>, i: int) -> int
    decreases s.len() - i,
{
    if i < 0 || i >= s.len() {
        -1
    } else if s[i] == '"' {
        i
    } else if s[i] == '\\' {
        -1
    } else {
        scan_string_end(s, i + 1)
    }
}

/// Parses a quoted string at `i`: the character sequence between the quotes
/// and the position after the closing quote.
pub open spec fn parse_string_at(s: Seq<char>, i: int) -> Option<(Seq<char>, int)> {
    if 0 <= i < s.len() && s[i] == '"' {
        let e = scan_string_end(s, i + 1);
        if e >= 0 {
            Option::Some((s.subrange(i + 1, e), e + 1))
        } else {
            Option::None
        }
    } else {
        Option::None
    }
}

/// The first position at or after `i` that holds no decimal digit.
pub open spec fn scan_digits(s: Seq<char>, i: int) -> int
    decreases s.len() - i,
{
    if i < s.len() && is_digit(s[i]) {
        scan_digits(s, i + 1)
    } else {
        i
    }
}

proof fn lemma_scan_digits_bounds(s: Seq<char>, i: int)
    requires
        0 <= i <= s.len(),
    ensures
        i <= scan_digits(s, i) <= s.len(),
        forall|k: int| i <= k < scan_digits(s, i) ==> is_digit(s[k]),
        scan_digits(s, i) < s.len() ==> !is_digit(s[scan_digits(s, i)]),
    decreases s.len() - i,
{
    if i < s.len() && is_digit(s[i]) {
        lemma_scan_digits_bounds(s, i + 1);
    }
}

/// The value of the digit run `s[i..j)`, read most significant first.
pub open spec fn digits_val(s: Seq<char>, i: int, j: int) -> int
    decreases j - i,
{
    if j <= i {
        0
    } else {
        digits_val(s, i, j - 1) * 10 + digit_val(s[j - 1])
    }
}

/// Parses a decimal integer at `i`, with an optional leading `-`: its value
/// and the position after the digits.  Runs longer than nineteen digits or
/// out of the signed 64-bit range are refused.
pub open spec fn parse_i64_at(s: Seq<char>, i: int) -> Option<(int, int)> {
    if 0 <= i < s.len() && s[i] == '-' {
        let j = scan_digits(s, i + 1);
        let v = digits_val(s, i + 1, j);
        if j == i + 1 || j - (i + 1) > 19 || v > 0x8000_0000_0000_0000 {
            Option::None
        } else {
            Option::Some((-v, j))
        }
    } else {
        let j = scan_digits(s, i);
        let v = digits_val(s, i, j);
        if i < 0 || j == i || j - i > 19 || v > 0x7fff_ffff_ffff_ffff {
            Option::None
        } else {
            Option::Some((v, j))
        }
    }
}

/// Whether the literal `lit` appears in `s` starting at `i`.
pub open spec fn at_lit(s: Seq<char>, i: int, lit: Seq<char>) -> bool {
    0 <= i && i + lit.len() <= s.len() && s.subrange(i, i + lit.len()) == lit
}

/// Characters that embed into the document format without escaping; names,
/// commit hashes and version strings are expected to stay within this.
pub open spec fn plain_str(s: Seq<char>) -> bool {
    forall|k: int| 0 <= k < s.len() ==> s[k] != '"' && s[k] != '\\'
}

/// Exec mirror of `skip_ws`.
fn skip_ws_exec(s: &str, n: usize, i: usize) -> (r: usize)
    requires
        n == s@.len(),
        i <= n,
    ensures
        r == skip_ws(s@, i as int),
        i <= r <= n,
{
    let mut k = i;
    loop
        invariant
            n == s@.len(),
            i <= k <= n,
            skip_ws(s@, i as int) == skip_ws(s@, k as int),
        ensures
            k == skip_ws(s@, i as int),
        decreases n - k,
    {
        if k >= n {
            break;
        }
        let c = s.get_char(k);
        if !(c == ' ' || c == '\t' || c == '\n' || c == '\r') {
            break;
        }
        k = k + 1;
    }
    k
}

/// Exec mirror of `parse_string_at`.
fn parse_string_exec(s: &str, n: usize, i: usize) -> (r: Option<(String, usize)>)
    requires
        n == s@.len(),
        i <= n,
    ensures
        match r {
            Option::Some((v, j)) => parse_string_at(s@, i as int) == Option::Some(
                (v@, j as int),
            ) && i < j <= n,
            Option::None => parse_string_at(s@, i as int) is None,
        },
{
    if i >= n || s.get_char(i) != '"' {
        return Option::None;
    }
    let mut k = i + 1;
    loop
        invariant
            n == s@.len(),
            i < n,
            s@[i as int] == '"',
            i + 1 <= k <= n,
            scan_string_end(s@, i as int + 1) == scan_string_end(s@, k as int),
        decreases n - k,
    {
        if k >= n {
            return Option::None;
        }
        let c = s.get_char(k);
        if c == '"' {
            proof {
                assert(s@[i as int] == '"');
                assert(scan_string_end(s@, k as int) == k as int);
                assert(scan_string_end(s@, i as int + 1) == k as int);
                assert(parse_string_at(s@, i as int) == Option::Some(
                    (s@.subrange(i as int + 1, k as int), k as int + 1),
                ));
            }
            let v = String::from_str(s.substring_char(i + 1, k));
            return Option::Some((v, k + 1));
        }
        if c == '\\' {
            return Option::None;
        }
        k = k + 1;
    }
}

/// Ten to the `n`.
pub open spec fn pow10(n: nat) -> int
    decreases n,
{
    if n == 0 {
        1
    } else {
        10 * pow10((n - 1) as nat)
    }
}

proof fn lemma_pow10_mono(a: nat, b: nat)
    requires
        a <= b,
    ensures
        pow10(a) <= pow10(b),
        pow10(a) >= 1,
    decreases b,
{
    if b > 0 {
        if a == b {
            lemma_pow10_mono((a - 1) as nat, (b - 1) as nat);
        } else {
            lemma_pow10_mono(a, (b - 1) as nat);
        }
    }
}

proof fn lemma_digits_val_bound(s: Seq<char>, i: int, j: int)
    requires
        i <= j,
        forall|k: int| i <= k < j ==> is_digit(s[k]),
    ensures
        0 <= digits_val(s, i, j) < pow10((j - i) as nat),
    decreases j - i,
{
    if j > i {
        lemma_digits_val_bound(s, i, j - 1);
    }
}

/// Exec mirror of `parse_i64_at`.
fn parse_i64_exec(s: &str, n: usize, i: usize) -> (r: Option<(i64, usize)>)
    requires
        n == s@.len(),
        i <= n,
    ensures
        match r {
            Option::Some((v, j)) => parse_i64_at(s@, i as int) == Option::Some(
                (v as int, j as int),
            ) && i < j <= n,
            Option::None => parse_i64_at(s@, i as int) is None,
        },
{
    proof {
        reveal_with_fuel(pow10, 20);
    }
    let negative = i < n && s.get_char(i) == '-';
    let start = if negative {
        i + 1
    } else {
        i
    };
    let mut k = start;
    let mut acc: u128 = 0;
    loop
        invariant
            n == s@.len(),
            start <= k <= n,
            scan_digits(s@, start as int) == scan_digits(s@, k as int),
            forall|m: int| start <= m < k ==> is_digit(s@[m]),
            k - start <= 19 ==> acc == digits_val(s@, start as int, k as int),
            acc < pow10(19),
            pow10(19) == 10_000_000_000_000_000_000,
        ensures
            k == scan_digits(s@, start as int),
            forall|m: int| start <= m < k ==> is_digit(s@[m]),
            k - start <= 19 ==> acc == digits_val(s@, start as int, k as int),
            start <= k <= n,
        decreases n - k,
    {
        if k >= n {
            break;
        }
        let c = s.get_char(k) as u32;
        if !(48 <= c && c <= 57) {
            proof {
                assert(!is_digit(s@[k as int]));
            }
            break;
        }
        proof {
            assert(is_digit(s@[k as int]));
        }
        let d = (c - 48) as u128;
        if k - start < 19 {
            proof {
                assert(digits_val(s@, start as int, k as int + 1) == digits_val(
                    s@,
                    start as int,
                    k as int,
                ) * 10 + digit_val(s@[k as int]));
                assert(digit_val(s@[k as int]) == d as int);
                lemma_digits_val_bound(s@, start as int, k as int + 1);
                lemma_pow10_mono((k + 1 - start) as nat, 19);
            }
            acc = acc * 10 + d;
        }
        k = k + 1;
    }
    proof {
        lemma_scan_digits_bounds(s@, start as int);
    }
    if k == start || k - start > 19 {
        return Option::None;
    }
    if negative {
        if acc > 0x8000_0000_0000_0000u128 {
            return Option::None;
        }
        let v: i64 = (-(acc as i128)) as i64;
        Option::Some((v, k))
    } else {
        if acc > 0x7fff_ffff_ffff_ffffu128 {
            return Option::None;
        }
        let v: i64 = acc as i64;
        Option::Some((v, k))
    }
}

/// Exec mirror of `at_lit` for a literal.
fn at_lit_exec(s: &str, n: usize, i: usize, lit: &str) -> (r: bool)
    requires
        n == s@.len(),
        i <= n,
    ensures
        r == at_lit(s@, i as int, lit@),
{
    let m = lit.unicode_len();
    if m > n || i > n - m {
        proof {
            assert(!at_lit(s@, i as int, lit@));
        }
        return false;
    }
    let mut j: usize = 0;
    while j < m
        invariant
            n == s@.len(),
            m == lit@.len(),
            i + m <= n,
            0 <= j <= m,
            forall|k: int| 0 <= k < j ==> s@[i + k] == lit@[k],
        decreases m - j,
    {
        if s.get_char(i + j) != lit.get_char(j) {
            proof {
                assert(s@.subrange(i as int, i as int + m as int)[j as int] != lit@[j as int]);
            }
            return false;
        }
        j = j + 1;
    }
    proof {
        assert(s@.subrange(i as int, i as int + m as int) =~= lit@);
    }
    true
}

/// Skips one primitive value (string, number, `null`, `true`, `false`): the
/// position after it.  Unknown fields never hold nested structures.
pub open spec fn skip_value_at(s: Seq<char>, i: int) -> Option<int>
    decreases 0nat, 1int,
{
    if at_lit(s, i, "null"@) {
        Option::Some(i + 4)
    } else if at_lit(s, i, "true"@) {
        Option::Some(i + 4)
    } else if at_lit(s, i, "false"@) {
        Option::Some(i + 5)
    } else {
        match parse_string_at(s, i) {
            Option::Some((v, j)) => Option::Some(j),
            Option::None => match parse_i64_at(s, i) {
                Option::Some((v, j)) => Option::Some(j),
                Option::None => Option::None,
            },
        }
    }
}

/// The status a status string decodes to.
pub open spec fn status_of_name(v: Seq<char>) -> Option<BranchStatus> {
    if v == "Pending"@ {
        Option::Some(BranchStatus::Pending)
    } else if v == "Merged"@ {
        Option::Some(BranchStatus::Merged)
    } else if v == "Conflict"@ {
        Option::Some(BranchStatus::Conflict)
    } else if v == "Testing"@ {
        Option::Some(BranchStatus::Testing)
    } else {
        Option::None
    }
}

/// Partially decoded branch object.
pub ghost struct BranchAcc {
    pub name: Option<Seq<char>>,
    pub commit_hash: Option<Seq<char>>,
    pub pr_id: Option<int>,
    pub status: Option<BranchStatus>,
    pub parent: Option<Seq<char>>,
    pub created_at: Option<int>,
    pub updated_at: Option<int>,
}

/// The empty branch accumulator.
pub open spec fn branch_acc0() -> BranchAcc {
    BranchAcc {
        name: Option::None,
        commit_hash: Option::None,
        pr_id: Option::None,
        status: Option::None,
        parent: Option::None,
        created_at: Option::None,
        updated_at: Option::None,
    }
}

/// A branch object is complete once every field appeared.
pub open spec fn branch_acc_done(acc: BranchAcc) -> Option<BranchV> {
    match (acc.name, acc.commit_hash, acc.pr_id, acc.status, acc.parent) {
        (
            Option::Some(name),
            Option::Some(commit_hash),
            Option::Some(pr_id),
            Option::Some(status),
            Option::Some(parent),
        ) => match (acc.created_at, acc.updated_at) {
            (Option::Some(created_at), Option::Some(updated_at)) => Option::Some(
                BranchV { name, commit_hash, pr_id, status, parent, created_at, updated_at },
            ),
            _ => Option::None,
        },
        _ => Option::None,
    }
}

/// One `key: value` pair of a branch object.  A `null` parent reads as the
/// empty string, a `null` pull-request id as the sentinel, a repeated field
/// is refused, and an unknown field is skipped.
pub open spec fn parse_branch_value(s: Seq<char>, i: int, key: Seq<char>, acc: BranchAcc) -> Option<
    (BranchAcc, int),
>
    decreases 0nat, 2int,
{
    if key == "name"@ {
        match (acc.name, parse_string_at(s, i)) {
            (Option::None, Option::Some((v, j))) => Option::Some(
                (BranchAcc { name: Option::Some(v), ..acc }, j),
            ),
            _ => Option::None,
        }
    } else if key == "commit_hash"@ {
        match (acc.commit_hash, parse_string_at(s, i)) {
            (Option::None, Option::Some((v, j))) => Option::Some(
                (BranchAcc { commit_hash: Option::Some(v), ..acc }, j),
            ),
            _ => Option::None,
        }
    } else if key == "pr_id"@ {
        if acc.pr_id is Some {
            Option::None
        } else if at_lit(s, i, "null"@) {
            Option::Some((BranchAcc { pr_id: Option::Some(-1), ..acc }, i + 4))
        } else {
            match parse_i64_at(s, i) {
                Option::Some((v, j)) => Option::Some(
                    (BranchAcc { pr_id: Option::Some(v), ..acc }, j),
                ),
                Option::None => Option::None,
            }
        }
    } else if key == "status"@ {
        match (acc.status, parse_string_at(s, i)) {
            (Option::None, Option::Some((v, j))) => match status_of_name(v) {
                Option::Some(st) => Option::Some(
                    (BranchAcc { status: Option::Some(st), ..acc }, j),
                ),
                Option::None => Option::None,
            },
            _ => Option::None,
        }
    } else if key == "parent"@ {
        if acc.parent is Some {
            Option::None
        } else if at_lit(s, i, "null"@) {
            Option::Some((BranchAcc { parent: Option::Some(Seq::<char>::empty()), ..acc }, i + 4))
        } else {
            match parse_string_at(s, i) {
                Option::Some((v, j)) => Option::Some(
                    (BranchAcc { parent: Option::Some(v), ..acc }, j),
                ),
                Option::None => Option::None,
            }
        }
    } else if key == "created_at"@ {
        match (acc.created_at, parse_i64_at(s, i)) {
            (Option::None, Option::Some((v, j))) => Option::Some(
                (BranchAcc { created_at: Option::Some(v), ..acc }, j),
            ),
            _ => Option::None,
        }
    } else if key == "updated_at"@ {
        match (acc.updated_at, parse_i64_at(s, i)) {
            (Option::None, Option::Some((v, j))) => Option::Some(
                (BranchAcc { updated_at: Option::Some(v), ..acc }, j),
            ),
            _ => Option::None,
        }
    } else {
        match skip_value_at(s, i) {
            Option::Some(j) => Option::Some((acc, j)),
            Option::None => Option::None,
        }
    }
}

/// The field loop of a branch object, entered after `{` or a `,`.
pub open spec fn parse_branch_fields(s: Seq<char>, i: int, acc: BranchAcc, fuel: nat) -> Option<
    (BranchV, int),
>
    decreases fuel, 3int,
{
    if fuel == 0 {
        Option::None
    } else {
        let j = skip_ws(s, i);
        if j < s.len() && s[j] == '}' {
            match branch_acc_done(acc) {
                Option::Some(b) => Option::Some((b, j + 1)),
                Option::None => Option::None,
            }
        } else {
            match parse_string_at(s, j) {
                Option::None => Option::None,
                Option::Some((key, j1)) => {
                    let j2 = skip_ws(s, j1);
                    if j2 < s.len() && s[j2] == ':' {
                        let j3 = skip_ws(s, j2 + 1);
                        match parse_branch_value(s, j3, key, acc) {
                            Option::None => Option::None,
                            Option::Some((acc2, j4)) => {
                                let j5 = skip_ws(s, j4);
                                if j5 < s.len() && s[j5] == ',' {
                                    parse_branch_fields(s, j5 + 1, acc2, (fuel - 1) as nat)
                                } else if j5 < s.len() && s[j5] == '}' {
                                    match branch_acc_done(acc2) {
                                        Option::Some(b) => Option::Some((b, j5 + 1)),
                                        Option::None => Option::None,
                                    }
                                } else {
                                    Option::None
                                }
                            },
                        }
                    } else {
                        Option::None
                    }
                },
            }
        }
    }
}

/// A branch object at `i`.
pub open spec fn parse_branch_at(s: Seq<char>, i: int, fuel: nat) -> Option<(BranchV, int)>
    decreases fuel, 4int,
{
    if 0 <= i < s.len() && s[i] == '{' {
        parse_branch_fields(s, i + 1, branch_acc0(), fuel)
    } else {
        Option::None
    }
}

/// The element loop of a branch array, entered at the first element.
pub open spec fn parse_branch_items(s: Seq<char>, i: int, acc: Seq<BranchV>, fuel: nat) -> Option<
    (Seq<BranchV>, int),
>
    decreases fuel, 5int,
{
    if fuel == 0 {
        Option::None
    } else {
        match parse_branch_at(s, i, fuel) {
            Option::None => Option::None,
            Option::Some((b, j)) => {
                let j1 = skip_ws(s, j);
                if j1 < s.len() && s[j1] == ',' {
                    parse_branch_items(s, skip_ws(s, j1 + 1), acc.push(b), (fuel - 1) as nat)
                } else if j1 < s.len() && s[j1] == ']' {
                    Option::Some((acc.push(b), j1 + 1))
                } else {
                    Option::None
                }
            },
        }
    }
}

/// A branch array at `i`.
pub open spec fn parse_branch_list_at(s: Seq<char>, i: int, fuel: nat) -> Option<
    (Seq<BranchV>, int),
>
    decreases fuel, 6int,
{
    if 0 <= i < s.len() && s[i] == '[' {
        let j = skip_ws(s, i + 1);
        if j < s.len() && s[j] == ']' {
            Option::Some((Seq::<BranchV>::empty(), j + 1))
        } else {
            parse_branch_items(s, j, Seq::<BranchV>::empty(), fuel)
        }
    } else {
        Option::None
    }
}

/// Partially decoded stack object.
pub ghost struct StackAcc {
    pub name: Option<Seq<char>>,
    pub base_branch: Option<Seq<char>>,
    pub head_branch: Option<BranchV>,
    pub branches: Option<Seq<BranchV>>,
    pub created_at: Option<int>,
    pub updated_at: Option<int>,
}

/// The empty stack accumulator.
pub open spec fn stack_acc0() -> StackAcc {
    StackAcc {
        name: Option::None,
        base_branch: Option::None,
        head_branch: Option::None,
        branches: Option::None,
        created_at: Option::None,
        updated_at: Option::None,
    }
}

/// A stack object is complete once every field appeared.
pub open spec fn stack_acc_done(acc: StackAcc) -> Option<StackV> {
    match (acc.name, acc.base_branch, acc.head_branch, acc.branches) {
        (
            Option::Some(name),
            Option::Some(base_branch),
            Option::Some(head_branch),
            Option::Some(branches),
        ) => match (acc.created_at, acc.updated_at) {
            (Option::Some(created_at), Option::Some(updated_at)) => Option::Some(
                StackV { name, base_branch, head_branch, branches, created_at, updated_at },
            ),
            _ => Option::None,
        },
        _ => Option::None,
    }
}

/// One `key: value` pair of a stack object.
pub open spec fn parse_stack_value(
    s: Seq<char>,
    i: int,
    key: Seq<char>,
    acc: StackAcc,
    fuel: nat,
) -> Option<(StackAcc, int)>
    decreases fuel, 7int,
{
    if key == "name"@ {
        match (acc.name, parse_string_at(s, i)) {
            (Option::None, Option::Some((v, j))) => Option::Some(
                (StackAcc { name: Option::Some(v), ..acc }, j),
            ),
            _ => Option::None,
        }
    } else if key == "base_branch"@ {
        match (acc.base_branch, parse_string_at(s, i)) {
            (Option::None, Option::Some((v, j))) => Option::Some(
                (StackAcc { base_branch: Option::Some(v), ..acc }, j),
            ),
            _ => Option::None,
        }
    } else if key == "head_branch"@ {
        match (acc.head_branch, parse_branch_at(s, i, fuel)) {
            (Option::None, Option::Some((v, j))) => Option::Some(
                (StackAcc { head_branch: Option::Some(v), ..acc }, j),
            ),
            _ => Option::None,
        }
    } else if key == "branches"@ {
        match (acc.branches, parse_branch_list_at(s, i, fuel)) {
            (Option::None, Option::Some((v, j))) => Option::Some(
                (StackAcc { branches: Option::Some(v), ..acc }, j),
            ),
            _ => Option::None,
        }
    } else if key == "created_at"@ {
        match (acc.created_at, parse_i64_at(s, i)) {
            (Option::None, Option::Some((v, j))) => Option::Some(
                (StackAcc { created_at: Option::Some(v), ..acc }, j),
            ),
            _ => Option::None,
        }
    } else if key == "updated_at"@ {
        match (acc.updated_at, parse_i64_at(s, i)) {
            (Option::None, Option::Some((v, j))) => Option::Some(
                (StackAcc { updated_at: Option::Some(v), ..acc }, j),
            ),
            _ => Option::None,
        }
    } else {
        match skip_value_at(s, i) {
            Option::Some(j) => Option::Some((acc, j)),
            Option::None => Option::None,
        }
    }
}

/// The field loop of a stack object, entered after `{` or a `,`.
pub open spec fn parse_stack_fields(s: Seq<char>, i: int, acc: StackAcc, fuel: nat) -> Option<
    (StackV, int),
>
    decreases fuel, 8int,
{
    if fuel == 0 {
        Option::None
    } else {
        let j = skip_ws(s, i);
        if j < s.len() && s[j] == '}' {
            match stack_acc_done(acc) {
                Option::Some(v) => Option::Some((v, j + 1)),
                Option::None => Option::None,
            }
        } else {
            match parse_string_at(s, j) {
                Option::None => Option::None,
                Option::Some((key, j1)) => {
                    let j2 = skip_ws(s, j1);
                    if j2 < s.len() && s[j2] == ':' {
                        let j3 = skip_ws(s, j2 + 1);
                        match parse_stack_value(s, j3, key, acc, fuel) {
                            Option::None => Option::None,
                            Option::Some((acc2, j4)) => {
                                let j5 = skip_ws(s, j4);
                                if j5 < s.len() && s[j5] == ',' {
                                    parse_stack_fields(s, j5 + 1, acc2, (fuel - 1) as nat)
                                } else if j5 < s.len() && s[j5] == '}' {
                                    match stack_acc_done(acc2) {
                                        Option::Some(v) => Option::Some((v, j5 + 1)),
                                        Option::None => Option::None,
                                    }
                                } else {
                                    Option::None
                                }
                            },
                        }
                    } else {
                        Option::None
                    }
                },
            }
        }
    }
}

/// A stack object at `i`.
pub open spec fn parse_stack_at(s: Seq<char>, i: int, fuel: nat) -> Option<(StackV, int)>
    decreases fuel, 9int,
{
    if 0 <= i < s.len() && s[i] == '{' {
        parse_stack_fields(s, i + 1, stack_acc0(), fuel)
    } else {
        Option::None
    }
}

/// The element loop of a stack array, entered at the first element.
pub open spec fn parse_stack_items(s: Seq<char>, i: int, acc: Seq<StackV>, fuel: nat) -> Option<
    (Seq<StackV>, int),
>
    decreases fuel, 10int,
{
    if fuel == 0 {
        Option::None
    } else {
        match parse_stack_at(s, i, fuel) {
            Option::None => Option::None,
            Option::Some((v, j)) => {
                let j1 = skip_ws(s, j);
                if j1 < s.len() && s[j1] == ',' {
                    parse_stack_items(s, skip_ws(s, j1 + 1), acc.push(v), (fuel - 1) as nat)
                } else if j1 < s.len() && s[j1] == ']' {
                    Option::Some((acc.push(v), j1 + 1))
                } else {
                    Option::None
                }
            },
        }
    }
}

/// A stack array at `i`.
pub open spec fn parse_stack_list_at(s: Seq<char>, i: int, fuel: nat) -> Option<
    (Seq<StackV>, int),
>
    decreases fuel, 11int,
{
    if 0 <= i < s.len() && s[i] == '[' {
        let j = skip_ws(s, i + 1);
        if j < s.len() && s[j] == ']' {
            Option::Some((Seq::<StackV>::empty(), j + 1))
        } else {
            parse_stack_items(s, j, Seq::<StackV>::empty(), fuel)
        }
    } else {
        Option::None
    }
}

/// Partially decoded detached-head object.
pub ghost struct DetachedAcc {
    pub stack_name: Option<Seq<char>>,
    pub branch_name: Option<Seq<char>>,
}

/// A detached-head object is complete once both fields appeared.
pub open spec fn detached_acc_done(acc: DetachedAcc) -> Option<DetachedV> {
    match (acc.stack_name, acc.branch_name) {
        (Option::Some(stack_name), Option::Some(branch_name)) => Option::Some(
            DetachedV { stack_name, branch_name },
        ),
        _ => Option::None,
    }
}

/// The field loop of a detached-head object.
pub open spec fn parse_detached_fields(s: Seq<char>, i: int, acc: DetachedAcc, fuel: nat) -> Option<
    (DetachedV, int),
>
    decreases fuel, 12int,
{
    if fuel == 0 {
        Option::None
    } else {
        let j = skip_ws(s, i);
        if j < s.len() && s[j] == '}' {
            match detached_acc_done(acc) {
                Option::Some(v) => Option::Some((v, j + 1)),
                Option::None => Option::None,
            }
        } else {
            match parse_string_at(s, j) {
                Option::None => Option::None,
                Option::Some((key, j1)) => {
                    let j2 = skip_ws(s, j1);
                    if j2 < s.len() && s[j2] == ':' {
                        let j3 = skip_ws(s, j2 + 1);
                        let step: Option<(DetachedAcc, int)> = if key == "stack_name"@ {
                            match (acc.stack_name, parse_string_at(s, j3)) {
                                (Option::None, Option::Some((v, j4))) => Option::Some(
                                    (DetachedAcc { stack_name: Option::Some(v), ..acc }, j4),
                                ),
                                _ => Option::None,
                            }
                        } else if key == "branch_name"@ {
                            match (acc.branch_name, parse_string_at(s, j3)) {
                                (Option::None, Option::Some((v, j4))) => Option::Some(
                                    (DetachedAcc { branch_name: Option::Some(v), ..acc }, j4),
                                ),
                                _ => Option::None,
                            }
                        } else {
                            match skip_value_at(s, j3) {
                                Option::Some(j4) => Option::Some((acc, j4)),
                                Option::None => Option::None,
                            }
                        };
                        match step {
                            Option::None => Option::None,
                            Option::Some((acc2, j4)) => {
                                let j5 = skip_ws(s, j4);
                                if j5 < s.len() && s[j5] == ',' {
                                    parse_detached_fields(s, j5 + 1, acc2, (fuel - 1) as nat)
                                } else if j5 < s.len() && s[j5] == '}' {
                                    match detached_acc_done(acc2) {
                                        Option::Some(v) => Option::Some((v, j5 + 1)),
                                        Option::None => Option::None,
                                    }
                                } else {
                                    Option::None
                                }
                            },
                        }
                    } else {
                        Option::None
                    }
                },
            }
        }
    }
}

/// A detached-head object at `i`.
pub open spec fn parse_detached_at(s: Seq<char>, i: int, fuel: nat) -> Option<(DetachedV, int)>
    decreases fuel, 13int,
{
    if 0 <= i < s.len() && s[i] == '{' {
        parse_detached_fields(
            s,
            i + 1,
            (DetachedAcc { stack_name: Option::None, branch_name: Option::None }),
            fuel,
        )
    } else {
        Option::None
    }
}

/// Partially decoded store object.
pub ghost struct StoreAcc {
    pub stacks: Option<Seq<StackV>>,
    pub version: Option<Seq<char>>,
    pub detached: Option<Option<DetachedV>>,
}

/// A store object is complete once `stacks` and `version` appeared; an
/// absent detached-head record reads as none.
pub open spec fn store_acc_done(acc: StoreAcc) -> Option<StoreV> {
    match (acc.stacks, acc.version) {
        (Option::Some(stacks), Option::Some(version)) => Option::Some(
            StoreV {
                stacks,
                version,
                detached: match acc.detached {
                    Option::Some(d) => d,
                    Option::None => Option::None,
                },
            },
        ),
        _ => Option::None,
    }
}

/// One `key: value` pair of the store object.  A `null` detached-head record
/// reads as none.
pub open spec fn parse_store_value(
    s: Seq<char>,
    i: int,
    key: Seq<char>,
    acc: StoreAcc,
    fuel: nat,
) -> Option<(StoreAcc, int)>
    decreases fuel, 14int,
{
    if key == "stacks"@ {
        match (acc.stacks, parse_stack_list_at(s, i, fuel)) {
            (Option::None, Option::Some((v, j))) => Option::Some(
                (StoreAcc { stacks: Option::Some(v), ..acc }, j),
            ),
            _ => Option::None,
        }
    } else if key == "version"@ {
        match (acc.version, parse_string_at(s, i)) {
            (Option::None, Option::Some((v, j))) => Option::Some(
                (StoreAcc { version: Option::Some(v), ..acc }, j),
            ),
            _ => Option::None,
        }
    } else if key == "detached_head_context"@ {
        if acc.detached is Some {
            Option::None
        } else if at_lit(s, i, "null"@) {
            Option::Some((StoreAcc { detached: Option::Some(Option::None), ..acc }, i + 4))
        } else {
            match parse_detached_at(s, i, fuel) {
                Option::Some((v, j)) => Option::Some(
                    (StoreAcc { detached: Option::Some(Option::Some(v)), ..acc }, j),
                ),
                Option::None => Option::None,
            }
        }
    } else {
        match skip_value_at(s, i) {
            Option::Some(j) => Option::Some((acc, j)),
            Option::None => Option::None,
        }
    }
}

/// The field loop of the store object.
pub open spec fn parse_store_fields(s: Seq<char>, i: int, acc: StoreAcc, fuel: nat) -> Option<
    (StoreV, int),
>
    decreases fuel, 15int,
{
    if fuel == 0 {
        Option::None
    } else {
        let j = skip_ws(s, i);
        if j < s.len() && s[j] == '}' {
            match store_acc_done(acc) {
                Option::Some(v) => Option::Some((v, j + 1)),
                Option::None => Option::None,
            }
        } else {
            match parse_string_at(s, j) {
                Option::None => Option::None,
                Option::Some((key, j1)) => {
                    let j2 = skip_ws(s, j1);
                    if j2 < s.len() && s[j2] == ':' {
                        let j3 = skip_ws(s, j2 + 1);
                        match parse_store_value(s, j3, key, acc, fuel) {
                            Option::None => Option::None,
                            Option::Some((acc2, j4)) => {
                                let j5 = skip_ws(s, j4);
                                if j5 < s.len() && s[j5] == ',' {
                                    parse_store_fields(s, j5 + 1, acc2, (fuel - 1) as nat)
                                } else if j5 < s.len() && s[j5] == '}' {
                                    match store_acc_done(acc2) {
                                        Option::Some(v) => Option::Some((v, j5 + 1)),
                                        Option::None => Option::None,
                                    }
                                } else {
                                    Option::None
                                }
                            },
                        }
                    } else {
                        Option::None
                    }
                },
            }
        }
    }
}

/// The store object at `i`.
pub open spec fn parse_store_at(s: Seq<char>, i: int, fuel: nat) -> Option<(StoreV, int)>
    decreases fuel, 16int,
{
    if 0 <= i < s.len() && s[i] == '{' {
        parse_store_fields(
            s,
            i + 1,
            (StoreAcc { stacks: Option::None, version: Option::None, detached: Option::None }),
            fuel,
        )
    } else {
        Option::None
    }
}

/// What a whole document decodes to: the store object, possibly surrounded
/// by whitespace, and nothing after it.
pub open spec fn spec_parse_store(s: Seq<char>) -> Option<StoreV> {
    match parse_store_at(s, skip_ws(s, 0), s.len() + 1) {
        Option::Some((m, j)) => if skip_ws(s, j) == s.len() {
            Option::Some(m)
        } else {
            Option::None
        },
        Option::None => Option::None,
    }
}

/// Exec mirror of `skip_value_at`.
fn skip_value_exec(s: &str, n: usize, i: usize) -> (r: Option<usize>)
    requires
        n == s@.len(),
        i <= n,
    ensures
        match r {
            Option::Some(j) => skip_value_at(s@, i as int) == Option::Some(j as int) && j <= n,
            Option::None => skip_value_at(s@, i as int) is None,
        },
{
    proof {
        reveal_strlit("null");
        reveal_strlit("true");
        reveal_strlit("false");
    }
    if at_lit_exec(s, n, i, "null") {
        return Option::Some(i + 4);
    }
    if at_lit_exec(s, n, i, "true") {
        return Option::Some(i + 4);
    }
    if at_lit_exec(s, n, i, "false") {
        return Option::Some(i + 5);
    }
    match parse_string_exec(s, n, i) {
        Option::Some((v, j)) => Option::Some(j),
        Option::None => match parse_i64_exec(s, n, i) {
            Option::Some((v, j)) => Option::Some(j),
            Option::None => Option::None,
        },
    }
}

/// Exec accumulator for a branch object.
struct BranchPartial {
    name: Option<String>,
    commit_hash: Option<String>,
    pr_id: Option<i64>,
    status: Option<BranchStatus>,
    parent: Option<String>,
    created_at: Option<i64>,
    updated_at: Option<i64>,
}

impl View for BranchPartial {
    type V = BranchAcc;

    closed spec fn view(&self) -> BranchAcc {
        BranchAcc {
            name: match self.name {
                Option::Some(v) => Option::Some(v@),
                Option::None => Option::None,
            },
            commit_hash: match self.commit_hash {
                Option::Some(v) => Option::Some(v@),
                Option::None => Option::None,
            },
            pr_id: match self.pr_id {
                Option::Some(v) => Option::Some(v as int),
                Option::None => Option::None,
            },
            status: self.status,
            parent: match self.parent {
                Option::Some(v) => Option::Some(v@),
                Option::None => Option::None,
            },
            created_at: match self.created_at {
                Option::Some(v) => Option::Some(v as int),
                Option::None => Option::None,
            },
            updated_at: match self.updated_at {
                Option::Some(v) => Option::Some(v as int),
                Option::None => Option::None,
            },
        }
    }
}

/// Exec mirror of `branch_acc_done`.
fn branch_partial_done(acc: BranchPartial) -> (r: Option<StackBranch>)
    ensures
        match r {
            Option::Some(b) => branch_acc_done(acc@) == Option::Some(b@),
            Option::None => branch_acc_done(acc@) is None,
        },
{
    match (acc.name, acc.commit_hash, acc.pr_id, acc.status, acc.parent, acc.created_at, acc.updated_at) {
        (
            Option::Some(name),
            Option::Some(commit_hash),
            Option::Some(pr_id),
            Option::Some(status),
            Option::Some(parent),
            Option::Some(created_at),
            Option::Some(updated_at),
        ) => Option::Some(
            StackBranch { name, commit_hash, pr_id, status, parent, created_at, updated_at },
        ),
        _ => Option::None,
    }
}

/// Exec mirror of `parse_branch_value`.
fn parse_branch_value_exec(s: &str, n: usize, i: usize, key: &str, acc: BranchPartial) -> (r:
    Option<(BranchPartial, usize)>)
    requires
        n == s@.len(),
        i <= n,
    ensures
        match r {
            Option::Some((a, j)) => parse_branch_value(s@, i as int, key@, acc@)
                == Option::Some((a@, j as int)) && j <= n,
            Option::None => parse_branch_value(s@, i as int, key@, acc@) is None,
        },
{
    let mut acc = acc;
    if crate::strutil::str_eq(key, "name") {
        match (&acc.name, parse_string_exec(s, n, i)) {
            (Option::None, Option::Some((v, j))) => {
                acc.name = Option::Some(v);
                Option::Some((acc, j))
            },
            _ => Option::None,
        }
    } else if crate::strutil::str_eq(key, "commit_hash") {
        match (&acc.commit_hash, parse_string_exec(s, n, i)) {
            (Option::None, Option::Some((v, j))) => {
                acc.commit_hash = Option::Some(v);
                Option::Some((acc, j))
            },
            _ => Option::None,
        }
    } else if crate::strutil::str_eq(key, "pr_id") {
        if acc.pr_id.is_some() {
            Option::None
        } else if at_lit_exec(s, n, i, "null") {
            proof {
                reveal_strlit("null");
            }
            acc.pr_id = Option::Some(-1);
            Option::Some((acc, i + 4))
        } else {
            match parse_i64_exec(s, n, i) {
                Option::Some((v, j)) => {
                    acc.pr_id = Option::Some(v);
                    Option::Some((acc, j))
                },
                Option::None => Option::None,
            }
        }
    } else if crate::strutil::str_eq(key, "status") {
        match (&acc.status, parse_string_exec(s, n, i)) {
            (Option::None, Option::Some((v, j))) => {
                let st = if crate::strutil::str_eq(v.as_str(), "Pending") {
                    Option::Some(BranchStatus::Pending)
                } else if crate::strutil::str_eq(v.as_str(), "Merged") {
                    Option::Some(BranchStatus::Merged)
                } else if crate::strutil::str_eq(v.as_str(), "Conflict") {
                    Option::Some(BranchStatus::Conflict)
                } else if crate::strutil::str_eq(v.as_str(), "Testing") {
                    Option::Some(BranchStatus::Testing)
                } else {
                    Option::None
                };
                match st {
                    Option::Some(st) => {
                        acc.status = Option::Some(st);
                        Option::Some((acc, j))
                    },
                    Option::None => Option::None,
                }
            },
            _ => Option::None,
        }
    } else if crate::strutil::str_eq(key, "parent") {
        if acc.parent.is_some() {
            Option::None
        } else if at_lit_exec(s, n, i, "null") {
            proof {
                reveal_strlit("null");
            }
            acc.parent = Option::Some(String::new());
            Option::Some((acc, i + 4))
        } else {
            match parse_string_exec(s, n, i) {
                Option::Some((v, j)) => {
                    acc.parent = Option::Some(v);
                    Option::Some((acc, j))
                },
                Option::None => Option::None,
            }
        }
    } else if crate::strutil::str_eq(key, "created_at") {
        match (&acc.created_at, parse_i64_exec(s, n, i)) {
            (Option::None, Option::Some((v, j))) => {
                acc.created_at = Option::Some(v);
                Option::Some((acc, j))
            },
            _ => Option::None,
        }
    } else if crate::strutil::str_eq(key, "updated_at") {
        match (&acc.updated_at, parse_i64_exec(s, n, i)) {
            (Option::None, Option::Some((v, j))) => {
                acc.updated_at = Option::Some(v);
                Option::Some((acc, j))
            },
            _ => Option::None,
        }
    } else {
        match skip_value_exec(s, n, i) {
            Option::Some(j) => Option::Some((acc, j)),
            Option::None => Option::None,
        }
    }
}

/// Exec mirror of `parse_branch_fields`.
fn parse_branch_fields_exec(s: &str, n: usize, i: usize, acc: BranchPartial, fuel: usize) -> (r:
    Option<(StackBranch, usize)>)
    requires
        n == s@.len(),
        i <= n,
    ensures
        match r {
            Option::Some((b, j)) => parse_branch_fields(s@, i as int, acc@, fuel as nat)
                == Option::Some((b@, j as int)) && j <= n,
            Option::None => parse_branch_fields(s@, i as int, acc@, fuel as nat) is None,
        },
    decreases fuel,
{
    if fuel == 0 {
        return Option::None;
    }
    let j = skip_ws_exec(s, n, i);
    if j < n && s.get_char(j) == '}' {
        return match branch_partial_done(acc) {
            Option::Some(b) => Option::Some((b, j + 1)),
            Option::None => Option::None,
        };
    }
    match parse_string_exec(s, n, j) {
        Option::None => Option::None,
        Option::Some((key, j1)) => {
            let j2 = skip_ws_exec(s, n, j1);
            if j2 < n && s.get_char(j2) == ':' {
                let j3 = skip_ws_exec(s, n, j2 + 1);
                match parse_branch_value_exec(s, n, j3, key.as_str(), acc) {
                    Option::None => Option::None,
                    Option::Some((acc2, j4)) => {
                        let j5 = skip_ws_exec(s, n, j4);
                        if j5 < n && s.get_char(j5) == ',' {
                            parse_branch_fields_exec(s, n, j5 + 1, acc2, fuel - 1)
                        } else if j5 < n && s.get_char(j5) == '}' {
                            match branch_partial_done(acc2) {
                                Option::Some(b) => Option::Some((b, j5 + 1)),
                                Option::None => Option::None,
                            }
                        } else {
                            Option::None
                        }
                    },
                }
            } else {
                Option::None
            }
        },
    }
}

/// Exec mirror of `parse_branch_at`.
fn parse_branch_exec(s: &str, n: usize, i: usize, fuel: usize) -> (r: Option<(StackBranch, usize)>)
    requires
        n == s@.len(),
        i <= n,
    ensures
        match r {
            Option::Some((b, j)) => parse_branch_at(s@, i as int, fuel as nat) == Option::Some(
                (b@, j as int),
            ) && j <= n,
            Option::None => parse_branch_at(s@, i as int, fuel as nat) is None,
        },
    decreases fuel,
{
    if i < n && s.get_char(i) == '{' {
        let acc = BranchPartial {
            name: Option::None,
            commit_hash: Option::None,
            pr_id: Option::None,
            status: Option::None,
            parent: Option::None,
            created_at: Option::None,
            updated_at: Option::None,
        };
        parse_branch_fields_exec(s, n, i + 1, acc, fuel)
    } else {
        Option::None
    }
}

/// Exec mirror of `parse_branch_items`.
fn parse_branch_items_exec(
    s: &str,
    n: usize,
    i: usize,
    acc: Vec<StackBranch>,
    fuel: usize,
) -> (r: Option<(Vec<StackBranch>, usize)>)
    requires
        n == s@.len(),
        i <= n,
    ensures
        match r {
            Option::Some((v, j)) => parse_branch_items(
                s@,
                i as int,
                acc@.map_values(|b: StackBranch| b@),
                fuel as nat,
            ) == Option::Some((v@.map_values(|b: StackBranch| b@), j as int)) && j <= n,
            Option::None => parse_branch_items(
                s@,
                i as int,
                acc@.map_values(|b: StackBranch| b@),
                fuel as nat,
            ) is None,
        },
    decreases fuel,
{
    if fuel == 0 {
        return Option::None;
    }
    let mut acc = acc;
    match parse_branch_exec(s, n, i, fuel) {
        Option::None => Option::None,
        Option::Some((b, j)) => {
            let ghost accv = acc@.map_values(|x: StackBranch| x@);
            let ghost bv = b@;
            let j1 = skip_ws_exec(s, n, j);
            acc.push(b);
            proof {
                assert(acc@.map_values(|x: StackBranch| x@) =~= accv.push(bv));
            }
            if j1 < n && s.get_char(j1) == ',' {
                let j2 = skip_ws_exec(s, n, j1 + 1);
                parse_branch_items_exec(s, n, j2, acc, fuel - 1)
            } else if j1 < n && s.get_char(j1) == ']' {
                Option::Some((acc, j1 + 1))
            } else {
                Option::None
            }
        },
    }
}

/// Exec mirror of `parse_branch_list_at`.
fn parse_branch_list_exec(s: &str, n: usize, i: usize, fuel: usize) -> (r: Option<
    (Vec<StackBranch>, usize)>)
    requires
        n == s@.len(),
        i <= n,
    ensures
        match r {
            Option::Some((v, j)) => parse_branch_list_at(s@, i as int, fuel as nat)
                == Option::Some((v@.map_values(|b: StackBranch| b@), j as int)) && j <= n,
            Option::None => parse_branch_list_at(s@, i as int, fuel as nat) is None,
        },
    decreases fuel,
{
    if i < n && s.get_char(i) == '[' {
        let j = skip_ws_exec(s, n, i + 1);
        if j < n && s.get_char(j) == ']' {
            let empty: Vec<StackBranch> = Vec::new();
            proof {
                assert(empty@.map_values(|b: StackBranch| b@) =~= Seq::<BranchV>::empty());
            }
            Option::Some((empty, j + 1))
        } else {
            let empty: Vec<StackBranch> = Vec::new();
            proof {
                assert(empty@.map_values(|b: StackBranch| b@) =~= Seq::<BranchV>::empty());
            }
            parse_branch_items_exec(s, n, j, empty, fuel)
        }
    } else {
        Option::None
    }
}

/// Exec accumulator for a stack object.
struct StackPartial {
    name: Option<String>,
    base_branch: Option<String>,
    head_branch: Option<StackBranch>,
    branches: Option<Vec<StackBranch>>,
    created_at: Option<i64>,
    updated_at: Option<i64>,
}

impl View for StackPartial {
    type V = StackAcc;

    closed spec fn view(&self) -> StackAcc {
        StackAcc {
            name: match self.name {
                Option::Some(v) => Option::Some(v@),
                Option::None => Option::None,
            },
            base_branch: match self.base_branch {
                Option::Some(v) => Option::Some(v@),
                Option::None => Option::None,
            },
            head_branch: match self.head_branch {
                Option::Some(v) => Option::Some(v@),
                Option::None => Option::None,
            },
            branches: match self.branches {
                Option::Some(v) => Option::Some(v@.map_values(|b: StackBranch| b@)),
                Option::None => Option::None,
            },
            created_at: match self.created_at {
                Option::Some(v) => Option::Some(v as int),
                Option::None => Option::None,
            },
            updated_at: match self.updated_at {
                Option::Some(v) => Option::Some(v as int),
                Option::None => Option::None,
            },
        }
    }
}

/// Exec mirror of `stack_acc_done`.
fn stack_partial_done(acc: StackPartial) -> (r: Option<Stack>)
    ensures
        match r {
            Option::Some(v) => stack_acc_done(acc@) == Option::Some(v@),
            Option::None => stack_acc_done(acc@) is None,
        },
{
    match (acc.name, acc.base_branch, acc.head_branch, acc.branches, acc.created_at, acc.updated_at) {
        (
            Option::Some(name),
            Option::Some(base_branch),
            Option::Some(head_branch),
            Option::Some(branches),
            Option::Some(created_at),
            Option::Some(updated_at),
        ) => Option::Some(
            Stack { name, base_branch, head_branch, branches, created_at, updated_at },
        ),
        _ => Option::None,
    }
}

/// Exec mirror of `parse_stack_value`.
fn parse_stack_value_exec(
    s: &str,
    n: usize,
    i: usize,
    key: &str,
    acc: StackPartial,
    fuel: usize,
) -> (r: Option<(StackPartial, usize)>)
    requires
        n == s@.len(),
        i <= n,
    ensures
        match r {
            Option::Some((a, j)) => parse_stack_value(s@, i as int, key@, acc@, fuel as nat)
                == Option::Some((a@, j as int)) && j <= n,
            Option::None => parse_stack_value(s@, i as int, key@, acc@, fuel as nat) is None,
        },
    decreases fuel,
{
    let mut acc = acc;
    if crate::strutil::str_eq(key, "name") {
        match (&acc.name, parse_string_exec(s, n, i)) {
            (Option::None, Option::Some((v, j))) => {
                acc.name = Option::Some(v);
                Option::Some((acc, j))
            },
            _ => Option::None,
        }
    } else if crate::strutil::str_eq(key, "base_branch") {
        match (&acc.base_branch, parse_string_exec(s, n, i)) {
            (Option::None, Option::Some((v, j))) => {
                acc.base_branch = Option::Some(v);
                Option::Some((acc, j))
            },
            _ => Option::None,
        }
    } else if crate::strutil::str_eq(key, "head_branch") {
        match (&acc.head_branch, parse_branch_exec(s, n, i, fuel)) {
            (Option::None, Option::Some((v, j))) => {
                acc.head_branch = Option::Some(v);
                Option::Some((acc, j))
            },
            _ => Option::None,
        }
    } else if crate::strutil::str_eq(key, "branches") {
        match (&acc.branches, parse_branch_list_exec(s, n, i, fuel)) {
            (Option::None, Option::Some((v, j))) => {
                acc.branches = Option::Some(v);
                Option::Some((acc, j))
            },
            _ => Option::None,
        }
    } else if crate::strutil::str_eq(key, "created_at") {
        match (&acc.created_at, parse_i64_exec(s, n, i)) {
            (Option::None, Option::Some((v, j))) => {
                acc.created_at = Option::Some(v);
                Option::Some((acc, j))
            },
            _ => Option::None,
        }
    } else if crate::strutil::str_eq(key, "updated_at") {
        match (&acc.updated_at, parse_i64_exec(s, n, i)) {
            (Option::None, Option::Some((v, j))) => {
                acc.updated_at = Option::Some(v);
                Option::Some((acc, j))
            },
            _ => Option::None,
        }
    } else {
        match skip_value_exec(s, n, i) {
            Option::Some(j) => Option::Some((acc, j)),
            Option::None => Option::None,
        }
    }
}

/// Exec mirror of `parse_stack_fields`.
fn parse_stack_fields_exec(s: &str, n: usize, i: usize, acc: StackPartial, fuel: usize) -> (r:
    Option<(Stack, usize)>)
    requires
        n == s@.len(),
        i <= n,
    ensures
        match r {
            Option::Some((v, j)) => parse_stack_fields(s@, i as int, acc@, fuel as nat)
                == Option::Some((v@, j as int)) && j <= n,
            Option::None => parse_stack_fields(s@, i as int, acc@, fuel as nat) is None,
        },
    decreases fuel,
{
    if fuel == 0 {
        return Option::None;
    }
    let j = skip_ws_exec(s, n, i);
    if j < n && s.get_char(j) == '}' {
        return match stack_partial_done(acc) {
            Option::Some(v) => Option::Some((v, j + 1)),
            Option::None => Option::None,
        };
    }
    match parse_string_exec(s, n, j) {
        Option::None => Option::None,
        Option::Some((key, j1)) => {
            let j2 = skip_ws_exec(s, n, j1);
            if j2 < n && s.get_char(j2) == ':' {
                let j3 = skip_ws_exec(s, n, j2 + 1);
                match parse_stack_value_exec(s, n, j3, key.as_str(), acc, fuel) {
                    Option::None => Option::None,
                    Option::Some((acc2, j4)) => {
                        let j5 = skip_ws_exec(s, n, j4);
                        if j5 < n && s.get_char(j5) == ',' {
                            parse_stack_fields_exec(s, n, j5 + 1, acc2, fuel - 1)
                        } else if j5 < n && s.get_char(j5) == '}' {
                            match stack_partial_done(acc2) {
                                Option::Some(v) => Option::Some((v, j5 + 1)),
                                Option::None => Option::None,
                            }
                        } else {
                            Option::None
                        }
                    },
                }
            } else {
                Option::None
            }
        },
    }
}

/// Exec mirror of `parse_stack_at`.
fn parse_stack_exec(s: &str, n: usize, i: usize, fuel: usize) -> (r: Option<(Stack, usize)>)
    requires
        n == s@.len(),
        i <= n,
    ensures
        match r {
            Option::Some((v, j)) => parse_stack_at(s@, i as int, fuel as nat) == Option::Some(
                (v@, j as int),
            ) && j <= n,
            Option::None => parse_stack_at(s@, i as int, fuel as nat) is None,
        },
    decreases fuel,
{
    if i < n && s.get_char(i) == '{' {
        let acc = StackPartial {
            name: Option::None,
            base_branch: Option::None,
            head_branch: Option::None,
            branches: Option::None,
            created_at: Option::None,
            updated_at: Option::None,
        };
        parse_stack_fields_exec(s, n, i + 1, acc, fuel)
    } else {
        Option::None
    }
}

/// Exec mirror of `parse_stack_items`.
fn parse_stack_items_exec(s: &str, n: usize, i: usize, acc: Vec<Stack>, fuel: usize) -> (r: Option<
    (Vec<Stack>, usize)>)
    requires
        n == s@.len(),
        i <= n,
    ensures
        match r {
            Option::Some((v, j)) => parse_stack_items(
                s@,
                i as int,
                acc@.map_values(|x: Stack| x@),
                fuel as nat,
            ) == Option::Some((v@.map_values(|x: Stack| x@), j as int)) && j <= n,
            Option::None => parse_stack_items(
                s@,
                i as int,
                acc@.map_values(|x: Stack| x@),
                fuel as nat,
            ) is None,
        },
    decreases fuel,
{
    if fuel == 0 {
        return Option::None;
    }
    let mut acc = acc;
    match parse_stack_exec(s, n, i, fuel) {
        Option::None => Option::None,
        Option::Some((v, j)) => {
            let ghost accv = acc@.map_values(|x: Stack| x@);
            let ghost vv = v@;
            let j1 = skip_ws_exec(s, n, j);
            acc.push(v);
            proof {
                assert(acc@.map_values(|x: Stack| x@) =~= accv.push(vv));
            }
            if j1 < n && s.get_char(j1) == ',' {
                let j2 = skip_ws_exec(s, n, j1 + 1);
                parse_stack_items_exec(s, n, j2, acc, fuel - 1)
            } else if j1 < n && s.get_char(j1) == ']' {
                Option::Some((acc, j1 + 1))
            } else {
                Option::None
            }
        },
    }
}

/// Exec mirror of `parse_stack_list_at`.
fn parse_stack_list_exec(s: &str, n: usize, i: usize, fuel: usize) -> (r: Option<
    (Vec<Stack>, usize)>)
    requires
        n == s@.len(),
        i <= n,
    ensures
        match r {
            Option::Some((v, j)) => parse_stack_list_at(s@, i as int, fuel as nat) == Option::Some(
                (v@.map_values(|x: Stack| x@), j as int),
            ) && j <= n,
            Option::None => parse_stack_list_at(s@, i as int, fuel as nat) is None,
        },
    decreases fuel,
{
    if i < n && s.get_char(i) == '[' {
        let j = skip_ws_exec(s, n, i + 1);
        if j < n && s.get_char(j) == ']' {
            let empty: Vec<Stack> = Vec::new();
            proof {
                assert(empty@.map_values(|x: Stack| x@) =~= Seq::<StackV>::empty());
            }
            Option::Some((empty, j + 1))
        } else {
            let empty: Vec<Stack> = Vec::new();
            proof {
                assert(empty@.map_values(|x: Stack| x@) =~= Seq::<StackV>::empty());
            }
            parse_stack_items_exec(s, n, j, empty, fuel)
        }
    } else {
        Option::None
    }
}

/// Exec mirror of `parse_detached_fields`.
fn parse_detached_fields_exec(
    s: &str,
    n: usize,
    i: usize,
    stack_name: Option<String>,
    branch_name: Option<String>,
    fuel: usize,
) -> (r: Option<(DetachedHeadContext, usize)>)
    requires
        n == s@.len(),
        i <= n,
    ensures
        ({
            let acc = DetachedAcc {
                stack_name: match stack_name {
                    Option::Some(v) => Option::Some(v@),
                    Option::None => Option::None,
                },
                branch_name: match branch_name {
                    Option::Some(v) => Option::Some(v@),
                    Option::None => Option::None,
                },
            };
            match r {
                Option::Some((v, j)) => parse_detached_fields(s@, i as int, acc, fuel as nat)
                    == Option::Some((v@, j as int)) && j <= n,
                Option::None => parse_detached_fields(s@, i as int, acc, fuel as nat) is None,
            }
        }),
    decreases fuel,
{
    if fuel == 0 {
        return Option::None;
    }
    let j = skip_ws_exec(s, n, i);
    if j < n && s.get_char(j) == '}' {
        return match (stack_name, branch_name) {
            (Option::Some(sn), Option::Some(bn)) => Option::Some(
                (DetachedHeadContext { stack_name: sn, branch_name: bn }, j + 1),
            ),
            _ => Option::None,
        };
    }
    match parse_string_exec(s, n, j) {
        Option::None => Option::None,
        Option::Some((key, j1)) => {
            let j2 = skip_ws_exec(s, n, j1);
            if j2 < n && s.get_char(j2) == ':' {
                let j3 = skip_ws_exec(s, n, j2 + 1);
                let step: Option<(Option<String>, Option<String>, usize)> =
                    if crate::strutil::str_eq(key.as_str(), "stack_name") {
                    match (&stack_name, parse_string_exec(s, n, j3)) {
                        (Option::None, Option::Some((v, j4))) => Option::Some(
                            (Option::Some(v), branch_name, j4),
                        ),
                        _ => Option::None,
                    }
                } else if crate::strutil::str_eq(key.as_str(), "branch_name") {
                    match (&branch_name, parse_string_exec(s, n, j3)) {
                        (Option::None, Option::Some((v, j4))) => Option::Some(
                            (stack_name, Option::Some(v), j4),
                        ),
                        _ => Option::None,
                    }
                } else {
                    match skip_value_exec(s, n, j3) {
                        Option::Some(j4) => Option::Some((stack_name, branch_name, j4)),
                        Option::None => Option::None,
                    }
                };
                match step {
                    Option::None => Option::None,
                    Option::Some((sn2, bn2, j4)) => {
                        let j5 = skip_ws_exec(s, n, j4);
                        if j5 < n && s.get_char(j5) == ',' {
                            parse_detached_fields_exec(s, n, j5 + 1, sn2, bn2, fuel - 1)
                        } else if j5 < n && s.get_char(j5) == '}' {
                            match (sn2, bn2) {
                                (Option::Some(sn), Option::Some(bn)) => Option::Some(
                                    (DetachedHeadContext { stack_name: sn, branch_name: bn }, j5
                                        + 1),
                                ),
                                _ => Option::None,
                            }
                        } else {
                            Option::None
                        }
                    },
                }
            } else {
                Option::None
            }
        },
    }
}

/// Exec mirror of `parse_detached_at`.
fn parse_detached_exec(s: &str, n: usize, i: usize, fuel: usize) -> (r: Option<
    (DetachedHeadContext, usize)>)
    requires
        n == s@.len(),
        i <= n,
    ensures
        match r {
            Option::Some((v, j)) => parse_detached_at(s@, i as int, fuel as nat) == Option::Some(
                (v@, j as int),
            ) && j <= n,
            Option::None => parse_detached_at(s@, i as int, fuel as nat) is None,
        },
    decreases fuel,
{
    if i < n && s.get_char(i) == '{' {
        parse_detached_fields_exec(s, n, i + 1, Option::None, Option::None, fuel)
    } else {
        Option::None
    }
}

/// Exec accumulator for the store object.
struct StorePartial {
    stacks: Option<Vec<Stack>>,
    version: Option<String>,
    detached: Option<Option<DetachedHeadContext>>,
}

impl View for StorePartial {
    type V = StoreAcc;

    closed spec fn view(&self) -> StoreAcc {
        StoreAcc {
            stacks: match self.stacks {
                Option::Some(v) => Option::Some(v@.map_values(|x: Stack| x@)),
                Option::None => Option::None,
            },
            version: match self.version {
                Option::Some(v) => Option::Some(v@),
                Option::None => Option::None,
            },
            detached: match self.detached {
                Option::Some(Option::Some(v)) => Option::Some(Option::Some(v@)),
                Option::Some(Option::None) => Option::Some(Option::None),
                Option::None => Option::None,
            },
        }
    }
}

/// Exec mirror of `store_acc_done`.
fn store_partial_done(acc: StorePartial) -> (r: Option<SolMetadata>)
    ensures
        match r {
            Option::Some(v) => store_acc_done(acc@) == Option::Some(v@),
            Option::None => store_acc_done(acc@) is None,
        },
{
    match (acc.stacks, acc.version) {
        (Option::Some(stacks), Option::Some(version)) => Option::Some(
            SolMetadata {
                stacks,
                version,
                detached_head_context: match acc.detached {
                    Option::Some(d) => d,
                    Option::None => Option::None,
                },
            },
        ),
        _ => Option::None,
    }
}

/// Exec mirror of `parse_store_value`.
fn parse_store_value_exec(
    s: &str,
    n: usize,
    i: usize,
    key: &str,
    acc: StorePartial,
    fuel: usize,
) -> (r: Option<(StorePartial, usize)>)
    requires
        n == s@.len(),
        i <= n,
    ensures
        match r {
            Option::Some((a, j)) => parse_store_value(s@, i as int, key@, acc@, fuel as nat)
                == Option::Some((a@, j as int)) && j <= n,
            Option::None => parse_store_value(s@, i as int, key@, acc@, fuel as nat) is None,
        },
    decreases fuel,
{
    let mut acc = acc;
    if crate::strutil::str_eq(key, "stacks") {
        match (&acc.stacks, parse_stack_list_exec(s, n, i, fuel)) {
            (Option::None, Option::Some((v, j))) => {
                acc.stacks = Option::Some(v);
                Option::Some((acc, j))
            },
            _ => Option::None,
        }
    } else if crate::strutil::str_eq(key, "version") {
        match (&acc.version, parse_string_exec(s, n, i)) {
            (Option::None, Option::Some((v, j))) => {
                acc.version = Option::Some(v);
                Option::Some((acc, j))
            },
            _ => Option::None,
        }
    } else if crate::strutil::str_eq(key, "detached_head_context") {
        if acc.detached.is_some() {
            Option::None
        } else if at_lit_exec(s, n, i, "null") {
            proof {
                reveal_strlit("null");
            }
            acc.detached = Option::Some(Option::None);
            Option::Some((acc, i + 4))
        } else {
            match parse_detached_exec(s, n, i, fuel) {
                Option::Some((v, j)) => {
                    acc.detached = Option::Some(Option::Some(v));
                    Option::Some((acc, j))
                },
                Option::None => Option::None,
            }
        }
    } else {
        match skip_value_exec(s, n, i) {
            Option::Some(j) => Option::Some((acc, j)),
            Option::None => Option::None,
        }
    }
}

/// Exec mirror of `parse_store_fields`.
fn parse_store_fields_exec(s: &str, n: usize, i: usize, acc: StorePartial, fuel: usize) -> (r:
    Option<(SolMetadata, usize)>)
    requires
        n == s@.len(),
        i <= n,
    ensures
        match r {
            Option::Some((v, j)) => parse_store_fields(s@, i as int, acc@, fuel as nat)
                == Option::Some((v@, j as int)) && j <= n,
            Option::None => parse_store_fields(s@, i as int, acc@, fuel as nat) is None,
        },
    decreases fuel,
{
    if fuel == 0 {
        return Option::None;
    }
    let j = skip_ws_exec(s, n, i);
    if j < n && s.get_char(j) == '}' {
        return match store_partial_done(acc) {
            Option::Some(v) => Option::Some((v, j + 1)),
            Option::None => Option::None,
        };
    }
    match parse_string_exec(s, n, j) {
        Option::None => Option::None,
        Option::Some((key, j1)) => {
            let j2 = skip_ws_exec(s, n, j1);
            if j2 < n && s.get_char(j2) == ':' {
                let j3 = skip_ws_exec(s, n, j2 + 1);
                match parse_store_value_exec(s, n, j3, key.as_str(), acc, fuel) {
                    Option::None => Option::None,
                    Option::Some((acc2, j4)) => {
                        let j5 = skip_ws_exec(s, n, j4);
                        if j5 < n && s.get_char(j5) == ',' {
                            parse_store_fields_exec(s, n, j5 + 1, acc2, fuel - 1)
                        } else if j5 < n && s.get_char(j5) == '}' {
                            match store_partial_done(acc2) {
                                Option::Some(v) => Option::Some((v, j5 + 1)),
                                Option::None => Option::None,
                            }
                        } else {
                            Option::None
                        }
                    },
                }
            } else {
                Option::None
            }
        },
    }
}

impl SolMetadata {
    /// Decodes a whole persisted document.  Returns the broken text inside
    /// the error when the document does not decode.
    pub fn from_json(s: &str) -> (r: Result<SolMetadata, AppError>)
        requires
            s@.len() < usize::MAX,
        ensures
            match r {
                Result::Ok(m) => spec_parse_store(s@) == Option::Some(m@),
                Result::Err(e) => {
                    &&& spec_parse_store(s@) is None
                    &&& e matches AppError::Other(msg) && msg@ == "Corrupt metadata document"@
                },
            },
    {
        let n = s.unicode_len();
        let i = skip_ws_exec(s, n, 0);
        let fuel = n + 1;
        let fail: &str = "Corrupt metadata document";
        if i < n && s.get_char(i) == '{' {
            let acc = StorePartial {
                stacks: Option::None,
                version: Option::None,
                detached: Option::None,
            };
            match parse_store_fields_exec(s, n, i + 1, acc, fuel) {
                Option::Some((m, j)) => {
                    let j1 = skip_ws_exec(s, n, j);
                    if j1 == n {
                        Result::Ok(m)
                    } else {
                        Result::Err(AppError::Other(String::from_str(fail)))
                    }
                },
                Option::None => Result::Err(AppError::Other(String::from_str(fail))),
            }
        } else {
            proof {
                assert(parse_store_at(s@, skip_ws(s@, 0), (s@.len() + 1) as nat) is None);
            }
            Result::Err(AppError::Other(String::from_str(fail)))
        }
    }
}

/// A quoted string.
pub open spec fn enc_str(v: Seq<char>) -> Seq<char> {
    seq!['"'] + v + seq!['"']
}

/// The canonical encoding of a branch.
pub open spec fn enc_branch(b: BranchV) -> Seq<char> {
    "{\"name\":"@ + enc_str(b.name) + ",\"commit_hash\":"@ + enc_str(b.commit_hash) + ",\"pr_id\":"@
        + spec_i64_string(b.pr_id) + ",\"status\":"@ + enc_str(crate::data::status_label_seq(b.status))
        + ",\"parent\":"@ + enc_str(b.parent) + ",\"created_at\":"@ + spec_i64_string(b.created_at)
        + ",\"updated_at\":"@ + spec_i64_string(b.updated_at) + "}"@
}

/// Branch encodings joined by commas.
pub open spec fn enc_branch_list(bs: Seq<BranchV>) -> Seq<char>
    decreases bs.len(),
{
    if bs.len() == 0 {
        Seq::<char>::empty()
    } else if bs.len() == 1 {
        enc_branch(bs[0])
    } else {
        enc_branch_list(bs.drop_last()) + ","@ + enc_branch(bs.last())
    }
}

/// The canonical encoding of a branch array.
pub open spec fn enc_branch_array(bs: Seq<BranchV>) -> Seq<char> {
    "["@ + enc_branch_list(bs) + "]"@
}

/// The canonical encoding of a stack.
pub open spec fn enc_stack(v: StackV) -> Seq<char> {
    "{\"name\":"@ + enc_str(v.name) + ",\"base_branch\":"@ + enc_str(v.base_branch)
        + ",\"head_branch\":"@ + enc_branch(v.head_branch) + ",\"branches\":"@ + enc_branch_array(
        v.branches,
    ) + ",\"created_at\":"@ + spec_i64_string(v.created_at) + ",\"updated_at\":"@
        + spec_i64_string(v.updated_at) + "}"@
}

/// Stack encodings joined by commas.
pub open spec fn enc_stack_list(vs: Seq<StackV>) -> Seq<char>
    decreases vs.len(),
{
    if vs.len() == 0 {
        Seq::<char>::empty()
    } else if vs.len() == 1 {
        enc_stack(vs[0])
    } else {
        enc_stack_list(vs.drop_last()) + ","@ + enc_stack(vs.last())
    }
}

/// The canonical encoding of a stack array.
pub open spec fn enc_stack_array(vs: Seq<StackV>) -> Seq<char> {
    "["@ + enc_stack_list(vs) + "]"@
}

/// The canonical encoding of a detached-head record.
pub open spec fn enc_detached(d: DetachedV) -> Seq<char> {
    "{\"stack_name\":"@ + enc_str(d.stack_name) + ",\"branch_name\":"@ + enc_str(d.branch_name)
        + "}"@
}

/// The canonical encoding of the whole store.
pub open spec fn spec_enc_store(m: StoreV) -> Seq<char> {
    "{\"stacks\":"@ + enc_stack_array(m.stacks) + ",\"version\":"@ + enc_str(m.version)
        + ",\"detached_head_context\":"@ + (match m.detached {
        Option::Some(d) => enc_detached(d),
        Option::None => "null"@,
    }) + "}"@
}

/// Appends a quoted string.
fn push_enc_str(out: &mut String, v: &str)
    ensures
        final(out)@ == old(out)@ + enc_str(v@),
{
    let ghost prev = out@;
    out.append("\"");
    out.append(v);
    out.append("\"");
    proof {
        reveal_strlit("\"");
        assert("\""@ =~= seq!['"']);
        assert(final(out)@ =~= prev + enc_str(v@));
    }
}

/// Appends the canonical encoding of a branch.
fn push_enc_branch(out: &mut String, b: &StackBranch)
    ensures
        final(out)@ == old(out)@ + enc_branch(b@),
{
    let ghost prev = out@;
    out.append("{\"name\":");
    push_enc_str(out, b.name.as_str());
    out.append(",\"commit_hash\":");
    push_enc_str(out, b.commit_hash.as_str());
    out.append(",\"pr_id\":");
    let pr = crate::strutil::i64_to_string(b.pr_id);
    out.append(pr.as_str());
    out.append(",\"status\":");
    push_enc_str(out, b.status.label());
    out.append(",\"parent\":");
    push_enc_str(out, b.parent.as_str());
    out.append(",\"created_at\":");
    let ca = crate::strutil::i64_to_string(b.created_at);
    out.append(ca.as_str());
    out.append(",\"updated_at\":");
    let ua = crate::strutil::i64_to_string(b.updated_at);
    out.append(ua.as_str());
    out.append("}");
    proof {
        assert(final(out)@ =~= prev + enc_branch(b@));
    }
}

/// Appends the canonical encoding of a branch array.
fn push_enc_branch_array(out: &mut String, bs: &Vec<StackBranch>)
    ensures
        final(out)@ == old(out)@ + enc_branch_array(
            bs@.map_values(|b: StackBranch| b@),
        ),
{
    let ghost prev = out@;
    let ghost bsv = bs@.map_values(|b: StackBranch| b@);
    out.append("[");
    let n = bs.len();
    let mut i: usize = 0;
    while i < n
        invariant
            n == bs@.len(),
            bsv == bs@.map_values(|b: StackBranch| b@),
            0 <= i <= n,
            out@ == prev + "["@ + enc_branch_list(bsv.subrange(0, i as int)),
        decreases n - i,
    {
        if i > 0 {
            out.append(",");
            proof {
                reveal_strlit(",");
                assert(","@ =~= seq![',']);
            }
        }
        push_enc_branch(out, &bs[i]);
        proof {
            let pre = bsv.subrange(0, i as int);
            let post = bsv.subrange(0, i as int + 1);
            assert(post.drop_last() =~= pre);
            assert(post.last() == bsv[i as int]);
            if i == 0 {
                assert(enc_branch_list(post) =~= enc_branch(bsv[0]));
                assert(enc_branch_list(pre) =~= Seq::<char>::empty());
            }
            assert(out@ =~= prev + "["@ + enc_branch_list(post));
        }
        i = i + 1;
    }
    out.append("]");
    proof {
        assert(bsv.subrange(0, n as int) =~= bsv);
        assert(final(out)@ =~= prev + enc_branch_array(bsv));
    }
}

/// Appends the canonical encoding of a stack.
fn push_enc_stack(out: &mut String, v: &Stack)
    ensures
        final(out)@ == old(out)@ + enc_stack(v@),
{
    let ghost prev = out@;
    out.append("{\"name\":");
    push_enc_str(out, v.name.as_str());
    out.append(",\"base_branch\":");
    push_enc_str(out, v.base_branch.as_str());
    out.append(",\"head_branch\":");
    push_enc_branch(out, &v.head_branch);
    out.append(",\"branches\":");
    push_enc_branch_array(out, &v.branches);
    out.append(",\"created_at\":");
    let ca = crate::strutil::i64_to_string(v.created_at);
    out.append(ca.as_str());
    out.append(",\"updated_at\":");
    let ua = crate::strutil::i64_to_string(v.updated_at);
    out.append(ua.as_str());
    out.append("}");
    proof {
        assert(final(out)@ =~= prev + enc_stack(v@));
    }
}

impl SolMetadata {
    /// Encodes the whole store as one canonical document: the exact text
    /// `spec_enc_store` gives.
    pub fn to_json(&self) -> (r: String)
        ensures
            r@ == spec_enc_store(self@),
    {
        let mut out = String::new();
        let ghost mv = self@;
        out.append("{\"stacks\":");
        out.append("[");
        let n = self.stacks.len();
        let mut i: usize = 0;
        while i < n
            invariant
                n == self.stacks@.len(),
                mv == self@,
                0 <= i <= n,
                out@ == "{\"stacks\":"@ + "["@ + enc_stack_list(mv.stacks.subrange(0, i as int)),
            decreases n - i,
        {
            if i > 0 {
                out.append(",");
                proof {
                    reveal_strlit(",");
                    assert(","@ =~= seq![',']);
                }
            }
            push_enc_stack(&mut out, &self.stacks[i]);
            proof {
                let pre = mv.stacks.subrange(0, i as int);
                let post = mv.stacks.subrange(0, i as int + 1);
                assert(post.drop_last() =~= pre);
                assert(post.last() == mv.stacks[i as int]);
                if i == 0 {
                    assert(enc_stack_list(post) =~= enc_stack(mv.stacks[0]));
                    assert(enc_stack_list(pre) =~= Seq::<char>::empty());
                }
                assert(out@ =~= "{\"stacks\":"@ + "["@ + enc_stack_list(post));
            }
            i = i + 1;
        }
        proof {
            assert(mv.stacks.subrange(0, n as int) =~= mv.stacks);
        }
        out.append("]");
        out.append(",\"version\":");
        push_enc_str(&mut out, self.version.as_str());
        out.append(",\"detached_head_context\":");
        match &self.detached_head_context {
            Option::Some(d) => {
                out.append("{\"stack_name\":");
                push_enc_str(&mut out, d.stack_name.as_str());
                out.append(",\"branch_name\":");
                push_enc_str(&mut out, d.branch_name.as_str());
                out.append("}");
            },
            Option::None => {
                out.append("null");
            },
        }
        out.append("}");
        proof {
            assert(out@ =~= spec_enc_store(mv));
        }
        out
    }
}

/// A branch whose strings embed into the document format.
pub open spec fn branch_encodable(b: BranchV) -> bool {
    &&& plain_str(b.name)
    &&& plain_str(b.commit_hash)
    &&& plain_str(b.parent)
    &&& i64::MIN <= b.pr_id <= i64::MAX
    &&& i64::MIN <= b.created_at <= i64::MAX
    &&& i64::MIN <= b.updated_at <= i64::MAX
}

/// A stack whose strings embed into the document format.
pub open spec fn stack_encodable(v: StackV) -> bool {
    &&& plain_str(v.name)
    &&& plain_str(v.base_branch)
    &&& branch_encodable(v.head_branch)
    &&& forall|k: int| 0 <= k < v.branches.len() ==> branch_encodable(#[trigger] v.branches[k])
    &&& i64::MIN <= v.created_at <= i64::MAX
    &&& i64::MIN <= v.updated_at <= i64::MAX
}

/// A store whose strings embed into the document format.  Every store built
/// by this library satisfies this as long as its names, commit hashes and
/// version text carry neither a quote nor a backslash.
pub open spec fn store_encodable(m: StoreV) -> bool {
    &&& forall|k: int| 0 <= k < m.stacks.len() ==> stack_encodable(#[trigger] m.stacks[k])
    &&& plain_str(m.version)
    &&& match m.detached {
        Option::Some(d) => plain_str(d.stack_name) && plain_str(d.branch_name),
        Option::None => true,
    }
}

proof fn lemma_subrange_chars(s: Seq<char>, i: int, e: Seq<char>)
    requires
        0 <= i,
        i + e.len() <= s.len(),
        s.subrange(i, i + e.len()) == e,
    ensures
        forall|k: int| i <= k < i + e.len() ==> s[k] == e[k - i],
{
    assert forall|k: int| i <= k < i + e.len() implies s[k] == e[k - i] by {
        assert(s.subrange(i, i + e.len())[k - i] == s[k]);
    }
}

proof fn lemma_scan_string_to(s: Seq<char>, a: int, b: int)
    requires
        0 <= a <= b < s.len(),
        forall|k: int| a <= k < b ==> s[k] != '"' && s[k] != '\\',
        s[b] == '"',
    ensures
        scan_string_end(s, a) == b,
    decreases b - a,
{
    if a < b {
        lemma_scan_string_to(s, a + 1, b);
    }
}

/// A plainly embedded quoted string parses back to itself.
proof fn lemma_parse_string_of_enc(s: Seq<char>, i: int, v: Seq<char>)
    requires
        plain_str(v),
        0 <= i,
        i + v.len() + 2 <= s.len(),
        s.subrange(i, i + v.len() + 2) == enc_str(v),
    ensures
        parse_string_at(s, i) == Option::Some((v, i + v.len() + 2)),
{
    lemma_subrange_chars(s, i, enc_str(v));
    assert(enc_str(v)[0] == '"');
    assert(enc_str(v)[v.len() as int + 1] == '"');
    assert(s[i] == '"');
    assert(s[i + v.len() + 1] == '"');
    assert forall|k: int| i + 1 <= k < i + 1 + v.len() implies s[k] != '"' && s[k] != '\\' by {
        assert(s[k] == enc_str(v)[k - i]);
        assert(enc_str(v)[k - i] == v[k - i - 1]);
    }
    lemma_scan_string_to(s, i + 1, i + 1 + v.len());
    assert(s.subrange(i + 1, i + 1 + v.len()) =~= v);
}

proof fn lemma_scan_digits_to(s: Seq<char>, a: int, b: int)
    requires
        0 <= a <= b <= s.len(),
        forall|k: int| a <= k < b ==> is_digit(s[k]),
        b < s.len() ==> !is_digit(s[b]),
    ensures
        scan_digits(s, a) == b,
    decreases b - a,
{
    if a < b {
        lemma_scan_digits_to(s, a + 1, b);
    }
}

proof fn lemma_u64_string_digits(nv: nat)
    ensures
        1 <= spec_u64_string(nv).len(),
        forall|k: int|
            0 <= k < spec_u64_string(nv).len() ==> is_digit(#[trigger] spec_u64_string(nv)[k]),
    decreases nv,
{
    if nv >= 10 {
        lemma_u64_string_digits(nv / 10);
    }
}

proof fn lemma_u64_string_len(nv: nat, k: nat)
    requires
        k >= 1,
        nv < pow10(k),
    ensures
        spec_u64_string(nv).len() <= k,
    decreases k,
{
    if nv >= 10 {
        assert(nv / 10 < pow10((k - 1) as nat)) by {
            assert(pow10(k) == 10 * pow10((k - 1) as nat));
        }
        assert(k - 1 >= 1) by {
            lemma_pow10_mono(1nat, (k - 1) as nat);
            if k - 1 < 1 {
                assert(pow10((k - 1) as nat) == 1);
                assert(nv / 10 >= 1);
            }
        }
        lemma_u64_string_len(nv / 10, (k - 1) as nat);
    }
}

proof fn lemma_digits_val_embed(s: Seq<char>, i: int, d: Seq<char>, m: int)
    requires
        0 <= i,
        0 <= m <= d.len(),
        i + d.len() <= s.len(),
        s.subrange(i, i + d.len()) == d,
    ensures
        digits_val(s, i, i + m) == digits_val(d, 0, m),
    decreases m,
{
    if m > 0 {
        lemma_digits_val_embed(s, i, d, m - 1);
        lemma_subrange_chars(s, i, d);
    }
}

proof fn lemma_u64_string_val(nv: nat)
    ensures
        digits_val(spec_u64_string(nv), 0, spec_u64_string(nv).len() as int) == nv,
    decreases nv,
{
    let d = spec_u64_string(nv);
    if nv < 10 {
        assert(digits_val(d, 0, 0) == 0);
        assert(digits_val(d, 0, 1) == digit_val(d[0]));
    } else {
        lemma_u64_string_val(nv / 10);
        let p = spec_u64_string(nv / 10);
        assert(d == p.push(spec_digit_char((nv % 10) as int)));
        assert(d.last() == spec_digit_char((nv % 10) as int));
        assert(digit_val(spec_digit_char((nv % 10) as int)) == nv % 10);
        assert(digits_val(d, 0, d.len() as int) == digits_val(d, 0, d.len() as int - 1) * 10
            + digit_val(d.last()));
        assert(p =~= d.subrange(0, d.len() as int - 1));
        lemma_digits_val_embed(d, 0, p, p.len() as int);
        assert(digits_val(d, 0, d.len() as int - 1) == digits_val(p, 0, p.len() as int));
        assert(nv == (nv / 10) * 10 + nv % 10);
    }
}

/// An embedded decimal rendering of `v` parses back to `v` when the next
/// character is no digit.
proof fn lemma_parse_i64_of_enc(s: Seq<char>, i: int, v: int)
    requires
        i64::MIN <= v <= i64::MAX,
        0 <= i,
        i + spec_i64_string(v).len() <= s.len(),
        s.subrange(i, i + spec_i64_string(v).len()) == spec_i64_string(v),
        i + spec_i64_string(v).len() < s.len() ==> !is_digit(s[i + spec_i64_string(v).len()]),
    ensures
        parse_i64_at(s, i) == Option::Some((v, i + spec_i64_string(v).len())),
{
    let e = spec_i64_string(v);
    lemma_subrange_chars(s, i, e);
    reveal_with_fuel(pow10, 21);
    if v >= 0 {
        let d = spec_u64_string(v as nat);
        lemma_u64_string_digits(v as nat);
        lemma_u64_string_len(v as nat, 19);
        lemma_u64_string_val(v as nat);
        assert(is_digit(s[i]));
        assert(s[i] != '-');
        assert forall|k: int| i <= k < i + d.len() implies is_digit(s[k]) by {
            assert(s[k] == d[k - i]);
        }
        lemma_scan_digits_to(s, i, i + d.len());
        assert(s.subrange(i, i + d.len()) =~= d);
        lemma_digits_val_embed(s, i, d, d.len() as int);
        assert(digits_val(s, i, i + d.len()) == v);
    } else {
        let d = spec_u64_string((-v) as nat);
        lemma_u64_string_digits((-v) as nat);
        lemma_u64_string_len((-v) as nat, 19);
        lemma_u64_string_val((-v) as nat);
        assert(e == seq!['-'] + d);
        assert(s[i] == '-');
        assert forall|k: int| i + 1 <= k < i + 1 + d.len() implies is_digit(s[k]) by {
            assert(s[k] == e[k - i]);
            assert(e[k - i] == d[k - i - 1]);
        }
        lemma_scan_digits_to(s, i + 1, i + 1 + d.len());
        assert(s.subrange(i + 1, i + 1 + d.len()) =~= d);
        lemma_digits_val_embed(s, i + 1, d, d.len() as int);
        assert(digits_val(s, i + 1, i + 1 + d.len()) == -v);
    }
}

proof fn lemma_char_at(s: Seq<char>, i: int, e: Seq<char>, k: int)
    requires
        0 <= i,
        i + e.len() <= s.len(),
        s.subrange(i, i + e.len()) == e,
        0 <= k < e.len(),
    ensures
        s[i + k] == e[k],
{
    assert(s.subrange(i, i + e.len())[k] == s[i + k]);
}

proof fn lemma_enc_str_first(v: Seq<char>)
    ensures
        enc_str(v).len() == v.len() + 2,
        enc_str(v)[0] == '"',
{
}

proof fn lemma_split_concat(s: Seq<char>, i: int, a: Seq<char>, b: Seq<char>)
    requires
        0 <= i,
        i + a.len() + b.len() <= s.len(),
        s.subrange(i, i + a.len() + b.len()) == a + b,
    ensures
        s.subrange(i, i + a.len()) == a,
        s.subrange(i + a.len(), i + a.len() + b.len()) == b,
{
    lemma_subrange_chars(s, i, a + b);
    assert(s.subrange(i, i + a.len()) =~= a);
    assert(s.subrange(i + a.len(), i + a.len() + b.len()) =~= b);
}

proof fn lemma_subsub(s: Seq<char>, i: int, e: Seq<char>, a: int, b: int)
    requires
        0 <= i,
        i + e.len() <= s.len(),
        s.subrange(i, i + e.len()) == e,
        0 <= a <= b <= e.len(),
    ensures
        s.subrange(i + a, i + b) == e.subrange(a, b),
{
    lemma_subrange_chars(s, i, e);
    assert(s.subrange(i + a, i + b) =~= e.subrange(a, b));
}

proof fn lemma_status_roundtrip(st: BranchStatus)
    ensures
        plain_str(crate::data::status_label_seq(st)),
        status_of_name(crate::data::status_label_seq(st)) == Option::Some(st),
{
    reveal_strlit("Pending");
    reveal_strlit("Merged");
    reveal_strlit("Conflict");
    reveal_strlit("Testing");
    match st {
        BranchStatus::Pending => {
            assert(status_of_name("Pending"@) == Option::Some(BranchStatus::Pending));
        },
        BranchStatus::Merged => {
            assert("Merged"@ != "Pending"@) by {
                assert("Merged"@.len() != "Pending"@.len());
            }
            assert(status_of_name("Merged"@) == Option::Some(BranchStatus::Merged));
        },
        BranchStatus::Conflict => {
            assert("Conflict"@ != "Pending"@) by {
                assert("Conflict"@.len() != "Pending"@.len());
            }
            assert("Conflict"@ != "Merged"@) by {
                assert("Conflict"@.len() != "Merged"@.len());
            }
            assert(status_of_name("Conflict"@) == Option::Some(BranchStatus::Conflict));
        },
        BranchStatus::Testing => {
            assert("Testing"@ != "Pending"@) by {
                assert("Testing"@[0] != "Pending"@[0]);
            }
            assert("Testing"@ != "Merged"@) by {
                assert("Testing"@.len() != "Merged"@.len());
            }
            assert("Testing"@ != "Conflict"@) by {
                assert("Testing"@.len() != "Conflict"@.len());
            }
            assert(status_of_name("Testing"@) == Option::Some(BranchStatus::Testing));
        },
    }
}

proof fn lemma_enc_branch_assoc(b: BranchV)
    ensures
        enc_branch(b) == "{\"name\":"@ + (enc_str(b.name) + (",\"commit_hash\":"@ + (enc_str(
            b.commit_hash,
        ) + (",\"pr_id\":"@ + (spec_i64_string(b.pr_id) + (",\"status\":"@ + (enc_str(
            crate::data::status_label_seq(b.status),
        ) + (",\"parent\":"@ + (enc_str(b.parent) + (",\"created_at\":"@ + (spec_i64_string(
            b.created_at,
        ) + (",\"updated_at\":"@ + (spec_i64_string(b.updated_at) + "}"@))))))))))))),
{
    let p0 = "{\"name\":"@;
    let v1 = enc_str(b.name);
    let p1 = ",\"commit_hash\":"@;
    let v2 = enc_str(b.commit_hash);
    let p2 = ",\"pr_id\":"@;
    let v3 = spec_i64_string(b.pr_id);
    let p3 = ",\"status\":"@;
    let v4 = enc_str(crate::data::status_label_seq(b.status));
    let p4 = ",\"parent\":"@;
    let v5 = enc_str(b.parent);
    let p5 = ",\"created_at\":"@;
    let v6 = spec_i64_string(b.created_at);
    let p6 = ",\"updated_at\":"@;
    let v7 = spec_i64_string(b.updated_at);
    let p7 = "}"@;
    let a1 = p0 + v1;
    let a2 = a1 + p1;
    let a3 = a2 + v2;
    let a4 = a3 + p2;
    let a5 = a4 + v3;
    let a6 = a5 + p3;
    let a7 = a6 + v4;
    let a8 = a7 + p4;
    let a9 = a8 + v5;
    let a10 = a9 + p5;
    let a11 = a10 + v6;
    let a12 = a11 + p6;
    let a13 = a12 + v7;
    assert(enc_branch(b) == a13 + p7);
    let t13 = v7 + p7;
    let t12 = p6 + t13;
    let t11 = v6 + t12;
    let t10 = p5 + t11;
    let t9 = v5 + t10;
    let t8 = p4 + t9;
    let t7 = v4 + t8;
    let t6 = p3 + t7;
    let t5 = v3 + t6;
    let t4 = p2 + t5;
    let t3 = v2 + t4;
    let t2 = p1 + t3;
    let t1 = v1 + t2;
    lemma_concat_associative(a12, v7, p7);
    assert(a13 + p7 == a12 + t13);
    lemma_concat_associative(a11, p6, t13);
    assert(a12 + t13 == a11 + t12);
    lemma_concat_associative(a10, v6, t12);
    assert(a11 + t12 == a10 + t11);
    lemma_concat_associative(a9, p5, t11);
    assert(a10 + t11 == a9 + t10);
    lemma_concat_associative(a8, v5, t10);
    assert(a9 + t10 == a8 + t9);
    lemma_concat_associative(a7, p4, t9);
    assert(a8 + t9 == a7 + t8);
    lemma_concat_associative(a6, v4, t8);
    assert(a7 + t8 == a6 + t7);
    lemma_concat_associative(a5, p3, t7);
    assert(a6 + t7 == a5 + t6);
    lemma_concat_associative(a4, v3, t6);
    assert(a5 + t6 == a4 + t5);
    lemma_concat_associative(a3, p2, t5);
    assert(a4 + t5 == a3 + t4);
    lemma_concat_associative(a2, v2, t4);
    assert(a3 + t4 == a2 + t3);
    lemma_concat_associative(a1, p1, t3);
    assert(a2 + t3 == a1 + t2);
    lemma_concat_associative(p0, v1, t2);
    assert(a1 + t2 == p0 + t1);
}

proof fn lemma_lit_null()
    ensures
        "null"@.len() == 4,
        "null"@[0] == 'n',
{
    reveal_strlit("null");
}

proof fn lemma_key_name()
    ensures
        "{\"name\":"@.len() == 8,
        "{\"name\":"@[0] == '{',
        "{\"name\":"@[1] == '"',
        "{\"name\":"@[7] == ':',
        "{\"name\":"@.subrange(1, 7) == enc_str("name"@),
        plain_str("name"@),
        "name"@.len() == 4,
        "name"@[0] == 'n',
{
    reveal_strlit("{\"name\":");
    reveal_strlit("name");
    assert("{\"name\":"@.subrange(1, 7) =~= enc_str("name"@));
}

proof fn lemma_key_commit_hash()
    ensures
        ",\"commit_hash\":"@.len() == 15,
        ",\"commit_hash\":"@[0] == ',',
        ",\"commit_hash\":"@[1] == '"',
        ",\"commit_hash\":"@[14] == ':',
        ",\"commit_hash\":"@.subrange(1, 14) == enc_str("commit_hash"@),
        plain_str("commit_hash"@),
        "commit_hash"@.len() == 11,
        "commit_hash"@[0] == 'c',
{
    reveal_strlit(",\"commit_hash\":");
    reveal_strlit("commit_hash");
    assert(",\"commit_hash\":"@.subrange(1, 14) =~= enc_str("commit_hash"@));
}

proof fn lemma_key_pr_id()
    ensures
        ",\"pr_id\":"@.len() == 9,
        ",\"pr_id\":"@[0] == ',',
        ",\"pr_id\":"@[1] == '"',
        ",\"pr_id\":"@[8] == ':',
        ",\"pr_id\":"@.subrange(1, 8) == enc_str("pr_id"@),
        plain_str("pr_id"@),
        "pr_id"@.len() == 5,
        "pr_id"@[0] == 'p',
        "pr_id"@[1] == 'r',
{
    reveal_strlit(",\"pr_id\":");
    reveal_strlit("pr_id");
    assert(",\"pr_id\":"@.subrange(1, 8) =~= enc_str("pr_id"@));
}

proof fn lemma_key_status()
    ensures
        ",\"status\":"@.len() == 10,
        ",\"status\":"@[0] == ',',
        ",\"status\":"@[1] == '"',
        ",\"status\":"@[9] == ':',
        ",\"status\":"@.subrange(1, 9) == enc_str("status"@),
        plain_str("status"@),
        "status"@.len() == 6,
        "status"@[0] == 's',
{
    reveal_strlit(",\"status\":");
    reveal_strlit("status");
    assert(",\"status\":"@.subrange(1, 9) =~= enc_str("status"@));
}

proof fn lemma_key_parent()
    ensures
        ",\"parent\":"@.len() == 10,
        ",\"parent\":"@[0] == ',',
        ",\"parent\":"@[1] == '"',
        ",\"parent\":"@[9] == ':',
        ",\"parent\":"@.subrange(1, 9) == enc_str("parent"@),
        plain_str("parent"@),
        "parent"@.len() == 6,
        "parent"@[0] == 'p',
        "parent"@[1] == 'a',
{
    reveal_strlit(",\"parent\":");
    reveal_strlit("parent");
    assert(",\"parent\":"@.subrange(1, 9) =~= enc_str("parent"@));
}

proof fn lemma_key_created_at()
    ensures
        ",\"created_at\":"@.len() == 14,
        ",\"created_at\":"@[0] == ',',
        ",\"created_at\":"@[1] == '"',
        ",\"created_at\":"@[13] == ':',
        ",\"created_at\":"@.subrange(1, 13) == enc_str("created_at"@),
        plain_str("created_at"@),
        "created_at"@.len() == 10,
        "created_at"@[0] == 'c',
{
    reveal_strlit(",\"created_at\":");
    reveal_strlit("created_at");
    assert(",\"created_at\":"@.subrange(1, 13) =~= enc_str("created_at"@));
}

proof fn lemma_key_updated_at()
    ensures
        ",\"updated_at\":"@.len() == 14,
        ",\"updated_at\":"@[0] == ',',
        ",\"updated_at\":"@[1] == '"',
        ",\"updated_at\":"@[13] == ':',
        ",\"updated_at\":"@.subrange(1, 13) == enc_str("updated_at"@),
        plain_str("updated_at"@),
        "updated_at"@.len() == 10,
        "updated_at"@[0] == 'u',
{
    reveal_strlit(",\"updated_at\":");
    reveal_strlit("updated_at");
    assert(",\"updated_at\":"@.subrange(1, 13) =~= enc_str("updated_at"@));
}

proof fn lemma_lit_close()
    ensures
        "}"@.len() == 1,
        "}"@[0] == '}',
{
    reveal_strlit("}");
}

/// An embedded canonical branch encoding parses back to the branch.
#[verifier::rlimit(100)]
#[verifier::spinoff_prover]
proof fn lemma_parse_branch_of_enc(s: Seq<char>, i: int, b: BranchV, fuel: nat)
    requires
        branch_encodable(b),
        fuel >= 8,
        0 <= i,
        i + enc_branch(b).len() <= s.len(),
        s.subrange(i, i + enc_branch(b).len()) == enc_branch(b),
    ensures
        parse_branch_at(s, i, fuel) == Option::Some((b, i + enc_branch(b).len())),
{
    lemma_key_name();
    lemma_key_commit_hash();
    lemma_key_pr_id();
    lemma_key_status();
    lemma_key_parent();
    lemma_key_created_at();
    lemma_key_updated_at();
    lemma_lit_close();
    lemma_lit_null();
    let e = enc_branch(b);
    let p0 = "{\"name\":"@;
    let v1 = enc_str(b.name);
    let p1 = ",\"commit_hash\":"@;
    let v2 = enc_str(b.commit_hash);
    let p2 = ",\"pr_id\":"@;
    let v3 = spec_i64_string(b.pr_id);
    let p3 = ",\"status\":"@;
    let v4 = enc_str(crate::data::status_label_seq(b.status));
    let p4 = ",\"parent\":"@;
    let v5 = enc_str(b.parent);
    let p5 = ",\"created_at\":"@;
    let v6 = spec_i64_string(b.created_at);
    let p6 = ",\"updated_at\":"@;
    let v7 = spec_i64_string(b.updated_at);
    let p7 = "}"@;
    let t13 = v7 + p7;
    let t12 = p6 + t13;
    let t11 = v6 + t12;
    let t10 = p5 + t11;
    let t9 = v5 + t10;
    let t8 = p4 + t9;
    let t7 = v4 + t8;
    let t6 = p3 + t7;
    let t5 = v3 + t6;
    let t4 = p2 + t5;
    let t3 = v2 + t4;
    let t2 = p1 + t3;
    let t1 = v1 + t2;
    lemma_enc_branch_assoc(b);
    assert(e == p0 + t1);
    let o1 = i + p0.len();
    lemma_split_concat(s, i, p0, t1);
    let o2 = o1 + v1.len();
    lemma_split_concat(s, o1, v1, t2);
    let o3 = o2 + p1.len();
    lemma_split_concat(s, o2, p1, t3);
    let o4 = o3 + v2.len();
    lemma_split_concat(s, o3, v2, t4);
    let o5 = o4 + p2.len();
    lemma_split_concat(s, o4, p2, t5);
    let o6 = o5 + v3.len();
    lemma_split_concat(s, o5, v3, t6);
    let o7 = o6 + p3.len();
    lemma_split_concat(s, o6, p3, t7);
    let o8 = o7 + v4.len();
    lemma_split_concat(s, o7, v4, t8);
    let o9 = o8 + p4.len();
    lemma_split_concat(s, o8, p4, t9);
    let o10 = o9 + v5.len();
    lemma_split_concat(s, o9, v5, t10);
    let o11 = o10 + p5.len();
    lemma_split_concat(s, o10, p5, t11);
    let o12 = o11 + v6.len();
    lemma_split_concat(s, o11, v6, t12);
    let o13 = o12 + p6.len();
    lemma_split_concat(s, o12, p6, t13);
    let o14 = o13 + v7.len();
    lemma_split_concat(s, o13, v7, p7);
    let oend = o14 + 1;
    assert(oend == i + e.len());

    // character facts at the punctuation
    lemma_char_at(s, i, p0, 0);
    lemma_char_at(s, i, p0, 1);
    lemma_char_at(s, i, p0, 7);
    lemma_char_at(s, o2, p1, 0);
    lemma_char_at(s, o2, p1, 1);
    lemma_char_at(s, o2, p1, 14);
    lemma_char_at(s, o4, p2, 0);
    lemma_char_at(s, o4, p2, 1);
    lemma_char_at(s, o4, p2, 8);
    lemma_char_at(s, o6, p3, 0);
    lemma_char_at(s, o6, p3, 1);
    lemma_char_at(s, o6, p3, 9);
    lemma_char_at(s, o8, p4, 0);
    lemma_char_at(s, o8, p4, 1);
    lemma_char_at(s, o8, p4, 9);
    lemma_char_at(s, o10, p5, 0);
    lemma_char_at(s, o10, p5, 1);
    lemma_char_at(s, o10, p5, 13);
    lemma_char_at(s, o12, p6, 0);
    lemma_char_at(s, o12, p6, 1);
    lemma_char_at(s, o12, p6, 13);
    lemma_char_at(s, o14, p7, 0);

    // first characters of the embedded values
    lemma_enc_str_first(b.name);
    lemma_enc_str_first(b.commit_hash);
    lemma_enc_str_first(crate::data::status_label_seq(b.status));
    lemma_enc_str_first(b.parent);
    lemma_char_at(s, o1, v1, 0);
    lemma_char_at(s, o3, v2, 0);
    lemma_char_at(s, o7, v4, 0);
    lemma_char_at(s, o9, v5, 0);

    // digit runs never start with 'n' or look like whitespace
    lemma_u64_string_digits(if b.pr_id >= 0 { b.pr_id as nat } else { (-b.pr_id) as nat });
    lemma_u64_string_digits(
        if b.created_at >= 0 { b.created_at as nat } else { (-b.created_at) as nat },
    );
    lemma_u64_string_digits(
        if b.updated_at >= 0 { b.updated_at as nat } else { (-b.updated_at) as nat },
    );
    assert(is_digit(v3[0]) || v3[0] == '-');
    assert(is_digit(v6[0]) || v6[0] == '-');
    assert(is_digit(v7[0]) || v7[0] == '-');
    lemma_char_at(s, o5, v3, 0);
    lemma_char_at(s, o11, v6, 0);
    lemma_char_at(s, o13, v7, 0);

    // the seven keys
    lemma_subsub(s, i, p0, 1, 7);
    lemma_parse_string_of_enc(s, i + 1, "name"@);
    lemma_subsub(s, o2, p1, 1, 14);
    lemma_parse_string_of_enc(s, o2 + 1, "commit_hash"@);
    lemma_subsub(s, o4, p2, 1, 8);
    lemma_parse_string_of_enc(s, o4 + 1, "pr_id"@);
    lemma_subsub(s, o6, p3, 1, 9);
    lemma_parse_string_of_enc(s, o6 + 1, "status"@);
    lemma_subsub(s, o8, p4, 1, 9);
    lemma_parse_string_of_enc(s, o8 + 1, "parent"@);
    lemma_subsub(s, o10, p5, 1, 13);
    lemma_parse_string_of_enc(s, o10 + 1, "created_at"@);
    lemma_subsub(s, o12, p6, 1, 13);
    lemma_parse_string_of_enc(s, o12 + 1, "updated_at"@);

    // the seven values
    lemma_parse_string_of_enc(s, o1, b.name);
    lemma_parse_string_of_enc(s, o3, b.commit_hash);
    lemma_parse_i64_of_enc(s, o5, b.pr_id);
    lemma_status_roundtrip(b.status);
    lemma_parse_string_of_enc(s, o7, crate::data::status_label_seq(b.status));
    lemma_parse_string_of_enc(s, o9, b.parent);
    lemma_parse_i64_of_enc(s, o11, b.created_at);
    lemma_parse_i64_of_enc(s, o13, b.updated_at);

    // `null` never begins at a value position
    assert(!at_lit(s, o5, "null"@)) by {
        if at_lit(s, o5, "null"@) {
            lemma_char_at(s, o5, "null"@, 0);
        }
    }
    assert(!at_lit(s, o9, "null"@)) by {
        if at_lit(s, o9, "null"@) {
            lemma_char_at(s, o9, "null"@, 0);
        }
    }

    // walk the field loop
    let acc0 = branch_acc0();
    let acc1 = BranchAcc { name: Option::Some(b.name), ..acc0 };
    let acc2 = BranchAcc { commit_hash: Option::Some(b.commit_hash), ..acc1 };
    let acc3 = BranchAcc { pr_id: Option::Some(b.pr_id), ..acc2 };
    let acc4 = BranchAcc { status: Option::Some(b.status), ..acc3 };
    let acc5 = BranchAcc { parent: Option::Some(b.parent), ..acc4 };
    let acc6 = BranchAcc { created_at: Option::Some(b.created_at), ..acc5 };
    let acc7 = BranchAcc { updated_at: Option::Some(b.updated_at), ..acc6 };

    assert(s[i] == '{');
    assert(skip_ws(s, i + 1) == i + 1);
    assert(parse_branch_value(s, o1, "name"@, acc0) == Option::Some((acc1, o2)));
    assert(skip_ws(s, o2) == o2);
    assert(parse_branch_fields(s, i + 1, acc0, fuel) == parse_branch_fields(
        s,
        o2 + 1,
        acc1,
        (fuel - 1) as nat,
    ));
    assert(skip_ws(s, o2 + 1) == o2 + 1);
    assert(parse_branch_value(s, o3, "commit_hash"@, acc1) == Option::Some((acc2, o4)));
    assert(skip_ws(s, o4) == o4);
    assert(parse_branch_fields(s, o2 + 1, acc1, (fuel - 1) as nat) == parse_branch_fields(
        s,
        o4 + 1,
        acc2,
        (fuel - 2) as nat,
    ));
    assert(skip_ws(s, o4 + 1) == o4 + 1);
    assert(parse_branch_value(s, o5, "pr_id"@, acc2) == Option::Some((acc3, o6)));
    assert(skip_ws(s, o6) == o6);
    assert(parse_branch_fields(s, o4 + 1, acc2, (fuel - 2) as nat) == parse_branch_fields(
        s,
        o6 + 1,
        acc3,
        (fuel - 3) as nat,
    ));
    assert(skip_ws(s, o6 + 1) == o6 + 1);
    assert(parse_branch_value(s, o7, "status"@, acc3) == Option::Some((acc4, o8)));
    assert(skip_ws(s, o8) == o8);
    assert(parse_branch_fields(s, o6 + 1, acc3, (fuel - 3) as nat) == parse_branch_fields(
        s,
        o8 + 1,
        acc4,
        (fuel - 4) as nat,
    ));
    assert(skip_ws(s, o8 + 1) == o8 + 1);
    assert(parse_branch_value(s, o9, "parent"@, acc4) == Option::Some((acc5, o10)));
    assert(skip_ws(s, o10) == o10);
    assert(parse_branch_fields(s, o8 + 1, acc4, (fuel - 4) as nat) == parse_branch_fields(
        s,
        o10 + 1,
        acc5,
        (fuel - 5) as nat,
    ));
    assert(skip_ws(s, o10 + 1) == o10 + 1);
    assert(parse_branch_value(s, o11, "created_at"@, acc5) == Option::Some((acc6, o12)));
    assert(skip_ws(s, o12) == o12);
    assert(parse_branch_fields(s, o10 + 1, acc5, (fuel - 5) as nat) == parse_branch_fields(
        s,
        o12 + 1,
        acc6,
        (fuel - 6) as nat,
    ));
    assert(skip_ws(s, o12 + 1) == o12 + 1);
    assert(parse_branch_value(s, o13, "updated_at"@, acc6) == Option::Some((acc7, o14)));
    assert(skip_ws(s, o14) == o14);
    assert(s[o14] == '}');
    assert(branch_acc_done(acc7) == Option::Some(
        (BranchV {
            name: b.name,
            commit_hash: b.commit_hash,
            pr_id: b.pr_id,
            status: b.status,
            parent: b.parent,
            created_at: b.created_at,
            updated_at: b.updated_at,
        }),
    ));
    assert((BranchV {
        name: b.name,
        commit_hash: b.commit_hash,
        pr_id: b.pr_id,
        status: b.status,
        parent: b.parent,
        created_at: b.created_at,
        updated_at: b.updated_at,
    }) =~= b);
    assert(parse_branch_fields(s, o12 + 1, acc6, (fuel - 6) as nat) == Option::Some((b, oend)));
}

proof fn lemma_lit_brackets()
    ensures
        "["@.len() == 1,
        "["@[0] == '[',
        "]"@.len() == 1,
        "]"@[0] == ']',
        ","@.len() == 1,
        ","@[0] == ',',
{
    reveal_strlit("[");
    reveal_strlit("]");
    reveal_strlit(",");
}

proof fn lemma_enc_branch_first(b: BranchV)
    ensures
        enc_branch(b).len() >= 10,
        enc_branch(b)[0] == '{',
{
    lemma_enc_branch_assoc(b);
    lemma_key_name();
    lemma_key_commit_hash();
    lemma_key_pr_id();
    lemma_key_status();
    lemma_key_parent();
    lemma_key_created_at();
    lemma_key_updated_at();
    lemma_lit_close();
}

proof fn lemma_enc_branch_list_left(bs: Seq<BranchV>)
    requires
        bs.len() >= 1,
    ensures
        bs.len() == 1 ==> enc_branch_list(bs) == enc_branch(bs[0]),
        bs.len() >= 2 ==> enc_branch_list(bs) == enc_branch(bs[0]) + (","@ + enc_branch_list(
            bs.skip(1),
        )),
    decreases bs.len(),
{
    let a = enc_branch(bs[0]);
    let c = ","@;
    if bs.len() == 2 {
        let dl = bs.drop_last();
        assert(dl.len() == 1);
        assert(dl[0] == bs[0]);
        let sk = bs.skip(1);
        assert(sk.len() == 1);
        assert(sk[0] == bs.last());
        assert(enc_branch_list(dl) == a);
        assert(enc_branch_list(sk) == enc_branch(bs.last()));
        lemma_concat_associative(a, c, enc_branch(bs.last()));
    } else if bs.len() > 2 {
        let dl = bs.drop_last();
        lemma_enc_branch_list_left(dl);
        let d = enc_branch(bs.last());
        let cc = enc_branch_list(dl.skip(1));
        assert(enc_branch_list(dl) == a + (c + cc));
        let sk = bs.skip(1);
        assert(sk.drop_last() =~= dl.skip(1));
        assert(sk.last() == bs.last());
        assert(sk.len() >= 2);
        assert(enc_branch_list(sk) == (cc + c) + d);
        assert(enc_branch_list(bs) == (a + (c + cc)) + c + d);
        lemma_concat_associative(a, c + cc, c);
        lemma_concat_associative(c, cc, c);
        lemma_concat_associative(a, c + (cc + c), d);
        lemma_concat_associative(c, cc + c, d);
        lemma_concat_associative(cc, c, d);
        assert(((a + (c + cc)) + c) + d == a + ((c + (cc + c))) + d);
        assert(enc_branch_list(bs) == a + (c + enc_branch_list(sk)));
    }
}

/// Embedded canonical branch encodings, followed by the closing bracket,
/// parse back to the branches.
#[verifier::rlimit(100)]
#[verifier::spinoff_prover]
proof fn lemma_parse_branch_items_of_enc(
    s: Seq<char>,
    i: int,
    bs: Seq<BranchV>,
    acc: Seq<BranchV>,
    fuel: nat,
)
    requires
        bs.len() >= 1,
        forall|k: int| 0 <= k < bs.len() ==> branch_encodable(#[trigger] bs[k]),
        fuel >= bs.len() + 8,
        0 <= i,
        i + enc_branch_list(bs).len() + 1 <= s.len(),
        s.subrange(i, i + enc_branch_list(bs).len() + 1) == enc_branch_list(bs) + "]"@,
    ensures
        parse_branch_items(s, i, acc, fuel) == Option::Some(
            (acc + bs, i + enc_branch_list(bs).len() + 1),
        ),
    decreases bs.len(),
{
    lemma_lit_brackets();
    lemma_enc_branch_list_left(bs);
    let e0 = enc_branch(bs[0]);
    if bs.len() == 1 {
        lemma_split_concat(s, i, e0, "]"@);
        lemma_parse_branch_of_enc(s, i, bs[0], fuel);
        let j = i + e0.len();
        lemma_char_at(s, j, "]"@, 0);
        assert(skip_ws(s, j) == j);
        assert(acc.push(bs[0]) =~= acc + bs);
    } else {
        let sk = bs.skip(1);
        let rest = ","@ + enc_branch_list(sk);
        lemma_concat_associative(e0, rest, "]"@);
        lemma_concat_associative(","@, enc_branch_list(sk), "]"@);
        assert((e0 + rest) + "]"@ == e0 + (","@ + (enc_branch_list(sk) + "]"@)));
        lemma_split_concat(s, i, e0, ","@ + (enc_branch_list(sk) + "]"@));
        let j = i + e0.len();
        lemma_split_concat(s, j, ","@, enc_branch_list(sk) + "]"@);
        lemma_parse_branch_of_enc(s, i, bs[0], fuel);
        lemma_char_at(s, j, ","@, 0);
        assert(skip_ws(s, j) == j);
        let j1 = j + 1;
        assert(forall|k: int| 0 <= k < sk.len() ==> branch_encodable(#[trigger] sk[k]));
        lemma_enc_branch_list_left(sk);
        lemma_enc_branch_first(sk[0]);
        assert(enc_branch_list(sk)[0] == '{') by {
            if sk.len() >= 2 {
                assert((enc_branch(sk[0]) + (","@ + enc_branch_list(sk.skip(1))))[0]
                    == enc_branch(sk[0])[0]);
            }
        }
        lemma_char_at(s, j1, enc_branch_list(sk) + "]"@, 0);
        assert(s[j1] == '{');
        assert(skip_ws(s, j1) == j1);
        lemma_parse_branch_items_of_enc(s, j1, sk, acc.push(bs[0]), (fuel - 1) as nat);
        assert(acc.push(bs[0]) + sk =~= acc + bs);
    }
}

/// An embedded canonical branch array parses back to the branches.
#[verifier::rlimit(100)]
#[verifier::spinoff_prover]
proof fn lemma_parse_branch_array_of_enc(s: Seq<char>, i: int, bs: Seq<BranchV>, fuel: nat)
    requires
        forall|k: int| 0 <= k < bs.len() ==> branch_encodable(#[trigger] bs[k]),
        fuel >= bs.len() + 8,
        0 <= i,
        i + enc_branch_array(bs).len() <= s.len(),
        s.subrange(i, i + enc_branch_array(bs).len()) == enc_branch_array(bs),
    ensures
        parse_branch_list_at(s, i, fuel) == Option::Some((bs, i + enc_branch_array(bs).len())),
{
    lemma_lit_brackets();
    let inner = enc_branch_list(bs);
    lemma_concat_associative("["@, inner, "]"@);
    assert(enc_branch_array(bs) == "["@ + (inner + "]"@));
    lemma_split_concat(s, i, "["@, inner + "]"@);
    lemma_char_at(s, i, "["@, 0);
    if bs.len() == 0 {
        assert(inner + "]"@ =~= "]"@);
        lemma_char_at(s, i + 1, "]"@, 0);
        assert(skip_ws(s, i + 1) == i + 1);
        assert(parse_branch_list_at(s, i, fuel) == Option::Some(
            (Seq::<BranchV>::empty(), i + 2),
        ));
        assert(bs =~= Seq::<BranchV>::empty());
    } else {
        lemma_enc_branch_list_left(bs);
        lemma_enc_branch_first(bs[0]);
        assert(inner[0] == '{') by {
            if bs.len() >= 2 {
                assert((enc_branch(bs[0]) + (","@ + enc_branch_list(bs.skip(1))))[0]
                    == enc_branch(bs[0])[0]);
            }
        }
        lemma_char_at(s, i + 1, inner + "]"@, 0);
        assert(s[i + 1] == '{');
        assert(skip_ws(s, i + 1) == i + 1);
        lemma_parse_branch_items_of_enc(s, i + 1, bs, Seq::<BranchV>::empty(), fuel);
        assert(Seq::<BranchV>::empty() + bs =~= bs);
    }
}

proof fn lemma_key_base_branch()
    ensures
        ",\"base_branch\":"@.len() == 15,
        ",\"base_branch\":"@[0] == ',',
        ",\"base_branch\":"@[1] == '"',
        ",\"base_branch\":"@[14] == ':',
        ",\"base_branch\":"@.subrange(1, 14) == enc_str("base_branch"@),
        plain_str("base_branch"@),
        "base_branch"@.len() == 11,
        "base_branch"@[0] == 'b',
{
    reveal_strlit(",\"base_branch\":");
    reveal_strlit("base_branch");
    assert(",\"base_branch\":"@.subrange(1, 14) =~= enc_str("base_branch"@));
}

proof fn lemma_key_head_branch()
    ensures
        ",\"head_branch\":"@.len() == 15,
        ",\"head_branch\":"@[0] == ',',
        ",\"head_branch\":"@[1] == '"',
        ",\"head_branch\":"@[14] == ':',
        ",\"head_branch\":"@.subrange(1, 14) == enc_str("head_branch"@),
        plain_str("head_branch"@),
        "head_branch"@.len() == 11,
        "head_branch"@[0] == 'h',
{
    reveal_strlit(",\"head_branch\":");
    reveal_strlit("head_branch");
    assert(",\"head_branch\":"@.subrange(1, 14) =~= enc_str("head_branch"@));
}

proof fn lemma_key_branches()
    ensures
        ",\"branches\":"@.len() == 12,
        ",\"branches\":"@[0] == ',',
        ",\"branches\":"@[1] == '"',
        ",\"branches\":"@[11] == ':',
        ",\"branches\":"@.subrange(1, 11) == enc_str("branches"@),
        plain_str("branches"@),
        "branches"@.len() == 8,
        "branches"@[0] == 'b',
{
    reveal_strlit(",\"branches\":");
    reveal_strlit("branches");
    assert(",\"branches\":"@.subrange(1, 11) =~= enc_str("branches"@));
}

proof fn lemma_enc_stack_assoc(v: StackV)
    ensures
        enc_stack(v) == "{\"name\":"@ + (enc_str(v.name) + (",\"base_branch\":"@ + (enc_str(
            v.base_branch,
        ) + (",\"head_branch\":"@ + (enc_branch(v.head_branch) + (",\"branches\":"@ + (
        enc_branch_array(v.branches) + (",\"created_at\":"@ + (spec_i64_string(v.created_at) + (
        ",\"updated_at\":"@ + (spec_i64_string(v.updated_at) + "}"@))))))))))),
{
    let p0 = "{\"name\":"@;
    let v1 = enc_str(v.name);
    let p1 = ",\"base_branch\":"@;
    let v2 = enc_str(v.base_branch);
    let p2 = ",\"head_branch\":"@;
    let v3 = enc_branch(v.head_branch);
    let p3 = ",\"branches\":"@;
    let v4 = enc_branch_array(v.branches);
    let p4 = ",\"created_at\":"@;
    let v5 = spec_i64_string(v.created_at);
    let p5 = ",\"updated_at\":"@;
    let v6 = spec_i64_string(v.updated_at);
    let p6 = "}"@;
    let a1 = p0 + v1;
    let a2 = a1 + p1;
    let a3 = a2 + v2;
    let a4 = a3 + p2;
    let a5 = a4 + v3;
    let a6 = a5 + p3;
    let a7 = a6 + v4;
    let a8 = a7 + p4;
    let a9 = a8 + v5;
    let a10 = a9 + p5;
    let a11 = a10 + v6;
    assert(enc_stack(v) == a11 + p6);
    let t11 = v6 + p6;
    let t10 = p5 + t11;
    let t9 = v5 + t10;
    let t8 = p4 + t9;
    let t7 = v4 + t8;
    let t6 = p3 + t7;
    let t5 = v3 + t6;
    let t4 = p2 + t5;
    let t3 = v2 + t4;
    let t2 = p1 + t3;
    let t1 = v1 + t2;
    lemma_concat_associative(a10, v6, p6);
    lemma_concat_associative(a9, p5, t11);
    lemma_concat_associative(a8, v5, t10);
    lemma_concat_associative(a7, p4, t9);
    lemma_concat_associative(a6, v4, t8);
    lemma_concat_associative(a5, p3, t7);
    lemma_concat_associative(a4, v3, t6);
    lemma_concat_associative(a3, p2, t5);
    lemma_concat_associative(a2, v2, t4);
    lemma_concat_associative(a1, p1, t3);
    lemma_concat_associative(p0, v1, t2);
}

proof fn lemma_stack_field_step(
    s: Seq<char>,
    p: int,
    key: Seq<char>,
    e: int,
    o: int,
    o2: int,
    acc: StackAcc,
    acc2: StackAcc,
    fuel: nat,
)
    requires
        fuel >= 1,
        skip_ws(s, p) == p,
        0 <= p < s.len(),
        s[p] == '"',
        parse_string_at(s, p) == Option::Some((key, e)),
        skip_ws(s, e) == e,
        0 <= e < s.len(),
        s[e] == ':',
        skip_ws(s, e + 1) == o,
        parse_stack_value(s, o, key, acc, fuel) == Option::Some((acc2, o2)),
        skip_ws(s, o2) == o2,
        0 <= o2 < s.len(),
        s[o2] == ',',
    ensures
        parse_stack_fields(s, p, acc, fuel) == parse_stack_fields(s, o2 + 1, acc2, (fuel - 1) as nat),
{
}

proof fn lemma_stack_field_last(
    s: Seq<char>,
    p: int,
    key: Seq<char>,
    e: int,
    o: int,
    o2: int,
    acc: StackAcc,
    acc2: StackAcc,
    v: StackV,
    fuel: nat,
)
    requires
        fuel >= 1,
        skip_ws(s, p) == p,
        0 <= p < s.len(),
        s[p] == '"',
        parse_string_at(s, p) == Option::Some((key, e)),
        skip_ws(s, e) == e,
        0 <= e < s.len(),
        s[e] == ':',
        skip_ws(s, e + 1) == o,
        parse_stack_value(s, o, key, acc, fuel) == Option::Some((acc2, o2)),
        skip_ws(s, o2) == o2,
        0 <= o2 < s.len(),
        s[o2] == '}',
        stack_acc_done(acc2) == Option::Some(v),
    ensures
        parse_stack_fields(s, p, acc, fuel) == Option::Some((v, o2 + 1)),
{
}

proof fn lemma_stack_value_name(s: Seq<char>, o: int, j: int, nm: Seq<char>, acc: StackAcc, fuel: nat)
    requires
        acc.name is None,
        parse_string_at(s, o) == Option::Some((nm, j)),
    ensures
        parse_stack_value(s, o, "name"@, acc, fuel) == Option::Some(
            ((StackAcc { name: Option::Some(nm), ..acc }), j),
        ),
{
}

proof fn lemma_stack_value_base(s: Seq<char>, o: int, j: int, bb: Seq<char>, acc: StackAcc, fuel: nat)
    requires
        acc.base_branch is None,
        parse_string_at(s, o) == Option::Some((bb, j)),
    ensures
        parse_stack_value(s, o, "base_branch"@, acc, fuel) == Option::Some(
            ((StackAcc { base_branch: Option::Some(bb), ..acc }), j),
        ),
{
    lemma_key_name();
    lemma_key_base_branch();
    assert("base_branch"@ != "name"@) by {
        assert("base_branch"@.len() != "name"@.len());
    }
}

proof fn lemma_stack_value_head(s: Seq<char>, o: int, j: int, hb: BranchV, acc: StackAcc, fuel: nat)
    requires
        acc.head_branch is None,
        parse_branch_at(s, o, fuel) == Option::Some((hb, j)),
    ensures
        parse_stack_value(s, o, "head_branch"@, acc, fuel) == Option::Some(
            ((StackAcc { head_branch: Option::Some(hb), ..acc }), j),
        ),
{
    lemma_key_name();
    lemma_key_base_branch();
    lemma_key_head_branch();
    assert("head_branch"@ != "name"@) by {
        assert("head_branch"@.len() != "name"@.len());
    }
    assert("head_branch"@ != "base_branch"@) by {
        assert("head_branch"@[0] != "base_branch"@[0]);
    }
}

proof fn lemma_stack_value_branches(
    s: Seq<char>,
    o: int,
    j: int,
    bs: Seq<BranchV>,
    acc: StackAcc,
    fuel: nat,
)
    requires
        acc.branches is None,
        parse_branch_list_at(s, o, fuel) == Option::Some((bs, j)),
    ensures
        parse_stack_value(s, o, "branches"@, acc, fuel) == Option::Some(
            ((StackAcc { branches: Option::Some(bs), ..acc }), j),
        ),
{
    lemma_key_name();
    lemma_key_base_branch();
    lemma_key_head_branch();
    lemma_key_branches();
    assert("branches"@ != "name"@) by {
        assert("branches"@.len() != "name"@.len());
    }
    assert("branches"@ != "base_branch"@) by {
        assert("branches"@.len() != "base_branch"@.len());
    }
    assert("branches"@ != "head_branch"@) by {
        assert("branches"@.len() != "head_branch"@.len());
    }
}

proof fn lemma_stack_value_created(s: Seq<char>, o: int, j: int, t: int, acc: StackAcc, fuel: nat)
    requires
        acc.created_at is None,
        parse_i64_at(s, o) == Option::Some((t, j)),
    ensures
        parse_stack_value(s, o, "created_at"@, acc, fuel) == Option::Some(
            ((StackAcc { created_at: Option::Some(t), ..acc }), j),
        ),
{
    lemma_key_name();
    lemma_key_base_branch();
    lemma_key_head_branch();
    lemma_key_branches();
    lemma_key_created_at();
    assert("created_at"@ != "name"@) by {
        assert("created_at"@.len() != "name"@.len());
    }
    assert("created_at"@ != "base_branch"@) by {
        assert("created_at"@.len() != "base_branch"@.len());
    }
    assert("created_at"@ != "head_branch"@) by {
        assert("created_at"@.len() != "head_branch"@.len());
    }
    assert("created_at"@ != "branches"@) by {
        assert("created_at"@.len() != "branches"@.len());
    }
}

proof fn lemma_stack_value_updated(s: Seq<char>, o: int, j: int, t: int, acc: StackAcc, fuel: nat)
    requires
        acc.updated_at is None,
        parse_i64_at(s, o) == Option::Some((t, j)),
    ensures
        parse_stack_value(s, o, "updated_at"@, acc, fuel) == Option::Some(
            ((StackAcc { updated_at: Option::Some(t), ..acc }), j),
        ),
{
    lemma_key_name();
    lemma_key_base_branch();
    lemma_key_head_branch();
    lemma_key_branches();
    lemma_key_created_at();
    lemma_key_updated_at();
    assert("updated_at"@ != "name"@) by {
        assert("updated_at"@.len() != "name"@.len());
    }
    assert("updated_at"@ != "base_branch"@) by {
        assert("updated_at"@[0] != "base_branch"@[0]);
    }
    assert("updated_at"@ != "head_branch"@) by {
        assert("updated_at"@[0] != "head_branch"@[0]);
    }
    assert("updated_at"@ != "branches"@) by {
        assert("updated_at"@.len() != "branches"@.len());
    }
    assert("updated_at"@ != "created_at"@) by {
        assert("updated_at"@[0] != "created_at"@[0]);
    }
}

/// An embedded canonical stack encoding parses back to the stack.
#[verifier::rlimit(100)]
#[verifier::spinoff_prover]
proof fn lemma_parse_stack_of_enc(s: Seq<char>, i: int, v: StackV, fuel: nat)
    requires
        stack_encodable(v),
        fuel >= v.branches.len() + 16,
        0 <= i,
        i + enc_stack(v).len() <= s.len(),
        s.subrange(i, i + enc_stack(v).len()) == enc_stack(v),
    ensures
        parse_stack_at(s, i, fuel) == Option::Some((v, i + enc_stack(v).len())),
{
    lemma_key_name();
    lemma_key_base_branch();
    lemma_key_head_branch();
    lemma_key_branches();
    lemma_key_created_at();
    lemma_key_updated_at();
    lemma_lit_close();
    lemma_lit_brackets();
    let e = enc_stack(v);
    let p0 = "{\"name\":"@;
    let v1 = enc_str(v.name);
    let p1 = ",\"base_branch\":"@;
    let v2 = enc_str(v.base_branch);
    let p2 = ",\"head_branch\":"@;
    let v3 = enc_branch(v.head_branch);
    let p3 = ",\"branches\":"@;
    let v4 = enc_branch_array(v.branches);
    let p4 = ",\"created_at\":"@;
    let v5 = spec_i64_string(v.created_at);
    let p5 = ",\"updated_at\":"@;
    let v6 = spec_i64_string(v.updated_at);
    let p6 = "}"@;
    let t11 = v6 + p6;
    let t10 = p5 + t11;
    let t9 = v5 + t10;
    let t8 = p4 + t9;
    let t7 = v4 + t8;
    let t6 = p3 + t7;
    let t5 = v3 + t6;
    let t4 = p2 + t5;
    let t3 = v2 + t4;
    let t2 = p1 + t3;
    let t1 = v1 + t2;
    lemma_enc_stack_assoc(v);
    assert(e == p0 + t1);
    let o1 = i + p0.len();
    lemma_split_concat(s, i, p0, t1);
    let o2 = o1 + v1.len();
    lemma_split_concat(s, o1, v1, t2);
    let o3 = o2 + p1.len();
    lemma_split_concat(s, o2, p1, t3);
    let o4 = o3 + v2.len();
    lemma_split_concat(s, o3, v2, t4);
    let o5 = o4 + p2.len();
    lemma_split_concat(s, o4, p2, t5);
    let o6 = o5 + v3.len();
    lemma_split_concat(s, o5, v3, t6);
    let o7 = o6 + p3.len();
    lemma_split_concat(s, o6, p3, t7);
    let o8 = o7 + v4.len();
    lemma_split_concat(s, o7, v4, t8);
    let o9 = o8 + p4.len();
    lemma_split_concat(s, o8, p4, t9);
    let o10 = o9 + v5.len();
    lemma_split_concat(s, o9, v5, t10);
    let o11 = o10 + p5.len();
    lemma_split_concat(s, o10, p5, t11);
    let o12 = o11 + v6.len();
    lemma_split_concat(s, o11, v6, p6);
    let oend = o12 + 1;
    assert(oend == i + e.len());

    // punctuation characters
    lemma_char_at(s, i, p0, 0);
    lemma_char_at(s, i, p0, 1);
    lemma_char_at(s, i, p0, 7);
    lemma_char_at(s, o2, p1, 0);
    lemma_char_at(s, o2, p1, 1);
    lemma_char_at(s, o2, p1, 14);
    lemma_char_at(s, o4, p2, 0);
    lemma_char_at(s, o4, p2, 1);
    lemma_char_at(s, o4, p2, 14);
    lemma_char_at(s, o6, p3, 0);
    lemma_char_at(s, o6, p3, 1);
    lemma_char_at(s, o6, p3, 11);
    lemma_char_at(s, o8, p4, 0);
    lemma_char_at(s, o8, p4, 1);
    lemma_char_at(s, o8, p4, 13);
    lemma_char_at(s, o10, p5, 0);
    lemma_char_at(s, o10, p5, 1);
    lemma_char_at(s, o10, p5, 13);
    lemma_char_at(s, o12, p6, 0);

    // first characters of the embedded values
    lemma_enc_str_first(v.name);
    lemma_enc_str_first(v.base_branch);
    lemma_char_at(s, o1, v1, 0);
    lemma_char_at(s, o3, v2, 0);
    lemma_enc_branch_first(v.head_branch);
    lemma_char_at(s, o5, v3, 0);
    assert(v4[0] == '[') by {
        assert(("["@ + enc_branch_list(v.branches) + "]"@)[0] == "["@[0]);
    }
    lemma_char_at(s, o7, v4, 0);
    lemma_u64_string_digits(
        if v.created_at >= 0 { v.created_at as nat } else { (-v.created_at) as nat },
    );
    lemma_u64_string_digits(
        if v.updated_at >= 0 { v.updated_at as nat } else { (-v.updated_at) as nat },
    );
    assert(is_digit(v5[0]) || v5[0] == '-');
    assert(is_digit(v6[0]) || v6[0] == '-');
    lemma_char_at(s, o9, v5, 0);
    lemma_char_at(s, o11, v6, 0);

    // the six keys
    lemma_subsub(s, i, p0, 1, 7);
    lemma_parse_string_of_enc(s, i + 1, "name"@);
    lemma_subsub(s, o2, p1, 1, 14);
    lemma_parse_string_of_enc(s, o2 + 1, "base_branch"@);
    lemma_subsub(s, o4, p2, 1, 14);
    lemma_parse_string_of_enc(s, o4 + 1, "head_branch"@);
    lemma_subsub(s, o6, p3, 1, 11);
    lemma_parse_string_of_enc(s, o6 + 1, "branches"@);
    lemma_subsub(s, o8, p4, 1, 13);
    lemma_parse_string_of_enc(s, o8 + 1, "created_at"@);
    lemma_subsub(s, o10, p5, 1, 13);
    lemma_parse_string_of_enc(s, o10 + 1, "updated_at"@);

    // the six values
    lemma_parse_string_of_enc(s, o1, v.name);
    lemma_parse_string_of_enc(s, o3, v.base_branch);
    lemma_parse_branch_of_enc(s, o5, v.head_branch, (fuel - 2) as nat);
    lemma_parse_branch_array_of_enc(s, o7, v.branches, (fuel - 3) as nat);
    lemma_parse_i64_of_enc(s, o9, v.created_at);
    lemma_parse_i64_of_enc(s, o11, v.updated_at);

    // walk the field loop
    let acc0 = stack_acc0();
    let acc1 = StackAcc { name: Option::Some(v.name), ..acc0 };
    let acc2 = StackAcc { base_branch: Option::Some(v.base_branch), ..acc1 };
    let acc3 = StackAcc { head_branch: Option::Some(v.head_branch), ..acc2 };
    let acc4 = StackAcc { branches: Option::Some(v.branches), ..acc3 };
    let acc5 = StackAcc { created_at: Option::Some(v.created_at), ..acc4 };
    let acc6 = StackAcc { updated_at: Option::Some(v.updated_at), ..acc5 };

    assert(s[i] == '{');
    assert(skip_ws(s, i + 1) == i + 1);
    assert(skip_ws(s, i + 7) == i + 7);
    assert(skip_ws(s, o1) == o1);
    assert(skip_ws(s, o2) == o2);
    lemma_stack_value_name(s, o1, o2, v.name, acc0, fuel);
    lemma_stack_field_step(s, i + 1, "name"@, i + 7, o1, o2, acc0, acc1, fuel);
    assert(skip_ws(s, o2 + 1) == o2 + 1);
    assert(skip_ws(s, o3 - 1) == o3 - 1);
    assert(skip_ws(s, o3) == o3);
    assert(skip_ws(s, o4) == o4);
    lemma_stack_value_base(s, o3, o4, v.base_branch, acc1, (fuel - 1) as nat);
    lemma_stack_field_step(s, o2 + 1, "base_branch"@, o3 - 1, o3, o4, acc1, acc2, (fuel - 1) as nat);
    assert(skip_ws(s, o4 + 1) == o4 + 1);
    assert(skip_ws(s, o5 - 1) == o5 - 1);
    assert(skip_ws(s, o5) == o5);
    assert(skip_ws(s, o6) == o6);
    lemma_stack_value_head(s, o5, o6, v.head_branch, acc2, (fuel - 2) as nat);
    lemma_stack_field_step(s, o4 + 1, "head_branch"@, o5 - 1, o5, o6, acc2, acc3, (fuel - 2) as nat);
    assert(skip_ws(s, o6 + 1) == o6 + 1);
    assert(skip_ws(s, o7 - 1) == o7 - 1);
    assert(skip_ws(s, o7) == o7);
    assert(skip_ws(s, o8) == o8);
    lemma_stack_value_branches(s, o7, o8, v.branches, acc3, (fuel - 3) as nat);
    lemma_stack_field_step(s, o6 + 1, "branches"@, o7 - 1, o7, o8, acc3, acc4, (fuel - 3) as nat);
    assert(skip_ws(s, o8 + 1) == o8 + 1);
    assert(skip_ws(s, o9 - 1) == o9 - 1);
    assert(skip_ws(s, o9) == o9);
    assert(skip_ws(s, o10) == o10);
    lemma_stack_value_created(s, o9, o10, v.created_at, acc4, (fuel - 4) as nat);
    lemma_stack_field_step(s, o8 + 1, "created_at"@, o9 - 1, o9, o10, acc4, acc5, (fuel - 4) as nat);
    assert(skip_ws(s, o10 + 1) == o10 + 1);
    assert(skip_ws(s, o11 - 1) == o11 - 1);
    assert(skip_ws(s, o11) == o11);
    assert(skip_ws(s, o12) == o12);
    lemma_stack_value_updated(s, o11, o12, v.updated_at, acc5, (fuel - 5) as nat);
    assert(stack_acc_done(acc6) == Option::Some(
        (StackV {
            name: v.name,
            base_branch: v.base_branch,
            head_branch: v.head_branch,
            branches: v.branches,
            created_at: v.created_at,
            updated_at: v.updated_at,
        }),
    ));
    assert((StackV {
        name: v.name,
        base_branch: v.base_branch,
        head_branch: v.head_branch,
        branches: v.branches,
        created_at: v.created_at,
        updated_at: v.updated_at,
    }) =~= v);
    lemma_stack_field_last(
        s,
        o10 + 1,
        "updated_at"@,
        o11 - 1,
        o11,
        o12,
        acc5,
        acc6,
        v,
        (fuel - 5) as nat,
    );
    assert(parse_stack_fields(s, i + 1, acc0, fuel) == Option::Some((v, oend)));
}

/// One fuel unit per stack plus one per branch: what the decoder's loops
/// spend on a stack list.
pub open spec fn stacks_units(vs: Seq<StackV>) -> nat
    decreases vs.len(),
{
    if vs.len() == 0 {
        0
    } else {
        1 + vs[0].branches.len() + stacks_units(vs.skip(1))
    }
}

proof fn lemma_enc_stack_first(v: StackV)
    ensures
        enc_stack(v).len() >= 10,
        enc_stack(v)[0] == '{',
{
    lemma_enc_stack_assoc(v);
    lemma_key_name();
    lemma_key_base_branch();
    lemma_key_head_branch();
    lemma_key_branches();
    lemma_key_created_at();
    lemma_key_updated_at();
    lemma_lit_close();
}

proof fn lemma_enc_stack_list_left(vs: Seq<StackV>)
    requires
        vs.len() >= 1,
    ensures
        vs.len() == 1 ==> enc_stack_list(vs) == enc_stack(vs[0]),
        vs.len() >= 2 ==> enc_stack_list(vs) == enc_stack(vs[0]) + (","@ + enc_stack_list(
            vs.skip(1),
        )),
    decreases vs.len(),
{
    let a = enc_stack(vs[0]);
    let c = ","@;
    if vs.len() == 2 {
        let dl = vs.drop_last();
        assert(dl.len() == 1);
        assert(dl[0] == vs[0]);
        let sk = vs.skip(1);
        assert(sk.len() == 1);
        assert(sk[0] == vs.last());
        assert(enc_stack_list(dl) == a);
        assert(enc_stack_list(sk) == enc_stack(vs.last()));
        lemma_concat_associative(a, c, enc_stack(vs.last()));
    } else if vs.len() > 2 {
        let dl = vs.drop_last();
        lemma_enc_stack_list_left(dl);
        let d = enc_stack(vs.last());
        let cc = enc_stack_list(dl.skip(1));
        assert(enc_stack_list(dl) == a + (c + cc));
        let sk = vs.skip(1);
        assert(sk.drop_last() =~= dl.skip(1));
        assert(sk.last() == vs.last());
        assert(sk.len() >= 2);
        assert(enc_stack_list(sk) == (cc + c) + d);
        assert(enc_stack_list(vs) == (a + (c + cc)) + c + d);
        lemma_concat_associative(a, c + cc, c);
        lemma_concat_associative(c, cc, c);
        lemma_concat_associative(a, c + (cc + c), d);
        lemma_concat_associative(c, cc + c, d);
        lemma_concat_associative(cc, c, d);
        assert(((a + (c + cc)) + c) + d == a + ((c + (cc + c))) + d);
        assert(enc_stack_list(vs) == a + (c + enc_stack_list(sk)));
    }
}

#[verifier::rlimit(100)]
#[verifier::spinoff_prover]
proof fn lemma_parse_stack_items_of_enc(
    s: Seq<char>,
    i: int,
    vs: Seq<StackV>,
    acc: Seq<StackV>,
    fuel: nat,
)
    requires
        vs.len() >= 1,
        forall|k: int| 0 <= k < vs.len() ==> stack_encodable(#[trigger] vs[k]),
        fuel >= stacks_units(vs) + 16,
        0 <= i,
        i + enc_stack_list(vs).len() + 1 <= s.len(),
        s.subrange(i, i + enc_stack_list(vs).len() + 1) == enc_stack_list(vs) + "]"@,
    ensures
        parse_stack_items(s, i, acc, fuel) == Option::Some(
            (acc + vs, i + enc_stack_list(vs).len() + 1),
        ),
    decreases vs.len(),
{
    lemma_lit_brackets();
    lemma_enc_stack_list_left(vs);
    let e0 = enc_stack(vs[0]);
    assert(stacks_units(vs) == 1 + vs[0].branches.len() + stacks_units(vs.skip(1)));
    if vs.len() == 1 {
        lemma_split_concat(s, i, e0, "]"@);
        lemma_parse_stack_of_enc(s, i, vs[0], fuel);
        let j = i + e0.len();
        lemma_char_at(s, j, "]"@, 0);
        assert(skip_ws(s, j) == j);
        assert(acc.push(vs[0]) =~= acc + vs);
    } else {
        let sk = vs.skip(1);
        let rest = ","@ + enc_stack_list(sk);
        lemma_concat_associative(e0, rest, "]"@);
        lemma_concat_associative(","@, enc_stack_list(sk), "]"@);
        assert((e0 + rest) + "]"@ == e0 + (","@ + (enc_stack_list(sk) + "]"@)));
        lemma_split_concat(s, i, e0, ","@ + (enc_stack_list(sk) + "]"@));
        let j = i + e0.len();
        lemma_split_concat(s, j, ","@, enc_stack_list(sk) + "]"@);
        lemma_parse_stack_of_enc(s, i, vs[0], fuel);
        lemma_char_at(s, j, ","@, 0);
        assert(skip_ws(s, j) == j);
        let j1 = j + 1;
        assert(forall|k: int| 0 <= k < sk.len() ==> stack_encodable(#[trigger] sk[k]));
        lemma_enc_stack_list_left(sk);
        lemma_enc_stack_first(sk[0]);
        assert(enc_stack_list(sk)[0] == '{') by {
            if sk.len() >= 2 {
                assert((enc_stack(sk[0]) + (","@ + enc_stack_list(sk.skip(1))))[0] == enc_stack(
                    sk[0],
                )[0]);
            }
        }
        lemma_char_at(s, j1, enc_stack_list(sk) + "]"@, 0);
        assert(s[j1] == '{');
        assert(skip_ws(s, j1) == j1);
        lemma_parse_stack_items_of_enc(s, j1, sk, acc.push(vs[0]), (fuel - 1) as nat);
        assert(acc.push(vs[0]) + sk =~= acc + vs);
    }
}

#[verifier::rlimit(100)]
#[verifier::spinoff_prover]
proof fn lemma_parse_stack_array_of_enc(s: Seq<char>, i: int, vs: Seq<StackV>, fuel: nat)
    requires
        forall|k: int| 0 <= k < vs.len() ==> stack_encodable(#[trigger] vs[k]),
        fuel >= stacks_units(vs) + 16,
        0 <= i,
        i + enc_stack_array(vs).len() <= s.len(),
        s.subrange(i, i + enc_stack_array(vs).len()) == enc_stack_array(vs),
    ensures
        parse_stack_list_at(s, i, fuel) == Option::Some((vs, i + enc_stack_array(vs).len())),
{
    lemma_lit_brackets();
    let inner = enc_stack_list(vs);
    lemma_concat_associative("["@, inner, "]"@);
    assert(enc_stack_array(vs) == "["@ + (inner + "]"@));
    lemma_split_concat(s, i, "["@, inner + "]"@);
    lemma_char_at(s, i, "["@, 0);
    if vs.len() == 0 {
        assert(inner + "]"@ =~= "]"@);
        lemma_char_at(s, i + 1, "]"@, 0);
        assert(skip_ws(s, i + 1) == i + 1);
        assert(parse_stack_list_at(s, i, fuel) == Option::Some((Seq::<StackV>::empty(), i + 2)));
        assert(vs =~= Seq::<StackV>::empty());
    } else {
        lemma_enc_stack_list_left(vs);
        lemma_enc_stack_first(vs[0]);
        assert(inner[0] == '{') by {
            if vs.len() >= 2 {
                assert((enc_stack(vs[0]) + (","@ + enc_stack_list(vs.skip(1))))[0] == enc_stack(
                    vs[0],
                )[0]);
            }
        }
        lemma_char_at(s, i + 1, inner + "]"@, 0);
        assert(s[i + 1] == '{');
        assert(skip_ws(s, i + 1) == i + 1);
        lemma_parse_stack_items_of_enc(s, i + 1, vs, Seq::<StackV>::empty(), fuel);
        assert(Seq::<StackV>::empty() + vs =~= vs);
    }
}

proof fn lemma_key_stack_name()
    ensures
        "{\"stack_name\":"@.len() == 14,
        "{\"stack_name\":"@[0] == '{',
        "{\"stack_name\":"@[1] == '"',
        "{\"stack_name\":"@[13] == ':',
        "{\"stack_name\":"@.subrange(1, 13) == enc_str("stack_name"@),
        plain_str("stack_name"@),
        "stack_name"@.len() == 10,
        "stack_name"@[0] == 's',
{
    reveal_strlit("{\"stack_name\":");
    reveal_strlit("stack_name");
    assert("{\"stack_name\":"@.subrange(1, 13) =~= enc_str("stack_name"@));
}

proof fn lemma_key_branch_name()
    ensures
        ",\"branch_name\":"@.len() == 15,
        ",\"branch_name\":"@[0] == ',',
        ",\"branch_name\":"@[1] == '"',
        ",\"branch_name\":"@[14] == ':',
        ",\"branch_name\":"@.subrange(1, 14) == enc_str("branch_name"@),
        plain_str("branch_name"@),
        "branch_name"@.len() == 11,
        "branch_name"@[0] == 'b',
{
    reveal_strlit(",\"branch_name\":");
    reveal_strlit("branch_name");
    assert(",\"branch_name\":"@.subrange(1, 14) =~= enc_str("branch_name"@));
}

/// An embedded canonical detached-head encoding parses back to the record.
#[verifier::rlimit(100)]
#[verifier::spinoff_prover]
proof fn lemma_parse_detached_of_enc(s: Seq<char>, i: int, d: DetachedV, fuel: nat)
    requires
        plain_str(d.stack_name),
        plain_str(d.branch_name),
        fuel >= 3,
        0 <= i,
        i + enc_detached(d).len() <= s.len(),
        s.subrange(i, i + enc_detached(d).len()) == enc_detached(d),
    ensures
        parse_detached_at(s, i, fuel) == Option::Some((d, i + enc_detached(d).len())),
{
    lemma_key_stack_name();
    lemma_key_branch_name();
    lemma_lit_close();
    let e = enc_detached(d);
    let p0 = "{\"stack_name\":"@;
    let v1 = enc_str(d.stack_name);
    let p1 = ",\"branch_name\":"@;
    let v2 = enc_str(d.branch_name);
    let p2 = "}"@;
    let t3 = v2 + p2;
    let t2 = p1 + t3;
    let t1 = v1 + t2;
    let a1 = p0 + v1;
    let a2 = a1 + p1;
    let a3 = a2 + v2;
    assert(e == a3 + p2);
    lemma_concat_associative(a2, v2, p2);
    lemma_concat_associative(a1, p1, t3);
    lemma_concat_associative(p0, v1, t2);
    assert(e == p0 + t1);
    let o1 = i + p0.len();
    lemma_split_concat(s, i, p0, t1);
    let o2 = o1 + v1.len();
    lemma_split_concat(s, o1, v1, t2);
    let o3 = o2 + p1.len();
    lemma_split_concat(s, o2, p1, t3);
    let o4 = o3 + v2.len();
    lemma_split_concat(s, o3, v2, p2);
    let oend = o4 + 1;
    assert(oend == i + e.len());
    lemma_char_at(s, i, p0, 0);
    lemma_char_at(s, i, p0, 1);
    lemma_char_at(s, i, p0, 13);
    lemma_char_at(s, o2, p1, 0);
    lemma_char_at(s, o2, p1, 1);
    lemma_char_at(s, o2, p1, 14);
    lemma_char_at(s, o4, p2, 0);
    lemma_enc_str_first(d.stack_name);
    lemma_enc_str_first(d.branch_name);
    lemma_char_at(s, o1, v1, 0);
    lemma_char_at(s, o3, v2, 0);
    lemma_subsub(s, i, p0, 1, 13);
    lemma_parse_string_of_enc(s, i + 1, "stack_name"@);
    lemma_subsub(s, o2, p1, 1, 14);
    lemma_parse_string_of_enc(s, o2 + 1, "branch_name"@);
    lemma_parse_string_of_enc(s, o1, d.stack_name);
    lemma_parse_string_of_enc(s, o3, d.branch_name);
    assert("branch_name"@ != "stack_name"@) by {
        assert("branch_name"@.len() != "stack_name"@.len());
    }
    assert(s[i] == '{');
    assert(skip_ws(s, i + 1) == i + 1);
    assert(skip_ws(s, i + 13) == i + 13);
    assert(skip_ws(s, o1) == o1);
    assert(skip_ws(s, o2) == o2);
    assert(skip_ws(s, o2 + 1) == o2 + 1);
    assert(skip_ws(s, o3 - 1) == o3 - 1);
    assert(skip_ws(s, o3) == o3);
    assert(skip_ws(s, o4) == o4);
    assert(s[o4] == '}');
    let acc0 = DetachedAcc { stack_name: Option::None, branch_name: Option::None };
    let acc1 = DetachedAcc { stack_name: Option::Some(d.stack_name), ..acc0 };
    let acc2 = DetachedAcc { branch_name: Option::Some(d.branch_name), ..acc1 };
    assert(parse_detached_fields(s, i + 1, acc0, fuel) == parse_detached_fields(
        s,
        o2 + 1,
        acc1,
        (fuel - 1) as nat,
    ));
    assert(detached_acc_done(acc2) == Option::Some(
        (DetachedV { stack_name: d.stack_name, branch_name: d.branch_name }),
    ));
    assert((DetachedV { stack_name: d.stack_name, branch_name: d.branch_name }) =~= d);
    assert(parse_detached_fields(s, o2 + 1, acc1, (fuel - 1) as nat) == Option::Some((d, oend)));
}

proof fn lemma_key_stacks()
    ensures
        "{\"stacks\":"@.len() == 10,
        "{\"stacks\":"@[0] == '{',
        "{\"stacks\":"@[1] == '"',
        "{\"stacks\":"@[9] == ':',
        "{\"stacks\":"@.subrange(1, 9) == enc_str("stacks"@),
        plain_str("stacks"@),
        "stacks"@.len() == 6,
        "stacks"@[0] == 's',
{
    reveal_strlit("{\"stacks\":");
    reveal_strlit("stacks");
    assert("{\"stacks\":"@.subrange(1, 9) =~= enc_str("stacks"@));
}

proof fn lemma_key_version()
    ensures
        ",\"version\":"@.len() == 11,
        ",\"version\":"@[0] == ',',
        ",\"version\":"@[1] == '"',
        ",\"version\":"@[10] == ':',
        ",\"version\":"@.subrange(1, 10) == enc_str("version"@),
        plain_str("version"@),
        "version"@.len() == 7,
        "version"@[0] == 'v',
{
    reveal_strlit(",\"version\":");
    reveal_strlit("version");
    assert(",\"version\":"@.subrange(1, 10) =~= enc_str("version"@));
}

proof fn lemma_key_detached()
    ensures
        ",\"detached_head_context\":"@.len() == 25,
        ",\"detached_head_context\":"@[0] == ',',
        ",\"detached_head_context\":"@[1] == '"',
        ",\"detached_head_context\":"@[24] == ':',
        ",\"detached_head_context\":"@.subrange(1, 24) == enc_str("detached_head_context"@),
        plain_str("detached_head_context"@),
        "detached_head_context"@.len() == 21,
        "detached_head_context"@[0] == 'd',
{
    reveal_strlit(",\"detached_head_context\":");
    reveal_strlit("detached_head_context");
    assert(",\"detached_head_context\":"@.subrange(1, 24) =~= enc_str("detached_head_context"@));
}

proof fn lemma_store_value_stacks(
    s: Seq<char>,
    o: int,
    j: int,
    vs: Seq<StackV>,
    acc: StoreAcc,
    fuel: nat,
)
    requires
        acc.stacks is None,
        parse_stack_list_at(s, o, fuel) == Option::Some((vs, j)),
    ensures
        parse_store_value(s, o, "stacks"@, acc, fuel) == Option::Some(
            ((StoreAcc { stacks: Option::Some(vs), ..acc }), j),
        ),
{
}

proof fn lemma_store_value_version(
    s: Seq<char>,
    o: int,
    j: int,
    ver: Seq<char>,
    acc: StoreAcc,
    fuel: nat,
)
    requires
        acc.version is None,
        parse_string_at(s, o) == Option::Some((ver, j)),
    ensures
        parse_store_value(s, o, "version"@, acc, fuel) == Option::Some(
            ((StoreAcc { version: Option::Some(ver), ..acc }), j),
        ),
{
    lemma_key_stacks();
    lemma_key_version();
    assert("version"@ != "stacks"@) by {
        assert("version"@.len() != "stacks"@.len());
    }
}

proof fn lemma_store_value_detached(
    s: Seq<char>,
    o: int,
    j: int,
    d: Option<DetachedV>,
    acc: StoreAcc,
    fuel: nat,
)
    requires
        acc.detached is None,
        match d {
            Option::Some(dd) => !at_lit(s, o, "null"@) && parse_detached_at(s, o, fuel)
                == Option::Some((dd, j)),
            Option::None => at_lit(s, o, "null"@) && j == o + 4,
        },
    ensures
        parse_store_value(s, o, "detached_head_context"@, acc, fuel) == Option::Some(
            ((StoreAcc { detached: Option::Some(d), ..acc }), j),
        ),
{
    lemma_key_stacks();
    lemma_key_version();
    lemma_key_detached();
    assert("detached_head_context"@ != "stacks"@) by {
        assert("detached_head_context"@.len() != "stacks"@.len());
    }
    assert("detached_head_context"@ != "version"@) by {
        assert("detached_head_context"@.len() != "version"@.len());
    }
}

proof fn lemma_store_field_step(
    s: Seq<char>,
    p: int,
    key: Seq<char>,
    e: int,
    o: int,
    o2: int,
    acc: StoreAcc,
    acc2: StoreAcc,
    fuel: nat,
)
    requires
        fuel >= 1,
        skip_ws(s, p) == p,
        0 <= p < s.len(),
        s[p] == '"',
        parse_string_at(s, p) == Option::Some((key, e)),
        skip_ws(s, e) == e,
        0 <= e < s.len(),
        s[e] == ':',
        skip_ws(s, e + 1) == o,
        parse_store_value(s, o, key, acc, fuel) == Option::Some((acc2, o2)),
        skip_ws(s, o2) == o2,
        0 <= o2 < s.len(),
        s[o2] == ',',
    ensures
        parse_store_fields(s, p, acc, fuel) == parse_store_fields(s, o2 + 1, acc2, (fuel - 1) as nat),
{
}

proof fn lemma_store_field_last(
    s: Seq<char>,
    p: int,
    key: Seq<char>,
    e: int,
    o: int,
    o2: int,
    acc: StoreAcc,
    acc2: StoreAcc,
    m: StoreV,
    fuel: nat,
)
    requires
        fuel >= 1,
        skip_ws(s, p) == p,
        0 <= p < s.len(),
        s[p] == '"',
        parse_string_at(s, p) == Option::Some((key, e)),
        skip_ws(s, e) == e,
        0 <= e < s.len(),
        s[e] == ':',
        skip_ws(s, e + 1) == o,
        parse_store_value(s, o, key, acc, fuel) == Option::Some((acc2, o2)),
        skip_ws(s, o2) == o2,
        0 <= o2 < s.len(),
        s[o2] == '}',
        store_acc_done(acc2) == Option::Some(m),
    ensures
        parse_store_fields(s, p, acc, fuel) == Option::Some((m, o2 + 1)),
{
}

proof fn lemma_enc_store_assoc(m: StoreV)
    ensures
        spec_enc_store(m) == "{\"stacks\":"@ + (enc_stack_array(m.stacks) + (",\"version\":"@ + (
        enc_str(m.version) + (",\"detached_head_context\":"@ + ((match m.detached {
            Option::Some(d) => enc_detached(d),
            Option::None => "null"@,
        }) + "}"@))))),
{
    let p0 = "{\"stacks\":"@;
    let v1 = enc_stack_array(m.stacks);
    let p1 = ",\"version\":"@;
    let v2 = enc_str(m.version);
    let p2 = ",\"detached_head_context\":"@;
    let v3 = match m.detached {
        Option::Some(d) => enc_detached(d),
        Option::None => "null"@,
    };
    let p3 = "}"@;
    let a1 = p0 + v1;
    let a2 = a1 + p1;
    let a3 = a2 + v2;
    let a4 = a3 + p2;
    let a5 = a4 + v3;
    assert(spec_enc_store(m) == a5 + p3);
    let t5 = v3 + p3;
    let t4 = p2 + t5;
    let t3 = v2 + t4;
    let t2 = p1 + t3;
    let t1 = v1 + t2;
    lemma_concat_associative(a4, v3, p3);
    lemma_concat_associative(a3, p2, t5);
    lemma_concat_associative(a2, v2, t4);
    lemma_concat_associative(a1, p1, t3);
    lemma_concat_associative(p0, v1, t2);
}

/// An embedded canonical store encoding parses back to the store.
#[verifier::rlimit(100)]
#[verifier::spinoff_prover]
proof fn lemma_parse_store_of_enc(s: Seq<char>, i: int, m: StoreV, fuel: nat)
    requires
        store_encodable(m),
        fuel >= stacks_units(m.stacks) + 20,
        0 <= i,
        i + spec_enc_store(m).len() <= s.len(),
        s.subrange(i, i + spec_enc_store(m).len()) == spec_enc_store(m),
    ensures
        parse_store_at(s, i, fuel) == Option::Some((m, i + spec_enc_store(m).len())),
{
    lemma_key_stacks();
    lemma_key_version();
    lemma_key_detached();
    lemma_lit_close();
    lemma_lit_null();
    lemma_lit_brackets();
    let e = spec_enc_store(m);
    let p0 = "{\"stacks\":"@;
    let v1 = enc_stack_array(m.stacks);
    let p1 = ",\"version\":"@;
    let v2 = enc_str(m.version);
    let p2 = ",\"detached_head_context\":"@;
    let v3 = match m.detached {
        Option::Some(d) => enc_detached(d),
        Option::None => "null"@,
    };
    let p3 = "}"@;
    let t5 = v3 + p3;
    let t4 = p2 + t5;
    let t3 = v2 + t4;
    let t2 = p1 + t3;
    let t1 = v1 + t2;
    lemma_enc_store_assoc(m);
    assert(e == p0 + t1);
    let o1 = i + p0.len();
    lemma_split_concat(s, i, p0, t1);
    let o2 = o1 + v1.len();
    lemma_split_concat(s, o1, v1, t2);
    let o3 = o2 + p1.len();
    lemma_split_concat(s, o2, p1, t3);
    let o4 = o3 + v2.len();
    lemma_split_concat(s, o3, v2, t4);
    let o5 = o4 + p2.len();
    lemma_split_concat(s, o4, p2, t5);
    let o6 = o5 + v3.len();
    lemma_split_concat(s, o5, v3, p3);
    let oend = o6 + 1;
    assert(oend == i + e.len());
    lemma_char_at(s, i, p0, 0);
    lemma_char_at(s, i, p0, 1);
    lemma_char_at(s, i, p0, 9);
    lemma_char_at(s, o2, p1, 0);
    lemma_char_at(s, o2, p1, 1);
    lemma_char_at(s, o2, p1, 10);
    lemma_char_at(s, o4, p2, 0);
    lemma_char_at(s, o4, p2, 1);
    lemma_char_at(s, o4, p2, 24);
    lemma_char_at(s, o6, p3, 0);
    assert(v1[0] == '[') by {
        assert(("["@ + enc_stack_list(m.stacks) + "]"@)[0] == "["@[0]);
    }
    lemma_char_at(s, o1, v1, 0);
    lemma_enc_str_first(m.version);
    lemma_char_at(s, o3, v2, 0);
    match m.detached {
        Option::Some(d) => {
            assert(v3[0] == '{') by {
                lemma_key_stack_name();
                assert(("{\"stack_name\":"@ + enc_str(d.stack_name) + ",\"branch_name\":"@
                    + enc_str(d.branch_name) + "}"@)[0] == "{\"stack_name\":"@[0]);
            }
        },
        Option::None => {
            assert(v3[0] == 'n');
        },
    }
    lemma_char_at(s, o5, v3, 0);
    lemma_subsub(s, i, p0, 1, 9);
    lemma_parse_string_of_enc(s, i + 1, "stacks"@);
    lemma_subsub(s, o2, p1, 1, 10);
    lemma_parse_string_of_enc(s, o2 + 1, "version"@);
    lemma_subsub(s, o4, p2, 1, 24);
    lemma_parse_string_of_enc(s, o4 + 1, "detached_head_context"@);
    lemma_parse_stack_array_of_enc(s, o1, m.stacks, fuel);
    lemma_parse_string_of_enc(s, o3, m.version);
    match m.detached {
        Option::Some(d) => {
            lemma_parse_detached_of_enc(s, o5, d, (fuel - 2) as nat);
            assert(!at_lit(s, o5, "null"@)) by {
                if at_lit(s, o5, "null"@) {
                    lemma_char_at(s, o5, "null"@, 0);
                }
            }
        },
        Option::None => {
            assert(at_lit(s, o5, "null"@));
        },
    }
    let acc0 = StoreAcc { stacks: Option::None, version: Option::None, detached: Option::None };
    let acc1 = StoreAcc { stacks: Option::Some(m.stacks), ..acc0 };
    let acc2 = StoreAcc { version: Option::Some(m.version), ..acc1 };
    let acc3 = StoreAcc { detached: Option::Some(m.detached), ..acc2 };
    assert(s[i] == '{');
    assert(skip_ws(s, i + 1) == i + 1);
    assert(skip_ws(s, i + 9) == i + 9);
    assert(skip_ws(s, o1) == o1);
    assert(skip_ws(s, o2) == o2);
    lemma_store_value_stacks(s, o1, o2, m.stacks, acc0, fuel);
    lemma_store_field_step(s, i + 1, "stacks"@, i + 9, o1, o2, acc0, acc1, fuel);
    assert(skip_ws(s, o2 + 1) == o2 + 1);
    assert(skip_ws(s, o3 - 1) == o3 - 1);
    assert(skip_ws(s, o3) == o3);
    assert(skip_ws(s, o4) == o4);
    lemma_store_value_version(s, o3, o4, m.version, acc1, (fuel - 1) as nat);
    lemma_store_field_step(s, o2 + 1, "version"@, o3 - 1, o3, o4, acc1, acc2, (fuel - 1) as nat);
    assert(skip_ws(s, o4 + 1) == o4 + 1);
    assert(skip_ws(s, o5 - 1) == o5 - 1);
    assert(skip_ws(s, o5) == o5);
    assert(skip_ws(s, o6) == o6);
    lemma_store_value_detached(s, o5, o6, m.detached, acc2, (fuel - 2) as nat);
    assert(store_acc_done(acc3) == Option::Some(
        (StoreV { stacks: m.stacks, version: m.version, detached: m.detached }),
    ));
    assert((StoreV { stacks: m.stacks, version: m.version, detached: m.detached }) =~= m);
    lemma_store_field_last(
        s,
        o4 + 1,
        "detached_head_context"@,
        o5 - 1,
        o5,
        o6,
        acc2,
        acc3,
        m,
        (fuel - 2) as nat,
    );
    assert(parse_store_fields(s, i + 1, acc0, fuel) == Option::Some((m, oend)));
}

proof fn lemma_i64_string_len(v: int)
    ensures
        spec_i64_string(v).len() >= 1,
{
    if v >= 0 {
        lemma_u64_string_digits(v as nat);
    } else {
        lemma_u64_string_digits((-v) as nat);
    }
}

proof fn lemma_enc_branch_list_len(bs: Seq<BranchV>)
    ensures
        enc_branch_list(bs).len() >= bs.len(),
    decreases bs.len(),
{
    if bs.len() == 1 {
        lemma_enc_branch_first(bs[0]);
    } else if bs.len() > 1 {
        lemma_enc_branch_list_len(bs.drop_last());
        lemma_enc_branch_first(bs.last());
        lemma_lit_brackets();
    }
}

proof fn lemma_enc_stack_len(v: StackV)
    ensures
        enc_stack(v).len() >= v.branches.len() + 21,
{
    lemma_enc_stack_assoc(v);
    lemma_key_name();
    lemma_key_base_branch();
    lemma_key_head_branch();
    lemma_key_branches();
    lemma_key_created_at();
    lemma_key_updated_at();
    lemma_lit_close();
    lemma_lit_brackets();
    lemma_enc_str_first(v.name);
    lemma_enc_str_first(v.base_branch);
    lemma_enc_branch_first(v.head_branch);
    lemma_enc_branch_list_len(v.branches);
    lemma_i64_string_len(v.created_at);
    lemma_i64_string_len(v.updated_at);
}

proof fn lemma_enc_stack_list_len(vs: Seq<StackV>)
    ensures
        enc_stack_list(vs).len() >= stacks_units(vs),
    decreases vs.len(),
{
    if vs.len() == 1 {
        lemma_enc_stack_len(vs[0]);
        assert(stacks_units(vs.skip(1)) == 0);
    } else if vs.len() > 1 {
        lemma_enc_stack_list_left(vs);
        lemma_enc_stack_len(vs[0]);
        lemma_enc_stack_list_len(vs.skip(1));
        lemma_lit_brackets();
    }
}

proof fn lemma_enc_store_len(m: StoreV)
    ensures
        spec_enc_store(m).len() >= stacks_units(m.stacks) + 20,
        spec_enc_store(m).len() >= 1,
        spec_enc_store(m)[0] == '{',
{
    lemma_enc_store_assoc(m);
    lemma_key_stacks();
    lemma_key_version();
    lemma_key_detached();
    lemma_lit_close();
    lemma_lit_null();
    lemma_lit_brackets();
    lemma_enc_str_first(m.version);
    lemma_enc_stack_list_len(m.stacks);
    match m.detached {
        Option::Some(d) => {
            lemma_key_stack_name();
            lemma_key_branch_name();
            lemma_enc_str_first(d.stack_name);
            lemma_enc_str_first(d.branch_name);
        },
        Option::None => {},
    }
}

/// Saving and loading is lossless: the canonical encoding of any encodable
/// store decodes back to that very store, every branch field included.
pub proof fn law_save_load_round_trip(m: StoreV)
    requires
        store_encodable(m),
    ensures
        spec_parse_store(spec_enc_store(m)) == Option::Some(m),
{
    let s = spec_enc_store(m);
    lemma_enc_store_len(m);
    assert(s.subrange(0, s.len() as int) =~= s);
    assert(skip_ws(s, 0) == 0);
    lemma_parse_store_of_enc(s, 0, m, s.len() + 1);
    assert(skip_ws(s, s.len() as int) == s.len() as int);
}

} // verus!
