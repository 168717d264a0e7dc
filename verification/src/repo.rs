//! Decisions over what the version-control executor and the credential
//! environment report: the working-tree snapshot handed in by the binary,
//! remote-URL parsing, remote selection, token resolution order, and the
//! mapping of remote-service failures onto the error taxonomy.

use vstd::prelude::*;

use crate::errors::{AppError, GitHubError};

verus! {

/// Mathematical model of the executor's report.
#[verifier::ext_equal]
pub ghost struct RepoStatusV {
    pub is_repo: bool,
    pub current_branch: Seq<char>,
    pub current_commit: Seq<char>,
}

/// What the executor reports of the working tree before a command runs:
/// whether it is inside a version-controlled tree, and the branch and commit
/// it sits on.
pub struct RepoStatus {
    pub is_repo: bool,
    pub current_branch: String,
    pub current_commit: String,
}

impl View for RepoStatus {
    type V = RepoStatusV;

    open spec fn view(&self) -> RepoStatusV {
        RepoStatusV {
            is_repo: self.is_repo,
            current_branch: self.current_branch@,
            current_commit: self.current_commit@,
        }
    }
}

/// The branch the working tree sits on, from the executor's report.
pub fn get_current_branch(status: &RepoStatus) -> (r: String)
    ensures
        r@ == status@.current_branch,
{
    status.current_branch.clone()
}

/// Whether `i` is the first position of `c` in `s`.
pub open spec fn is_first_char_idx(s: Seq<char>, c: char, i: int) -> bool {
    &&& 0 <= i < s.len()
    &&& s[i] == c
    &&& forall|j: int| 0 <= j < i ==> s[j] != c
}

/// Whether `s` splits as `o`, a first slash, and `r` running to the next
/// slash or the end: how an owner and a repository name are read out of a
/// remote URL's path.
pub open spec fn splits_owner_repo(s: Seq<char>, o: Seq<char>, r: Seq<char>) -> bool {
    exists|i: int|
        {
            &&& #[trigger] is_first_char_idx(s, '/', i)
            &&& o == s.take(i)
            &&& {
                let rest = s.skip(i + 1);
                ||| (exists|j: int| #[trigger] is_first_char_idx(rest, '/', j) && r == rest.take(j))
                ||| ((forall|j: int| 0 <= j < rest.len() ==> rest[j] != '/') && r == rest)
            }
        }
}

/// `s` without the prefix `p` when it starts with it, else `s`.
pub open spec fn strip_prefix_spec(s: Seq<char>, p: Seq<char>) -> Seq<char> {
    if p.len() <= s.len() && s.subrange(0, p.len() as int) == p {
        s.skip(p.len() as int)
    } else {
        s
    }
}

/// `s` without the suffix `p` when it ends with it, else `s`.
pub open spec fn strip_suffix_spec(s: Seq<char>, p: Seq<char>) -> Seq<char> {
    if p.len() <= s.len() && s.subrange(s.len() - p.len(), s.len() as int) == p {
        s.take(s.len() - p.len())
    } else {
        s
    }
}

/// The owner/repository pair a remote URL resolves to: the SSH form is tried
/// first, and the HTTPS form otherwise (stripping its scheme prefix when
/// present and a `.git` suffix when present).
pub open spec fn owner_repo_of(u: Seq<char>, o: Seq<char>, r: Seq<char>) -> bool {
    if strip_prefix_spec(u, "git@github.com:"@) != u && splits_two_somehow(
        strip_suffix_spec(strip_prefix_spec(u, "git@github.com:"@), ".git"@),
    ) {
        splits_owner_repo(strip_suffix_spec(strip_prefix_spec(u, "git@github.com:"@), ".git"@), o, r)
    } else {
        splits_owner_repo(strip_suffix_spec(strip_prefix_spec(u, "https://github.com/"@), ".git"@), o, r)
    }
}

/// Whether some owner/repository split exists at all.
pub open spec fn splits_two_somehow(s: Seq<char>) -> bool {
    exists|i: int| is_first_char_idx(s, '/', i)
}

fn has_prefix(s: &str, p: &str) -> (r: bool)
    ensures
        r == (p@.len() <= s@.len() && s@.subrange(0, p@.len() as int) == p@),
{
    let n = s.unicode_len();
    let m = p.unicode_len();
    if m > n {
        return false;
    }
    let mut j: usize = 0;
    while j < m
        invariant
            n == s@.len(),
            m == p@.len(),
            m <= n,
            0 <= j <= m,
            forall|k: int| 0 <= k < j ==> s@[k] == p@[k],
        decreases m - j,
    {
        if s.get_char(j) != p.get_char(j) {
            proof {
                assert(s@.subrange(0, m as int)[j as int] != p@[j as int]);
            }
            return false;
        }
        j = j + 1;
    }
    proof {
        assert(s@.subrange(0, m as int) =~= p@);
    }
    true
}

fn has_suffix(s: &str, p: &str) -> (r: bool)
    ensures
        r == (p@.len() <= s@.len() && s@.subrange(s@.len() - p@.len(), s@.len() as int) == p@),
{
    let n = s.unicode_len();
    let m = p.unicode_len();
    if m > n {
        return false;
    }
    let start = n - m;
    let mut j: usize = 0;
    while j < m
        invariant
            n == s@.len(),
            m == p@.len(),
            m <= n,
            start == n - m,
            0 <= j <= m,
            forall|k: int| 0 <= k < j ==> s@[start + k] == p@[k],
        decreases m - j,
    {
        if s.get_char(start + j) != p.get_char(j) {
            proof {
                assert(s@.subrange(start as int, n as int)[j as int] != p@[j as int]);
            }
            return false;
        }
        j = j + 1;
    }
    proof {
        assert(s@.subrange(start as int, n as int) =~= p@);
    }
    true
}

/// Finds the first `/` at or after `from`, with none between.
fn find_slash(s: &str, from: usize) -> (r: Option<usize>)
    requires
        from <= s@.len(),
    ensures
        match r {
            Option::Some(i) => from <= i < s@.len() && s@[i as int] == '/' && forall|j: int|
                from <= j < i ==> s@[j] != '/',
            Option::None => forall|j: int| from <= j < s@.len() ==> s@[j] != '/',
        },
{
    let n = s.unicode_len();
    let mut i = from;
    while i < n
        invariant
            n == s@.len(),
            from <= i <= n,
            forall|j: int| from <= j < i ==> s@[j] != '/',
        decreases n - i,
    {
        if s.get_char(i) == '/' {
            return Option::Some(i);
        }
        i = i + 1;
    }
    Option::None
}

/// Splits `s` (already stripped of scheme and suffix) into its first two
/// slash-separated segments.
fn split_two(s: &str) -> (r: Option<(String, String)>)
    ensures
        match r {
            Option::Some((o, rp)) => splits_owner_repo(s@, o@, rp@),
            Option::None => !splits_two_somehow(s@),
        },
{
    let n = s.unicode_len();
    match find_slash(s, 0) {
        Option::None => {
            proof {
                if splits_two_somehow(s@) {
                    let i = choose|i: int| is_first_char_idx(s@, '/', i);
                    assert(s@[i] == '/');
                }
            }
            Option::None
        },
        Option::Some(i) => {
            let owner = String::from_str(s.substring_char(0, i));
            let rest_end = match find_slash(s, i + 1) {
                Option::Some(k) => k,
                Option::None => n,
            };
            let repo = String::from_str(s.substring_char(i + 1, rest_end));
            proof {
                assert(is_first_char_idx(s@, '/', i as int));
                assert(owner@ =~= s@.take(i as int));
                let rest = s@.skip(i as int + 1);
                if rest_end < n {
                    let j = rest_end - i - 1;
                    assert(rest[j as int] == s@[rest_end as int]);
                    assert forall|k: int| 0 <= k < j implies rest[k] != '/' by {
                        assert(rest[k] == s@[i + 1 + k]);
                    }
                    assert(is_first_char_idx(rest, '/', j as int));
                    assert(repo@ =~= rest.take(j as int));
                } else {
                    assert forall|k: int| 0 <= k < rest.len() implies rest[k] != '/' by {
                        assert(rest[k] == s@[i + 1 + k]);
                    }
                    assert(repo@ =~= rest);
                }
            }
            Option::Some((owner, repo))
        },
    }
}

/// Parses the owner and repository name out of a remote URL, in its SSH or
/// HTTPS form.
pub fn parse_owner_repo(url: &str) -> (r: Result<(String, String), AppError>)
    ensures
        match r {
            Result::Ok((o, rp)) => owner_repo_of(url@, o@, rp@),
            Result::Err(e) => {
                &&& !splits_two_somehow(
                    strip_suffix_spec(strip_prefix_spec(url@, "https://github.com/"@), ".git"@),
                )
                &&& e matches AppError::Other(m) && m@ == "Invalid remote URL"@
            },
        },
{
    let ssh_prefix = "git@github.com:";
    let https_prefix = "https://github.com/";
    let git_suffix = ".git";
    if has_prefix(url, ssh_prefix) {
        proof {
            assert(strip_prefix_spec(url@, "git@github.com:"@) == url@.skip(
                "git@github.com:"@.len() as int,
            ));
            assert("git@github.com:"@.len() > 0 ==> url@.skip("git@github.com:"@.len() as int)
                != url@) by {
                if "git@github.com:"@.len() > 0 {
                    assert(url@.skip("git@github.com:"@.len() as int).len() < url@.len());
                }
            }
            reveal_strlit("git@github.com:");
        }
        let pl = ssh_prefix.unicode_len();
        let stripped = url.substring_char(pl, url.unicode_len());
        let core = if has_suffix(stripped, git_suffix) {
            let sl = git_suffix.unicode_len();
            proof {
                reveal_strlit(".git");
            }
            String::from_str(stripped.substring_char(0, stripped.unicode_len() - sl))
        } else {
            String::from_str(stripped)
        };
        proof {
            assert(core@ == strip_suffix_spec(
                strip_prefix_spec(url@, "git@github.com:"@),
                ".git"@,
            ));
        }
        match split_two(core.as_str()) {
            Option::Some((o, rp)) => {
                return Result::Ok((o, rp));
            },
            Option::None => {},
        }
    }
    proof {
        reveal_strlit("https://github.com/");
        reveal_strlit(".git");
    }
    let rest = if has_prefix(url, https_prefix) {
        let pl = https_prefix.unicode_len();
        url.substring_char(pl, url.unicode_len())
    } else {
        url
    };
    proof {
        assert(rest@ == strip_prefix_spec(url@, "https://github.com/"@));
    }
    let core = if has_suffix(rest, git_suffix) {
        let sl = git_suffix.unicode_len();
        String::from_str(rest.substring_char(0, rest.unicode_len() - sl))
    } else {
        String::from_str(rest)
    };
    proof {
        assert(core@ == strip_suffix_spec(
            strip_prefix_spec(url@, "https://github.com/"@),
            ".git"@,
        ));
    }
    match split_two(core.as_str()) {
        Option::Some((o, rp)) => {
            proof {
                if strip_prefix_spec(url@, "git@github.com:"@) != url@ {
                    // the SSH split found no slash, so the HTTPS fallback decides
                }
            }
            Result::Ok((o, rp))
        },
        Option::None => Result::Err(AppError::Other(String::from_str("Invalid remote URL"))),
    }
}

/// Picks the remote to use: the only one when there is exactly one, `origin`
/// when present, else the first listed; no remotes at all is an error.
pub fn choose_remote(remotes: &Vec<String>) -> (r: Result<String, AppError>)
    ensures
        match r {
            Result::Ok(name) => {
                &&& remotes@.len() >= 1
                &&& if remotes@.len() == 1 {
                    name@ == remotes@[0]@
                } else if exists|i: int| 0 <= i < remotes@.len() && (#[trigger] remotes@[i])@
                    == "origin"@ {
                    name@ == "origin"@
                } else {
                    name@ == remotes@[0]@
                }
            },
            Result::Err(e) => {
                &&& remotes@.len() == 0
                &&& e matches AppError::Other(m) && m@ == "No git remote found"@
            },
        },
{
    if remotes.len() == 1 {
        return Result::Ok(remotes[0].clone());
    }
    let n = remotes.len();
    let mut i: usize = 0;
    while i < n
        invariant
            n == remotes@.len(),
            0 <= i <= n,
            forall|j: int| 0 <= j < i ==> (#[trigger] remotes@[j])@ != "origin"@,
        decreases n - i,
    {
        if crate::strutil::str_eq(remotes[i].as_str(), "origin") {
            proof {
                assert((remotes@[i as int])@ == "origin"@);
            }
            return Result::Ok(String::from_str("origin"));
        }
        i = i + 1;
    }
    if remotes.len() >= 1 {
        return Result::Ok(remotes[0].clone());
    }
    Result::Err(AppError::Other(String::from_str("No git remote found")))
}

/// Whether `sub` occurs contiguously inside `s`.
pub open spec fn contains_sub(s: Seq<char>, sub: Seq<char>) -> bool {
    exists|i: int| 0 <= i && i + sub.len() <= s.len() && #[trigger] s.subrange(i, i + sub.len())
        == sub
}

/// Naive substring search.
fn contains_exec(s: &str, sub: &str) -> (r: bool)
    ensures
        r == contains_sub(s@, sub@),
{
    let n = s.unicode_len();
    let m = sub.unicode_len();
    if m == 0 {
        proof {
            assert(s@.subrange(0int, 0int + sub@.len()) =~= sub@);
            assert(contains_sub(s@, sub@));
        }
        return true;
    }
    if m > n {
        proof {
            if contains_sub(s@, sub@) {
                let i = choose|i: int|
                    0 <= i && i + sub@.len() <= s@.len() && #[trigger] s@.subrange(
                        i,
                        i + sub@.len(),
                    ) == sub@;
            }
        }
        return false;
    }
    let last = n - m;
    let mut i: usize = 0;
    while i <= last
        invariant
            n == s@.len(),
            m == sub@.len(),
            1 <= m <= n,
            last == n - m,
            0 <= i <= last + 1,
            forall|x: int| 0 <= x < i ==> #[trigger] s@.subrange(x, x + sub@.len()) != sub@,
        decreases last + 1 - i,
    {
        let mut j: usize = 0;
        let mut matched = true;
        while j < m
            invariant
                n == s@.len(),
                m == sub@.len(),
                i + m <= n,
                0 <= j <= m,
                matched ==> forall|k: int| 0 <= k < j ==> s@[i + k] == sub@[k],
                !matched ==> s@.subrange(i as int, i as int + m as int) != sub@,
            decreases m - j,
        {
            if s.get_char(i + j) != sub.get_char(j) {
                proof {
                    assert(s@.subrange(i as int, i as int + m as int)[j as int] != sub@[
                        j as int
                    ]);
                }
                matched = false;
                j = m;
            } else {
                j = j + 1;
            }
        }
        if matched {
            proof {
                assert(s@.subrange(i as int, i as int + m as int) =~= sub@);
            }
            return true;
        }
        i = i + 1;
    }
    proof {
        if contains_sub(s@, sub@) {
            let x = choose|x: int|
                0 <= x && x + sub@.len() <= s@.len() && #[trigger] s@.subrange(
                    x,
                    x + sub@.len(),
                ) == sub@;
            assert(x < i);
        }
    }
    false
}

/// Maps a remote-service failure, by the text of its transport error, onto
/// the error taxonomy: authentication, not-found, rate-limit, or a plain
/// request failure carrying the text.
pub fn map_github_error(err_text: &str) -> (r: GitHubError)
    ensures
        ({
            let t = err_text@;
            if contains_sub(t, "401"@) || contains_sub(t, "Unauthorized"@) {
                r is AuthenticationError
            } else if contains_sub(t, "404"@) || contains_sub(t, "Not Found"@) {
                r matches GitHubError::NotFound(m) && m@
                    == "Pull request or repository not found"@
            } else if contains_sub(t, "403"@) || contains_sub(t, "rate limit"@) {
                r is RateLimitExceeded
            } else {
                r matches GitHubError::RequestError(m) && m@ == "GitHub API error: "@ + t
            }
        }),
{
    if contains_exec(err_text, "401") || contains_exec(err_text, "Unauthorized") {
        GitHubError::AuthenticationError
    } else if contains_exec(err_text, "404") || contains_exec(err_text, "Not Found") {
        GitHubError::NotFound(String::from_str("Pull request or repository not found"))
    } else if contains_exec(err_text, "403") || contains_exec(err_text, "rate limit") {
        GitHubError::RateLimitExceeded
    } else {
        let mut m = String::from_str("GitHub API error: ");
        m.append(err_text);
        GitHubError::RequestError(m)
    }
}

/// `s` without leading whitespace.
pub open spec fn trim_front(s: Seq<char>) -> Seq<char>
    decreases s.len(),
{
    if s.len() > 0 && crate::codec::is_ws(s[0]) {
        trim_front(s.skip(1))
    } else {
        s
    }
}

/// `s` without trailing whitespace.
pub open spec fn trim_back(s: Seq<char>) -> Seq<char>
    decreases s.len(),
{
    if s.len() > 0 && crate::codec::is_ws(s.last()) {
        trim_back(s.drop_last())
    } else {
        s
    }
}

/// `s` without surrounding whitespace.
pub open spec fn trim_spec(s: Seq<char>) -> Seq<char> {
    trim_back(trim_front(s))
}

proof fn lemma_trim_front_at(s: Seq<char>, a: int)
    requires
        0 <= a <= s.len(),
        forall|k: int| 0 <= k < a ==> crate::codec::is_ws(s[k]),
        a < s.len() ==> !crate::codec::is_ws(s[a]),
    ensures
        trim_front(s) == s.skip(a),
    decreases a,
{
    if a == 0 {
        assert(s.skip(0) =~= s);
    } else {
        assert(crate::codec::is_ws(s[0]));
        let sk = s.skip(1);
        assert(forall|k: int| 0 <= k < sk.len() ==> sk[k] == s[k + 1]);
        lemma_trim_front_at(sk, a - 1);
        assert(sk.skip(a - 1) =~= s.skip(a));
    }
}

proof fn lemma_trim_back_at(s: Seq<char>, b: int)
    requires
        0 <= b <= s.len(),
        forall|k: int| b <= k < s.len() ==> crate::codec::is_ws(s[k]),
        b > 0 ==> !crate::codec::is_ws(s[b - 1]),
    ensures
        trim_back(s) == s.take(b),
    decreases s.len() - b,
{
    if b == s.len() {
        if s.len() == 0 || !crate::codec::is_ws(s.last()) {
            assert(s.take(b) =~= s);
        } else {
            assert(!crate::codec::is_ws(s[b - 1]));
        }
    } else {
        assert(crate::codec::is_ws(s.last()));
        let dl = s.drop_last();
        lemma_trim_back_at(dl, b);
        assert(dl.take(b) =~= s.take(b));
    }
}

/// Removes surrounding whitespace.
pub fn trim_exec(s: &str) -> (r: String)
    ensures
        r@ == trim_spec(s@),
{
    let n = s.unicode_len();
    let mut a: usize = 0;
    loop
        invariant
            n == s@.len(),
            0 <= a <= n,
            forall|k: int| 0 <= k < a ==> crate::codec::is_ws(s@[k]),
        ensures
            0 <= a <= n,
            forall|k: int| 0 <= k < a ==> crate::codec::is_ws(s@[k]),
            a < n ==> !crate::codec::is_ws(s@[a as int]),
        decreases n - a,
    {
        if a >= n {
            break;
        }
        let c = s.get_char(a);
        if !(c == ' ' || c == '\t' || c == '\n' || c == '\r') {
            break;
        }
        a = a + 1;
    }
    proof {
        lemma_trim_front_at(s@, a as int);
    }
    if a == n {
        proof {
            assert(s@.skip(a as int) =~= Seq::<char>::empty());
            assert(trim_back(Seq::<char>::empty()) =~= Seq::<char>::empty());
        }
        return String::new();
    }
    let mut b: usize = n;
    loop
        invariant
            n == s@.len(),
            a < n,
            !crate::codec::is_ws(s@[a as int]),
            a < b <= n,
            forall|k: int| b <= k < n ==> crate::codec::is_ws(s@[k]),
        ensures
            a < b <= n,
            forall|k: int| b <= k < n ==> crate::codec::is_ws(s@[k]),
            !crate::codec::is_ws(s@[b - 1]),
        decreases b,
    {
        let c = s.get_char(b - 1);
        if !(c == ' ' || c == '\t' || c == '\n' || c == '\r') {
            break;
        }
        b = b - 1;
    }
    let r = String::from_str(s.substring_char(a, b));
    proof {
        let front = s@.skip(a as int);
        assert(forall|k: int| 0 <= k < front.len() ==> front[k] == s@[a + k]);
        lemma_trim_back_at(front, b - a as int);
        assert(front.take(b - a as int) =~= s@.subrange(a as int, b as int));
    }
    r
}

/// The text split at every newline; segments keep their other characters.
pub open spec fn split_lines_spec(s: Seq<char>) -> Seq<Seq<char>>
    decreases s.len(),
{
    if exists|i: int| is_first_char_idx(s, '\n', i) {
        let i = choose|i: int| is_first_char_idx(s, '\n', i);
        seq![s.take(i)] + split_lines_spec(s.skip(i + 1))
    } else {
        seq![s]
    }
}

/// The trimmed, non-empty lines, in order.
pub open spec fn clean_lines_spec(ls: Seq<Seq<char>>) -> Seq<Seq<char>>
    decreases ls.len(),
{
    if ls.len() == 0 {
        Seq::<Seq<char>>::empty()
    } else if trim_spec(ls.last()).len() > 0 {
        clean_lines_spec(ls.drop_last()).push(trim_spec(ls.last()))
    } else {
        clean_lines_spec(ls.drop_last())
    }
}

/// Finds the first newline at or after `from`, with none between.
fn find_newline(s: &str, from: usize) -> (r: Option<usize>)
    requires
        from <= s@.len(),
    ensures
        match r {
            Option::Some(i) => from <= i < s@.len() && s@[i as int] == '\n' && forall|j: int|
                from <= j < i ==> s@[j] != '\n',
            Option::None => forall|j: int| from <= j < s@.len() ==> s@[j] != '\n',
        },
{
    let n = s.unicode_len();
    let mut i = from;
    while i < n
        invariant
            n == s@.len(),
            from <= i <= n,
            forall|j: int| from <= j < i ==> s@[j] != '\n',
        decreases n - i,
    {
        if s.get_char(i) == '\n' {
            return Option::Some(i);
        }
        i = i + 1;
    }
    Option::None
}

/// Splits at newlines.
fn split_lines_exec(s: &str) -> (r: Vec<String>)
    ensures
        r@.map_values(|x: String| x@) == split_lines_spec(s@),
{
    let n = s.unicode_len();
    let mut out: Vec<String> = Vec::new();
    let mut start: usize = 0;
    proof {
        assert(out@.map_values(|x: String| x@) + split_lines_spec(s@.skip(0)) =~= split_lines_spec(
            s@.skip(0),
        ));
        assert(s@.skip(0) =~= s@);
    }
    loop
        invariant
            n == s@.len(),
            0 <= start <= n,
            out@.map_values(|x: String| x@) + split_lines_spec(s@.skip(start as int))
                == split_lines_spec(s@),
        ensures
            out@.map_values(|x: String| x@) == split_lines_spec(s@),
        decreases n - start,
    {
        let ghost rest = s@.skip(start as int);
        let ghost before = out@.map_values(|x: String| x@);
        match find_newline(s, start) {
            Option::Some(k) => {
                let piece = String::from_str(s.substring_char(start, k));
                out.push(piece);
                proof {
                    let rel = k - start as int;
                    assert(forall|j: int| 0 <= j < rest.len() ==> rest[j] == s@[start + j]);
                    assert(is_first_char_idx(rest, '\n', rel));
                    assert forall|j: int| is_first_char_idx(rest, '\n', j) implies j == rel by {
                        assert(is_first_char_idx(rest, '\n', rel));
                    }
                    let cj = choose|i: int| is_first_char_idx(rest, '\n', i);
                    assert(cj == rel);
                    assert(split_lines_spec(rest) == seq![rest.take(rel)] + split_lines_spec(
                        rest.skip(rel + 1),
                    ));
                    assert(rest.take(rel) =~= s@.subrange(start as int, k as int));
                    assert(rest.skip(rel + 1) =~= s@.skip(k as int + 1));
                    assert(out@.map_values(|x: String| x@) =~= before.push(
                        s@.subrange(start as int, k as int),
                    ));
                    assert(out@.map_values(|x: String| x@) + split_lines_spec(
                        s@.skip(k as int + 1),
                    ) =~= before + split_lines_spec(rest));
                }
                start = k + 1;
            },
            Option::None => {
                let piece = String::from_str(s.substring_char(start, n));
                out.push(piece);
                proof {
                    assert(forall|j: int| 0 <= j < rest.len() ==> rest[j] == s@[start + j]);
                    assert forall|j: int| !is_first_char_idx(rest, '\n', j) by {
                        if is_first_char_idx(rest, '\n', j) {
                            assert(rest[j] == '\n');
                        }
                    }
                    assert(split_lines_spec(rest) == seq![rest]);
                    assert(rest =~= s@.subrange(start as int, n as int));
                    assert(out@.map_values(|x: String| x@) =~= before.push(rest));
                    assert(out@.map_values(|x: String| x@) =~= before + split_lines_spec(rest));
                }
                return out;
            },
        }
    }
}

/// The branch names in the executor's listing output: one per line, trimmed,
/// empty lines dropped.
pub fn parse_branch_list(out_text: &str) -> (r: Vec<String>)
    ensures
        r@.map_values(|x: String| x@) == clean_lines_spec(split_lines_spec(out_text@)),
{
    let lines = split_lines_exec(out_text);
    let ghost lv = lines@.map_values(|x: String| x@);
    let mut out: Vec<String> = Vec::new();
    let n = lines.len();
    let mut i: usize = 0;
    proof {
        assert(out@.map_values(|x: String| x@) =~= clean_lines_spec(lv.subrange(0, 0)));
    }
    while i < n
        invariant
            n == lines@.len(),
            lv == lines@.map_values(|x: String| x@),
            0 <= i <= n,
            out@.map_values(|x: String| x@) == clean_lines_spec(lv.subrange(0, i as int)),
        decreases n - i,
    {
        let t = trim_exec(lines[i].as_str());
        let ghost before = out@.map_values(|x: String| x@);
        let keep = t.as_str().unicode_len() > 0;
        if keep {
            out.push(t);
        }
        proof {
            let pre = lv.subrange(0, i as int);
            let post = lv.subrange(0, i as int + 1);
            assert(post.drop_last() =~= pre);
            assert(post.last() == lv[i as int]);
            if keep {
                assert(out@.map_values(|x: String| x@) =~= before.push(trim_spec(lv[i as int])));
            }
        }
        i = i + 1;
    }
    proof {
        assert(lv.subrange(0, n as int) =~= lv);
    }
    out
}

/// Resolves the token to authenticate with: the tool-specific variable wins,
/// then the two generic variables, then the external credential helper, and
/// none of them means anonymous, degraded access.
pub fn resolve_token(
    tool_var: Option<String>,
    gh_var: Option<String>,
    github_var: Option<String>,
    helper: Option<String>,
) -> (r: Option<String>)
    ensures
        r == (if tool_var is Some {
            tool_var
        } else if gh_var is Some {
            gh_var
        } else if github_var is Some {
            github_var
        } else {
            helper
        }),
{
    match tool_var {
        Option::Some(t) => Option::Some(t),
        Option::None => match gh_var {
            Option::Some(t) => Option::Some(t),
            Option::None => match github_var {
                Option::Some(t) => Option::Some(t),
                Option::None => helper,
            },
        },
    }
}

} // verus!
