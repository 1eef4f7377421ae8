//! Resolving the active shell dialect. The detection algorithm is a pure
//! function of what the ambient capabilities report: the login-shell
//! environment value and, failing that, the parent process's command name,
//! both read and handed in by the surrounding command layer.

use vstd::prelude::*;

use crate::error::AlxError;
use crate::lines::find_idx;
use crate::shell::ShellType;
use crate::text::chars_contains;
use crate::text::chars_to_string;
use crate::text::is_substring;
use crate::text::str_eq;
use crate::text::str_to_chars;
use crate::validator::is_white_char;
use crate::validator::white_char;

verus! {

/// The text after the last path separator; the whole text when there is
/// none.
pub open spec fn last_segment(p: Seq<char>) -> Seq<char>
    decreases p.len(),
{
    match find_idx(p, '/') {
        Some(i) => if 0 <= i < p.len() {
            last_segment(p.skip(i + 1))
        } else {
            // find_idx never yields an index out of range; this branch only
            // discharges the termination check.
            p
        },
        None => p,
    }
}

pub proof fn lemma_last_segment_at(p: Seq<char>, j: int)
    requires
        0 <= j < p.len(),
        p[j] == '/',
        forall|k: int| j < k < p.len() ==> #[trigger] p[k] != '/',
    ensures
        last_segment(p) == p.skip(j + 1),
    decreases p.len(),
{
    crate::lines::lemma_find_idx_props(p, '/');
    match find_idx(p, '/') {
        Some(i) => {
            assert(i <= j);
            let q = p.skip(i + 1);
            assert(forall|k: int| 0 <= k < q.len() ==> #[trigger] q[k] == p[i + 1 + k]);
            if i == j {
                crate::lines::lemma_find_idx_none(q, '/');
                assert(last_segment(q) == q);
            } else {
                lemma_last_segment_at(q, j - i - 1);
                assert(q.skip(j - i) =~= p.skip(j + 1));
            }
        },
        None => {
            assert(false);
        },
    }
}

pub proof fn lemma_last_segment_none(p: Seq<char>)
    requires
        forall|k: int| 0 <= k < p.len() ==> #[trigger] p[k] != '/',
    ensures
        last_segment(p) == p,
{
    crate::lines::lemma_find_idx_none(p, '/');
}

/// One past the position of the last `/`, or zero when there is none.
fn last_slash_cut(v: &Vec<char>) -> (cut: usize)
    ensures
        cut <= v@.len(),
        forall|k: int| cut <= k < v@.len() ==> #[trigger] v@[k] != '/',
        cut > 0 ==> v@[cut - 1] == '/',
{
    let mut j: usize = v.len();
    while j > 0
        invariant
            j <= v@.len(),
            forall|k: int| j <= k < v@.len() ==> #[trigger] v@[k] != '/',
        decreases j,
    {
        if v[j - 1] == '/' {
            return j;
        }
        j -= 1;
    }
    0
}

/// The characters after the last `/`.
pub fn last_segment_exec(v: &Vec<char>) -> (r: Vec<char>)
    ensures
        r@ == last_segment(v@),
{
    let cut = last_slash_cut(v);
    proof {
        if cut > 0 {
            lemma_last_segment_at(v@, cut - 1);
        } else {
            lemma_last_segment_none(v@);
        }
    }
    let mut r: Vec<char> = Vec::new();
    let mut m: usize = cut;
    while m < v.len()
        invariant
            cut <= m <= v@.len(),
            r@ == v@.subrange(cut as int, m as int),
        decreases v@.len() - m,
    {
        r.push(v[m]);
        proof {
            assert(v@.subrange(cut as int, m + 1) =~= v@.subrange(cut as int, m as int)
                + seq![v@[m as int]]);
        }
        m += 1;
    }
    proof {
        assert(r@ =~= v@.skip(cut as int));
    }
    r
}

/// Leading and trailing whitespace removed, under the full whitespace class.
pub open spec fn trim_start_white(s: Seq<char>) -> Seq<char>
    decreases s.len(),
{
    if s.len() > 0 && white_char(s[0]) {
        trim_start_white(s.drop_first())
    } else {
        s
    }
}

pub open spec fn trim_end_white(s: Seq<char>) -> Seq<char>
    decreases s.len(),
{
    if s.len() > 0 && white_char(s.last()) {
        trim_end_white(s.drop_last())
    } else {
        s
    }
}

pub open spec fn trim_white(s: Seq<char>) -> Seq<char> {
    trim_end_white(trim_start_white(s))
}

proof fn lemma_trim_start_white_skip(s: Seq<char>, a: int)
    requires
        0 <= a <= s.len(),
        forall|k: int| 0 <= k < a ==> white_char(#[trigger] s[k]),
        a == s.len() || !white_char(s[a]),
    ensures
        trim_start_white(s) == s.skip(a),
    decreases a,
{
    if a == 0 {
        assert(s.skip(0) =~= s);
    } else {
        lemma_trim_start_white_skip(s.drop_first(), a - 1);
        assert(s.drop_first().skip(a - 1) =~= s.skip(a));
    }
}

proof fn lemma_trim_end_white_take(s: Seq<char>, b: int)
    requires
        0 <= b <= s.len(),
        forall|k: int| b <= k < s.len() ==> white_char(#[trigger] s[k]),
        b == 0 || !white_char(s[b - 1]),
    ensures
        trim_end_white(s) == s.take(b),
    decreases s.len() - b,
{
    if b == s.len() {
        if s.len() > 0 && white_char(s.last()) {
            assert(!white_char(s[b - 1]));
            assert(false);
        }
        assert(s.take(b) =~= s);
    } else {
        lemma_trim_end_white_take(s.drop_last(), b);
        assert(s.drop_last().take(b) =~= s.take(b));
    }
}

/// The first position holding a non-whitespace character.
fn first_non_white(v: &Vec<char>) -> (a: usize)
    ensures
        a <= v@.len(),
        forall|k: int| 0 <= k < a ==> white_char(#[trigger] v@[k]),
        a == v@.len() || !white_char(v@[a as int]),
{
    let mut a: usize = 0;
    while a < v.len() && is_white_char(v[a])
        invariant
            a <= v@.len(),
            forall|k: int| 0 <= k < a ==> white_char(#[trigger] v@[k]),
        decreases v@.len() - a,
    {
        a += 1;
    }
    a
}

/// One past the last non-whitespace character at or after `a`.
fn last_non_white_before(v: &Vec<char>, a: usize) -> (b: usize)
    requires
        a <= v@.len(),
    ensures
        a <= b <= v@.len(),
        forall|k: int| b <= k < v@.len() ==> white_char(#[trigger] v@[k]),
        b == a || !white_char(v@[b - 1]),
{
    let mut b: usize = v.len();
    while b > a && is_white_char(v[b - 1])
        invariant
            a <= b <= v@.len(),
            forall|k: int| b <= k < v@.len() ==> white_char(#[trigger] v@[k]),
        decreases b,
    {
        b -= 1;
    }
    b
}

/// A copy of `v` with whitespace trimmed from both ends.
pub fn trim_white_exec(v: &Vec<char>) -> (r: Vec<char>)
    ensures
        r@ == trim_white(v@),
{
    let a = first_non_white(v);
    proof {
        lemma_trim_start_white_skip(v@, a as int);
    }
    let b = last_non_white_before(v, a);
    let mut r: Vec<char> = Vec::new();
    let mut m: usize = a;
    while m < b
        invariant
            a <= m <= b <= v@.len(),
            r@ == v@.subrange(a as int, m as int),
        decreases b - m,
    {
        r.push(v[m]);
        proof {
            assert(v@.subrange(a as int, m + 1) =~= v@.subrange(a as int, m as int)
                + seq![v@[m as int]]);
        }
        m += 1;
    }
    proof {
        let s = v@.skip(a as int);
        assert(forall|k: int| 0 <= k < s.len() ==> #[trigger] s[k] == v@[a + k]);
        if b == a {
            lemma_trim_end_white_take(s, 0);
        } else {
            assert(!white_char(s[b - a - 1]));
            lemma_trim_end_white_take(s, b - a);
        }
        assert(s.take(b - a) =~= v@.subrange(a as int, b as int));
        assert(r@ =~= trim_white(v@));
    }
    r
}

/// Which dialect a candidate name denotes, if any.
pub open spec fn shell_of_name(n: Seq<char>) -> Option<ShellType> {
    if n == "bash"@ {
        Some(ShellType::Bash)
    } else if n == "zsh"@ {
        Some(ShellType::Zsh)
    } else if n == "fish"@ {
        Some(ShellType::Fish)
    } else {
        None
    }
}

pub struct ShellDetector;

impl ShellDetector {
    /// Resolve a candidate shell name, accepting only the three supported
    /// identifiers and naming any other value in the error.
    pub fn parse_shell_name(name: &str) -> (r: Result<ShellType, AlxError>)
        ensures
            match r {
                Ok(s) => shell_of_name(name@) == Some(s),
                Err(AlxError::UnsupportedShell(m)) => shell_of_name(name@) is None && m@
                    == name@,
                Err(_) => false,
            },
    {
        if str_eq(name, "bash") {
            Ok(ShellType::Bash)
        } else if str_eq(name, "zsh") {
            Ok(ShellType::Zsh)
        } else if str_eq(name, "fish") {
            Ok(ShellType::Fish)
        } else {
            Err(AlxError::UnsupportedShell(String::from_str(name)))
        }
    }

    /// Whether a candidate name is one of the supported identifiers.
    pub fn is_supported(shell: &str) -> (r: bool)
        ensures
            r == (shell_of_name(shell@) is Some),
    {
        str_eq(shell, "bash") || str_eq(shell, "zsh") || str_eq(shell, "fish")
    }

    /// Resolve the active dialect from what the environment reports: the
    /// login-shell path wins outright when present — its last segment must
    /// name a supported shell — and only in its absence is the parent
    /// process's command name consulted. Whenever a signal names a shell
    /// outside the supported set the error carries that name; detection
    /// fails anonymously only with no signal at all — no variable and no
    /// non-blank parent name.
    pub fn detect(shell_var: Option<&str>, parent_process: Option<&str>) -> (r: Result<
        ShellType,
        AlxError,
    >)
        ensures
            match shell_var {
                Some(p) => {
                    let nm = last_segment(p@);
                    match r {
                        Ok(s) => shell_of_name(nm) == Some(s),
                        Err(AlxError::UnsupportedShell(m)) => shell_of_name(nm) is None && m@
                            == nm,
                        Err(_) => false,
                    }
                },
                None => match parent_process {
                    Some(out) => {
                        let t = trim_white(out@);
                        match r {
                            Ok(s) => shell_of_name(t) == Some(s),
                            Err(AlxError::UnsupportedShell(m)) => t.len() > 0 && shell_of_name(t)
                                is None && m@ == t,
                            Err(AlxError::ShellDetectionFailed) => t.len() == 0,
                            Err(_) => false,
                        }
                    },
                    None => r matches Err(AlxError::ShellDetectionFailed),
                },
            },
    {
        match shell_var {
            Some(p) => {
                let pv = str_to_chars(p);
                let seg = last_segment_exec(&pv);
                let name = chars_to_string(&seg);
                Self::parse_shell_name(name.as_str())
            },
            None => match parent_process {
                Some(out) => {
                    let ov = str_to_chars(out);
                    let tv = trim_white_exec(&ov);
                    if tv.len() == 0 {
                        return Err(AlxError::ShellDetectionFailed);
                    }
                    let t = chars_to_string(&tv);
                    Self::parse_shell_name(t.as_str())
                },
                None => Err(AlxError::ShellDetectionFailed),
            },
        }
    }

    /// Guess the dialect a config file belongs to from its path: the file
    /// name decides, checked for "bash", then "zsh", then "fish" — the fish
    /// check also accepts the substring anywhere in the path, since fish
    /// keeps its file under a `fish` directory. An unrecognized path is a
    /// configuration error naming the path. The file name is the text after
    /// the last separator, so a path ending in `/` has an empty name and is
    /// recognized only through the whole-path fish check; migration sources
    /// are files, which always carry a name.
    pub fn detect_from_path(path: &str) -> (r: Result<ShellType, AlxError>)
        ensures
            ({
                let fname = last_segment(path@);
                match r {
                    Ok(ShellType::Bash) => is_substring("bash"@, fname),
                    Ok(ShellType::Zsh) => !is_substring("bash"@, fname) && is_substring(
                        "zsh"@,
                        fname,
                    ),
                    Ok(ShellType::Fish) => !is_substring("bash"@, fname) && !is_substring(
                        "zsh"@,
                        fname,
                    ) && (is_substring("fish"@, fname) || is_substring("fish"@, path@)),
                    Err(AlxError::ConfigError(m)) => !is_substring("bash"@, fname)
                        && !is_substring("zsh"@, fname) && !is_substring("fish"@, fname)
                        && !is_substring("fish"@, path@) && m@
                        == "Could not detect shell type from file path: "@ + path@,
                    Err(_) => false,
                }
            }),
    {
        let pv = str_to_chars(path);
        let fname = last_segment_exec(&pv);
        if chars_contains(&fname, &str_to_chars("bash")) {
            return Ok(ShellType::Bash);
        }
        if chars_contains(&fname, &str_to_chars("zsh")) {
            return Ok(ShellType::Zsh);
        }
        if chars_contains(&fname, &str_to_chars("fish")) || chars_contains(
            &pv,
            &str_to_chars("fish"),
        ) {
            return Ok(ShellType::Fish);
        }
        let mut m = String::from_str("Could not detect shell type from file path: ");
        m.append(path);
        Err(AlxError::ConfigError(m))
    }
}

} // verus!
