//! The single place where quoting lives: the POSIX single-quote escaping used
//! when rendering a command, and the tolerant reverse transforms (single
//! quoted, double quoted, unquoted) used when parsing one back. Rendering and
//! parsing share these definitions so that the two stay provably inverse.

use vstd::prelude::*;

use crate::lines::ws_only;
use crate::lines::ws_only_from;

verus! {

/// What one command character contributes to a single-quoted rendering: a
/// quote closes the string, inserts an escaped literal quote, and reopens it.
pub open spec fn esc_unit(c: char) -> Seq<char> {
    if c == '\'' {
        seq!['\'', '\\', '\'', '\'']
    } else {
        seq![c]
    }
}

/// POSIX single-quote escaping of a whole command.
pub open spec fn esc_sq(s: Seq<char>) -> Seq<char>
    decreases s.len(),
{
    if s.len() == 0 {
        Seq::empty()
    } else {
        esc_unit(s[0]) + esc_sq(s.drop_first())
    }
}

/// Reverse of the single-quote transform. `s` is the text after the opening
/// quote. The command is recovered when the quoting is well formed and only
/// horizontal whitespace follows the closing quote; otherwise the value is
/// malformed and the line will be skipped.
pub open spec fn unesc_sq(s: Seq<char>) -> Option<Seq<char>>
    decreases s.len(),
{
    if s.len() == 0 {
        None
    } else if s[0] == '\'' {
        if s.len() >= 4 && s[1] == '\\' && s[2] == '\'' && s[3] == '\'' {
            match unesc_sq(s.skip(4)) {
                Some(t) => Some(seq!['\''] + t),
                None => None,
            }
        } else if ws_only(s.skip(1)) {
            Some(Seq::empty())
        } else {
            None
        }
    } else {
        match unesc_sq(s.drop_first()) {
            Some(t) => Some(seq![s[0]] + t),
            None => None,
        }
    }
}

/// Reverse of double-quote escaping: `\"` and `\\` are unescaped, everything
/// else is literal, and only horizontal whitespace may follow the closing
/// quote. `s` is the text after the opening quote.
pub open spec fn unesc_dq(s: Seq<char>) -> Option<Seq<char>>
    decreases s.len(),
{
    if s.len() == 0 {
        None
    } else if s[0] == '"' {
        if ws_only(s.skip(1)) {
            Some(Seq::empty())
        } else {
            None
        }
    } else if s[0] == '\\' && s.len() >= 2 && (s[1] == '"' || s[1] == '\\') {
        match unesc_dq(s.skip(2)) {
            Some(t) => Some(seq![s[1]] + t),
            None => None,
        }
    } else {
        match unesc_dq(s.drop_first()) {
            Some(t) => Some(seq![s[0]] + t),
            None => None,
        }
    }
}

/// The command recovered from the value part of a declaration: a single- or
/// double-quoted string, or, failing either opening quote, the remainder of
/// the line taken verbatim.
pub open spec fn parse_value(s: Seq<char>) -> Option<Seq<char>> {
    if s.len() == 0 {
        None
    } else if s[0] == '\'' {
        unesc_sq(s.drop_first())
    } else if s[0] == '"' {
        unesc_dq(s.drop_first())
    } else {
        Some(s)
    }
}

/// `esc_sq` distributes over concatenation.
pub proof fn lemma_esc_sq_append(a: Seq<char>, b: Seq<char>)
    ensures
        esc_sq(a + b) == esc_sq(a) + esc_sq(b),
    decreases a.len(),
{
    if a.len() == 0 {
        assert(a + b =~= b);
        assert(esc_sq(a) + esc_sq(b) =~= esc_sq(b));
    } else {
        lemma_esc_sq_append(a.drop_first(), b);
        assert((a + b).drop_first() =~= a.drop_first() + b);
        assert(esc_sq(a + b) =~= esc_sq(a) + esc_sq(b));
    }
}

/// Escaping one character gives its unit.
pub proof fn lemma_esc_sq_single(c: char)
    ensures
        esc_sq(seq![c]) == esc_unit(c),
{
    reveal_with_fuel(esc_sq, 2);
    assert(seq![c].drop_first() =~= Seq::<char>::empty());
    assert(esc_sq(seq![c]) =~= esc_unit(c) + esc_sq(Seq::<char>::empty()));
    assert(esc_unit(c) + Seq::<char>::empty() =~= esc_unit(c));
}

/// Unescaping undoes escaping: the single place where quoting could go wrong,
/// proved inverse once and for all.
pub proof fn lemma_unesc_esc(cmd: Seq<char>)
    ensures
        unesc_sq(esc_sq(cmd) + seq!['\'']) == Some(cmd),
    decreases cmd.len(),
{
    let s = esc_sq(cmd) + seq!['\''];
    if cmd.len() == 0 {
        assert(s =~= seq!['\'']);
        assert(s.skip(1) =~= Seq::<char>::empty());
        assert(unesc_sq(s) == Some(Seq::<char>::empty()));
    } else {
        let rest = cmd.drop_first();
        lemma_unesc_esc(rest);
        if cmd[0] == '\'' {
            assert(s =~= seq!['\'', '\\', '\'', '\''] + (esc_sq(rest) + seq!['\'']));
            assert(s.skip(4) =~= esc_sq(rest) + seq!['\'']);
            assert(s[0] == '\'' && s[1] == '\\' && s[2] == '\'' && s[3] == '\'');
            assert(seq!['\''] + rest =~= cmd);
        } else {
            assert(s =~= seq![cmd[0]] + (esc_sq(rest) + seq!['\'']));
            assert(s.drop_first() =~= esc_sq(rest) + seq!['\'']);
            assert(s[0] == cmd[0]);
            assert(seq![s[0]] + rest =~= cmd);
        }
    }
}

/// Escaping introduces only quotes and backslashes, so a command without a
/// newline escapes to a value without one.
pub proof fn lemma_esc_sq_no_newline(cmd: Seq<char>)
    requires
        crate::lines::no_newline(cmd),
    ensures
        crate::lines::no_newline(esc_sq(cmd)),
    decreases cmd.len(),
{
    if cmd.len() > 0 {
        lemma_esc_sq_no_newline(cmd.drop_first());
        assert(forall|i: int|
            0 <= i < esc_sq(cmd).len() ==> #[trigger] esc_sq(cmd)[i] == (esc_unit(cmd[0])
                + esc_sq(cmd.drop_first()))[i]);
    }
}

/// Single-quote escape a command, character by character.
pub fn escape_single(cmd: &Vec<char>) -> (r: Vec<char>)
    ensures
        r@ == esc_sq(cmd@),
{
    let mut out: Vec<char> = Vec::new();
    let mut i: usize = 0;
    while i < cmd.len()
        invariant
            i <= cmd@.len(),
            out@ == esc_sq(cmd@.subrange(0, i as int)),
        decreases cmd@.len() - i,
    {
        let c = cmd[i];
        if c == '\'' {
            out.push('\'');
            out.push('\\');
            out.push('\'');
            out.push('\'');
        } else {
            out.push(c);
        }
        proof {
            let pre = cmd@.subrange(0, i as int);
            assert(cmd@.subrange(0, i + 1) =~= pre + seq![cmd@[i as int]]);
            lemma_esc_sq_append(pre, seq![cmd@[i as int]]);
            lemma_esc_sq_single(cmd@[i as int]);
            assert(out@ =~= esc_sq(pre) + esc_unit(cmd@[i as int]));
        }
        i += 1;
    }
    proof {
        assert(cmd@.subrange(0, cmd@.len() as int) =~= cmd@);
    }
    out
}

/// Reverse the single-quote transform on the suffix of `v` starting at `i`
/// (the text after an opening quote).
pub fn unescape_single(v: &Vec<char>, i: usize) -> (r: Option<Vec<char>>)
    requires
        i <= v@.len(),
    ensures
        match r {
            Some(out) => unesc_sq(v@.skip(i as int)) == Some(out@),
            None => unesc_sq(v@.skip(i as int)) is None,
        },
    decreases v@.len() - i,
{
    let n = v.len();
    proof {
        assert(v@.skip(i as int).len() == n - i);
    }
    if i == n {
        return None;
    }
    let ghost s = v@.skip(i as int);
    proof {
        assert(forall|k: int| 0 <= k < s.len() ==> #[trigger] s[k] == v@[i + k]);
    }
    let c = v[i];
    if c == '\'' {
        if n - i >= 4 && v[i + 1] == '\\' && v[i + 2] == '\'' && v[i + 3] == '\'' {
            proof {
                assert(s.skip(4) =~= v@.skip(i + 4));
            }
            match unescape_single(v, i + 4) {
                Some(mut t) => {
                    t.insert(0, '\'');
                    proof {
                        assert(t@ =~= seq!['\''] + t@.skip(1));
                    }
                    Some(t)
                },
                None => None,
            }
        } else {
            if ws_only_from(v, i + 1) {
                proof {
                    assert(s.skip(1) =~= v@.skip(i + 1));
                    assert(unesc_sq(s) == Some(Seq::<char>::empty()));
                }
                Some(Vec::new())
            } else {
                proof {
                    assert(s.skip(1) =~= v@.skip(i + 1));
                    assert(!(s.len() >= 4 && s[1] == '\\' && s[2] == '\'' && s[3] == '\''))
                        by {
                        if s.len() >= 4 {
                            assert(s[1] == v@[i + 1]);
                            assert(s[2] == v@[i + 2]);
                            assert(s[3] == v@[i + 3]);
                        }
                    }
                }
                None
            }
        }
    } else {
        proof {
            assert(s.drop_first() =~= v@.skip(i + 1));
        }
        match unescape_single(v, i + 1) {
            Some(mut t) => {
                t.insert(0, c);
                proof {
                    assert(t@ =~= seq![s[0]] + t@.skip(1));
                }
                Some(t)
            },
            None => None,
        }
    }
}

/// Reverse double-quote escaping on the suffix of `v` starting at `i`.
pub fn unescape_double(v: &Vec<char>, i: usize) -> (r: Option<Vec<char>>)
    requires
        i <= v@.len(),
    ensures
        match r {
            Some(out) => unesc_dq(v@.skip(i as int)) == Some(out@),
            None => unesc_dq(v@.skip(i as int)) is None,
        },
    decreases v@.len() - i,
{
    let n = v.len();
    proof {
        assert(v@.skip(i as int).len() == n - i);
    }
    if i == n {
        return None;
    }
    let ghost s = v@.skip(i as int);
    proof {
        assert(forall|k: int| 0 <= k < s.len() ==> #[trigger] s[k] == v@[i + k]);
    }
    let c = v[i];
    if c == '"' {
        if ws_only_from(v, i + 1) {
            proof {
                assert(s.skip(1) =~= v@.skip(i + 1));
                assert(unesc_dq(s) == Some(Seq::<char>::empty()));
            }
            Some(Vec::new())
        } else {
            proof {
                assert(s.skip(1) =~= v@.skip(i + 1));
            }
            None
        }
    } else if c == '\\' && n - i >= 2 && (v[i + 1] == '"' || v[i + 1] == '\\') {
        proof {
            assert(s.skip(2) =~= v@.skip(i + 2));
            assert(s[1] == v@[i + 1]);
        }
        let e = v[i + 1];
        match unescape_double(v, i + 2) {
            Some(mut t) => {
                t.insert(0, e);
                proof {
                    assert(t@ =~= seq![s[1]] + t@.skip(1));
                }
                Some(t)
            },
            None => None,
        }
    } else {
        proof {
            assert(s.drop_first() =~= v@.skip(i + 1));
            if s.len() >= 2 {
                assert(s[1] == v@[i + 1]);
            }
        }
        match unescape_double(v, i + 1) {
            Some(mut t) => {
                t.insert(0, c);
                proof {
                    assert(t@ =~= seq![s[0]] + t@.skip(1));
                }
                Some(t)
            },
            None => None,
        }
    }
}

/// Parse the value part of a declaration from position `i` on.
pub fn parse_value_from(v: &Vec<char>, i: usize) -> (r: Option<Vec<char>>)
    requires
        i <= v@.len(),
    ensures
        match r {
            Some(out) => parse_value(v@.skip(i as int)) == Some(out@),
            None => parse_value(v@.skip(i as int)) is None,
        },
{
    let n = v.len();
    proof {
        assert(v@.skip(i as int).len() == n - i);
        assert(forall|k: int|
            0 <= k < v@.skip(i as int).len() ==> #[trigger] v@.skip(i as int)[k] == v@[i + k]);
    }
    if i == n {
        return None;
    }
    let c = v[i];
    if c == '\'' {
        proof {
            assert(v@.skip(i as int).drop_first() =~= v@.skip(i + 1));
        }
        unescape_single(v, i + 1)
    } else if c == '"' {
        proof {
            assert(v@.skip(i as int).drop_first() =~= v@.skip(i + 1));
        }
        unescape_double(v, i + 1)
    } else {
        let mut out: Vec<char> = Vec::new();
        let mut j: usize = i;
        while j < n
            invariant
                i <= j <= n,
                n == v@.len(),
                out@ == v@.subrange(i as int, j as int),
            decreases n - j,
        {
            out.push(v[j]);
            proof {
                assert(v@.subrange(i as int, j + 1) =~= v@.subrange(i as int, j as int)
                    + seq![v@[j as int]]);
            }
            j += 1;
        }
        proof {
            assert(out@ =~= v@.skip(i as int));
        }
        Some(out)
    }
}

} // verus!
