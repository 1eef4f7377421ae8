//! The Bash/Zsh dialect: both share the `alias NAME='COMMAND'` idiom, so one
//! renderer and one parser serve the two. The parser is a tolerant superset
//! of the renderer: it also recognizes double-quoted and unquoted values in
//! hand-written files, and skips anything else.

use vstd::prelude::*;

use crate::escape::esc_sq;
use crate::escape::lemma_unesc_esc;
use crate::escape::parse_value;
use crate::escape::parse_value_from;
use crate::lines::find_char_from;
use crate::lines::find_idx;
use crate::lines::is_hws;
use crate::lines::lemma_find_idx_at;
use crate::lines::skip_hws_from;
use crate::lines::starts_with;
use crate::lines::starts_with_at;
use crate::lines::trim_start_hws;
use crate::text::chars_to_string;
use crate::text::lines_view;
use crate::text::pairs_view;
use crate::text::str_to_chars;
use crate::validator::ident_char;
use crate::validator::is_ident_char;

verus! {

/// A name as a declaration may carry it: non-empty, every character from the
/// identifier set.
pub open spec fn decl_name_ok(s: Seq<char>) -> bool {
    s.len() > 0 && forall|i: int| 0 <= i < s.len() ==> ident_char(#[trigger] s[i])
}

/// One rendered Bash/Zsh declaration: the command wrapped in single quotes
/// with embedded quotes escaped.
pub open spec fn render_line_posix(name: Seq<char>, cmd: Seq<char>) -> Seq<char> {
    "alias "@ + name + "='"@ + esc_sq(cmd) + "'"@
}

/// What one line yields under the Bash/Zsh idiom: after leading whitespace,
/// the token `alias `, an identifier, `=`, and a single-quoted, double-quoted
/// or unquoted value; anything else, including an empty command, yields
/// nothing.
pub open spec fn parse_line_posix(line: Seq<char>) -> Option<(Seq<char>, Seq<char>)> {
    let t = trim_start_hws(line);
    if !starts_with(t, "alias "@) {
        None
    } else {
        let rest = t.skip(6);
        match find_idx(rest, '=') {
            None => None,
            Some(e) => {
                let name = rest.subrange(0, e);
                let value = rest.skip(e + 1);
                if !decl_name_ok(name) {
                    None
                } else {
                    match parse_value(value) {
                        Some(cmd) => if cmd.len() > 0 {
                            Some((name, cmd))
                        } else {
                            None
                        },
                        None => None,
                    }
                }
            },
        }
    }
}

/// The pairs recovered from a sequence of lines, in file order.
pub open spec fn parse_lines_posix(ls: Seq<Seq<char>>) -> Seq<(Seq<char>, Seq<char>)>
    decreases ls.len(),
{
    if ls.len() == 0 {
        Seq::empty()
    } else {
        let rest = parse_lines_posix(ls.drop_first());
        match parse_line_posix(ls.first()) {
            Some(p) => seq![p] + rest,
            None => rest,
        }
    }
}

/// Render one Bash/Zsh declaration line.
pub fn render_line_posix_exec(name: &str, cmd: &str) -> (r: String)
    ensures
        r@ == render_line_posix(name@, cmd@),
{
    let mut s = String::from_str("alias ");
    s.append(name);
    s.append("='");
    let cv = str_to_chars(cmd);
    let ev = crate::escape::escape_single(&cv);
    let es = chars_to_string(&ev);
    s.append(es.as_str());
    s.append("'");
    proof {
        assert(s@ =~= render_line_posix(name@, cmd@));
    }
    s
}

/// Copy the identifier between `from` and `to` out of `line`, or report that
/// the span is not a well-formed declaration name.
pub(crate) fn scan_ident_range(line: &Vec<char>, from: usize, to: usize) -> (r: Option<Vec<char>>)
    requires
        from <= to <= line@.len(),
    ensures
        match r {
            Some(nc) => nc@ == line@.subrange(from as int, to as int) && decl_name_ok(
                line@.subrange(from as int, to as int),
            ),
            None => !decl_name_ok(line@.subrange(from as int, to as int)),
        },
{
    let ghost name_seq = line@.subrange(from as int, to as int);
    if from == to {
        return None;
    }
    let mut k: usize = from;
    let mut name_chars: Vec<char> = Vec::new();
    while k < to
        invariant
            from <= k <= to <= line@.len(),
            name_chars@ == line@.subrange(from as int, k as int),
            forall|j: int| from <= j < k ==> ident_char(#[trigger] line@[j]),
        decreases to - k,
    {
        let c = line[k];
        if !is_ident_char(c) {
            proof {
                let ki = k as int;
                assert(line@.subrange(from as int, to as int)[k - from] == line@[ki]);
            }
            return None;
        }
        name_chars.push(c);
        proof {
            assert(line@.subrange(from as int, k + 1) =~= line@.subrange(from as int, k as int)
                + seq![line@[k as int]]);
        }
        k += 1;
    }
    proof {
        assert(name_chars@ =~= name_seq);
        assert(forall|j: int| 0 <= j < name_seq.len() ==> ident_char(#[trigger] name_seq[j]));
    }
    Some(name_chars)
}

/// Parse one line under the Bash/Zsh idiom.
pub fn parse_line_posix_exec(line: &Vec<char>) -> (r: Option<(String, String)>)
    ensures
        match r {
            Some(p) => parse_line_posix(line@) == Some((p.0@, p.1@)),
            None => parse_line_posix(line@) is None,
        },
{
    let a = skip_hws_from(line, 0);
    proof {
        assert(line@.skip(0) =~= line@);
    }
    let ghost t = trim_start_hws(line@);
    let pref = str_to_chars("alias ");
    if !starts_with_at(line, a, &pref) {
        return None;
    }
    proof {
        reveal_strlit("alias ");
    }
    let n = line.len();
    assert(a + pref.len() <= n);
    let rest_start = a + pref.len();
    let ghost rest = t.skip(6);
    proof {
        assert(rest =~= line@.skip(rest_start as int));
    }
    let e_abs = match find_char_from(line, rest_start, '=') {
        None => {
            return None;
        },
        Some(e) => e,
    };
    proof {
        assert(find_idx(rest, '=') == Some(e_abs - rest_start));
    }
    let ghost name_seq = rest.subrange(0, e_abs - rest_start);
    proof {
        assert(name_seq =~= line@.subrange(rest_start as int, e_abs as int));
    }
    let name_chars = match scan_ident_range(line, rest_start, e_abs) {
        None => {
            return None;
        },
        Some(nc) => nc,
    };
    assert(e_abs < n);
    let ghost value = rest.skip(e_abs - rest_start + 1);
    proof {
        assert(value =~= line@.skip(e_abs + 1));
    }
    match parse_value_from(line, e_abs + 1) {
        None => None,
        Some(cmdv) => {
            if cmdv.len() == 0 {
                None
            } else {
                let name = chars_to_string(&name_chars);
                let cmd = chars_to_string(&cmdv);
                Some((name, cmd))
            }
        },
    }
}

/// Parse a whole file's lines under the Bash/Zsh idiom, collecting the
/// recovered pairs in file order.
pub fn parse_lines_posix_exec(lines: &Vec<Vec<char>>) -> (r: Vec<(String, String)>)
    ensures
        pairs_view(r@) == parse_lines_posix(lines_view(lines@)),
{
    let ghost all = lines_view(lines@);
    let mut r: Vec<(String, String)> = Vec::new();
    let mut i: usize = 0;
    proof {
        assert(all.skip(0) =~= all);
        assert(pairs_view(Seq::empty()) + parse_lines_posix(all) =~= parse_lines_posix(all));
    }
    while i < lines.len()
        invariant
            i <= lines@.len(),
            all == lines_view(lines@),
            pairs_view(r@) + parse_lines_posix(all.skip(i as int)) == parse_lines_posix(all),
        decreases lines@.len() - i,
    {
        let ghost suf = all.skip(i as int);
        proof {
            assert(suf.len() > 0);
            assert(suf.first() == all[i as int]);
            assert(all[i as int] == lines@[i as int]@);
            assert(suf.drop_first() =~= all.skip(i + 1));
        }
        let ghost old_r = r@;
        match parse_line_posix_exec(&lines[i]) {
            Some(p) => {
                r.push(p);
                proof {
                    assert(pairs_view(r@) =~= pairs_view(old_r) + seq![(r@[r@.len() - 1].0@, r@[
                        r@.len() - 1].1@)]);
                    assert(pairs_view(r@) + parse_lines_posix(all.skip(i + 1)) =~= parse_lines_posix(
                        all,
                    ));
                }
            },
            None => {
                proof {
                    assert(pairs_view(r@) + parse_lines_posix(all.skip(i + 1)) =~= parse_lines_posix(
                        all,
                    ));
                }
            },
        }
        i += 1;
    }
    proof {
        assert(all.skip(all.len() as int) =~= Seq::<Seq<char>>::empty());
        assert(pairs_view(r@) =~= parse_lines_posix(all));
    }
    r
}

/// Noise tolerance as a law for the Bash/Zsh idiom: a line that does not
/// open with the alias keyword after leading whitespace — a comment, a blank
/// line, an unrelated statement — yields nothing, so such a line anywhere in
/// a file leaves the recovered pairs exactly as they were without it.
pub proof fn lemma_posix_noise_inert(pre: Seq<Seq<char>>, l: Seq<char>, post: Seq<Seq<char>>)
    requires
        !starts_with(trim_start_hws(l), "alias "@),
    ensures
        parse_lines_posix(pre + seq![l] + post) == parse_lines_posix(pre + post),
    decreases pre.len(),
{
    assert(parse_line_posix(l) is None);
    if pre.len() == 0 {
        assert(pre + seq![l] + post =~= seq![l] + post);
        assert(pre + post =~= post);
        let ls = seq![l] + post;
        assert(ls.first() == l);
        assert(ls.drop_first() =~= post);
    } else {
        lemma_posix_noise_inert(pre.drop_first(), l, post);
        let ls = pre + seq![l] + post;
        let ms = pre + post;
        assert(ls.first() == pre.first());
        assert(ms.first() == pre.first());
        assert(ls.drop_first() =~= pre.drop_first() + seq![l] + post);
        assert(ms.drop_first() =~= pre.drop_first() + post);
    }
}

/// Parsing a rendered Bash/Zsh line recovers exactly the pair it was rendered
/// from.
pub proof fn lemma_parse_render_line_posix(name: Seq<char>, cmd: Seq<char>)
    requires
        decl_name_ok(name),
        cmd.len() > 0,
    ensures
        parse_line_posix(render_line_posix(name, cmd)) == Some((name, cmd)),
{
    reveal_strlit("alias ");
    reveal_strlit("='");
    reveal_strlit("'");
    let line = render_line_posix(name, cmd);
    let value = seq!['\''] + esc_sq(cmd) + seq!['\''];
    assert(line[0] == 'a');
    assert(!is_hws('a'));
    assert(trim_start_hws(line) == line);
    assert(line.subrange(0, 6) =~= "alias "@);
    assert(starts_with(line, "alias "@));
    let rest = line.skip(6);
    assert(rest =~= name + seq!['='] + value);
    assert forall|k: int| 0 <= k < name.len() implies #[trigger] rest[k] != '=' by {
        assert(rest[k] == name[k]);
        assert(ident_char(name[k]));
    }
    assert(rest[name.len() as int] == '=');
    lemma_find_idx_at(rest, '=', name.len() as int);
    assert(rest.subrange(0, name.len() as int) =~= name);
    let v = rest.skip(name.len() as int + 1);
    assert(v =~= value);
    assert(v[0] == '\'');
    assert(v.drop_first() =~= esc_sq(cmd) + seq!['\'']);
    lemma_unesc_esc(cmd);
    assert(parse_value(v) == Some(cmd));
}

} // verus!
