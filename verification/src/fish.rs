//! The Fish dialect. Declarations are rendered as `alias NAME 'COMMAND'`
//! with the shared single-quote escaping; parsing also recognizes the
//! historical function form, a `function NAME` ... `end` block that wraps a
//! single simple command. A block holding control flow or several statements
//! is not an alias and is skipped.

use vstd::prelude::*;

use crate::escape::esc_sq;
use crate::escape::lemma_unesc_esc;
use crate::escape::parse_value;
use crate::escape::parse_value_from;
use crate::lines::find_char_from;
use crate::lines::find_idx;
use crate::lines::is_hws;
use crate::lines::skip_hws_from;
use crate::lines::starts_with;
use crate::lines::starts_with_at;
use crate::lines::trim_hws;
use crate::lines::trim_hws_exec;
use crate::lines::trim_start_hws;
use crate::posix::decl_name_ok;
use crate::posix::scan_ident_range;
use crate::text::chars_eq;
use crate::text::chars_to_string;
use crate::text::lines_view;
use crate::text::pairs_view;
use crate::text::str_to_chars;
use crate::validator::ident_char;

verus! {

/// One rendered Fish declaration.
pub open spec fn render_line_fish(name: Seq<char>, cmd: Seq<char>) -> Seq<char> {
    "alias "@ + name + " '"@ + esc_sq(cmd) + "'"@
}

/// What one line yields under the Fish alias idiom: after leading whitespace,
/// `alias `, an identifier, a space, and a quoted or unquoted value.
pub open spec fn parse_alias_line_fish(line: Seq<char>) -> Option<(Seq<char>, Seq<char>)> {
    let t = trim_start_hws(line);
    if !starts_with(t, "alias "@) {
        None
    } else {
        let rest = t.skip(6);
        match find_idx(rest, ' ') {
            None => None,
            Some(e) => {
                let name = rest.subrange(0, e);
                let value = trim_start_hws(rest.skip(e + 1));
                if !decl_name_ok(name) {
                    None
                } else {
                    match parse_value(value) {
                        Some(cmd) => if cmd.len() > 0 {
                            Some((name, cmd))
                        } else {
                            None
                        },
                        None => None,
                    }
                }
            },
        }
    }
}

/// The name a fully trimmed line introduces when it opens a function block.
pub open spec fn function_header_name(t: Seq<char>) -> Option<Seq<char>> {
    if starts_with(t, "function "@) && decl_name_ok(t.skip(9)) {
        Some(t.skip(9))
    } else {
        None
    }
}

/// A line closing a function block.
pub open spec fn is_end_line(l: Seq<char>) -> bool {
    trim_hws(l) == "end"@
}

/// The first block-closing line at or after position `i`.
pub open spec fn find_end(ls: Seq<Seq<char>>, i: int) -> Option<int>
    decreases ls.len() - i,
{
    if i < 0 || i >= ls.len() {
        None
    } else if is_end_line(ls[i]) {
        Some(i)
    } else {
        find_end(ls, i + 1)
    }
}

/// The trimmed, non-blank lines of a block body.
pub open spec fn body_lines(ls: Seq<Seq<char>>) -> Seq<Seq<char>>
    decreases ls.len(),
{
    if ls.len() == 0 {
        Seq::empty()
    } else {
        let t = trim_hws(ls.first());
        let rest = body_lines(ls.drop_first());
        if t.len() > 0 {
            seq![t] + rest
        } else {
            rest
        }
    }
}

/// The word a command line opens with.
pub open spec fn first_word(b: Seq<char>) -> Seq<char> {
    match find_idx(b, ' ') {
        Some(k) => b.subrange(0, k),
        None => b,
    }
}

/// A word that opens Fish control flow rather than a command.
pub open spec fn control_word(w: Seq<char>) -> bool {
    ||| w == "if"@
    ||| w == "else"@
    ||| w == "for"@
    ||| w == "while"@
    ||| w == "switch"@
    ||| w == "begin"@
    ||| w == "function"@
    ||| w == "end"@
    ||| w == "and"@
    ||| w == "or"@
    ||| w == "return"@
}

/// A single statement that can stand as an alias body: no semicolon, and not
/// opened by a control word.
pub open spec fn simple_command(b: Seq<char>) -> bool {
    find_idx(b, ';') is None && !control_word(first_word(b))
}

/// The pair a function block yields: only a body of exactly one simple
/// command line is an alias in disguise.
pub open spec fn block_pair(name: Seq<char>, body: Seq<Seq<char>>) -> Option<(Seq<char>, Seq<char>)> {
    let bs = body_lines(body);
    if bs.len() == 1 && simple_command(bs[0]) {
        Some((name, bs[0]))
    } else {
        None
    }
}

/// The pairs recovered from a sequence of Fish config lines, in file order:
/// alias lines and single-command function blocks; a block that never closes
/// swallows the rest of the file.
pub open spec fn parse_lines_fish(ls: Seq<Seq<char>>) -> Seq<(Seq<char>, Seq<char>)>
    decreases ls.len(),
{
    if ls.len() == 0 {
        Seq::empty()
    } else {
        match function_header_name(trim_hws(ls.first())) {
            Some(fname) => match find_end(ls, 1) {
                None => Seq::empty(),
                Some(j) => if 1 <= j < ls.len() {
                    let rest = parse_lines_fish(ls.skip(j + 1));
                    match block_pair(fname, ls.subrange(1, j)) {
                        Some(p) => seq![p] + rest,
                        None => rest,
                    }
                } else {
                    // find_end never yields an index out of range; this branch
                    // only discharges the termination check.
                    Seq::empty()
                },
            },
            None => {
                let rest = parse_lines_fish(ls.drop_first());
                match parse_alias_line_fish(ls.first()) {
                    Some(p) => seq![p] + rest,
                    None => rest,
                }
            },
        }
    }
}

pub proof fn lemma_find_end_at(ls: Seq<Seq<char>>, i: int, j: int)
    requires
        0 <= i <= j < ls.len(),
        is_end_line(ls[j]),
        forall|k: int| i <= k < j ==> !is_end_line(#[trigger] ls[k]),
    ensures
        find_end(ls, i) == Some(j),
    decreases j - i,
{
    if i < j {
        lemma_find_end_at(ls, i + 1, j);
    }
}

pub proof fn lemma_find_end_none(ls: Seq<Seq<char>>, i: int)
    requires
        0 <= i,
        forall|k: int| i <= k < ls.len() ==> !is_end_line(#[trigger] ls[k]),
    ensures
        find_end(ls, i) is None,
    decreases ls.len() - i,
{
    if i < ls.len() {
        lemma_find_end_none(ls, i + 1);
    }
}

/// Render one Fish declaration line.
pub fn render_line_fish_exec(name: &str, cmd: &str) -> (r: String)
    ensures
        r@ == render_line_fish(name@, cmd@),
{
    let mut s = String::from_str("alias ");
    s.append(name);
    s.append(" '");
    let cv = str_to_chars(cmd);
    let ev = crate::escape::escape_single(&cv);
    let es = chars_to_string(&ev);
    s.append(es.as_str());
    s.append("'");
    proof {
        assert(s@ =~= render_line_fish(name@, cmd@));
    }
    s
}

/// Parse one line under the Fish alias idiom.
pub fn parse_alias_line_fish_exec(line: &Vec<char>) -> (r: Option<(String, String)>)
    ensures
        match r {
            Some(p) => parse_alias_line_fish(line@) == Some((p.0@, p.1@)),
            None => parse_alias_line_fish(line@) is None,
        },
{
    let a = skip_hws_from(line, 0);
    proof {
        assert(line@.skip(0) =~= line@);
    }
    let ghost t = trim_start_hws(line@);
    let pref = str_to_chars("alias ");
    if !starts_with_at(line, a, &pref) {
        return None;
    }
    proof {
        reveal_strlit("alias ");
    }
    let n = line.len();
    assert(a + pref.len() <= n);
    let rest_start = a + pref.len();
    let ghost rest = t.skip(6);
    proof {
        assert(rest =~= line@.skip(rest_start as int));
    }
    let e_abs = match find_char_from(line, rest_start, ' ') {
        None => {
            return None;
        },
        Some(e) => e,
    };
    proof {
        assert(find_idx(rest, ' ') == Some(e_abs - rest_start));
    }
    let ghost name_seq = rest.subrange(0, e_abs - rest_start);
    proof {
        assert(name_seq =~= line@.subrange(rest_start as int, e_abs as int));
    }
    let name_chars = match scan_ident_range(line, rest_start, e_abs) {
        None => {
            return None;
        },
        Some(nc) => nc,
    };
    assert(e_abs < n);
    let vs = skip_hws_from(line, e_abs + 1);
    let ghost value = trim_start_hws(rest.skip(e_abs - rest_start + 1));
    proof {
        assert(rest.skip(e_abs - rest_start + 1) =~= line@.skip(e_abs + 1));
        assert(value == line@.skip(vs as int));
    }
    match parse_value_from(line, vs) {
        None => None,
        Some(cmdv) => {
            if cmdv.len() == 0 {
                None
            } else {
                let name = chars_to_string(&name_chars);
                let cmd = chars_to_string(&cmdv);
                Some((name, cmd))
            }
        },
    }
}

/// The function name a trimmed line introduces, if it opens a block.
fn header_name_exec(t: &Vec<char>) -> (r: Option<Vec<char>>)
    ensures
        match r {
            Some(nc) => function_header_name(t@) == Some(nc@),
            None => function_header_name(t@) is None,
        },
{
    let pref = str_to_chars("function ");
    proof {
        assert(t@.skip(0) =~= t@);
    }
    if !starts_with_at(t, 0, &pref) {
        return None;
    }
    proof {
        reveal_strlit("function ");
    }
    let n = t.len();
    assert(pref.len() <= n);
    match scan_ident_range(t, pref.len(), n) {
        None => {
            proof {
                assert(t@.subrange(9, t@.len() as int) =~= t@.skip(9));
            }
            None
        },
        Some(nc) => {
            proof {
                assert(t@.subrange(9, t@.len() as int) =~= t@.skip(9));
            }
            Some(nc)
        },
    }
}

/// Whether a line closes a block.
fn is_end_line_exec(l: &Vec<char>) -> (r: bool)
    ensures
        r == is_end_line(l@),
{
    let t = trim_hws_exec(l);
    let w = str_to_chars("end");
    chars_eq(&t, &w)
}

/// The first block-closing line at or after `from`, by absolute index.
fn find_end_exec(lines: &Vec<Vec<char>>, from: usize) -> (r: Option<usize>)
    requires
        from <= lines@.len(),
    ensures
        match r {
            Some(j) => from <= j < lines@.len() && is_end_line(lines@[j as int]@) && forall|k: int|
                from <= k < j ==> !is_end_line(#[trigger] lines@[k]@),
            None => forall|k: int| from <= k < lines@.len() ==> !is_end_line(#[trigger] lines@[k]@),
        },
{
    let mut j: usize = from;
    while j < lines.len()
        invariant
            from <= j <= lines@.len(),
            forall|k: int| from <= k < j ==> !is_end_line(#[trigger] lines@[k]@),
        decreases lines@.len() - j,
    {
        if is_end_line_exec(&lines[j]) {
            return Some(j);
        }
        j += 1;
    }
    None
}

/// Whether a trimmed body line is one simple command.
fn simple_command_exec(b: &Vec<char>) -> (r: bool)
    ensures
        r == simple_command(b@),
{
    proof {
        assert(b@.skip(0) =~= b@);
    }
    match find_char_from(b, 0, ';') {
        Some(_) => false,
        None => {
            let w: Vec<char> = match find_char_from(b, 0, ' ') {
                Some(k) => {
                    let mut w: Vec<char> = Vec::new();
                    let mut m: usize = 0;
                    while m < k
                        invariant
                            m <= k <= b@.len(),
                            w@ == b@.subrange(0, m as int),
                        decreases k - m,
                    {
                        w.push(b[m]);
                        proof {
                            assert(b@.subrange(0, m + 1) =~= b@.subrange(0, m as int)
                                + seq![b@[m as int]]);
                        }
                        m += 1;
                    }
                    w
                },
                None => {
                    let mut w: Vec<char> = Vec::new();
                    let mut m: usize = 0;
                    while m < b.len()
                        invariant
                            m <= b@.len(),
                            w@ == b@.subrange(0, m as int),
                        decreases b@.len() - m,
                    {
                        w.push(b[m]);
                        proof {
                            assert(b@.subrange(0, m + 1) =~= b@.subrange(0, m as int)
                                + seq![b@[m as int]]);
                        }
                        m += 1;
                    }
                    proof {
                        assert(b@.subrange(0, b@.len() as int) =~= b@);
                    }
                    w
                },
            };
            proof {
                assert(w@ == first_word(b@));
            }
            let ctl = chars_eq(&w, &str_to_chars("if")) || chars_eq(&w, &str_to_chars("else"))
                || chars_eq(&w, &str_to_chars("for")) || chars_eq(&w, &str_to_chars("while"))
                || chars_eq(&w, &str_to_chars("switch")) || chars_eq(&w, &str_to_chars("begin"))
                || chars_eq(&w, &str_to_chars("function")) || chars_eq(&w, &str_to_chars("end"))
                || chars_eq(&w, &str_to_chars("and")) || chars_eq(&w, &str_to_chars("or"))
                || chars_eq(&w, &str_to_chars("return"));
            !ctl
        },
    }
}

/// Evaluate a function block's body, lines `from` to `to` exclusive.
fn parse_block(lines: &Vec<Vec<char>>, from: usize, to: usize, fname: &Vec<char>) -> (r: Option<
    (String, String),
>)
    requires
        from <= to <= lines@.len(),
    ensures
        match r {
            Some(p) => block_pair(fname@, lines_view(lines@).subrange(from as int, to as int))
                == Some((p.0@, p.1@)),
            None => block_pair(fname@, lines_view(lines@).subrange(from as int, to as int))
                is None,
        },
{
    let ghost body = lines_view(lines@).subrange(from as int, to as int);
    let mut bls: Vec<Vec<char>> = Vec::new();
    let mut m: usize = from;
    proof {
        assert(body.skip(0) =~= body);
        assert(lines_view(Seq::empty()) + body_lines(body) =~= body_lines(body));
    }
    while m < to
        invariant
            from <= m <= to <= lines@.len(),
            body == lines_view(lines@).subrange(from as int, to as int),
            lines_view(bls@) + body_lines(body.skip(m - from)) == body_lines(body),
        decreases to - m,
    {
        let ghost bsuf = body.skip(m - from);
        proof {
            assert(bsuf.len() > 0);
            assert(bsuf.first() == body[m - from]);
            assert(body[m - from] == lines@[m as int]@);
            assert(bsuf.drop_first() =~= body.skip(m - from + 1));
        }
        let t = trim_hws_exec(&lines[m]);
        let ghost old_bls = bls@;
        if t.len() > 0 {
            bls.push(t);
            proof {
                assert(lines_view(bls@) =~= lines_view(old_bls) + seq![bls@[bls@.len() - 1]@]);
                assert(lines_view(bls@) + body_lines(body.skip(m - from + 1)) =~= body_lines(body));
            }
        } else {
            proof {
                assert(lines_view(bls@) + body_lines(body.skip(m - from + 1)) =~= body_lines(body));
            }
        }
        m += 1;
    }
    proof {
        assert(body.skip(to - from) =~= Seq::<Seq<char>>::empty());
        assert(lines_view(bls@) =~= body_lines(body));
    }
    if bls.len() == 1 {
        let b = &bls[0];
        proof {
            assert(body_lines(body)[0] == b@);
        }
        if simple_command_exec(b) {
            let name = chars_to_string(fname);
            let cmd = chars_to_string(b);
            Some((name, cmd))
        } else {
            None
        }
    } else {
        None
    }
}

/// Parse a whole file's lines under the Fish idioms, collecting the recovered
/// pairs in file order.
pub fn parse_lines_fish_exec(lines: &Vec<Vec<char>>) -> (r: Vec<(String, String)>)
    ensures
        pairs_view(r@) == parse_lines_fish(lines_view(lines@)),
{
    let ghost all = lines_view(lines@);
    let mut r: Vec<(String, String)> = Vec::new();
    let mut i: usize = 0;
    proof {
        assert(all.skip(0) =~= all);
        assert(pairs_view(Seq::empty()) + parse_lines_fish(all) =~= parse_lines_fish(all));
    }
    while i < lines.len()
        invariant
            i <= lines@.len(),
            all == lines_view(lines@),
            pairs_view(r@) + parse_lines_fish(all.skip(i as int)) == parse_lines_fish(all),
        decreases lines@.len() - i,
    {
        let ghost suf = all.skip(i as int);
        proof {
            assert(suf.len() > 0);
            assert(suf.first() == all[i as int]);
            assert(all[i as int] == lines@[i as int]@);
            assert(suf.drop_first() =~= all.skip(i + 1));
        }
        let t = trim_hws_exec(&lines[i]);
        let ghost old_r = r@;
        match header_name_exec(&t) {
            Some(fname) => {
                match find_end_exec(lines, i + 1) {
                    None => {
                        proof {
                            assert(forall|k: int|
                                1 <= k < suf.len() ==> #[trigger] suf[k] == lines@[i + k]@);
                            lemma_find_end_none(suf, 1);
                            assert(parse_lines_fish(suf) =~= Seq::<(Seq<char>, Seq<char>)>::empty());
                            assert(all.skip(all.len() as int) =~= Seq::<Seq<char>>::empty());
                            assert(pairs_view(r@) + parse_lines_fish(
                                all.skip(all.len() as int),
                            ) =~= parse_lines_fish(all));
                        }
                        i = lines.len();
                    },
                    Some(j_abs) => {
                        proof {
                            assert(forall|k: int|
                                1 <= k < suf.len() ==> #[trigger] suf[k] == lines@[i + k]@);
                            lemma_find_end_at(suf, 1, j_abs - i);
                            assert(suf.subrange(1, j_abs - i) =~= lines_view(lines@).subrange(
                                i + 1,
                                j_abs as int,
                            ));
                            assert(suf.skip(j_abs - i + 1) =~= all.skip(j_abs + 1));
                        }
                        match parse_block(lines, i + 1, j_abs, &fname) {
                            Some(p) => {
                                r.push(p);
                                proof {
                                    assert(pairs_view(r@) =~= pairs_view(old_r) + seq![(r@[r@.len()
                                        - 1].0@, r@[r@.len() - 1].1@)]);
                                    assert(pairs_view(r@) + parse_lines_fish(
                                        all.skip(j_abs + 1),
                                    ) =~= parse_lines_fish(all));
                                }
                            },
                            None => {
                                proof {
                                    assert(pairs_view(r@) + parse_lines_fish(
                                        all.skip(j_abs + 1),
                                    ) =~= parse_lines_fish(all));
                                }
                            },
                        }
                        i = j_abs + 1;
                    },
                }
            },
            None => {
                match parse_alias_line_fish_exec(&lines[i]) {
                    Some(p) => {
                        r.push(p);
                        proof {
                            assert(pairs_view(r@) =~= pairs_view(old_r) + seq![(r@[r@.len()
                                - 1].0@, r@[r@.len() - 1].1@)]);
                            assert(pairs_view(r@) + parse_lines_fish(all.skip(i + 1))
                                =~= parse_lines_fish(all));
                        }
                    },
                    None => {
                        proof {
                            assert(pairs_view(r@) + parse_lines_fish(all.skip(i + 1))
                                =~= parse_lines_fish(all));
                        }
                    },
                }
                i += 1;
            },
        }
    }
    proof {
        assert(all.skip(all.len() as int) =~= Seq::<Seq<char>>::empty());
        assert(pairs_view(r@) =~= parse_lines_fish(all));
    }
    r
}

/// Parsing a rendered Fish line recovers exactly the pair it was rendered
/// from.
pub proof fn lemma_parse_render_line_fish(name: Seq<char>, cmd: Seq<char>)
    requires
        decl_name_ok(name),
        cmd.len() > 0,
    ensures
        parse_alias_line_fish(render_line_fish(name, cmd)) == Some((name, cmd)),
{
    reveal_strlit("alias ");
    reveal_strlit(" '");
    reveal_strlit("'");
    let line = render_line_fish(name, cmd);
    let value = seq!['\''] + esc_sq(cmd) + seq!['\''];
    assert(line[0] == 'a');
    assert(!is_hws('a'));
    assert(trim_start_hws(line) == line);
    assert(line.subrange(0, 6) =~= "alias "@);
    assert(starts_with(line, "alias "@));
    let rest = line.skip(6);
    assert(rest =~= name + seq![' '] + value);
    assert forall|k: int| 0 <= k < name.len() implies #[trigger] rest[k] != ' ' by {
        assert(rest[k] == name[k]);
        assert(ident_char(name[k]));
    }
    assert(rest[name.len() as int] == ' ');
    crate::lines::lemma_find_idx_at(rest, ' ', name.len() as int);
    assert(rest.subrange(0, name.len() as int) =~= name);
    let v = rest.skip(name.len() as int + 1);
    assert(v =~= value);
    assert(v[0] == '\'');
    assert(!is_hws('\''));
    assert(trim_start_hws(v) == v);
    assert(v.drop_first() =~= esc_sq(cmd) + seq!['\'']);
    lemma_unesc_esc(cmd);
    assert(parse_value(v) == Some(cmd));
}

} // verus!
