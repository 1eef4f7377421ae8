//! The closed set of supported shell dialects, and the dialect-dispatched
//! operations: rendering a declaration line, assembling a generated file,
//! parsing declarations back out of existing configuration text, and the
//! dialect's canonical config-file location.

use vstd::prelude::*;

use crate::alias::Alias;
use crate::alias::records_view;
use crate::error::AlxError;
use crate::fish::parse_alias_line_fish;
use crate::fish::parse_lines_fish;
use crate::fish::parse_lines_fish_exec;
use crate::fish::render_line_fish;
use crate::fish::render_line_fish_exec;
use crate::lines::lemma_split_lines_peel;
use crate::lines::no_newline;
use crate::lines::split_lines;
use crate::lines::split_lines_exec;
use crate::lines::starts_with;
use crate::lines::trim_hws;
use crate::lines::trim_start_hws;
use crate::posix::parse_line_posix;
use crate::posix::parse_lines_posix;
use crate::posix::parse_lines_posix_exec;
use crate::posix::render_line_posix;
use crate::posix::render_line_posix_exec;
use crate::text::lines_view;
use crate::text::pairs_view;
use crate::text::str_to_chars;
use crate::validator::valid_name;

verus! {

/// One of the supported interactive shells. Every dialect-specific decision
/// matches exhaustively on this tag; there is no default branch.
#[derive(Clone, Copy, Debug, PartialEq, Eq, Structural)]
pub enum ShellType {
    Bash,
    Zsh,
    Fish,
}

/// The canonical identifier of a dialect, as a sequence of characters.
pub open spec fn shell_name(s: ShellType) -> Seq<char> {
    match s {
        ShellType::Bash => "bash"@,
        ShellType::Zsh => "zsh"@,
        ShellType::Fish => "fish"@,
    }
}

impl ShellType {
    /// The canonical identifier string of this dialect.
    pub fn as_str(&self) -> (r: &'static str)
        ensures
            r@ == shell_name(*self),
    {
        match self {
            ShellType::Bash => "bash",
            ShellType::Zsh => "zsh",
            ShellType::Fish => "fish",
        }
    }
}

/// The one declaration line a record renders to in the given dialect.
pub open spec fn render_line_spec(shell: ShellType, name: Seq<char>, cmd: Seq<char>) -> Seq<char> {
    match shell {
        ShellType::Bash => render_line_posix(name, cmd),
        ShellType::Zsh => render_line_posix(name, cmd),
        ShellType::Fish => render_line_fish(name, cmd),
    }
}

/// The comment block that opens every generated file.
pub open spec fn file_header() -> Seq<char> {
    "# alx aliases\n"@
}

/// The rendered lines of a record sequence, each closed by a newline.
pub open spec fn rendered_lines(shell: ShellType, recs: Seq<(Seq<char>, Seq<char>)>) -> Seq<char>
    decreases recs.len(),
{
    if recs.len() == 0 {
        Seq::empty()
    } else {
        render_line_spec(shell, recs.first().0, recs.first().1) + seq!['\n'] + rendered_lines(
            shell,
            recs.drop_first(),
        )
    }
}

/// A whole generated file: the header, then one line per record in catalog
/// order. An empty catalog yields just the header.
pub open spec fn render_file_spec(shell: ShellType, recs: Seq<(Seq<char>, Seq<char>)>) -> Seq<
    char,
> {
    file_header() + rendered_lines(shell, recs)
}

/// Every (name, command) pair the dialect's parser recovers from raw
/// configuration text, in file order.
pub open spec fn parse_existing_spec(shell: ShellType, text: Seq<char>) -> Seq<
    (Seq<char>, Seq<char>),
> {
    match shell {
        ShellType::Bash => parse_lines_posix(split_lines(text)),
        ShellType::Zsh => parse_lines_posix(split_lines(text)),
        ShellType::Fish => parse_lines_fish(split_lines(text)),
    }
}

/// Render one declaration line for a record.
pub fn render_line(shell: ShellType, alias: &Alias) -> (r: String)
    ensures
        r@ == render_line_spec(shell, alias.name@, alias.command@),
{
    match shell {
        ShellType::Bash => render_line_posix_exec(alias.name.as_str(), alias.command.as_str()),
        ShellType::Zsh => render_line_posix_exec(alias.name.as_str(), alias.command.as_str()),
        ShellType::Fish => render_line_fish_exec(alias.name.as_str(), alias.command.as_str()),
    }
}

/// Assemble the whole generated file for a record sequence. The output is a
/// pure function of the input, so regeneration is deterministic and an empty
/// catalog yields just the header.
pub fn render_file(shell: ShellType, records: &Vec<Alias>) -> (r: String)
    ensures
        r@ == render_file_spec(shell, records_view(records@)),
{
    let ghost rv = records_view(records@);
    let mut s = String::from_str("# alx aliases\n");
    let mut i: usize = 0;
    proof {
        assert(rv.skip(0) =~= rv);
        assert(s@ =~= file_header());
    }
    while i < records.len()
        invariant
            i <= records@.len(),
            rv == records_view(records@),
            s@ + rendered_lines(shell, rv.skip(i as int)) == render_file_spec(shell, rv),
        decreases records@.len() - i,
    {
        let ghost suf = rv.skip(i as int);
        proof {
            assert(suf.len() > 0);
            assert(suf.first() == rv[i as int]);
            assert(rv[i as int] == (records@[i as int].name@, records@[i as int].command@));
            assert(suf.drop_first() =~= rv.skip(i + 1));
        }
        let line = render_line(shell, &records[i]);
        s.append(line.as_str());
        s.append("\n");
        proof {
            reveal_strlit("\n");
            assert("\n"@ =~= seq!['\n']);
            assert(s@ + rendered_lines(shell, rv.skip(i + 1)) =~= render_file_spec(shell, rv));
        }
        i += 1;
    }
    proof {
        assert(rv.skip(rv.len() as int) =~= Seq::<(Seq<char>, Seq<char>)>::empty());
        assert(s@ =~= render_file_spec(shell, rv));
    }
    s
}

/// Extract every recognizable alias declaration from existing configuration
/// text. Unrelated lines, comments, blank lines and malformed declarations
/// are skipped, never an error; the result can be empty.
pub fn parse_existing(shell: ShellType, content: &str) -> (r: Vec<(String, String)>)
    ensures
        pairs_view(r@) == parse_existing_spec(shell, content@),
{
    let cv = str_to_chars(content);
    let lines = split_lines_exec(&cv);
    proof {
        assert(lines_view(lines@) =~= split_lines(content@));
    }
    match shell {
        ShellType::Bash => parse_lines_posix_exec(&lines),
        ShellType::Zsh => parse_lines_posix_exec(&lines),
        ShellType::Fish => parse_lines_fish_exec(&lines),
    }
}

/// Where the dialect's interactive startup file lives under a home
/// directory.
pub open spec fn config_file_suffix(shell: ShellType) -> Seq<char> {
    match shell {
        ShellType::Bash => "/.bashrc"@,
        ShellType::Zsh => "/.zshrc"@,
        ShellType::Fish => "/.config/fish/config.fish"@,
    }
}

/// The dialect's startup file under the given home directory.
pub fn config_path_in(shell: ShellType, home: &str) -> (r: String)
    ensures
        r@ == home@ + config_file_suffix(shell),
{
    let mut s = String::from_str(home);
    match shell {
        ShellType::Bash => s.append("/.bashrc"),
        ShellType::Zsh => s.append("/.zshrc"),
        ShellType::Fish => s.append("/.config/fish/config.fish"),
    }
    s
}

/// Relies on `dirs::home_dir`: the platform's home directory for the current
/// user, if one is known; `None` also when the path is not unicode.
#[verifier::external_body]
fn os_home_dir() -> Option<String> {
    match dirs::home_dir() {
        Some(p) => p.into_os_string().into_string().ok(),
        None => None,
    }
}

/// The dialect's canonical startup file for the current user. Fails exactly
/// when the platform reports no usable home directory.
pub fn config_path(shell: ShellType) -> (r: Result<String, AlxError>)
    ensures
        match r {
            Ok(p) => exists|h: Seq<char>| p@ == #[trigger] (h + config_file_suffix(shell)),
            Err(e) => e matches AlxError::ConfigError(m) && m@
                == "Could not find home directory"@,
        },
{
    match os_home_dir() {
        Some(h) => {
            let p = config_path_in(shell, h.as_str());
            proof {
                assert(p@ == h@ + config_file_suffix(shell));
            }
            Ok(p)
        },
        None => Err(AlxError::ConfigError(String::from_str("Could not find home directory"))),
    }
}

/// An empty catalog renders to the header alone.
pub proof fn lemma_render_file_empty(shell: ShellType)
    ensures
        render_file_spec(shell, Seq::empty()) == file_header(),
{
    assert(file_header() + Seq::<char>::empty() =~= file_header());
}

/// The header parses to nothing in every dialect: its one line opens with
/// `#`, which no idiom accepts.
proof fn lemma_header_line_inert(line: Seq<char>)
    requires
        line.len() > 0,
        line[0] == '#',
    ensures
        parse_line_posix(line) is None,
        parse_alias_line_fish(line) is None,
        crate::fish::function_header_name(trim_hws(line)) is None,
{
    reveal_strlit("alias ");
    reveal_strlit("function ");
    assert(!crate::lines::is_hws('#'));
    assert(trim_start_hws(line) == line);
    assert(!starts_with(line, "alias "@)) by {
        if starts_with(line, "alias "@) {
            assert(line.subrange(0, 6)[0] == line[0]);
        }
    }
    let t = trim_hws(line);
    assert(t == crate::lines::trim_end_hws(line));
    assert(t.len() > 0 && t[0] == '#') by {
        lemma_trim_end_keeps_head(line);
    }
    assert(!starts_with(t, "function "@)) by {
        if starts_with(t, "function "@) {
            assert(t.subrange(0, 9)[0] == t[0]);
        }
    }
}

/// Trimming the tail keeps a non-whitespace head in place.
proof fn lemma_trim_end_keeps_head(s: Seq<char>)
    requires
        s.len() > 0,
        !crate::lines::is_hws(s[0]),
    ensures
        crate::lines::trim_end_hws(s).len() > 0,
        crate::lines::trim_end_hws(s)[0] == s[0],
    decreases s.len(),
{
    if s.len() > 0 && crate::lines::is_hws(s.last()) {
        assert(s.drop_last()[0] == s[0]);
        assert(s.drop_last().len() > 0) by {
            if s.len() == 1 {
                assert(s.last() == s[0]);
            }
        }
        lemma_trim_end_keeps_head(s.drop_last());
    }
}

/// Records that round-trip: each carries a well-formed name and a non-empty
/// command free of newlines — a newline would end the declaration's line
/// early.
pub open spec fn valid_records(recs: Seq<(Seq<char>, Seq<char>)>) -> bool {
    forall|i: int|
        0 <= i < recs.len() ==> valid_name((#[trigger] recs[i]).0) && recs[i].1.len() > 0
            && no_newline(recs[i].1)
}

/// The round-trip law: a generated file parses back to exactly the records
/// it was rendered from, pair for pair and in order, in every dialect.
pub proof fn lemma_round_trip_all(shell: ShellType, recs: Seq<(Seq<char>, Seq<char>)>)
    requires
        valid_records(recs),
    ensures
        parse_existing_spec(shell, render_file_spec(shell, recs)) == recs,
{
    reveal_strlit("# alx aliases\n");
    reveal_strlit("# alx aliases");
    let hl = "# alx aliases"@;
    let body = rendered_lines(shell, recs);
    let text = render_file_spec(shell, recs);
    assert(file_header() =~= hl + seq!['\n']);
    assert(text =~= hl + seq!['\n'] + body);
    assert(no_newline(hl));
    lemma_split_lines_peel(hl, body);
    assert(split_lines(text) == seq![hl] + split_lines(body));
    assert(hl[0] == '#');
    lemma_header_line_inert(hl);
    lemma_lines_round_trip(shell, recs);
    let ls = seq![hl] + split_lines(body);
    assert(ls.first() == hl);
    assert(ls.drop_first() =~= split_lines(body));
    match shell {
        ShellType::Bash => {
            assert(parse_lines_posix(ls) =~= recs);
        },
        ShellType::Zsh => {
            assert(parse_lines_posix(ls) =~= recs);
        },
        ShellType::Fish => {
            assert(crate::fish::function_header_name(trim_hws(hl)) is None);
            assert(parse_lines_fish(ls) =~= recs);
        },
    }
}

/// The single-record reading of the round-trip law.
pub proof fn lemma_round_trip(shell: ShellType, name: Seq<char>, cmd: Seq<char>)
    requires
        valid_name(name),
        cmd.len() > 0,
        no_newline(cmd),
    ensures
        parse_existing_spec(shell, render_file_spec(shell, seq![(name, cmd)])) == seq![
            (name, cmd),
        ],
{
    assert(valid_records(seq![(name, cmd)]));
    lemma_round_trip_all(shell, seq![(name, cmd)]);
}

/// The declaration lines alone parse back to their records: the induction
/// behind the round-trip law.
proof fn lemma_lines_round_trip(shell: ShellType, recs: Seq<(Seq<char>, Seq<char>)>)
    requires
        valid_records(recs),
    ensures
        match shell {
            ShellType::Fish => parse_lines_fish(split_lines(rendered_lines(shell, recs))) == recs,
            _ => parse_lines_posix(split_lines(rendered_lines(shell, recs))) == recs,
        },
    decreases recs.len(),
{
    if recs.len() == 0 {
        assert(rendered_lines(shell, recs) =~= Seq::<char>::empty());
        assert(split_lines(Seq::<char>::empty()) =~= Seq::<Seq<char>>::empty());
        assert(parse_lines_posix(Seq::empty()) =~= Seq::<(Seq<char>, Seq<char>)>::empty());
        assert(parse_lines_fish(Seq::empty()) =~= Seq::<(Seq<char>, Seq<char>)>::empty());
    } else {
        let p = recs.first();
        let rest = recs.drop_first();
        assert(valid_records(rest)) by {
            assert(forall|k: int| 0 <= k < rest.len() ==> #[trigger] rest[k] == recs[k + 1]);
        }
        lemma_lines_round_trip(shell, rest);
        let line = render_line_spec(shell, p.0, p.1);
        let tail = rendered_lines(shell, rest);
        assert(rendered_lines(shell, recs) =~= line + seq!['\n'] + tail);
        assert(crate::posix::decl_name_ok(p.0));
        crate::escape::lemma_esc_sq_no_newline(p.1);
        assert(forall|i: int| 0 <= i < p.0.len() ==> crate::validator::ident_char(#[trigger] p.0[i]));
        lemma_render_line_no_newline(shell, p.0, p.1);
        lemma_split_lines_peel(line, tail);
        let ls = seq![line] + split_lines(tail);
        assert(split_lines(rendered_lines(shell, recs)) == ls);
        assert(ls.first() == line);
        assert(ls.drop_first() =~= split_lines(tail));
        match shell {
            ShellType::Fish => {
                crate::fish::lemma_parse_render_line_fish(p.0, p.1);
                lemma_fish_rendered_line_shape(p.0, p.1);
                assert(parse_lines_fish(ls) =~= seq![p] + rest);
                assert(seq![p] + rest =~= recs);
            },
            _ => {
                crate::posix::lemma_parse_render_line_posix(p.0, p.1);
                assert(parse_lines_posix(ls) =~= seq![p] + rest);
                assert(seq![p] + rest =~= recs);
            },
        }
    }
}

/// A rendered Fish line opens with `a` and closes with a quote, so trimming
/// leaves it alone and it never reads as a function header.
proof fn lemma_fish_rendered_line_shape(name: Seq<char>, cmd: Seq<char>)
    ensures
        crate::fish::function_header_name(trim_hws(render_line_fish(name, cmd))) is None,
{
    reveal_strlit("alias ");
    reveal_strlit("function ");
    reveal_strlit(" '");
    reveal_strlit("'");
    let line = render_line_fish(name, cmd);
    assert(line[0] == 'a');
    assert(!crate::lines::is_hws('a'));
    assert(trim_start_hws(line) == line);
    assert(line.last() == '\'') by {
        assert(line =~= "alias "@ + name + " '"@ + crate::escape::esc_sq(cmd) + "'"@);
        assert(line[line.len() - 1] == "'"@[0]);
    }
    assert(!crate::lines::is_hws('\''));
    assert(crate::lines::trim_end_hws(line) == line);
    let t = trim_hws(line);
    assert(t == line);
    assert(!starts_with(t, "function "@)) by {
        if starts_with(t, "function "@) {
            assert(t.subrange(0, 9)[0] == t[0]);
        }
    }
}

/// A rendered line holds no newline when the command holds none.
proof fn lemma_render_line_no_newline(shell: ShellType, name: Seq<char>, cmd: Seq<char>)
    requires
        forall|i: int| 0 <= i < name.len() ==> crate::validator::ident_char(#[trigger] name[i]),
        no_newline(crate::escape::esc_sq(cmd)),
    ensures
        no_newline(render_line_spec(shell, name, cmd)),
{
    reveal_strlit("alias ");
    reveal_strlit("='");
    reveal_strlit(" '");
    reveal_strlit("'");
    let line = render_line_spec(shell, name, cmd);
    let e = crate::escape::esc_sq(cmd);
    assert forall|i: int| 0 <= i < line.len() implies #[trigger] line[i] != '\n' by {
        match shell {
            ShellType::Bash => {
                lemma_posix_line_char(name, cmd, i);
            },
            ShellType::Zsh => {
                lemma_posix_line_char(name, cmd, i);
            },
            ShellType::Fish => {
                lemma_fish_line_char(name, cmd, i);
            },
        }
    }
}

/// Each character of a rendered Bash/Zsh line is from the prefix, the name,
/// the separator, the escaped command, or the closing quote.
proof fn lemma_posix_line_char(name: Seq<char>, cmd: Seq<char>, i: int)
    requires
        forall|k: int| 0 <= k < name.len() ==> crate::validator::ident_char(#[trigger] name[k]),
        no_newline(crate::escape::esc_sq(cmd)),
        0 <= i < render_line_posix(name, cmd).len(),
    ensures
        render_line_posix(name, cmd)[i] != '\n',
{
    reveal_strlit("alias ");
    reveal_strlit("='");
    reveal_strlit("'");
    let line = render_line_posix(name, cmd);
    let e = crate::escape::esc_sq(cmd);
    if i < 6 {
        assert(line[i] == "alias "@[i]);
    } else if i < 6 + name.len() {
        assert(line[i] == name[i - 6]);
        assert(crate::validator::ident_char(name[i - 6]));
    } else if i < 6 + name.len() + 2 {
        assert(line[i] == "='"@[i - 6 - name.len()]);
    } else if i < 6 + name.len() + 2 + e.len() {
        assert(line[i] == e[i - 6 - name.len() - 2]);
    } else {
        assert(line[i] == "'"@[i - 6 - name.len() - 2 - e.len()]);
    }
}

/// The same, for a rendered Fish line.
proof fn lemma_fish_line_char(name: Seq<char>, cmd: Seq<char>, i: int)
    requires
        forall|k: int| 0 <= k < name.len() ==> crate::validator::ident_char(#[trigger] name[k]),
        no_newline(crate::escape::esc_sq(cmd)),
        0 <= i < render_line_fish(name, cmd).len(),
    ensures
        render_line_fish(name, cmd)[i] != '\n',
{
    reveal_strlit("alias ");
    reveal_strlit(" '");
    reveal_strlit("'");
    let line = render_line_fish(name, cmd);
    let e = crate::escape::esc_sq(cmd);
    if i < 6 {
        assert(line[i] == "alias "@[i]);
    } else if i < 6 + name.len() {
        assert(line[i] == name[i - 6]);
        assert(crate::validator::ident_char(name[i - 6]));
    } else if i < 6 + name.len() + 2 {
        assert(line[i] == " '"@[i - 6 - name.len()]);
    } else if i < 6 + name.len() + 2 + e.len() {
        assert(line[i] == e[i - 6 - name.len() - 2]);
    } else {
        assert(line[i] == "'"@[i - 6 - name.len() - 2 - e.len()]);
    }
}

} // verus!
