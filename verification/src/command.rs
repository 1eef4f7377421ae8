//! The pure decisions of the command layer: building the line a shell config
//! must source, deciding how to splice it into an existing file, and
//! resolving an export format. Reading, prompting and writing stay with the
//! outer layer.

use vstd::prelude::*;

use crate::error::AlxError;
use crate::shell::ShellType;
use crate::text::is_substring;
use crate::text::str_contains;

verus! {

/// The line a shell's startup file must hold to load the generated aliases.
pub open spec fn source_line_spec(shell: ShellType, path: Seq<char>) -> Seq<char> {
    match shell {
        ShellType::Fish => "source '"@ + path + "'"@,
        _ => "[ -f '"@ + path + "' ] && source '"@ + path + "'"@,
    }
}

/// Build the source line for the generated alias file: fish sources it
/// outright, the POSIX shells guard on the file existing.
pub fn source_line(shell: ShellType, path: &str) -> (r: String)
    ensures
        r@ == source_line_spec(shell, path@),
{
    match shell {
        ShellType::Fish => {
            let mut s = String::from_str("source '");
            s.append(path);
            s.append("'");
            s
        },
        _ => {
            let mut s = String::from_str("[ -f '");
            s.append(path);
            s.append("' ] && source '");
            s.append(path);
            s.append("'");
            s
        },
    }
}

/// What an existing config file becomes once the source line is added: a
/// separating newline when the file does not end in one, a marker comment,
/// the line, and a closing newline.
pub open spec fn spliced_config(content: Seq<char>, line: Seq<char>) -> Seq<char> {
    let sep: Seq<char> = if content.len() > 0 && content.last() != '\n' {
        seq!['\n']
    } else {
        Seq::empty()
    };
    content + sep + "\n# alx - alias manager\n"@ + line + seq!['\n']
}

/// Splice the source line into existing config text, or report `None` when
/// the line is already there and nothing must change.
pub fn append_source_line(content: &str, line: &str) -> (r: Option<String>)
    ensures
        match r {
            Some(out) => !is_substring(line@, content@) && out@ == spliced_config(
                content@,
                line@,
            ),
            None => is_substring(line@, content@),
        },
{
    if str_contains(content, line) {
        return None;
    }
    let cv = crate::text::str_to_chars(content);
    let mut out = String::from_str(content);
    if cv.len() > 0 && cv[cv.len() - 1] != '\n' {
        crate::text::push_char(&mut out, '\n');
    }
    out.append("\n# alx - alias manager\n");
    out.append(line);
    crate::text::push_char(&mut out, '\n');
    proof {
        assert(out@ =~= spliced_config(content@, line@));
    }
    Some(out)
}

/// The formats an export can take.
#[derive(Clone, Copy, Debug, PartialEq, Eq, Structural)]
pub enum ExportFormat {
    Json,
    Toml,
}

/// Resolve an export format name, accepting exactly `json` and `toml` and
/// naming any other value in the error.
pub fn parse_export_format(format: &str) -> (r: Result<ExportFormat, AlxError>)
    ensures
        match r {
            Ok(ExportFormat::Json) => format@ == "json"@,
            Ok(ExportFormat::Toml) => format@ == "toml"@,
            Err(AlxError::ConfigError(m)) => format@ != "json"@ && format@ != "toml"@ && m@
                == "Unsupported format: "@ + format@,
            Err(_) => false,
        },
{
    if crate::text::str_eq(format, "json") {
        Ok(ExportFormat::Json)
    } else if crate::text::str_eq(format, "toml") {
        Ok(ExportFormat::Toml)
    } else {
        let mut m = String::from_str("Unsupported format: ");
        m.append(format);
        Err(AlxError::ConfigError(m))
    }
}

} // verus!
