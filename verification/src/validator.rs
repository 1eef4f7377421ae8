//! Validation of alias names and commands, and the character classes the
//! validator and the dialect parsers share.

use vstd::prelude::*;

use crate::error::AlxError;
use crate::text::push_char;
use crate::text::str_eq;
use crate::text::str_to_chars;

verus! {

/// What `char::is_alphabetic` holds of characters beyond ASCII: opaque here,
/// but a fixed property of the character.
pub uninterp spec fn char_alphabetic(c: char) -> bool;

/// What `char::is_alphanumeric` holds of characters beyond ASCII.
pub uninterp spec fn char_alphanumeric(c: char) -> bool;

/// What `char::is_whitespace` holds of characters beyond ASCII.
pub uninterp spec fn char_whitespace(c: char) -> bool;

pub open spec fn ascii_digit(c: char) -> bool {
    48 <= c as u32 <= 57
}

pub open spec fn ascii_letter(c: char) -> bool {
    (65 <= c as u32 <= 90) || (97 <= c as u32 <= 122)
}

/// A letter as the validator understands one.
pub open spec fn letter_char(c: char) -> bool {
    ascii_letter(c) || (c as u32 >= 128 && char_alphabetic(c))
}

/// A letter or digit.
pub open spec fn alnum_char(c: char) -> bool {
    ascii_letter(c) || ascii_digit(c) || (c as u32 >= 128 && char_alphanumeric(c))
}

/// A character allowed anywhere in an alias name. Every ASCII character
/// outside letters, digits, `_` and `-` is excluded, which is what lets the
/// parsers split a declaration at `=`, spaces and quotes.
pub open spec fn ident_char(c: char) -> bool {
    alnum_char(c) || c == '_' || c == '-'
}

/// Whitespace as `str::trim` understands it.
pub open spec fn white_char(c: char) -> bool {
    c == ' ' || (9 <= c as u32 <= 13) || (c as u32 >= 128 && char_whitespace(c))
}

/// Relies on `char::is_alphabetic`: among ASCII characters exactly the
/// letters A-Z and a-z are alphabetic; beyond ASCII the result is the
/// character's fixed Unicode Alphabetic property.
#[verifier::external_body]
pub fn is_letter_char(c: char) -> (r: bool)
    ensures
        r == letter_char(c),
        c as u32 >= 128 ==> r == char_alphabetic(c),
{
    c.is_alphabetic()
}

/// Relies on `char::is_alphanumeric`: among ASCII characters exactly letters
/// and digits qualify; beyond ASCII the result is a fixed property of the
/// character.
#[verifier::external_body]
pub fn is_alnum_char(c: char) -> (r: bool)
    ensures
        r == alnum_char(c),
        c as u32 >= 128 ==> r == char_alphanumeric(c),
{
    c.is_alphanumeric()
}

/// Relies on `char::is_whitespace`: among ASCII characters exactly the space
/// and the controls U+0009 through U+000D qualify; beyond ASCII the result is
/// the character's fixed White_Space property.
#[verifier::external_body]
pub fn is_white_char(c: char) -> (r: bool)
    ensures
        r == white_char(c),
        c as u32 >= 128 ==> r == char_whitespace(c),
{
    c.is_whitespace()
}

/// A character allowed in an alias name.
pub fn is_ident_char(c: char) -> (r: bool)
    ensures
        r == ident_char(c),
{
    if c == '_' || c == '-' {
        true
    } else {
        is_alnum_char(c)
    }
}

/// A well-formed alias name: non-empty, starting with a letter or underscore,
/// made of letters, digits, underscores and hyphens.
pub open spec fn valid_name(s: Seq<char>) -> bool {
    s.len() > 0 && (letter_char(s[0]) || s[0] == '_') && forall|i: int|
        0 <= i < s.len() ==> ident_char(#[trigger] s[i])
}

/// Nothing but whitespace.
pub open spec fn blank(s: Seq<char>) -> bool {
    forall|i: int| 0 <= i < s.len() ==> white_char(#[trigger] s[i])
}

pub open spec fn msg_name_empty() -> Seq<char> {
    "Alias name cannot be empty"@
}

pub open spec fn msg_name_space() -> Seq<char> {
    "Alias name cannot contain spaces"@
}

pub open spec fn msg_name_first() -> Seq<char> {
    "Alias name must start with a letter or underscore"@
}

pub open spec fn msg_name_bad(c: char) -> Seq<char> {
    "Alias name contains invalid character: '"@ + seq![c] + "'"@
}

pub open spec fn msg_cmd_empty() -> Seq<char> {
    "Command cannot be empty"@
}

pub struct AliasValidator;

impl AliasValidator {
    /// Accept exactly the well-formed names, and report the first reason a
    /// name is rejected: empty, a space, a bad leading character, or the
    /// first character outside the allowed set.
    pub fn validate_name(name: &str) -> (r: Result<(), AlxError>)
        ensures
            ({
                let s = name@;
                match r {
                    Ok(()) => valid_name(s),
                    Err(AlxError::InvalidAliasName(m)) => !valid_name(s) && (if s.len() == 0 {
                        m@ == msg_name_empty()
                    } else if s.contains(' ') {
                        m@ == msg_name_space()
                    } else if !(letter_char(s[0]) || s[0] == '_') {
                        m@ == msg_name_first()
                    } else {
                        exists|i: int|
                            0 <= i < s.len() && !ident_char(s[i]) && (forall|k: int|
                                0 <= k < i ==> ident_char(#[trigger] s[k])) && m@ == msg_name_bad(
                                s[i],
                            )
                    }),
                    Err(_) => false,
                }
            }),
    {
        let v = str_to_chars(name);
        if v.len() == 0 {
            return Err(AlxError::InvalidAliasName(String::from_str("Alias name cannot be empty")));
        }
        let mut i: usize = 0;
        while i < v.len()
            invariant
                i <= v@.len(),
                v@ == name@,
                forall|k: int| 0 <= k < i ==> #[trigger] v@[k] != ' ',
            decreases v@.len() - i,
        {
            if v[i] == ' ' {
                return Err(
                    AlxError::InvalidAliasName(
                        String::from_str("Alias name cannot contain spaces"),
                    ),
                );
            }
            i += 1;
        }
        assert(!name@.contains(' '));
        let c0 = v[0];
        if !(is_letter_char(c0) || c0 == '_') {
            return Err(
                AlxError::InvalidAliasName(
                    String::from_str("Alias name must start with a letter or underscore"),
                ),
            );
        }
        let mut j: usize = 0;
        while j < v.len()
            invariant
                j <= v@.len(),
                v@ == name@,
                v@.len() > 0,
                !name@.contains(' '),
                letter_char(name@[0]) || name@[0] == '_',
                forall|k: int| 0 <= k < j ==> ident_char(#[trigger] v@[k]),
            decreases v@.len() - j,
        {
            let c = v[j];
            if !is_ident_char(c) {
                let mut m = String::from_str("Alias name contains invalid character: '");
                push_char(&mut m, c);
                push_char(&mut m, '\'');
                proof {
                    reveal_strlit("'");
                    assert(m@ =~= msg_name_bad(name@[j as int]));
                    assert(!valid_name(name@));
                }
                return Err(AlxError::InvalidAliasName(m));
            }
            j += 1;
        }
        Ok(())
    }

    /// Accept exactly the commands that hold at least one non-whitespace
    /// character.
    pub fn validate_command(command: &str) -> (r: Result<(), AlxError>)
        ensures
            match r {
                Ok(()) => !blank(command@),
                Err(AlxError::InvalidCommand(m)) => blank(command@) && m@ == msg_cmd_empty(),
                Err(_) => false,
            },
    {
        let v = str_to_chars(command);
        let mut i: usize = 0;
        while i < v.len()
            invariant
                i <= v@.len(),
                v@ == command@,
                forall|k: int| 0 <= k < i ==> white_char(#[trigger] v@[k]),
            decreases v@.len() - i,
        {
            if !is_white_char(v[i]) {
                return Ok(());
            }
            i += 1;
        }
        Err(AlxError::InvalidCommand(String::from_str("Command cannot be empty")))
    }

    /// Whether a name collides with a word the shells reserve.
    pub fn is_reserved_keyword(name: &str) -> (r: bool)
        ensures
            r == reserved_word(name@),
    {
        str_eq(name, "if") || str_eq(name, "then") || str_eq(name, "else") || str_eq(name, "elif")
            || str_eq(name, "fi") || str_eq(name, "case") || str_eq(name, "esac") || str_eq(
            name,
            "for",
        ) || str_eq(name, "select") || str_eq(name, "while") || str_eq(name, "until") || str_eq(
            name,
            "do",
        ) || str_eq(name, "done") || str_eq(name, "in") || str_eq(name, "function") || str_eq(
            name,
            "time",
        ) || str_eq(name, "coproc") || str_eq(name, "cd") || str_eq(name, "exit") || str_eq(
            name,
            "export",
        ) || str_eq(name, "alias") || str_eq(name, "unalias") || str_eq(name, "source") || str_eq(
            name,
            ".",
        ) || str_eq(name, "exec")
    }
}

/// A word one of the shells reserves; such a name shadows shell syntax.
pub open spec fn reserved_word(s: Seq<char>) -> bool {
    ||| s == "if"@
    ||| s == "then"@
    ||| s == "else"@
    ||| s == "elif"@
    ||| s == "fi"@
    ||| s == "case"@
    ||| s == "esac"@
    ||| s == "for"@
    ||| s == "select"@
    ||| s == "while"@
    ||| s == "until"@
    ||| s == "do"@
    ||| s == "done"@
    ||| s == "in"@
    ||| s == "function"@
    ||| s == "time"@
    ||| s == "coproc"@
    ||| s == "cd"@
    ||| s == "exit"@
    ||| s == "export"@
    ||| s == "alias"@
    ||| s == "unalias"@
    ||| s == "source"@
    ||| s == "."@
    ||| s == "exec"@
}

} // verus!
