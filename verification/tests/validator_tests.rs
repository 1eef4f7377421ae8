use alx::error::AlxError;
use alx::validator::AliasValidator;

#[test]
fn test_valid_names() {
    assert!(AliasValidator::validate_name("ll").is_ok());
    assert!(AliasValidator::validate_name("my_alias").is_ok());
    assert!(AliasValidator::validate_name("my-alias").is_ok());
    assert!(AliasValidator::validate_name("_private").is_ok());
    assert!(AliasValidator::validate_name("alias123").is_ok());
}

#[test]
fn test_invalid_names() {
    assert!(AliasValidator::validate_name("").is_err());
    assert!(AliasValidator::validate_name("my alias").is_err());
    assert!(AliasValidator::validate_name("123alias").is_err());
    assert!(AliasValidator::validate_name("-alias").is_err());
    assert!(AliasValidator::validate_name("my@alias").is_err());
}

#[test]
fn test_valid_commands() {
    assert!(AliasValidator::validate_command("ls -la").is_ok());
    assert!(AliasValidator::validate_command("git status").is_ok());
}

#[test]
fn test_invalid_commands() {
    assert!(AliasValidator::validate_command("").is_err());
    assert!(AliasValidator::validate_command("   ").is_err());
}

#[test]
fn test_reserved_keywords() {
    assert!(AliasValidator::is_reserved_keyword("if"));
    assert!(AliasValidator::is_reserved_keyword("export"));
    assert!(!AliasValidator::is_reserved_keyword("myalias"));
}

#[test]
fn test_name_error_messages() {
    match AliasValidator::validate_name("") {
        Err(AlxError::InvalidAliasName(m)) => assert_eq!(m, "Alias name cannot be empty"),
        _ => panic!("expected an invalid-name error"),
    }
    match AliasValidator::validate_name("my alias") {
        Err(AlxError::InvalidAliasName(m)) => assert_eq!(m, "Alias name cannot contain spaces"),
        _ => panic!("expected an invalid-name error"),
    }
    match AliasValidator::validate_name("123alias") {
        Err(AlxError::InvalidAliasName(m)) => {
            assert_eq!(m, "Alias name must start with a letter or underscore")
        }
        _ => panic!("expected an invalid-name error"),
    }
    match AliasValidator::validate_name("my@alias") {
        Err(AlxError::InvalidAliasName(m)) => {
            assert_eq!(m, "Alias name contains invalid character: '@'")
        }
        _ => panic!("expected an invalid-name error"),
    }
}

#[test]
fn test_command_error_message() {
    match AliasValidator::validate_command("  \t ") {
        Err(AlxError::InvalidCommand(m)) => assert_eq!(m, "Command cannot be empty"),
        _ => panic!("expected an invalid-command error"),
    }
}

#[test]
fn test_unicode_names() {
    assert!(AliasValidator::validate_name("caf\u{e9}").is_ok());
    assert!(AliasValidator::validate_name("\u{e9}clair").is_ok());
}
