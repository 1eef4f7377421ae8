use alx::alias::Alias;
use alx::shell::{config_path_in, parse_existing, render_file, render_line, ShellType};

fn record(name: &str, command: &str) -> Alias {
    Alias::new(name.to_string(), command.to_string())
}

#[test]
fn test_shell_type_as_str() {
    assert_eq!(ShellType::Bash.as_str(), "bash");
    assert_eq!(ShellType::Zsh.as_str(), "zsh");
    assert_eq!(ShellType::Fish.as_str(), "fish");
}

#[test]
fn test_escaping_posix_line() {
    // the documented escaping of a command holding both quote styles
    let a = record("ll", "it's \"quoted\"");
    let line = render_line(ShellType::Bash, &a);
    assert_eq!(line, "alias ll='it'\\''s \"quoted\"'");
    assert!(line.contains("'it'\\''s \"quoted\"'"));
    let pairs = parse_existing(ShellType::Bash, &line);
    assert_eq!(pairs, vec![("ll".to_string(), "it's \"quoted\"".to_string())]);
}

#[test]
fn test_fish_line() {
    let a = record("gs", "git status");
    let line = render_line(ShellType::Fish, &a);
    assert_eq!(line, "alias gs 'git status'");
}

#[test]
fn test_round_trip_special_characters() {
    // embedded single quotes, double quotes, backslashes and pipes survive a
    // render / parse cycle in every dialect
    let commands = [
        "it's 'tricky'",
        "echo \"a\" | grep \\\"b\\\"",
        "sed 's/\\\\/x/' | tr -d \"'\"",
        "awk '{print $1}' | sort | uniq -c",
    ];
    for shell in [ShellType::Bash, ShellType::Zsh, ShellType::Fish] {
        for command in commands {
            let records = vec![record("rt", command)];
            let text = render_file(shell, &records);
            let pairs = parse_existing(shell, &text);
            assert_eq!(pairs, vec![("rt".to_string(), command.to_string())]);
        }
    }
}

#[test]
fn test_round_trip_many_records() {
    let records = vec![
        record("ll", "ls -la"),
        record("gs", "git status"),
        record("qq", "echo 'it'\\''s done'"),
    ];
    for shell in [ShellType::Bash, ShellType::Zsh, ShellType::Fish] {
        let text = render_file(shell, &records);
        let pairs = parse_existing(shell, &text);
        assert_eq!(
            pairs,
            vec![
                ("ll".to_string(), "ls -la".to_string()),
                ("gs".to_string(), "git status".to_string()),
                ("qq".to_string(), "echo 'it'\\''s done'".to_string()),
            ]
        );
    }
}

#[test]
fn test_render_file_empty_is_header_only() {
    for shell in [ShellType::Bash, ShellType::Zsh, ShellType::Fish] {
        let text = render_file(shell, &vec![]);
        assert_eq!(text, "# alx aliases\n");
        // rendering is deterministic: the same input gives identical bytes
        assert_eq!(text, render_file(shell, &vec![]));
    }
}

#[test]
fn test_render_file_two_records() {
    let records = vec![record("ll", "ls -la"), record("gs", "git status")];
    let text = render_file(ShellType::Zsh, &records);
    assert_eq!(
        text,
        "# alx aliases\nalias ll='ls -la'\nalias gs='git status'\n"
    );
    let again = render_file(ShellType::Zsh, &records);
    assert_eq!(text, again);
}

#[test]
fn test_noise_tolerance() {
    // comments, blank lines and unrelated statements are skipped; the three
    // declarations come back in file order
    let content = "# my shell setup\n\nexport FOO=bar\nalias ll='ls -la'\n  alias gs='git status'\nif [ -f x ]; then\n  echo hi\nfi\nalias gp='git push'\n";
    let pairs = parse_existing(ShellType::Bash, content);
    assert_eq!(
        pairs,
        vec![
            ("ll".to_string(), "ls -la".to_string()),
            ("gs".to_string(), "git status".to_string()),
            ("gp".to_string(), "git push".to_string()),
        ]
    );
}

#[test]
fn test_parse_double_quoted_and_unquoted() {
    let content = "alias a=\"echo \\\"hi\\\" \\\\ there\"\nalias b=ls\n";
    let pairs = parse_existing(ShellType::Bash, content);
    assert_eq!(
        pairs,
        vec![
            ("a".to_string(), "echo \"hi\" \\ there".to_string()),
            ("b".to_string(), "ls".to_string()),
        ]
    );
}

#[test]
fn test_malformed_lines_are_skipped() {
    let content = "alias x='unterminated\nalias ='no name'\nalias y\nalias z='a'\"b\"\nalias =\nalias ok='fine'\n";
    let pairs = parse_existing(ShellType::Bash, content);
    assert_eq!(pairs, vec![("ok".to_string(), "fine".to_string())]);
}

#[test]
fn test_empty_command_is_skipped() {
    let pairs = parse_existing(ShellType::Bash, "alias empty=''\nalias e2=\"\"\nalias e3=\n");
    assert!(pairs.is_empty());
}

#[test]
fn test_fish_parse_alias_and_function() {
    let content = "# fish config\nalias ll 'ls -la'\nfunction gs\n    git status\nend\n";
    let pairs = parse_existing(ShellType::Fish, content);
    assert_eq!(
        pairs,
        vec![
            ("ll".to_string(), "ls -la".to_string()),
            ("gs".to_string(), "git status".to_string()),
        ]
    );
}

#[test]
fn test_fish_function_with_control_flow_is_skipped() {
    let content = "function bad\n    if test -f x\nend\nalias ok 'pwd'\n";
    let pairs = parse_existing(ShellType::Fish, content);
    assert_eq!(pairs, vec![("ok".to_string(), "pwd".to_string())]);
}

#[test]
fn test_fish_function_with_two_statements_is_skipped() {
    let content = "function two\n    cd /tmp\n    ls\nend\nfunction semi\n    cd /tmp; ls\nend\n";
    let pairs = parse_existing(ShellType::Fish, content);
    assert!(pairs.is_empty());
}

#[test]
fn test_fish_unterminated_function_swallows_rest() {
    let content = "function open\n    ls\nalias ll 'ls -la'\n";
    let pairs = parse_existing(ShellType::Fish, content);
    assert!(pairs.is_empty());
}

#[test]
fn test_parse_empty_content() {
    for shell in [ShellType::Bash, ShellType::Zsh, ShellType::Fish] {
        assert!(parse_existing(shell, "").is_empty());
        assert!(parse_existing(shell, "\n\n# only comments\n").is_empty());
    }
}

#[test]
fn test_round_trip_hyphen_and_underscore_names() {
    let records = vec![record("my-alias", "ls"), record("_private", "pwd")];
    for shell in [ShellType::Bash, ShellType::Zsh, ShellType::Fish] {
        let text = render_file(shell, &records);
        let pairs = parse_existing(shell, &text);
        assert_eq!(
            pairs,
            vec![
                ("my-alias".to_string(), "ls".to_string()),
                ("_private".to_string(), "pwd".to_string()),
            ]
        );
    }
}

#[test]
fn test_config_path_under_home() {
    // resolution depends on the environment; when a home directory is known
    // the path must end in the dialect's startup file
    if let Ok(p) = alx::shell::config_path(ShellType::Bash) {
        assert!(p.ends_with("/.bashrc"));
    }
    if let Ok(p) = alx::shell::config_path(ShellType::Fish) {
        assert!(p.ends_with("/.config/fish/config.fish"));
    }
}

#[test]
fn test_config_path_per_dialect() {
    assert_eq!(config_path_in(ShellType::Bash, "/home/u"), "/home/u/.bashrc");
    assert_eq!(config_path_in(ShellType::Zsh, "/home/u"), "/home/u/.zshrc");
    assert_eq!(
        config_path_in(ShellType::Fish, "/home/u"),
        "/home/u/.config/fish/config.fish"
    );
}
