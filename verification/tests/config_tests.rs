use alx::command::{append_source_line, parse_export_format, source_line, ExportFormat};
use alx::config::{Config, Settings};
use alx::error::AlxError;
use alx::manager::ConfigManager;
use alx::shell::ShellType;

#[test]
fn test_manager_paths() {
    let m = ConfigManager::with_base_dir("/home/u/.config");
    assert_eq!(m.config_dir().as_str(), "/home/u/.config/alx");
    assert_eq!(m.config_file().as_str(), "/home/u/.config/alx/config.toml");
    assert_eq!(m.aliases_file().as_str(), "/home/u/.config/alx/aliases.toml");
    assert_eq!(m.shell_dir(), "/home/u/.config/alx/shell");
    assert_eq!(m.shell_aliases_file(), "/home/u/.config/alx/shell/aliases.sh");
    assert_eq!(m.backup_dir(), "/home/u/.config/alx/backups");
}

#[test]
fn test_default_settings() {
    let s = Settings::default();
    assert!(s.default_shell.is_none());
    assert!(s.auto_sync);
    assert!(s.backup_enabled);
    let c = Config::default();
    assert!(c.settings.auto_sync);
}

#[test]
fn test_source_line() {
    assert_eq!(
        source_line(ShellType::Fish, "/tmp/aliases.sh"),
        "source '/tmp/aliases.sh'"
    );
    assert_eq!(
        source_line(ShellType::Bash, "/tmp/aliases.sh"),
        "[ -f '/tmp/aliases.sh' ] && source '/tmp/aliases.sh'"
    );
}

#[test]
fn test_append_source_line() {
    let line = "source '/tmp/aliases.sh'";
    let spliced = append_source_line("# config", line).unwrap();
    assert_eq!(spliced, "# config\n\n# alx - alias manager\nsource '/tmp/aliases.sh'\n");
    // once the line is present nothing more is added
    assert!(append_source_line(&spliced, line).is_none());
    // an empty file needs no separating newline
    assert_eq!(
        append_source_line("", line).unwrap(),
        "\n# alx - alias manager\nsource '/tmp/aliases.sh'\n"
    );
}

#[test]
fn test_parse_export_format() {
    assert_eq!(parse_export_format("json").unwrap(), ExportFormat::Json);
    assert_eq!(parse_export_format("toml").unwrap(), ExportFormat::Toml);
    match parse_export_format("yaml") {
        Err(AlxError::ConfigError(m)) => assert_eq!(m, "Unsupported format: yaml"),
        other => panic!("expected a configuration error, got {:?}", other),
    }
}
