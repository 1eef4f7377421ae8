use alx::error::AlxError;
use alx::detector::ShellDetector;
use alx::shell::ShellType;

#[test]
fn test_parse_shell_name() {
    assert_eq!(
        ShellDetector::parse_shell_name("bash").unwrap(),
        ShellType::Bash
    );
    assert_eq!(
        ShellDetector::parse_shell_name("zsh").unwrap(),
        ShellType::Zsh
    );
    assert_eq!(
        ShellDetector::parse_shell_name("fish").unwrap(),
        ShellType::Fish
    );
    assert!(ShellDetector::parse_shell_name("unknown").is_err());
}

#[test]
fn test_is_supported() {
    assert!(ShellDetector::is_supported("bash"));
    assert!(ShellDetector::is_supported("zsh"));
    assert!(ShellDetector::is_supported("fish"));
    assert!(!ShellDetector::is_supported("powershell"));
}

#[test]
fn test_detect_env_wins() {
    // the login-shell value decides, whatever the parent process says
    let r = ShellDetector::detect(Some("/usr/bin/zsh"), Some("bash"));
    assert_eq!(r.unwrap(), ShellType::Zsh);
}

#[test]
fn test_detect_unsupported_shell() {
    let r = ShellDetector::detect(Some("/bin/tcsh"), None);
    assert_eq!(r, Err(AlxError::UnsupportedShell("tcsh".to_string())));
}

#[test]
fn test_detect_from_parent_process() {
    assert_eq!(
        ShellDetector::detect(None, Some("  fish\n")).unwrap(),
        ShellType::Fish
    );
    // a present signal names the unsupported value
    assert_eq!(
        ShellDetector::detect(None, Some("python\n")),
        Err(AlxError::UnsupportedShell("python".to_string()))
    );
    // a blank parent name is no signal
    assert_eq!(
        ShellDetector::detect(None, Some("  \n")),
        Err(AlxError::ShellDetectionFailed)
    );
    assert_eq!(
        ShellDetector::detect(None, None),
        Err(AlxError::ShellDetectionFailed)
    );
}

#[test]
fn test_detect_from_path() {
    assert_eq!(
        ShellDetector::detect_from_path("/home/u/.bashrc").unwrap(),
        ShellType::Bash
    );
    assert_eq!(
        ShellDetector::detect_from_path("/home/u/.zshrc").unwrap(),
        ShellType::Zsh
    );
    assert_eq!(
        ShellDetector::detect_from_path("/home/u/.config/fish/config.fish").unwrap(),
        ShellType::Fish
    );
    // the fish directory is enough even when the file name says nothing
    assert_eq!(
        ShellDetector::detect_from_path("/home/u/.config/fish/conf").unwrap(),
        ShellType::Fish
    );
    match ShellDetector::detect_from_path("/home/u/notes.txt") {
        Err(AlxError::ConfigError(m)) => {
            assert_eq!(m, "Could not detect shell type from file path: /home/u/notes.txt")
        }
        other => panic!("expected a configuration error, got {:?}", other),
    }
}
