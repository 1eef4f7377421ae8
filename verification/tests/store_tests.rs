use alx::alias::Alias;
use alx::error::AlxError;
use alx::store::AliasStore;

#[test]
fn test_new_alias() {
    let alias = Alias::new("ll".to_string(), "ls -la".to_string());
    assert_eq!(alias.name, "ll");
    assert_eq!(alias.command, "ls -la");
    assert!(alias.description.is_none());
    assert!(alias.group.is_none());
}

#[test]
fn test_alias_with_description() {
    let alias = Alias::new("ll".to_string(), "ls -la".to_string())
        .with_description("List all files".to_string());
    assert_eq!(alias.description, Some("List all files".to_string()));
}

#[test]
fn test_alias_with_group() {
    let alias =
        Alias::new("gs".to_string(), "git status".to_string()).with_group("git".to_string());
    assert_eq!(alias.group, Some("git".to_string()));
}

#[test]
fn test_add_alias() {
    let mut store = AliasStore::new();
    let alias = Alias::new("ll".to_string(), "ls -la".to_string());

    assert!(store.add(alias.clone()).is_ok());
    assert_eq!(store.aliases.len(), 1);
    assert!(store.add(alias).is_err()); // Duplicate
}

#[test]
fn test_remove_alias() {
    let mut store = AliasStore::new();
    let alias = Alias::new("ll".to_string(), "ls -la".to_string());
    store.add(alias).unwrap();

    assert!(store.remove("ll").is_ok());
    assert_eq!(store.aliases.len(), 0);
    assert!(store.remove("ll").is_err()); // Not found
}

#[test]
fn test_search() {
    let mut store = AliasStore::new();
    store
        .add(Alias::new("ll".to_string(), "ls -la".to_string()))
        .unwrap();
    store
        .add(Alias::new("gs".to_string(), "git status".to_string()))
        .unwrap();

    let results = store.search("git");
    assert_eq!(results.len(), 1);
    assert_eq!(results[0].name, "gs");
}

#[test]
fn test_groups() {
    let mut store = AliasStore::new();
    store
        .add(
            Alias::new("gs".to_string(), "git status".to_string())
                .with_group("git".to_string()),
        )
        .unwrap();
    store
        .add(Alias::new("gp".to_string(), "git push".to_string()).with_group("git".to_string()))
        .unwrap();
    store
        .add(
            Alias::new("dps".to_string(), "docker ps".to_string())
                .with_group("docker".to_string()),
        )
        .unwrap();

    let groups = store.groups();
    assert_eq!(groups.len(), 2);
    assert!(groups.contains(&"git".to_string()));
    assert!(groups.contains(&"docker".to_string()));
}

#[test]
fn test_groups_sorted_ascending() {
    let mut store = AliasStore::new();
    store
        .add(Alias::new("z1".to_string(), "cmd".to_string()).with_group("zeta".to_string()))
        .unwrap();
    store
        .add(Alias::new("a1".to_string(), "cmd".to_string()).with_group("alpha".to_string()))
        .unwrap();
    store
        .add(Alias::new("m1".to_string(), "cmd".to_string()).with_group("midway".to_string()))
        .unwrap();
    store
        .add(Alias::new("z2".to_string(), "cmd".to_string()).with_group("zeta".to_string()))
        .unwrap();
    assert_eq!(store.groups(), vec!["alpha", "midway", "zeta"]);
}

#[test]
fn test_search_is_case_insensitive() {
    let mut store = AliasStore::new();
    store
        .add(Alias::new("gs".to_string(), "Git Status".to_string()))
        .unwrap();
    let results = store.search("GIT");
    assert_eq!(results.len(), 1);
    assert_eq!(results[0].name, "gs");
}

#[test]
fn test_search_matches_description() {
    let mut store = AliasStore::new();
    store
        .add(
            Alias::new("ll".to_string(), "ls -la".to_string())
                .with_description("list directory contents".to_string()),
        )
        .unwrap();
    assert_eq!(store.search("directory").len(), 1);
    assert_eq!(store.search("nothing-here").len(), 0);
}

#[test]
fn test_list_by_group() {
    let mut store = AliasStore::new();
    store
        .add(Alias::new("gs".to_string(), "git status".to_string()).with_group("git".to_string()))
        .unwrap();
    store
        .add(Alias::new("ll".to_string(), "ls -la".to_string()))
        .unwrap();
    store
        .add(Alias::new("gp".to_string(), "git push".to_string()).with_group("git".to_string()))
        .unwrap();

    let git = store.list_by_group("git");
    assert_eq!(git.len(), 2);
    assert_eq!(git[0].name, "gs");
    assert_eq!(git[1].name, "gp");
    assert!(store.list_by_group("docker").is_empty());
}

#[test]
fn test_add_error_names_alias() {
    let mut store = AliasStore::new();
    store
        .add(Alias::new("ll".to_string(), "ls -la".to_string()))
        .unwrap();
    match store.add(Alias::new("ll".to_string(), "ls".to_string())) {
        Err(AlxError::AliasExists(name)) => assert_eq!(name, "ll"),
        _ => panic!("expected an already-exists error"),
    }
    match store.remove("gone") {
        Err(AlxError::AliasNotFound(name)) => assert_eq!(name, "gone"),
        _ => panic!("expected a not-found error"),
    }
}

#[test]
fn test_edit_alias() {
    let mut store = AliasStore::new();
    store
        .add(Alias::new("ll".to_string(), "ls -la".to_string()))
        .unwrap();
    store
        .edit("ll", Some("ls -lah".to_string()), Some("long list".to_string()), None)
        .unwrap();
    assert_eq!(store.list()[0].command, "ls -lah");
    assert_eq!(store.list()[0].description, Some("long list".to_string()));
    assert!(store.edit("missing", None, None, None).is_err());
}

#[test]
fn test_remove_many() {
    let mut store = AliasStore::new();
    store
        .add(Alias::new("a".to_string(), "cmd a".to_string()))
        .unwrap();
    store
        .add(Alias::new("b".to_string(), "cmd b".to_string()))
        .unwrap();
    let names = vec!["a".to_string(), "missing".to_string(), "b".to_string()];
    let (count, errors) = store.remove_many(&names);
    assert_eq!(count, 2);
    assert_eq!(errors.len(), 1);
    match &errors[0] {
        AlxError::AliasNotFound(name) => assert_eq!(name, "missing"),
        _ => panic!("expected a not-found error"),
    }
    assert!(store.aliases.is_empty());
}

#[test]
fn test_merge_pairs_skips_duplicates() {
    let mut store = AliasStore::new();
    store
        .add(Alias::new("ll".to_string(), "ls -la".to_string()))
        .unwrap();
    let pairs = vec![
        ("ll".to_string(), "ls".to_string()),
        ("gs".to_string(), "git status".to_string()),
        ("gs".to_string(), "git st".to_string()),
    ];
    let (added, skipped) = store.merge_pairs(&pairs);
    assert_eq!(added, 1);
    assert_eq!(skipped, 2);
    assert_eq!(store.aliases.len(), 2);
    assert_eq!(store.aliases[0].command, "ls -la");
    assert_eq!(store.aliases[1].name, "gs");
    assert_eq!(store.aliases[1].command, "git status");
}

#[test]
fn test_import_records() {
    let mut store = AliasStore::new();
    store
        .add(Alias::new("ll".to_string(), "ls -la".to_string()))
        .unwrap();
    let incoming = vec![
        Alias::new("ll".to_string(), "ls".to_string()),
        Alias::new("gp".to_string(), "git push".to_string()).with_group("git".to_string()),
    ];
    let (added, skipped) = store.import_records(incoming);
    assert_eq!(added, 1);
    assert_eq!(skipped, 1);
    assert_eq!(store.aliases.len(), 2);
    assert_eq!(store.aliases[1].name, "gp");
    assert_eq!(store.aliases[1].group, Some("git".to_string()));
}

#[test]
fn test_contains() {
    let mut store = AliasStore::new();
    assert!(!store.contains("ll"));
    store
        .add(Alias::new("ll".to_string(), "ls -la".to_string()))
        .unwrap();
    assert!(store.contains("ll"));
    assert!(!store.contains("lL"));
}
