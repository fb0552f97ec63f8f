use std::path::Path;

use sesh::commands::CommandContext;
use sesh::commands::add::AddCommand;
use sesh::storage::{DEFAULT_PORT, HostStore, Storage};

const HOME: &str = "/home/tester";

fn test_ctx() -> CommandContext {
    CommandContext {
        storage: Storage::new_test(HOME.to_string()),
    }
}

fn base_cmd(name: &str, host: &str) -> AddCommand {
    AddCommand {
        name: name.to_string(),
        host: host.to_string(),
        user: None,
        port: DEFAULT_PORT,
        identity_file: None,
        tags: vec![],
        provider: None,
    }
}

// ---- normalize_tags ----

#[test]
fn normalize_tags_empty_input() {
    assert!(AddCommand::normalize_tags(vec![]).is_empty());
}

#[test]
fn normalize_tags_trims_and_lowercases() {
    let tags = vec!["  Prod ".to_string(), "DEV".to_string()];
    assert_eq!(AddCommand::normalize_tags(tags), vec!["dev", "prod"]);
}

#[test]
fn normalize_tags_deduplicates() {
    let tags = vec!["web".to_string(), "web".to_string(), "db".to_string()];
    assert_eq!(AddCommand::normalize_tags(tags), vec!["db", "web"]);
}

#[test]
fn normalize_tags_filters_blank_entries() {
    let tags = vec!["".to_string(), "  ".to_string(), "ok".to_string()];
    assert_eq!(AddCommand::normalize_tags(tags), vec!["ok"]);
}

#[test]
fn normalize_tags_is_idempotent() {
    let once = AddCommand::normalize_tags(vec![
        " Web".to_string(),
        "db".to_string(),
        "WEB".to_string(),
        "\tProd\r\n".to_string(),
    ]);
    assert_eq!(once, vec!["db", "prod", "web"]);
    let twice = AddCommand::normalize_tags(once.clone());
    assert_eq!(twice, once);
}

#[test]
fn normalize_tags_trims_unicode_whitespace_only() {
    let tags = vec!["\u{00A0}Édge\u{3000}".to_string(), "ÄB".to_string()];
    // Only ASCII letters are lowered; non-ASCII ones are kept.
    assert_eq!(AddCommand::normalize_tags(tags), vec!["Äb", "Édge"]);
}

// ---- validate ----

#[test]
fn validate_rejects_name_with_spaces() {
    let cmd = base_cmd("my server", "1.2.3.4");
    assert!(cmd.validate().is_err());
}

#[test]
fn validate_accepts_valid_name() {
    let cmd = base_cmd("web-1", "1.2.3.4");
    assert!(cmd.validate().is_ok());
}

// ---- into_entry ----

#[test]
fn into_entry_basic_fields() {
    let ctx = test_ctx();
    let cmd = AddCommand {
        user: Some("root".to_string()),
        port: 2222,
        provider: Some("  Hetzner ".to_string()),
        tags: vec!["prod".to_string(), "web".to_string()],
        ..base_cmd("web-1", "10.0.0.1")
    };
    let entry = cmd.into_entry(&ctx);
    assert_eq!(entry.name, "web-1");
    assert_eq!(entry.host, "10.0.0.1");
    assert_eq!(entry.user.as_deref(), Some("root"));
    assert_eq!(entry.port, 2222);
    assert_eq!(entry.provider.as_deref(), Some("hetzner"));
    assert_eq!(entry.tags, vec!["prod", "web"]);
    assert!(entry.imported_from.is_none());
}

#[test]
fn into_entry_expands_tilde_in_identity_file() {
    let ctx = test_ctx();
    let cmd = AddCommand {
        identity_file: Some("~/.ssh/id_ed25519".to_string()),
        ..base_cmd("box", "1.2.3.4")
    };
    let entry = cmd.into_entry(&ctx);
    let expected = Path::new(HOME).join(".ssh/id_ed25519");
    assert_eq!(
        entry.identity_file.as_deref(),
        Some(expected.to_str().unwrap())
    );
}

#[test]
fn into_entry_absolute_identity_file_unchanged() {
    let ctx = test_ctx();
    let cmd = AddCommand {
        identity_file: Some("/etc/ssh/key".to_string()),
        ..base_cmd("box", "1.2.3.4")
    };
    let entry = cmd.into_entry(&ctx);
    assert_eq!(entry.identity_file.as_deref(), Some("/etc/ssh/key"));
}

// ---- execute ----

#[test]
fn execute_adds_host_to_store() {
    let ctx = test_ctx();
    let mut store = HostStore::default();
    let cmd = base_cmd("web-1", "10.0.0.1");
    cmd.execute(&ctx, &mut store).unwrap();

    assert_eq!(store.hosts.len(), 1);
    assert_eq!(store.hosts[0].name, "web-1");
}

#[test]
fn execute_rejects_duplicate_name() {
    let ctx = test_ctx();
    let mut store = HostStore::default();
    base_cmd("dup", "1.1.1.1").execute(&ctx, &mut store).unwrap();

    let err = base_cmd("dup", "2.2.2.2")
        .execute(&ctx, &mut store)
        .unwrap_err();
    assert!(err.describe().contains("already exists"));
    assert_eq!(store.hosts.len(), 1);
    assert_eq!(store.hosts[0].host, "1.1.1.1");
}

#[test]
fn execute_sorts_hosts_alphabetically() {
    let ctx = test_ctx();
    let mut store = HostStore::default();
    base_cmd("zeta", "1.1.1.1").execute(&ctx, &mut store).unwrap();
    base_cmd("alpha", "2.2.2.2").execute(&ctx, &mut store).unwrap();

    let names: Vec<&str> = store.hosts.iter().map(|h| h.name.as_str()).collect();
    assert_eq!(names, vec!["alpha", "zeta"]);
}

#[test]
fn execute_rejects_name_with_space() {
    let ctx = test_ctx();
    let mut store = HostStore::default();
    let err = base_cmd("bad name", "1.1.1.1")
        .execute(&ctx, &mut store)
        .unwrap_err();
    assert!(err.describe().contains("spaces"));
    assert!(store.hosts.is_empty());
}

#[test]
fn execute_then_get_host_finds_added_entry() {
    let ctx = test_ctx();
    let mut store = HostStore::default();
    base_cmd("mid", "3.3.3.3").execute(&ctx, &mut store).unwrap();
    base_cmd("a", "1.1.1.1").execute(&ctx, &mut store).unwrap();
    base_cmd("z", "2.2.2.2").execute(&ctx, &mut store).unwrap();
    let found = store.get_host("z").unwrap();
    assert_eq!(found.host, "2.2.2.2");
    assert_eq!(store.position("mid"), Some(1));
}
