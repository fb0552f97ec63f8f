use sesh::commands::CommandContext;
use sesh::commands::edit::EditCommand;
use sesh::storage::{DEFAULT_PORT, HostEntry, HostStore, Storage};

fn test_ctx() -> CommandContext {
    CommandContext {
        storage: Storage::new_test("/home/tester".to_string()),
    }
}

fn seed_store() -> HostStore {
    let mut store = HostStore::default();
    store.hosts.push(HostEntry {
        name: "web-1".to_string(),
        host: "203.0.113.10".to_string(),
        user: Some("root".to_string()),
        port: DEFAULT_PORT,
        identity_file: Some("/tmp/key".to_string()),
        tags: vec!["prod".to_string()],
        provider: Some("hetzner".to_string()),
        imported_from: None,
    });
    store
}

fn base_cmd(name: &str) -> EditCommand {
    EditCommand {
        name: name.to_string(),
        rename: None,
        host: None,
        user: None,
        port: None,
        identity_file: None,
        tags: None,
        provider: None,
        clear_user: false,
        clear_identity_file: false,
        clear_tags: false,
        clear_provider: false,
    }
}

#[test]
fn execute_updates_selected_fields() {
    let ctx = test_ctx();
    let mut store = seed_store();
    let cmd = EditCommand {
        host: Some("198.51.100.5".to_string()),
        user: Some("ubuntu".to_string()),
        port: Some(2201),
        tags: Some(vec!["Web".to_string(), "prod".to_string()]),
        provider: Some("  Akamai ".to_string()),
        ..base_cmd("web-1")
    };

    cmd.execute(&ctx, &mut store).unwrap();
    let host = store.get_host("web-1").unwrap();
    assert_eq!(host.host, "198.51.100.5");
    assert_eq!(host.user.as_deref(), Some("ubuntu"));
    assert_eq!(host.port, 2201);
    assert_eq!(host.tags, vec!["prod", "web"]);
    assert_eq!(host.provider.as_deref(), Some("akamai"));
}

#[test]
fn execute_renames_entry() {
    let ctx = test_ctx();
    let mut store = seed_store();
    EditCommand {
        rename: Some("edge-1".to_string()),
        ..base_cmd("web-1")
    }
    .execute(&ctx, &mut store)
    .unwrap();

    assert!(store.get_host("web-1").is_none());
    assert!(store.get_host("edge-1").is_some());
}

#[test]
fn execute_rejects_duplicate_rename() {
    let ctx = test_ctx();
    let mut store = HostStore::default();
    store.hosts.push(HostEntry {
        name: "web-1".to_string(),
        host: "203.0.113.10".to_string(),
        user: None,
        port: DEFAULT_PORT,
        identity_file: None,
        tags: vec![],
        provider: None,
        imported_from: None,
    });
    store.hosts.push(HostEntry {
        name: "db-1".to_string(),
        host: "203.0.113.11".to_string(),
        user: None,
        port: DEFAULT_PORT,
        identity_file: None,
        tags: vec![],
        provider: None,
        imported_from: None,
    });

    let err = EditCommand {
        rename: Some("db-1".to_string()),
        ..base_cmd("web-1")
    }
    .execute(&ctx, &mut store)
    .unwrap_err();
    assert!(err.describe().contains("already exists"));
    assert_eq!(store.hosts[0].name, "web-1");
}

#[test]
fn execute_clears_optional_fields() {
    let ctx = test_ctx();
    let mut store = seed_store();

    EditCommand {
        clear_user: true,
        clear_identity_file: true,
        clear_tags: true,
        clear_provider: true,
        ..base_cmd("web-1")
    }
    .execute(&ctx, &mut store)
    .unwrap();

    let host = store.get_host("web-1").unwrap();
    assert!(host.user.is_none());
    assert!(host.identity_file.is_none());
    assert!(host.tags.is_empty());
    assert!(host.provider.is_none());
}

#[test]
fn execute_rejects_no_changes() {
    let ctx = test_ctx();
    let mut store = seed_store();

    let err = base_cmd("web-1").execute(&ctx, &mut store).unwrap_err();
    assert!(err.describe().contains("No changes"));
}

#[test]
fn execute_rejects_empty_provider() {
    let ctx = test_ctx();
    let mut store = seed_store();

    let err = EditCommand {
        provider: Some("  ".to_string()),
        ..base_cmd("web-1")
    }
    .execute(&ctx, &mut store)
    .unwrap_err();
    assert!(err.describe().contains("Provider cannot be empty"));
}

#[test]
fn execute_rejects_unknown_name_and_blank_rename() {
    let ctx = test_ctx();
    let mut store = seed_store();
    let err = EditCommand {
        port: Some(1),
        ..base_cmd("nope")
    }
    .execute(&ctx, &mut store)
    .unwrap_err();
    assert_eq!(
        err.describe(),
        "Host 'nope' not found. Run `sesh list` to see available names."
    );
    let err = EditCommand {
        rename: Some(" ".to_string()),
        ..base_cmd("web-1")
    }
    .validate()
    .unwrap_err();
    assert_eq!(
        err.describe(),
        "Host name cannot be empty or contain spaces. Use a slug like `web-1`."
    );
    let err = EditCommand {
        host: Some("\t".to_string()),
        ..base_cmd("web-1")
    }
    .validate()
    .unwrap_err();
    assert_eq!(
        err.describe(),
        "Host cannot be empty. Provide a hostname or IP for `--host`."
    );
}

#[test]
fn execute_expands_tilde_for_identity_file() {
    let ctx = test_ctx();
    let mut store = seed_store();
    EditCommand {
        identity_file: Some("~".to_string()),
        ..base_cmd("web-1")
    }
    .execute(&ctx, &mut store)
    .unwrap();
    assert_eq!(
        store.get_host("web-1").unwrap().identity_file.as_deref(),
        Some("/home/tester")
    );
    assert!(base_cmd("web-1").has_changes() == false);
}
