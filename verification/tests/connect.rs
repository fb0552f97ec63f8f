use sesh::commands::CommandContext;
use sesh::commands::connect::ConnectCommand;
use sesh::storage::{DEFAULT_PORT, HostEntry, HostStore, Storage};

fn test_ctx() -> CommandContext {
    CommandContext {
        storage: Storage::new_test("/home/tester".to_string()),
    }
}

fn base_cmd(target: &str) -> ConnectCommand {
    ConnectCommand {
        target: target.to_string(),
        host: None,
        user: None,
        port: None,
        identity_file: None,
        tags: vec![],
        provider: None,
        save_as: None,
        dry_run: true,
    }
}

fn stored(name: &str, host: &str, user: Option<&str>, port: u16) -> HostEntry {
    HostEntry {
        name: name.to_string(),
        host: host.to_string(),
        user: user.map(|u| u.to_string()),
        port,
        identity_file: None,
        tags: vec![],
        provider: None,
        imported_from: None,
    }
}

#[test]
fn execute_auto_adds_from_host_flag() {
    let ctx = test_ctx();
    let mut store = HostStore::default();
    let cmd = ConnectCommand {
        host: Some("203.0.113.10".to_string()),
        user: Some("root".to_string()),
        port: Some(2222),
        tags: vec!["Prod".to_string(), "web".to_string()],
        provider: Some(" Hetzner ".to_string()),
        ..base_cmd("web-1")
    };

    let plan = cmd.execute(&ctx, &mut store).unwrap();
    assert_eq!(store.hosts.len(), 1);
    assert_eq!(store.hosts[0].name, "web-1");
    assert_eq!(store.hosts[0].host, "203.0.113.10");
    assert_eq!(store.hosts[0].user.as_deref(), Some("root"));
    assert_eq!(store.hosts[0].port, 2222);
    assert_eq!(store.hosts[0].provider.as_deref(), Some("hetzner"));
    assert_eq!(store.hosts[0].tags, vec!["prod", "web"]);
    assert_eq!(plan.added.as_deref(), Some("web-1"));
    assert_eq!(plan.ssh_args, vec!["-p", "2222", "-l", "root", "203.0.113.10"]);
    assert!(plan.dry_run);
}

#[test]
fn execute_auto_adds_from_user_host_target() {
    let ctx = test_ctx();
    let mut store = HostStore::default();
    base_cmd("ubuntu@203.0.113.10")
        .execute(&ctx, &mut store)
        .unwrap();

    assert_eq!(store.hosts.len(), 1);
    assert_eq!(store.hosts[0].name, "203.0.113.10");
    assert_eq!(store.hosts[0].host, "203.0.113.10");
    assert_eq!(store.hosts[0].user.as_deref(), Some("ubuntu"));
}

#[test]
fn execute_uses_save_as_when_auto_adding() {
    let ctx = test_ctx();
    let mut store = HostStore::default();
    let cmd = ConnectCommand {
        save_as: Some("edge-box".to_string()),
        ..base_cmd("root@198.51.100.5")
    };

    cmd.execute(&ctx, &mut store).unwrap();
    assert_eq!(store.hosts[0].name, "edge-box");
    assert_eq!(store.hosts[0].host, "198.51.100.5");
}

#[test]
fn execute_requires_auto_add_details_for_unknown_names() {
    let ctx = test_ctx();
    let mut store = HostStore::default();
    let err = base_cmd("web-1").execute(&ctx, &mut store).unwrap_err();
    assert!(err.describe().contains("not found"));
    assert!(store.hosts.is_empty());
}

#[test]
fn execute_rejects_auto_add_flags_for_existing_entry() {
    let ctx = test_ctx();
    let mut store = HostStore::default();
    store
        .hosts
        .push(stored("web-1", "203.0.113.10", Some("root"), DEFAULT_PORT));

    let err = ConnectCommand {
        host: Some("198.51.100.1".to_string()),
        ..base_cmd("web-1")
    }
    .execute(&ctx, &mut store)
    .unwrap_err();
    assert!(err.describe().contains("auto-add flags"));
}

#[test]
fn execute_existing_entry_uses_stored_arguments() {
    let ctx = test_ctx();
    let mut store = HostStore::default();
    store
        .hosts
        .push(stored("web-1", "203.0.113.10", Some("root"), DEFAULT_PORT));
    let plan = base_cmd("web-1").execute(&ctx, &mut store).unwrap();
    assert_eq!(plan.ssh_args, vec!["-l", "root", "203.0.113.10"]);
    assert!(plan.added.is_none());
    assert_eq!(store.hosts.len(), 1);
}

#[test]
fn execute_connects_to_auto_added_entry_afterwards() {
    let ctx = test_ctx();
    let mut store = HostStore::default();
    let first = base_cmd("admin@db.example.com")
        .execute(&ctx, &mut store)
        .unwrap();
    let second = base_cmd("db.example.com")
        .execute(&ctx, &mut store)
        .unwrap();
    assert_eq!(first.ssh_args, second.ssh_args);
    assert!(second.added.is_none());
}

#[test]
fn execute_rejects_auto_add_over_existing_name() {
    let ctx = test_ctx();
    let mut store = HostStore::default();
    store
        .hosts
        .push(stored("edge", "198.51.100.9", None, DEFAULT_PORT));
    let err = ConnectCommand {
        save_as: Some("edge".to_string()),
        ..base_cmd("root@198.51.100.5")
    }
    .execute(&ctx, &mut store)
    .unwrap_err();
    assert_eq!(
        err.describe(),
        "Host 'edge' already exists. Use a different name or remove the existing entry first."
    );
    assert_eq!(store.hosts.len(), 1);
}

#[test]
fn execute_rejects_user_given_twice() {
    let ctx = test_ctx();
    let mut store = HostStore::default();
    let err = ConnectCommand {
        user: Some("admin".to_string()),
        ..base_cmd("root@198.51.100.5")
    }
    .execute(&ctx, &mut store)
    .unwrap_err();
    assert_eq!(
        err.describe(),
        "SSH user is set twice. Use either `user@host` or `--user`, not both."
    );
}

#[test]
fn parse_destination_target_cases() {
    let (user, host) = ConnectCommand::parse_destination_target("me@box")
        .unwrap()
        .unwrap();
    assert_eq!(user.as_deref(), Some("me"));
    assert_eq!(host, "box");
    let (user, host) = ConnectCommand::parse_destination_target("::1")
        .unwrap()
        .unwrap();
    assert!(user.is_none());
    assert_eq!(host, "::1");
    assert!(
        ConnectCommand::parse_destination_target("plainname")
            .unwrap()
            .is_none()
    );
    let err = ConnectCommand::parse_destination_target("a@b@c").unwrap_err();
    assert_eq!(err.describe(), "Invalid destination 'a@b@c'. Use `user@host`.");
    assert!(ConnectCommand::parse_destination_target("@host").is_err());
    assert!(ConnectCommand::parse_destination_target("user@").is_err());
}

#[test]
fn to_entry_drops_blank_provider_and_rejects_blank_host() {
    let ctx = test_ctx();
    let cmd = ConnectCommand {
        provider: Some("   ".to_string()),
        ..base_cmd("x")
    };
    let e = cmd
        .to_entry(&ctx, "x".to_string(), "h".to_string(), None)
        .unwrap();
    assert!(e.provider.is_none());
    assert_eq!(e.port, 22);
    let err = cmd
        .to_entry(&ctx, "x".to_string(), "  ".to_string(), None)
        .unwrap_err();
    assert_eq!(
        err.describe(),
        "Host cannot be empty. Provide `--host` with a hostname or IP."
    );
    let err = cmd
        .to_entry(&ctx, " ".to_string(), "h".to_string(), None)
        .unwrap_err();
    assert!(err.describe().starts_with("Host name cannot be empty or contain spaces."));
}

#[test]
fn shell_escape_args_quotes_unsafe_words() {
    let args = vec![
        "-p".to_string(),
        "2222".to_string(),
        "user@host.example:22".to_string(),
        "my key".to_string(),
        "it's".to_string(),
        "".to_string(),
    ];
    assert_eq!(
        ConnectCommand::shell_escape_args(&args),
        "-p 2222 user@host.example:22 'my key' 'it'\\''s' "
    );
    assert_eq!(ConnectCommand::dry_run_line(&vec!["h".to_string()]), "ssh h");
}

#[test]
fn uses_auto_add_flags_detects_each_flag() {
    assert!(!base_cmd("t").uses_auto_add_flags());
    let cmd = ConnectCommand {
        tags: vec!["x".to_string()],
        ..base_cmd("t")
    };
    assert!(cmd.uses_auto_add_flags());
    assert!(cmd.ensure_no_auto_add_flags_for_existing_entry().is_err());
    assert!(base_cmd("t").ensure_no_auto_add_flags_for_existing_entry().is_ok());
}
