use sesh::commands::CommandContext;
use sesh::commands::import::{ImportCommand, ImportMergeSummary, ImportPlan, SshConfigImporter};
use sesh::storage::{DEFAULT_PORT, HostEntry, HostStore, Storage};

#[test]
fn parses_basic_ssh_config() {
    let content = r#"
Host web-1
  HostName 203.0.113.10
  User root
  Port 2222
  IdentityFile ~/.ssh/id_ed25519

Host *
  ForwardAgent no

Host db-1 db-2
  HostName 10.0.0.8
"#;
    let importer = SshConfigImporter::new(
        "/tmp".to_string(),
        "/tmp/.ssh/config".to_string(),
        vec![],
        Some("hetzner".to_string()),
    );
    let entries = importer.parse(content);
    assert_eq!(entries.len(), 3);
    assert!(entries.iter().any(|e| e.name == "web-1" && e.port == 2222));
    assert!(entries.iter().any(|e| e.name == "db-1"));
    assert!(entries.iter().any(|e| e.name == "db-2"));
    assert!(
        entries
            .iter()
            .all(|e| e.provider.as_deref() == Some("hetzner"))
    );
}

#[test]
fn skips_wildcard_aliases() {
    let content = r#"
Host web-*
  HostName 1.2.3.4
Host exact
  HostName 5.6.7.8
"#;
    let importer = SshConfigImporter::new(
        "/tmp".to_string(),
        "/tmp/.ssh/config".to_string(),
        vec![],
        None,
    );
    let entries = importer.parse(content);
    assert_eq!(entries.len(), 1);
    assert_eq!(entries[0].name, "exact");
}

#[test]
fn parse_fills_every_field() {
    let content = "host web-1 # main box\r\n  hostname 203.0.113.10\r\n  USER  deploy\n  Port 2222\n  IdentityFile ~/.ssh/id\nHost bare\n";
    let importer = SshConfigImporter::new(
        "/home/me".to_string(),
        "/home/me/.ssh/config".to_string(),
        vec!["prod".to_string()],
        None,
    );
    let entries = importer.parse(content);
    assert_eq!(entries.len(), 2);
    assert_eq!(entries[0].name, "bare");
    assert_eq!(entries[0].host, "bare");
    assert_eq!(entries[0].port, DEFAULT_PORT);
    assert!(entries[0].user.is_none());
    let web = &entries[1];
    assert_eq!(web.name, "web-1");
    assert_eq!(web.host, "203.0.113.10");
    assert_eq!(web.user.as_deref(), Some("deploy"));
    assert_eq!(web.port, 2222);
    assert_eq!(web.identity_file.as_deref(), Some("/home/me/.ssh/id"));
    assert_eq!(web.tags, vec!["prod"]);
    assert_eq!(web.imported_from.as_deref(), Some("/home/me/.ssh/config"));
}

#[test]
fn parse_later_block_wins_and_bad_port_is_default() {
    let content = "Host a\n  Port 99999\nHost a\n  HostName second\n  Port +2200\nHost b\n  Port 22x\n";
    let importer = SshConfigImporter::new("/h".to_string(), "/h/c".to_string(), vec![], None);
    let entries = importer.parse(content);
    assert_eq!(entries.len(), 2);
    assert_eq!(entries[0].name, "a");
    assert_eq!(entries[0].host, "second");
    assert_eq!(entries[0].port, 2200);
    assert_eq!(entries[1].port, DEFAULT_PORT);
}

#[test]
fn is_importable_alias_rejects_patterns() {
    assert!(SshConfigImporter::is_importable_alias("web-1"));
    assert!(!SshConfigImporter::is_importable_alias("*"));
    assert!(!SshConfigImporter::is_importable_alias("web?"));
    assert!(!SshConfigImporter::is_importable_alias("!bad"));
}

fn entry(name: &str, host: &str) -> HostEntry {
    HostEntry {
        name: name.to_string(),
        host: host.to_string(),
        user: None,
        port: DEFAULT_PORT,
        identity_file: None,
        tags: vec![],
        provider: None,
        imported_from: None,
    }
}

#[test]
fn merge_counts_added_replaced_skipped() {
    let mut store = HostStore::default();
    store.hosts.push(entry("b", "old-b"));
    let summary = ImportMergeSummary::apply(
        &mut store,
        vec![entry("a", "new-a"), entry("b", "new-b")],
        false,
    );
    assert_eq!((summary.added, summary.replaced, summary.skipped), (1, 0, 1));
    assert_eq!(store.get_host("b").unwrap().host, "old-b");
    assert_eq!(
        summary.report(),
        "Import complete: added 1, replaced 0, skipped 1 (use --overwrite to replace duplicates)."
    );

    let summary = ImportMergeSummary::apply(&mut store, vec![entry("b", "new-b")], true);
    assert_eq!((summary.added, summary.replaced, summary.skipped), (0, 1, 0));
    assert_eq!(store.get_host("b").unwrap().host, "new-b");
}

#[test]
fn import_command_normalizes_and_merges_sorted() {
    let ctx = CommandContext {
        storage: Storage::new_test("/home/me".to_string()),
    };
    let cmd = ImportCommand {
        file: "~/.ssh/config".to_string(),
        overwrite: false,
        provider: Some(" Hetzner ".to_string()),
        tags: vec!["Web".to_string(), " ".to_string()],
    };
    assert_eq!(cmd.config_path(&ctx), "/home/me/.ssh/config");
    assert_eq!(cmd.normalized_tags(), vec!["web"]);
    let hosts = cmd.import_hosts(&ctx, "Host zed\nHost alpha\n");
    assert_eq!(hosts[0].provider.as_deref(), Some("hetzner"));
    let mut store = HostStore::default();
    store.hosts.push(entry("mid", "m"));
    let summary = cmd.merge(&mut store, hosts);
    assert_eq!(summary.added, 2);
    let names: Vec<&str> = store.hosts.iter().map(|h| h.name.as_str()).collect();
    assert_eq!(names, vec!["alpha", "mid", "zed"]);
}

#[test]
fn plan_reports_nothing_or_entries() {
    let ctx = CommandContext {
        storage: Storage::new_test("/home/me".to_string()),
    };
    let cmd = ImportCommand {
        file: "~/.ssh/config".to_string(),
        overwrite: false,
        provider: None,
        tags: vec![],
    };
    match cmd.plan(&ctx, "Host *\n  User x\n") {
        ImportPlan::Nothing(message) => assert_eq!(
            message,
            "No importable host entries found in /home/me/.ssh/config"
        ),
        ImportPlan::Merge(_) => panic!("expected nothing to import"),
    }
    match cmd.plan(&ctx, "Host a b\n") {
        ImportPlan::Merge(hosts) => assert_eq!(hosts.len(), 2),
        ImportPlan::Nothing(_) => panic!("expected entries"),
    }
}
