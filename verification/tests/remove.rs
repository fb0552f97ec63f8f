use sesh::commands::CommandContext;
use sesh::commands::add::AddCommand;
use sesh::commands::remove::RemoveCommand;
use sesh::storage::{DEFAULT_PORT, HostEntry, HostStore, Storage};

fn entry(name: &str, host: &str) -> HostEntry {
    HostEntry {
        name: name.to_string(),
        host: host.to_string(),
        user: None,
        port: DEFAULT_PORT,
        identity_file: None,
        tags: vec![],
        provider: None,
        imported_from: None,
    }
}

fn seed_store() -> HostStore {
    let mut store = HostStore::default();
    store.hosts.push(entry("web-1", "203.0.113.10"));
    store.hosts.push(entry("db-1", "203.0.113.11"));
    store
}

#[test]
fn execute_removes_existing_host() {
    let mut store = seed_store();

    RemoveCommand {
        name: "web-1".to_string(),
    }
    .execute(&mut store)
    .unwrap();

    assert_eq!(store.hosts.len(), 1);
    assert!(store.get_host("web-1").is_none());
    assert!(store.get_host("db-1").is_some());
}

#[test]
fn execute_rejects_missing_host() {
    let mut store = seed_store();

    let err = RemoveCommand {
        name: "missing".to_string(),
    }
    .execute(&mut store)
    .unwrap_err();
    assert!(err.describe().contains("not found"));
    assert_eq!(
        err.describe(),
        "Host 'missing' not found. Run `sesh list` to see available names."
    );
    assert_eq!(store.hosts.len(), 2);
}

#[test]
fn remove_after_add_restores_sorted_store() {
    let ctx = CommandContext {
        storage: Storage::new_test("/home/tester".to_string()),
    };
    let mut store = HostStore::default();
    store.hosts.push(entry("alpha", "1.1.1.1"));
    store.hosts.push(entry("gamma", "3.3.3.3"));
    let add = AddCommand {
        name: "beta".to_string(),
        host: "2.2.2.2".to_string(),
        user: None,
        port: DEFAULT_PORT,
        identity_file: None,
        tags: vec![],
        provider: None,
    };
    add.execute(&ctx, &mut store).unwrap();
    let names: Vec<&str> = store.hosts.iter().map(|h| h.name.as_str()).collect();
    assert_eq!(names, vec!["alpha", "beta", "gamma"]);
    RemoveCommand {
        name: "beta".to_string(),
    }
    .execute(&mut store)
    .unwrap();
    let names: Vec<&str> = store.hosts.iter().map(|h| h.name.as_str()).collect();
    assert_eq!(names, vec!["alpha", "gamma"]);
}
