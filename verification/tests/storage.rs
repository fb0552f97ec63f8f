use std::path::Path;

use sesh::commands::CommandContext;
use sesh::error::AppError;
use sesh::storage::{
    DEFAULT_PORT, HostEntry, HostStore, Storage, default_port, default_version, expand_tilde_in,
    find_home_dir, path_join,
};

fn entry(name: &str, host: &str) -> HostEntry {
    HostEntry {
        name: name.to_string(),
        host: host.to_string(),
        user: None,
        port: DEFAULT_PORT,
        identity_file: None,
        tags: vec![],
        provider: None,
        imported_from: None,
    }
}

#[test]
fn ssh_args_default_port_is_host_only() {
    assert_eq!(entry("a", "10.0.0.1").ssh_args(), vec!["10.0.0.1"]);
}

#[test]
fn ssh_args_full_entry() {
    let e = HostEntry {
        user: Some("root".to_string()),
        port: 2222,
        identity_file: Some("/k".to_string()),
        ..entry("a", "h")
    };
    assert_eq!(e.ssh_args(), vec!["-p", "2222", "-l", "root", "-i", "/k", "h"]);
    let e = HostEntry {
        port: 0,
        ..entry("a", "h")
    };
    assert_eq!(e.ssh_args(), vec!["-p", "0", "h"]);
    let e = HostEntry {
        port: 65535,
        ..entry("a", "h")
    };
    assert_eq!(e.ssh_args(), vec!["-p", "65535", "h"]);
}

#[test]
fn matches_filter_on_tag_and_provider() {
    let e = HostEntry {
        tags: vec!["prod".to_string(), "web".to_string()],
        provider: Some("hetzner".to_string()),
        ..entry("a", "h")
    };
    assert!(e.matches_filter(None, None));
    assert!(e.matches_filter(Some("web"), None));
    assert!(!e.matches_filter(Some("db"), None));
    assert!(e.matches_filter(Some("prod"), Some("hetzner")));
    assert!(!e.matches_filter(Some("prod"), Some("aws")));
    assert!(!entry("b", "h").matches_filter(None, Some("hetzner")));
}

#[test]
fn sort_hosts_is_stable_by_name() {
    let mut store = HostStore::default();
    store.hosts.push(entry("b", "first-b"));
    store.hosts.push(entry("a", "a"));
    store.hosts.push(entry("b", "second-b"));
    store.hosts.push(entry("B", "upper"));
    store.sort_hosts();
    let got: Vec<(&str, &str)> = store
        .hosts
        .iter()
        .map(|h| (h.name.as_str(), h.host.as_str()))
        .collect();
    assert_eq!(
        got,
        vec![("B", "upper"), ("a", "a"), ("b", "first-b"), ("b", "second-b")]
    );
    store.sort_hosts();
    assert_eq!(store.hosts[2].host, "first-b");
}

#[test]
fn get_host_finds_first_match_and_mut_changes_it() {
    let mut store = HostStore::default();
    store.hosts.push(entry("x", "one"));
    store.hosts.push(entry("x", "two"));
    assert_eq!(store.get_host("x").unwrap().host, "one");
    assert!(store.get_host("y").is_none());
    store.get_host_mut("x").unwrap().host = "changed".to_string();
    assert_eq!(store.hosts[0].host, "changed");
    assert_eq!(store.hosts[1].host, "two");
    assert!(store.get_host_mut("y").is_none());
}

#[test]
fn default_store_and_defaults() {
    let store = HostStore::default();
    assert_eq!(store.version, 1);
    assert!(store.hosts.is_empty());
    assert_eq!(default_version(), 1);
    assert_eq!(default_port(), 22);
}

#[test]
fn storage_paths_follow_home() {
    let s = Storage::new_test("/home/me".to_string());
    assert_eq!(s.home_dir(), "/home/me");
    assert_eq!(
        s.path(),
        Path::new("/home/me")
            .join(".config/sesh/hosts.toml")
            .to_str()
            .unwrap()
    );
    let s = Storage::new_test("/home/me/".to_string());
    assert_eq!(s.path(), "/home/me/.config/sesh/hosts.toml");
}

#[test]
fn expand_tilde_cases() {
    let s = Storage::new_test("/home/me".to_string());
    assert_eq!(s.expand_tilde("~"), "/home/me");
    assert_eq!(s.expand_tilde("~/a/b"), "/home/me/a/b");
    assert_eq!(s.expand_tilde("~/"), "/home/me/");
    assert_eq!(s.expand_tilde("~//etc"), "/etc");
    assert_eq!(s.expand_tilde("~user/x"), "~user/x");
    assert_eq!(s.expand_tilde("/abs"), "/abs");
    assert_eq!(expand_tilde_in("", "~/x"), "x");
}

#[test]
fn path_join_matches_std() {
    for (base, rel) in [
        ("/a", "b"),
        ("/a/", "b"),
        ("", "b"),
        ("/a", "/b"),
        ("a", ""),
        ("C:", "Users"),
    ] {
        let expected = Path::new(base).join(rel);
        assert_eq!(path_join(base, rel), expected.to_str().unwrap(), "{base} + {rel}");
    }
}

#[test]
fn find_home_dir_order() {
    let s = |x: &str| Some(x.to_string());
    assert_eq!(find_home_dir(s("/h"), s("/u"), None, None).unwrap(), "/h");
    assert_eq!(find_home_dir(None, s("/u"), s("C:"), s("x")).unwrap(), "/u");
    assert_eq!(find_home_dir(None, None, s("C:"), s("Users")).unwrap(), "C:/Users");
    let err = find_home_dir(None, None, s("C:"), None).unwrap_err();
    assert_eq!(
        err.describe(),
        "Could not determine home directory. Set HOME (or USERPROFILE on Windows)."
    );
    let ctx = CommandContext::new(s("/root"), None, None, None).unwrap();
    assert_eq!(ctx.storage.home_dir(), "/root");
    assert!(Storage::new_default(None, None, None, None).is_err());
}

#[test]
fn error_texts() {
    let e = AppError::PermissionDenied {
        path: "/x".to_string(),
        action: "read".to_string(),
        hint: None,
    };
    assert_eq!(e.describe(), "Permission denied while trying to read /x.");
    let e = AppError::MissingDependency {
        binary: "ssh".to_string(),
        hint: Some("Install OpenSSH client and retry.".to_string()),
    };
    assert_eq!(
        e.describe(),
        "Required dependency `ssh` not found. Install OpenSSH client and retry."
    );
    let e = AppError::InvalidConfig {
        path: "/c".to_string(),
        message: "bad".to_string(),
        hint: None,
    };
    assert_eq!(e.describe(), "Invalid config at /c: bad");
    assert_eq!(AppError::Internal("boom".to_string()).describe(), "boom");
}
