use sesh::commands::doctor::{CheckStatus, DoctorCommand, Probe};
use sesh::commands::list::ListCommand;
use sesh::storage::{DEFAULT_PORT, HostEntry, HostStore};

fn entry(name: &str, host: &str) -> HostEntry {
    HostEntry {
        name: name.to_string(),
        host: host.to_string(),
        user: None,
        port: DEFAULT_PORT,
        identity_file: None,
        tags: vec![],
        provider: None,
        imported_from: None,
    }
}

#[test]
fn list_filters_sorts_and_formats() {
    let mut store = HostStore::default();
    store.hosts.push(HostEntry {
        tags: vec!["prod".to_string(), "web".to_string()],
        provider: Some("hetzner".to_string()),
        user: Some("root".to_string()),
        port: 2222,
        ..entry("web-2", "10.0.0.2")
    });
    store.hosts.push(HostEntry {
        tags: vec!["prod".to_string()],
        ..entry("db", "10.0.0.3")
    });
    store.hosts.push(entry("other", "10.0.0.4"));
    let lines = ListCommand {
        tag: Some(" PROD ".to_string()),
        provider: None,
    }
    .execute(&store);
    let expected = vec![
        format!(
            "{:<20} {:<30} {:<6} {:<16} {:<16} TAGS",
            "NAME", "HOST", "PORT", "USER", "PROVIDER"
        ),
        format!(
            "{:<20} {:<30} {:<6} {:<16} {:<16} {}",
            "db", "10.0.0.3", 22, "-", "-", "prod"
        ),
        format!(
            "{:<20} {:<30} {:<6} {:<16} {:<16} {}",
            "web-2", "10.0.0.2", 2222, "root", "hetzner", "prod,web"
        ),
    ];
    assert_eq!(lines, expected);
}

#[test]
fn list_reports_no_entries() {
    let store = HostStore::default();
    let lines = ListCommand {
        tag: None,
        provider: Some("aws".to_string()),
    }
    .execute(&store);
    assert_eq!(lines, vec!["No host entries found."]);
}

#[test]
fn list_pads_by_characters() {
    let mut store = HostStore::default();
    store.hosts.push(entry("übersee-ä", "h"));
    let lines = ListCommand {
        tag: None,
        provider: None,
    }
    .execute(&store);
    assert_eq!(
        lines[1],
        format!(
            "{:<20} {:<30} {:<6} {:<16} {:<16} {}",
            "übersee-ä", "h", 22, "-", "-", "-"
        )
    );
}

#[test]
fn doctor_host_check_results() {
    let host = entry("web", "h");
    let r = DoctorCommand::host_check_result(&host, Probe::Banner("SSH-2.0-OpenSSH_9.6\r\n".to_string()));
    assert_eq!(r.line(), "- web: OK (SSH-2.0-OpenSSH_9.6)");
    let r = DoctorCommand::host_check_result(&host, Probe::Banner("HTTP/1.1 400".to_string()));
    assert_eq!(r.status.render(), "WARN (connected, non-SSH banner: HTTP/1.1 400)");
    let r = DoctorCommand::host_check_result(&host, Probe::NoBanner);
    assert_eq!(r.status.render(), "WARN (connected, no banner)");
    let r = DoctorCommand::host_check_result(&host, Probe::BannerError("reset".to_string()));
    assert_eq!(r.status.render(), "WARN (connected, banner read failed: reset)");
    let r = DoctorCommand::host_check_result(&host, Probe::Unreachable("cannot resolve h".to_string()));
    assert!(matches!(r.status, CheckStatus::Fail(_)));
    assert_eq!(r.line(), "- web: FAIL (cannot resolve h)");
}

#[test]
fn doctor_environment_checks() {
    let checks = DoctorCommand::environment_checks(false, true, "/s/hosts.toml");
    assert_eq!(checks[0].line(), "- ssh binary: FAIL (system ssh not found)");
    assert_eq!(checks[1].line(), "- store file: OK (/s/hosts.toml)");
    let checks = DoctorCommand::environment_checks(true, false, "/p");
    assert_eq!(checks[0].line(), "- ssh binary: OK");
    assert_eq!(checks[1].line(), "- store file: WARN (MISSING (/p))");
}

#[test]
fn doctor_hosts_to_check() {
    let cmd = DoctorCommand {
        name: Some("db".to_string()),
        timeout_ms: 1500,
    };
    assert!(cmd.hosts_to_check(&HostStore::default()).unwrap().is_empty());
    let mut store = HostStore::default();
    store.hosts.push(entry("web", "a"));
    store.hosts.push(entry("db", "b"));
    let hosts = cmd.hosts_to_check(&store).unwrap();
    assert_eq!(hosts.len(), 1);
    assert_eq!(hosts[0].host, "b");
    let err = DoctorCommand {
        name: Some("zzz".to_string()),
        timeout_ms: 1,
    }
    .hosts_to_check(&store)
    .unwrap_err();
    assert_eq!(err.describe(), "unknown host 'zzz'");
    let all = DoctorCommand {
        name: None,
        timeout_ms: 1,
    }
    .hosts_to_check(&store)
    .unwrap();
    assert_eq!(all.len(), 2);
}
