//! Health checks: what to check, and how each outcome is reported.
use vstd::prelude::*;

use crate::error::{AppError, AppErrorView};
use crate::storage::{HostEntry, HostStore, entries_view, find_name, lemma_find_name};
use crate::text::{chars_of, owned, trim, trim_str};

verus! {

/// What `doctor` is asked to check.
#[derive(Debug)]
pub struct DoctorCommand {
    /// Entry name to check (all entries where none is given)
    pub name: Option<String>,
    /// Timeout in milliseconds for TCP and banner checks
    pub timeout_ms: u64,
}

/// How a check came out, with its detail.
#[derive(Debug)]
pub enum CheckStatus {
    Pass(String),
    Warn(String),
    Fail(String),
}

pub enum CheckStatusView {
    Pass(Seq<char>),
    Warn(Seq<char>),
    Fail(Seq<char>),
}

impl View for CheckStatus {
    type V = CheckStatusView;

    open spec fn view(&self) -> CheckStatusView {
        match self {
            CheckStatus::Pass(d) => CheckStatusView::Pass(d@),
            CheckStatus::Warn(d) => CheckStatusView::Warn(d@),
            CheckStatus::Fail(d) => CheckStatusView::Fail(d@),
        }
    }
}

/// One named check and its outcome.
#[derive(Debug)]
pub struct CheckResult {
    pub name: String,
    pub status: CheckStatus,
}

/// What probing a host over TCP found.
#[derive(Debug)]
pub enum Probe {
    /// The host could not be resolved or reached; the error's text.
    Unreachable(String),
    /// Connected; the host closed without sending anything.
    NoBanner,
    /// Connected; the text the host sent first.
    Banner(String),
    /// Connected; reading failed with this error's text.
    BannerError(String),
}

/// How a status is shown.
pub open spec fn status_text(s: CheckStatusView) -> Seq<char> {
    match s {
        CheckStatusView::Pass(d) => d,
        CheckStatusView::Warn(d) => "WARN ("@ + d + ")"@,
        CheckStatusView::Fail(d) => "FAIL ("@ + d + ")"@,
    }
}

/// The status a probe of a host gets: an SSH banner is fine, any other
/// answer is a warning, and no connection is a failure.
pub open spec fn probe_status(probe: Probe) -> CheckStatusView {
    match probe {
        Probe::Unreachable(err) => CheckStatusView::Fail(err@),
        Probe::NoBanner => CheckStatusView::Warn("connected, no banner"@),
        Probe::Banner(raw) => {
            let line = trim(raw@);
            if line.len() >= 4 && line.take(4) == "SSH-"@ {
                CheckStatusView::Pass("OK ("@ + line + ")"@)
            } else {
                CheckStatusView::Warn("connected, non-SSH banner: "@ + line)
            }
        },
        Probe::BannerError(err) => CheckStatusView::Warn("connected, banner read failed: "@ + err@),
    }
}

impl CheckStatus {
    /// The status as printed.
    pub fn render(&self) -> (r: String)
        ensures
            r@ == status_text(self@),
    {
        match self {
            CheckStatus::Pass(detail) => detail.clone(),
            CheckStatus::Warn(detail) => {
                let mut out = owned("WARN (");
                out.append(detail.as_str());
                out.append(")");
                out
            },
            CheckStatus::Fail(detail) => {
                let mut out = owned("FAIL (");
                out.append(detail.as_str());
                out.append(")");
                out
            },
        }
    }
}

impl CheckResult {
    pub fn ok(name: String, detail: String) -> (r: CheckResult)
        ensures
            r.name@ == name@,
            r.status@ == CheckStatusView::Pass(detail@),
    {
        CheckResult { name, status: CheckStatus::Pass(detail) }
    }

    pub fn warn(name: String, detail: String) -> (r: CheckResult)
        ensures
            r.name@ == name@,
            r.status@ == CheckStatusView::Warn(detail@),
    {
        CheckResult { name, status: CheckStatus::Warn(detail) }
    }

    pub fn fail(name: String, detail: String) -> (r: CheckResult)
        ensures
            r.name@ == name@,
            r.status@ == CheckStatusView::Fail(detail@),
    {
        CheckResult { name, status: CheckStatus::Fail(detail) }
    }

    /// The report line `- name: status`.
    pub fn line(&self) -> (r: String)
        ensures
            r@ == "- "@ + self.name@ + ": "@ + status_text(self.status@),
    {
        let mut out = owned("- ");
        out.append(self.name.as_str());
        out.append(": ");
        out.append(self.status.render().as_str());
        out
    }
}

fn starts_with_ssh(s: &str) -> (r: bool)
    ensures
        r == (s@.len() >= 4 && s@.take(4) == "SSH-"@),
{
    proof {
        reveal_strlit("SSH-");
    }
    let v = chars_of(s);
    if v.len() < 4 {
        return false;
    }
    let r = v[0] == 'S' && v[1] == 'S' && v[2] == 'H' && v[3] == '-';
    assert("SSH-"@ =~= seq!['S', 'S', 'H', '-']);
    assert(r == (v@.take(4) =~= seq!['S', 'S', 'H', '-']));
    r
}

impl DoctorCommand {
    /// The check of the `ssh` binary and of the store file.
    pub fn environment_checks(ssh_available: bool, store_exists: bool, store_path: &str) -> (r:
        Vec<CheckResult>)
        ensures
            r@.len() == 2,
            r@[0].name@ == "ssh binary"@,
            r@[0].status@ == if ssh_available {
                CheckStatusView::Pass("OK"@)
            } else {
                CheckStatusView::Fail("system ssh not found"@)
            },
            r@[1].name@ == "store file"@,
            r@[1].status@ == if store_exists {
                CheckStatusView::Pass("OK ("@ + store_path@ + ")"@)
            } else {
                CheckStatusView::Warn("MISSING ("@ + store_path@ + ")"@)
            },
    {
        let ssh_check = if ssh_available {
            CheckResult::ok(owned("ssh binary"), owned("OK"))
        } else {
            CheckResult::fail(owned("ssh binary"), owned("system ssh not found"))
        };
        let store_check = if store_exists {
            let mut d = owned("OK (");
            d.append(store_path);
            d.append(")");
            CheckResult::ok(owned("store file"), d)
        } else {
            let mut d = owned("MISSING (");
            d.append(store_path);
            d.append(")");
            CheckResult::warn(owned("store file"), d)
        };
        let mut out: Vec<CheckResult> = Vec::new();
        out.push(ssh_check);
        out.push(store_check);
        out
    }

    /// The result of probing a host.
    pub fn host_check_result(host: &HostEntry, probe: Probe) -> (r: CheckResult)
        ensures
            r.name@ == host.name@,
            r.status@ == probe_status(probe),
    {
        match probe {
            Probe::Unreachable(err) => CheckResult::fail(host.name.clone(), err),
            Probe::NoBanner => CheckResult::warn(host.name.clone(), owned("connected, no banner")),
            Probe::Banner(raw) => {
                let line = trim_str(raw.as_str());
                if starts_with_ssh(line.as_str()) {
                    let mut d = owned("OK (");
                    d.append(line.as_str());
                    d.append(")");
                    CheckResult::ok(host.name.clone(), d)
                } else {
                    let mut d = owned("connected, non-SSH banner: ");
                    d.append(line.as_str());
                    CheckResult::warn(host.name.clone(), d)
                }
            },
            Probe::BannerError(err) => {
                let mut d = owned("connected, banner read failed: ");
                d.append(err.as_str());
                CheckResult::warn(host.name.clone(), d)
            },
        }
    }

    /// The hosts to probe: none for an empty store, else the named host (an
    /// error where none has the name) or every host.
    pub fn hosts_to_check(&self, store: &HostStore) -> (r: Result<Vec<HostEntry>, AppError>)
        ensures
            store@.hosts.len() == 0 ==> (r matches Ok(v) && v@.len() == 0),
            store@.hosts.len() > 0 ==> (match self.name {
                Some(n) => match find_name(store@.hosts, n@) {
                    Some(i) => r matches Ok(v) && entries_view(v@) == seq![store@.hosts[i]],
                    None => r matches Err(e) && e@ == AppErrorView::Internal(
                        "unknown host '"@ + n@ + "'"@,
                    ),
                },
                None => r matches Ok(v) && entries_view(v@) == store@.hosts,
            }),
    {
        let mut out: Vec<HostEntry> = Vec::new();
        if store.hosts.len() == 0 {
            return Ok(out);
        }
        match &self.name {
            Some(n) => {
                proof {
                    lemma_find_name(store@.hosts, n@);
                }
                match store.get_host(n.as_str()) {
                    Some(h) => {
                        out.push(h.duplicate());
                        assert(entries_view(out@) =~= seq![h@]);
                        Ok(out)
                    },
                    None => {
                        let mut m = owned("unknown host '");
                        m.append(n.as_str());
                        m.append("'");
                        Err(AppError::Internal(m))
                    },
                }
            },
            None => {
                let mut i: usize = 0;
                while i < store.hosts.len()
                    invariant
                        i <= store.hosts.len(),
                        entries_view(out@) == store@.hosts.take(i as int),
                    decreases store.hosts.len() - i,
                {
                    let ghost before = entries_view(out@);
                    out.push(store.hosts[i].duplicate());
                    assert(entries_view(out@) =~= before.push(store@.hosts[i as int]));
                    assert(store@.hosts.take(i + 1) =~= store@.hosts.take(i as int).push(
                        store@.hosts[i as int],
                    ));
                    i = i + 1;
                }
                assert(store@.hosts.take(i as int) =~= store@.hosts);
                Ok(out)
            },
        }
    }
}

} // verus!
