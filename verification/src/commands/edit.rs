//! Changing the fields of a stored host entry.
use vstd::prelude::*;

use crate::commands::CommandContext;
use crate::commands::add::name_taken_hint;
use crate::commands::remove::list_hint;
use crate::error::{
    AppError, AppErrorView, host_exists, host_not_found, invalid_input, make_host_exists,
    make_host_not_found, make_invalid_input,
};
use crate::storage::{
    HostEntryView, HostStore, expand_tilde_spec, find_name, has_name,
    lemma_find_name, lemma_sort_multiset, sort_by_name,
};
use crate::tags::{is_tag_list_of, normalize_tags, normalized};
use crate::text::{has_char, label, label_str, same_text, strs_view, trim, trim_str};

verus! {

/// What `edit` is asked to change.
#[derive(Debug)]
pub struct EditCommand {
    /// Existing entry name
    pub name: String,
    /// Rename entry
    pub rename: Option<String>,
    /// Hostname or IP
    pub host: Option<String>,
    /// SSH user
    pub user: Option<String>,
    /// SSH port
    pub port: Option<u16>,
    /// Private key path for -i
    pub identity_file: Option<String>,
    /// Tags (replace all tags)
    pub tags: Option<Vec<String>>,
    /// Provider label
    pub provider: Option<String>,
    /// Clear SSH user
    pub clear_user: bool,
    /// Clear private key path
    pub clear_identity_file: bool,
    /// Clear all tags
    pub clear_tags: bool,
    /// Clear provider label
    pub clear_provider: bool,
}

/// Whether the command asks for any change.
pub open spec fn has_changes_spec(cmd: &EditCommand) -> bool {
    ||| cmd.rename is Some
    ||| cmd.host is Some
    ||| cmd.user is Some
    ||| cmd.port is Some
    ||| cmd.identity_file is Some
    ||| cmd.tags is Some
    ||| cmd.provider is Some
    ||| cmd.clear_user
    ||| cmd.clear_identity_file
    ||| cmd.clear_tags
    ||| cmd.clear_provider
}

/// The error that the command's own values give, checked in this order: no
/// change at all, a new name that is blank or holds a space, a blank host, a
/// blank provider.
pub open spec fn edit_validation(cmd: &EditCommand) -> Option<AppErrorView> {
    if !has_changes_spec(cmd) {
        Some(
            invalid_input(
                "No changes provided."@,
                "Pass at least one edit flag, e.g. `--host`, `--user`, or `--rename`."@,
            ),
        )
    } else if cmd.rename matches Some(r) && (trim(r@).len() == 0 || r@.contains(' ')) {
        Some(
            invalid_input("Host name cannot be empty or contain spaces."@, "Use a slug like `web-1`."@),
        )
    } else if cmd.host matches Some(h) && trim(h@).len() == 0 {
        Some(invalid_input("Host cannot be empty."@, "Provide a hostname or IP for `--host`."@))
    } else if cmd.provider matches Some(p) && trim(p@).len() == 0 {
        Some(
            invalid_input("Provider cannot be empty."@, "Use `--clear-provider` to remove provider."@),
        )
    } else {
        None
    }
}

/// `old` changed as `cmd` asks, with `home` as the home directory: a given
/// value replaces the field (the identity file with `~` expanded, the tags
/// normalized, the provider trimmed and in lower case), a clear flag empties
/// it, and other fields are kept.
pub open spec fn edited_entry(old: HostEntryView, cmd: &EditCommand, home: Seq<char>) -> HostEntryView {
    HostEntryView {
        name: match cmd.rename {
            Some(r) => r@,
            None => old.name,
        },
        host: match cmd.host {
            Some(h) => h@,
            None => old.host,
        },
        user: match cmd.user {
            Some(u) => Some(u@),
            None => if cmd.clear_user {
                None
            } else {
                old.user
            },
        },
        port: match cmd.port {
            Some(p) => p,
            None => old.port,
        },
        identity_file: match cmd.identity_file {
            Some(f) => Some(expand_tilde_spec(home, f@)),
            None => if cmd.clear_identity_file {
                None
            } else {
                old.identity_file
            },
        },
        tags: match cmd.tags {
            Some(t) => normalized(strs_view(t@)),
            None => if cmd.clear_tags {
                Seq::<Seq<char>>::empty()
            } else {
                old.tags
            },
        },
        provider: match cmd.provider {
            Some(p) => Some(label(p@)),
            None => if cmd.clear_provider {
                None
            } else {
                old.provider
            },
        },
        imported_from: old.imported_from,
    }
}

/// The new name is another host's.
pub open spec fn rename_taken(cmd: &EditCommand, hosts: Seq<HostEntryView>) -> bool {
    cmd.rename matches Some(rn) && rn@ != cmd.name@ && has_name(hosts, rn@)
}

impl EditCommand {
    /// Whether any edit flag is given.
    pub fn has_changes(&self) -> (r: bool)
        ensures
            r == has_changes_spec(self),
    {
        self.rename.is_some() || self.host.is_some() || self.user.is_some() || self.port.is_some()
            || self.identity_file.is_some() || self.tags.is_some() || self.provider.is_some()
            || self.clear_user || self.clear_identity_file || self.clear_tags
            || self.clear_provider
    }

    /// Checks the command's own values.
    pub fn validate(&self) -> (r: Result<(), AppError>)
        ensures
            match edit_validation(self) {
                Some(err) => r matches Err(e) && e@ == err,
                None => r is Ok,
            },
    {
        if !self.has_changes() {
            return Err(
                make_invalid_input(
                    "No changes provided.",
                    "Pass at least one edit flag, e.g. `--host`, `--user`, or `--rename`.",
                ),
            );
        }
        if let Some(rename) = &self.rename {
            if trim_str(rename.as_str()).as_str().is_empty() || has_char(rename.as_str(), ' ') {
                return Err(
                    make_invalid_input(
                        "Host name cannot be empty or contain spaces.",
                        "Use a slug like `web-1`.",
                    ),
                );
            }
        }
        if let Some(host) = &self.host {
            if trim_str(host.as_str()).as_str().is_empty() {
                return Err(
                    make_invalid_input("Host cannot be empty.", "Provide a hostname or IP for `--host`."),
                );
            }
        }
        if let Some(provider) = &self.provider {
            if trim_str(provider.as_str()).as_str().is_empty() {
                return Err(
                    make_invalid_input(
                        "Provider cannot be empty.",
                        "Use `--clear-provider` to remove provider.",
                    ),
                );
            }
        }
        Ok(())
    }

    /// Trims and lower-cases the tags, drops blank ones, sorts them and removes
    /// repeats.
    pub fn normalize_tags(raw_tags: Vec<String>) -> (r: Vec<String>)
        ensures
            is_tag_list_of(strs_view(r@), strs_view(raw_tags@)),
            strs_view(r@) == normalized(strs_view(raw_tags@)),
    {
        normalize_tags(&raw_tags)
    }

    /// Changes the first host with the name and sorts the store by name. Fails,
    /// leaving the store as it was, where the command's values are refused,
    /// where no host has the name, or where the new name belongs to another
    /// host.
    pub fn execute(self, ctx: &CommandContext, store: &mut HostStore) -> (r: Result<(), AppError>)
        ensures
            match edit_validation(&self) {
                Some(err) => *final(store) == *old(store) && (r matches Err(e) && e@ == err),
                None => match find_name(old(store)@.hosts, self.name@) {
                    None => *final(store) == *old(store) && (r matches Err(e) && e@
                        == host_not_found(self.name@, list_hint())),
                    Some(i) => if rename_taken(&self, old(store)@.hosts) {
                        *final(store) == *old(store) && (r matches Err(e) && e@ == host_exists(
                            self.rename->0@,
                            name_taken_hint(),
                        ))
                    } else {
                        r is Ok && final(store)@.version == old(store)@.version && final(store)@.hosts
                            == sort_by_name(
                            old(store)@.hosts.update(
                                i,
                                edited_entry(old(store)@.hosts[i], &self, ctx.storage@.home),
                            ),
                        )
                    },
                },
            },
    {
        match self.validate() {
            Ok(()) => {},
            Err(e) => {
                return Err(e);
            },
        }
        proof {
            lemma_find_name(store@.hosts, self.name@);
        }
        let index = match store.position(self.name.as_str()) {
            Some(i) => i,
            None => {
                return Err(
                    make_host_not_found(self.name, "Run `sesh list` to see available names."),
                );
            },
        };
        if let Some(rename) = &self.rename {
            proof {
                lemma_find_name(store@.hosts, rename@);
            }
            if !same_text(rename.as_str(), self.name.as_str()) && store.get_host(
                rename.as_str(),
            ).is_some() {
                return Err(
                    make_host_exists(
                        rename.clone(),
                        "Use a different name or remove the existing entry first.",
                    ),
                );
            }
        }
        let ghost before = store@.hosts;
        let mut host = store.hosts[index].duplicate();
        if let Some(rename) = &self.rename {
            host.name = rename.clone();
        }
        if let Some(new_host) = &self.host {
            host.host = new_host.clone();
        }
        if let Some(user) = &self.user {
            host.user = Some(user.clone());
        } else if self.clear_user {
            host.user = None;
        }
        if let Some(port) = self.port {
            host.port = port;
        }
        if let Some(identity_file) = &self.identity_file {
            host.identity_file = Some(ctx.storage.expand_tilde(identity_file.as_str()));
        } else if self.clear_identity_file {
            host.identity_file = None;
        }
        if let Some(tags) = &self.tags {
            host.tags = normalize_tags(tags);
        } else if self.clear_tags {
            host.tags = Vec::new();
            assert(strs_view(host.tags@) =~= Seq::<Seq<char>>::empty());
        }
        if let Some(provider) = &self.provider {
            host.provider = Some(label_str(provider.as_str()));
        } else if self.clear_provider {
            host.provider = None;
        }
        let ghost ne = host@;
        assert(ne == edited_entry(before[index as int], &self, ctx.storage@.home));
        store.hosts.set(index, host);
        assert(store@.hosts =~= before.update(index as int, ne));
        store.sort_hosts();
        Ok(())
    }
}

/// What an edit does to each field: a given value replaces it, a clear flag
/// (where no value is given) empties it, and a field that the command neither
/// sets nor clears keeps its old value. The origin of the entry never changes.
pub proof fn lemma_edit_fields(old: HostEntryView, cmd: &EditCommand, home: Seq<char>)
    ensures
        ({
            let new = edited_entry(old, cmd, home);
            &&& cmd.rename is None ==> new.name =~= old.name
            &&& cmd.rename matches Some(r) ==> new.name =~= r@
            &&& cmd.host is None ==> new.host =~= old.host
            &&& cmd.host matches Some(h) ==> new.host =~= h@
            &&& (cmd.user is None && !cmd.clear_user) ==> new.user == old.user
            &&& (cmd.user is None && cmd.clear_user) ==> new.user is None
            &&& cmd.user matches Some(u) ==> new.user == Some(u@)
            &&& cmd.port is None ==> new.port == old.port
            &&& cmd.port matches Some(p) ==> new.port == p
            &&& (cmd.identity_file is None && !cmd.clear_identity_file) ==> new.identity_file
                == old.identity_file
            &&& (cmd.identity_file is None && cmd.clear_identity_file) ==> new.identity_file is None
            &&& cmd.identity_file is Some ==> new.identity_file is Some
            &&& (cmd.tags is None && !cmd.clear_tags) ==> new.tags == old.tags
            &&& (cmd.tags is None && cmd.clear_tags) ==> new.tags.len() == 0
            &&& (cmd.provider is None && !cmd.clear_provider) ==> new.provider == old.provider
            &&& (cmd.provider is None && cmd.clear_provider) ==> new.provider is None
            &&& cmd.provider is Some ==> new.provider is Some
            &&& new.imported_from == old.imported_from
        }),
{
}

/// After an edit the entry is found under its new name: no other host has
/// that name, so the edited entry is the first one that does.
pub proof fn lemma_edited_entry_found(hosts: Seq<HostEntryView>, i: int, ne: HostEntryView)
    requires
        0 <= i < hosts.len(),
        forall|j: int| 0 <= j < hosts.len() && j != i ==> (#[trigger] hosts[j]).name != ne.name,
    ensures
        find_name(sort_by_name(hosts.update(i, ne)), ne.name) matches Some(k) && sort_by_name(
            hosts.update(i, ne),
        )[k] == ne,
{
    broadcast use vstd::seq_lib::group_to_multiset_ensures;

    let u = hosts.update(i, ne);
    let s = sort_by_name(u);
    lemma_sort_multiset(u);
    assert(u[i] == ne);
    assert(u.to_multiset().count(ne) > 0);
    assert(s.contains(ne));
    let k0 = choose|k: int| 0 <= k < s.len() && s[k] == ne;
    assert(has_name(s, ne.name));
    lemma_find_name(s, ne.name);
    let k = find_name(s, ne.name)->0;
    assert(s.to_multiset().count(s[k]) > 0);
    assert(u.contains(s[k]));
    if s[k] != ne {
        let j = choose|j: int| 0 <= j < u.len() && u[j] == s[k];
        assert(j != i);
        assert(hosts[j].name == ne.name);
    }
}

} // verus!
