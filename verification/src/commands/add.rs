//! Adding a host entry by hand.
use vstd::prelude::*;

use crate::commands::CommandContext;
use crate::error::{AppError, host_exists, invalid_input, make_host_exists, make_invalid_input};
use crate::storage::{
    HostEntry, HostEntryView, HostStore, expand_tilde_spec, find_name, has_name,
    lemma_find_name, lemma_sort_multiset, sort_by_name,
};
use crate::tags::{is_tag_list_of, normalize_tags, normalized};
use crate::text::{has_char, label, label_str, opt_view, strs_view};

verus! {

/// What `add` is asked to store.
#[derive(Debug)]
pub struct AddCommand {
    /// Unique entry name
    pub name: String,
    /// Hostname or IP
    pub host: String,
    /// SSH user
    pub user: Option<String>,
    /// SSH port
    pub port: u16,
    /// Private key path for -i
    pub identity_file: Option<String>,
    /// Tags
    pub tags: Vec<String>,
    /// Provider label (e.g. hetzner)
    pub provider: Option<String>,
}

/// The hint when a name is taken.
pub open spec fn name_taken_hint() -> Seq<char> {
    "Use a different name or remove the existing entry first."@
}

/// The error for a name with a space.
pub open spec fn add_name_error() -> crate::error::AppErrorView {
    invalid_input("Host name cannot contain spaces."@, "Use a slug like `web-1`."@)
}

/// The entry that `cmd` describes, with `home` as the home directory: its
/// fields as given, the identity file with `~` expanded, the tags normalized,
/// the provider trimmed and in lower case, and no origin.
pub open spec fn added_entry(cmd: &AddCommand, home: Seq<char>) -> HostEntryView {
    HostEntryView {
        name: cmd.name@,
        host: cmd.host@,
        user: opt_view(cmd.user),
        port: cmd.port,
        identity_file: match cmd.identity_file {
            Some(f) => Some(expand_tilde_spec(home, f@)),
            None => None::<Seq<char>>,
        },
        tags: normalized(strs_view(cmd.tags@)),
        provider: match cmd.provider {
            Some(p) => Some(label(p@)),
            None => None::<Seq<char>>,
        },
        imported_from: None,
    }
}

impl AddCommand {
    /// A name must not hold a space.
    pub fn validate(&self) -> (r: Result<(), AppError>)
        ensures
            r is Ok <==> !self.name@.contains(' '),
            r matches Err(e) ==> e@ == add_name_error(),
    {
        if has_char(self.name.as_str(), ' ') {
            return Err(
                make_invalid_input("Host name cannot contain spaces.", "Use a slug like `web-1`."),
            );
        }
        Ok(())
    }

    /// The entry to store.
    pub fn into_entry(self, ctx: &CommandContext) -> (r: HostEntry)
        ensures
            r@ == added_entry(&self, ctx.storage@.home),
    {
        let tags = Self::normalize_tags(self.tags);
        let provider = match &self.provider {
            Some(value) => Some(label_str(value.as_str())),
            None => None,
        };
        let identity_file = match &self.identity_file {
            Some(path) => Some(ctx.storage.expand_tilde(path.as_str())),
            None => None,
        };
        HostEntry {
            name: self.name,
            host: self.host,
            user: self.user,
            port: self.port,
            identity_file,
            tags,
            provider,
            imported_from: None,
        }
    }

    /// Trims and lower-cases the tags, drops blank ones, sorts them and removes
    /// repeats.
    pub fn normalize_tags(raw_tags: Vec<String>) -> (r: Vec<String>)
        ensures
            is_tag_list_of(strs_view(r@), strs_view(raw_tags@)),
            strs_view(r@) == normalized(strs_view(raw_tags@)),
    {
        normalize_tags(&raw_tags)
    }

    /// Adds the entry to the store and sorts it by name. Fails, leaving the
    /// store as it was, on a name with a space or a name already stored.
    pub fn execute(self, ctx: &CommandContext, store: &mut HostStore) -> (r: Result<(), AppError>)
        ensures
            r is Ok <==> (!self.name@.contains(' ') && !has_name(old(store)@.hosts, self.name@)),
            match r {
                Ok(()) => final(store)@.version == old(store)@.version && final(store)@.hosts
                    == sort_by_name(old(store)@.hosts.push(added_entry(&self, ctx.storage@.home))),
                Err(e) => *final(store) == *old(store) && e@ == if self.name@.contains(' ') {
                    add_name_error()
                } else {
                    host_exists(self.name@, name_taken_hint())
                },
            },
    {
        match self.validate() {
            Ok(()) => {},
            Err(e) => {
                return Err(e);
            },
        }
        proof {
            lemma_find_name(store@.hosts, self.name@);
        }
        if store.get_host(self.name.as_str()).is_some() {
            return Err(
                make_host_exists(
                    self.name,
                    "Use a different name or remove the existing entry first.",
                ),
            );
        }
        let ghost cmd = self;
        let entry = self.into_entry(ctx);
        let ghost ev = entry@;
        let ghost before = store@.hosts;
        store.hosts.push(entry);
        assert(store@.hosts =~= before.push(ev));
        store.sort_hosts();
        Ok(())
    }
}

/// The host just added is found under its name.
pub proof fn lemma_added_host_found(hosts: Seq<HostEntryView>, e: HostEntryView)
    requires
        !has_name(hosts, e.name),
    ensures
        find_name(sort_by_name(hosts.push(e)), e.name) matches Some(i) && sort_by_name(
            hosts.push(e),
        )[i] == e,
{
    broadcast use vstd::seq_lib::group_to_multiset_ensures;

    let s = sort_by_name(hosts.push(e));
    lemma_sort_multiset(hosts.push(e));
    assert(hosts.push(e)[hosts.len() as int] == e);
    assert(hosts.push(e).to_multiset().count(e) > 0);
    assert(s.contains(e));
    let k = choose|k: int| 0 <= k < s.len() && s[k] == e;
    assert(has_name(s, e.name));
    lemma_find_name(s, e.name);
    let i = find_name(s, e.name)->0;
    assert(s.to_multiset().count(s[i]) > 0);
    assert(hosts.push(e).contains(s[i]));
    if s[i] != e {
        let j = choose|j: int| 0 <= j < hosts.push(e).len() && hosts.push(e)[j] == s[i];
        assert(hosts[j].name == e.name);
    }
}

} // verus!
