//! Removing a host entry.
use vstd::prelude::*;

use crate::error::{AppError, host_not_found, make_host_not_found};
use crate::storage::{
    HostEntryView, HostStore, entries_view, find_name, has_name, insert_by_name, lemma_find_name,
    lemma_insert_shape, lemma_sort_sorted_is_identity, sort_by_name, sorted_by_name,
};

verus! {

/// What `remove` is asked to delete.
#[derive(Debug)]
pub struct RemoveCommand {
    /// Entry name to remove
    pub name: String,
}

/// The hint when a name is not stored.
pub open spec fn list_hint() -> Seq<char> {
    "Run `sesh list` to see available names."@
}

impl RemoveCommand {
    /// Removes the first host with the name, or fails, leaving the store as
    /// it was, where none has it.
    pub fn execute(self, store: &mut HostStore) -> (r: Result<(), AppError>)
        ensures
            match find_name(old(store)@.hosts, self.name@) {
                Some(i) => r is Ok && final(store)@.version == old(store)@.version
                    && final(store)@.hosts == old(store)@.hosts.remove(i),
                None => *final(store) == *old(store) && (r matches Err(e) && e@ == host_not_found(
                    self.name@,
                    list_hint(),
                )),
            },
    {
        proof {
            lemma_find_name(store@.hosts, self.name@);
        }
        match store.position(self.name.as_str()) {
            Some(index) => {
                let ghost before = store.hosts@;
                store.hosts.remove(index);
                assert(entries_view(store.hosts@) =~= entries_view(before).remove(index as int));
                Ok(())
            },
            None => Err(make_host_not_found(self.name, "Run `sesh list` to see available names.")),
        }
    }
}

/// Removing a host just added to a store sorted by name gives the store back:
/// the add places it by name, and the remove finds it there.
pub proof fn lemma_remove_undoes_add(hosts: Seq<HostEntryView>, e: HostEntryView)
    requires
        sorted_by_name(hosts),
        !has_name(hosts, e.name),
    ensures
        find_name(sort_by_name(hosts.push(e)), e.name) matches Some(i) && sort_by_name(
            hosts.push(e),
        ).remove(i) == hosts,
{
    assert(hosts.push(e).drop_last() =~= hosts);
    lemma_sort_sorted_is_identity(hosts);
    let r = sort_by_name(hosts.push(e));
    assert(r == insert_by_name(hosts, e));
    lemma_insert_shape(hosts, e);
    let p = choose|p: int|
        0 <= p <= hosts.len() && insert_by_name(hosts, e) == hosts.take(p) + seq![e] + hosts.skip(
            p,
        );
    assert(r[p] == e);
    assert(has_name(r, e.name));
    lemma_find_name(r, e.name);
    let i = find_name(r, e.name)->0;
    if i < p {
        assert(r[i] == hosts[i]);
    }
    assert(i == p);
    assert(r.remove(p) =~= hosts);
}

} // verus!
