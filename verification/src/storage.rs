//! The host entries, the store that holds them, and where the store lives.
use vstd::prelude::*;

use crate::error::{AppError, invalid_input, make_invalid_input};
use crate::text::{
    chars_of, copy_opt, copy_strs, string_of, subrange_of, decimal, lemma_str_lt_asymmetric, lemma_str_lt_total,
    lemma_str_lt_transitive, opt_view, owned, same_text, str_less, str_lt, strs_view, u16_text,
};

verus! {

broadcast use vstd::seq_lib::group_to_multiset_ensures;

/// The SSH port that needs no `-p` flag.
pub const DEFAULT_PORT: u16 = 22;

/// One stored host.
#[derive(Debug)]
pub struct HostEntry {
    pub name: String,
    pub host: String,
    pub user: Option<String>,
    pub port: u16,
    pub identity_file: Option<String>,
    pub tags: Vec<String>,
    pub provider: Option<String>,
    pub imported_from: Option<String>,
}

/// A host entry with every text taken by its view.
pub struct HostEntryView {
    pub name: Seq<char>,
    pub host: Seq<char>,
    pub user: Option<Seq<char>>,
    pub port: u16,
    pub identity_file: Option<Seq<char>>,
    pub tags: Seq<Seq<char>>,
    pub provider: Option<Seq<char>>,
    pub imported_from: Option<Seq<char>>,
}

impl View for HostEntry {
    type V = HostEntryView;

    open spec fn view(&self) -> HostEntryView {
        HostEntryView {
            name: self.name@,
            host: self.host@,
            user: opt_view(self.user),
            port: self.port,
            identity_file: opt_view(self.identity_file),
            tags: strs_view(self.tags@),
            provider: opt_view(self.provider),
            imported_from: opt_view(self.imported_from),
        }
    }
}

/// A list of entries by their views.
pub open spec fn entries_view(v: Seq<HostEntry>) -> Seq<HostEntryView> {
    v.map_values(|h: HostEntry| h@)
}

/// Whether an entry passes the optional tag and provider filters.
pub open spec fn matches_filter_spec(
    e: HostEntryView,
    tag: Option<Seq<char>>,
    provider: Option<Seq<char>>,
) -> bool {
    &&& match tag {
        Some(t) => e.tags.contains(t),
        None => true,
    }
    &&& match provider {
        Some(p) => e.provider == Some(p),
        None => true,
    }
}

/// The arguments for `ssh` that reach an entry: `-p` unless the port is the
/// default, `-l` with the user, `-i` with the identity file, then the host.
pub open spec fn ssh_args_spec(e: HostEntryView) -> Seq<Seq<char>> {
    (if e.port != DEFAULT_PORT {
        seq!["-p"@, decimal(e.port as nat)]
    } else {
        Seq::empty()
    }) + (match e.user {
        Some(u) => seq!["-l"@, u],
        None => Seq::empty(),
    }) + (match e.identity_file {
        Some(f) => seq!["-i"@, f],
        None => Seq::empty(),
    }) + seq![e.host]
}

impl HostEntry {
    /// A copy of the entry.
    pub fn duplicate(&self) -> (r: HostEntry)
        ensures
            r@ == self@,
    {
        HostEntry {
            name: self.name.clone(),
            host: self.host.clone(),
            user: copy_opt(&self.user),
            port: self.port,
            identity_file: copy_opt(&self.identity_file),
            tags: copy_strs(&self.tags),
            provider: copy_opt(&self.provider),
            imported_from: copy_opt(&self.imported_from),
        }
    }

    /// Whether the entry carries `tag` (where one is given) and has `provider`
    /// as its provider (where one is given).
    pub fn matches_filter(&self, tag: Option<&str>, provider: Option<&str>) -> (r: bool)
        ensures
            r == matches_filter_spec(
                self@,
                match tag {
                    Some(t) => Some(t@),
                    None => None,
                },
                match provider {
                    Some(p) => Some(p@),
                    None => None,
                },
            ),
    {
        let tag_ok = match tag {
            Some(t) => {
                let mut found = false;
                let mut i: usize = 0;
                while i < self.tags.len()
                    invariant
                        i <= self.tags.len(),
                        found == exists|k: int| 0 <= k < i && self.tags@[k]@ == t@,
                    decreases self.tags.len() - i,
                {
                    if same_text(self.tags[i].as_str(), t) {
                        found = true;
                    }
                    i = i + 1;
                }
                proof {
                    let tv = strs_view(self.tags@);
                    if found {
                        let k = choose|k: int| 0 <= k < i && self.tags@[k]@ == t@;
                        assert(tv[k] == t@);
                    }
                    if tv.contains(t@) {
                        let k = choose|k: int| 0 <= k < tv.len() && tv[k] == t@;
                        assert(self.tags@[k]@ == t@);
                    }
                }
                found
            },
            None => true,
        };
        let provider_ok = match provider {
            Some(p) => match &self.provider {
                Some(q) => same_text(q.as_str(), p),
                None => false,
            },
            None => true,
        };
        tag_ok && provider_ok
    }

    /// The `ssh` arguments that reach this entry.
    pub fn ssh_args(&self) -> (r: Vec<String>)
        ensures
            strs_view(r@) == ssh_args_spec(self@),
    {
        let mut args: Vec<String> = Vec::new();
        if self.port != DEFAULT_PORT {
            args.push(owned("-p"));
            args.push(u16_text(self.port));
        }
        let ghost a1 = strs_view(args@);
        match &self.user {
            Some(user) => {
                args.push(owned("-l"));
                args.push(user.clone());
            },
            None => {},
        }
        let ghost a2 = strs_view(args@);
        match &self.identity_file {
            Some(f) => {
                args.push(owned("-i"));
                args.push(f.clone());
            },
            None => {},
        }
        let ghost a3 = strs_view(args@);
        args.push(self.host.clone());
        proof {
            let e = self@;
            let p: Seq<Seq<char>> = if e.port != DEFAULT_PORT {
                seq!["-p"@, decimal(e.port as nat)]
            } else {
                Seq::empty()
            };
            let u: Seq<Seq<char>> = match e.user {
                Some(u) => seq!["-l"@, u],
                None => Seq::empty(),
            };
            let f: Seq<Seq<char>> = match e.identity_file {
                Some(f) => seq!["-i"@, f],
                None => Seq::empty(),
            };
            assert(a1 =~= p);
            assert(a2 =~= p + u);
            assert(a3 =~= p + u + f);
            assert(strs_view(args@) =~= p + u + f + seq![e.host]);
        }
        args
    }
}

/// The filters: an entry passes the tag filter `t` exactly when one of its
/// tags is `t` (equal, not merely a prefix or part of it), and the provider
/// filter `p` exactly when its provider is `p`; an absent filter passes all.
pub proof fn lemma_filter_meaning(
    e: HostEntryView,
    tag: Option<Seq<char>>,
    provider: Option<Seq<char>>,
)
    ensures
        matches_filter_spec(e, tag, provider) <==> (match tag {
            Some(t) => exists|k: int| 0 <= k < e.tags.len() && e.tags[k] =~= t,
            None => true,
        } && match provider {
            Some(p) => e.provider matches Some(q) && q =~= p,
            None => true,
        }),
{
    if let Some(t) = tag {
        if exists|k: int| 0 <= k < e.tags.len() && e.tags[k] =~= t {
            let k = choose|k: int| 0 <= k < e.tags.len() && e.tags[k] =~= t;
            assert(e.tags[k] == t);
        }
    }
}

/// Where `x` stands directly before `y` in `s`.
pub open spec fn flag_then(s: Seq<Seq<char>>, x: Seq<char>, y: Seq<char>) -> bool {
    exists|k: int| 0 <= k && k + 1 < s.len() && #[trigger] s[k] =~= x && s[k + 1] =~= y
}

/// The `ssh` arguments of an entry: the host comes last; `-p` and the port
/// are there exactly when the port is not 22; `-l` and the user exactly when
/// there is a user; `-i` and the identity file exactly when there is one,
/// whatever the user is; and nothing else is there.
pub proof fn lemma_ssh_args_meaning(e: HostEntryView)
    ensures
        ssh_args_spec(e).len() > 0,
        ssh_args_spec(e).last() =~= e.host,
        ssh_args_spec(e).len() == 1 + (if e.port != 22 {
            2int
        } else {
            0
        }) + (if e.user is Some {
            2int
        } else {
            0
        }) + (if e.identity_file is Some {
            2int
        } else {
            0
        }),
        e.port != 22 ==> flag_then(ssh_args_spec(e), "-p"@, decimal(e.port as nat)),
        e.user matches Some(u) ==> flag_then(ssh_args_spec(e), "-l"@, u),
        e.identity_file matches Some(f) ==> flag_then(ssh_args_spec(e), "-i"@, f),
{
    let a = ssh_args_spec(e);
    let p: Seq<Seq<char>> = if e.port != DEFAULT_PORT {
        seq!["-p"@, decimal(e.port as nat)]
    } else {
        Seq::empty()
    };
    let u: Seq<Seq<char>> = match e.user {
        Some(u) => seq!["-l"@, u],
        None => Seq::empty(),
    };
    let f: Seq<Seq<char>> = match e.identity_file {
        Some(f) => seq!["-i"@, f],
        None => Seq::empty(),
    };
    assert(a =~= p + u + f + seq![e.host]);
    if e.port != 22 {
        assert(a[0] == "-p"@ && a[1] == decimal(e.port as nat));
    }
    if let Some(uu) = e.user {
        let k = p.len() as int;
        assert(a[k] == "-l"@ && a[k + 1] == uu);
    }
    if let Some(ff) = e.identity_file {
        let k = (p.len() + u.len()) as int;
        assert(a[k] == "-i"@ && a[k + 1] == ff);
    }
}

/// All stored hosts, with the format version of the file.
#[derive(Debug)]
pub struct HostStore {
    pub version: u32,
    pub hosts: Vec<HostEntry>,
}

pub struct HostStoreView {
    pub version: u32,
    pub hosts: Seq<HostEntryView>,
}

impl View for HostStore {
    type V = HostStoreView;

    open spec fn view(&self) -> HostStoreView {
        HostStoreView { version: self.version, hosts: entries_view(self.hosts@) }
    }
}

/// The format version of a new store.
pub fn default_version() -> (v: u32)
    ensures
        v == 1,
{
    1
}

/// The port of an entry that names none.
pub fn default_port() -> (p: u16)
    ensures
        p == DEFAULT_PORT,
{
    DEFAULT_PORT
}

impl Default for HostStore {
    /// An empty store of the current version.
    fn default() -> (r: Self)
        ensures
            r@.version == 1,
            r@.hosts == Seq::<HostEntryView>::empty(),
    {
        let r = HostStore { version: default_version(), hosts: Vec::new() };
        assert(r@.hosts =~= Seq::<HostEntryView>::empty());
        r
    }
}

/// The index of the first entry at or after `k` named `name`.
pub open spec fn find_from(hosts: Seq<HostEntryView>, name: Seq<char>, k: int) -> Option<int>
    decreases hosts.len() - k,
{
    if k < 0 || k >= hosts.len() {
        None
    } else if hosts[k].name == name {
        Some(k)
    } else {
        find_from(hosts, name, k + 1)
    }
}

/// The index of the first entry named `name`.
pub open spec fn find_name(hosts: Seq<HostEntryView>, name: Seq<char>) -> Option<int> {
    find_from(hosts, name, 0)
}

/// Whether some entry is named `name`.
pub open spec fn has_name(hosts: Seq<HostEntryView>, name: Seq<char>) -> bool {
    exists|i: int| 0 <= i < hosts.len() && (#[trigger] hosts[i]).name == name
}

proof fn lemma_find_from(hosts: Seq<HostEntryView>, name: Seq<char>, k: int)
    requires
        0 <= k <= hosts.len(),
    ensures
        match find_from(hosts, name, k) {
            Some(i) => k <= i < hosts.len() && hosts[i].name == name && forall|j: int|
                k <= j < i ==> (#[trigger] hosts[j]).name != name,
            None => forall|j: int| k <= j < hosts.len() ==> (#[trigger] hosts[j]).name != name,
        },
    decreases hosts.len() - k,
{
    if k < hosts.len() && hosts[k].name != name {
        lemma_find_from(hosts, name, k + 1);
    }
}

/// `find_name` gives the first entry with the name, and nothing only where no
/// entry has it.
pub proof fn lemma_find_name(hosts: Seq<HostEntryView>, name: Seq<char>)
    ensures
        match find_name(hosts, name) {
            Some(i) => 0 <= i < hosts.len() && hosts[i].name == name && forall|j: int|
                0 <= j < i ==> (#[trigger] hosts[j]).name != name,
            None => !has_name(hosts, name),
        },
        find_name(hosts, name) is Some <==> has_name(hosts, name),
{
    lemma_find_from(hosts, name, 0);
}

/// Names in non-decreasing order.
pub open spec fn sorted_by_name(s: Seq<HostEntryView>) -> bool {
    forall|i: int, j: int| 0 <= i < j < s.len() ==> !str_lt(s[j].name, s[i].name)
}

/// `e` placed after every entry whose name is not greater than its own, found
/// from the end: the insertion step of a stable sort.
pub open spec fn insert_by_name(s: Seq<HostEntryView>, e: HostEntryView) -> Seq<HostEntryView>
    decreases s.len(),
{
    if s.len() == 0 {
        seq![e]
    } else if str_lt(e.name, s.last().name) {
        insert_by_name(s.drop_last(), e).push(s.last())
    } else {
        s.push(e)
    }
}

/// The entries stably sorted by name: entries with equal names keep their order.
pub open spec fn sort_by_name(s: Seq<HostEntryView>) -> Seq<HostEntryView>
    decreases s.len(),
{
    if s.len() == 0 {
        s
    } else {
        insert_by_name(sort_by_name(s.drop_last()), s.last())
    }
}

proof fn lemma_insert_at(s: Seq<HostEntryView>, e: HostEntryView, p: int)
    requires
        0 <= p <= s.len(),
        p == 0 || !str_lt(e.name, s[p - 1].name),
        forall|k: int| p <= k < s.len() ==> str_lt(e.name, (#[trigger] s[k]).name),
    ensures
        insert_by_name(s, e) == s.take(p) + seq![e] + s.skip(p),
    decreases s.len(),
{
    if s.len() == 0 {
        assert(s.take(p) + seq![e] + s.skip(p) =~= seq![e]);
    } else if p == s.len() {
        assert(!str_lt(e.name, s.last().name));
        assert(s.take(p) + seq![e] + s.skip(p) =~= s.push(e));
    } else {
        assert(str_lt(e.name, s[s.len() - 1].name));
        let t = s.drop_last();
        assert forall|k: int| p <= k < t.len() implies str_lt(e.name, (#[trigger] t[k]).name) by {
            assert(t[k] == s[k]);
        }
        lemma_insert_at(t, e, p);
        assert((t.take(p) + seq![e] + t.skip(p)).push(s.last()) =~= s.take(p) + seq![e] + s.skip(
            p,
        ));
    }
}

/// Inserting puts `e` at one place and keeps the rest in order.
pub proof fn lemma_insert_shape(s: Seq<HostEntryView>, e: HostEntryView)
    ensures
        exists|p: int|
            0 <= p <= s.len() && insert_by_name(s, e) == s.take(p) + seq![e] + s.skip(p),
    decreases s.len(),
{
    if s.len() == 0 {
        assert(insert_by_name(s, e) =~= s.take(0) + seq![e] + s.skip(0));
    } else if str_lt(e.name, s.last().name) {
        let t = s.drop_last();
        lemma_insert_shape(t, e);
        let p = choose|p: int|
            0 <= p <= t.len() && insert_by_name(t, e) == t.take(p) + seq![e] + t.skip(p);
        assert((t.take(p) + seq![e] + t.skip(p)).push(s.last()) =~= s.take(p) + seq![e] + s.skip(
            p,
        ));
    } else {
        assert(insert_by_name(s, e) =~= s.take(s.len() as int) + seq![e] + s.skip(
            s.len() as int,
        ));
    }
}

/// Inserting keeps the entries and adds `e`.
pub proof fn lemma_insert_multiset(s: Seq<HostEntryView>, e: HostEntryView)
    ensures
        insert_by_name(s, e).to_multiset() == s.to_multiset().insert(e),
        insert_by_name(s, e).len() == s.len() + 1,
    decreases s.len(),
{
    if s.len() > 0 && str_lt(e.name, s.last().name) {
        lemma_insert_multiset(s.drop_last(), e);
        assert(s =~= s.drop_last().push(s.last()));
        assert(s.drop_last().to_multiset().insert(e).insert(s.last()) =~= s.drop_last().push(
            s.last(),
        ).to_multiset().insert(e));
    }
}

proof fn lemma_insert_sorted(s: Seq<HostEntryView>, e: HostEntryView)
    requires
        sorted_by_name(s),
    ensures
        sorted_by_name(insert_by_name(s, e)),
    decreases s.len(),
{
    if s.len() == 0 {
    } else if str_lt(e.name, s.last().name) {
        let t = s.drop_last();
        let last = s.last();
        lemma_insert_sorted(t, e);
        lemma_insert_multiset(t, e);
        let r = insert_by_name(t, e);
        assert forall|i: int| 0 <= i < r.len() implies !str_lt(last.name, (#[trigger] r[i]).name) by {
            assert(r.to_multiset().count(r[i]) > 0);
            if r[i] == e {
                lemma_str_lt_asymmetric(e.name, last.name);
            } else {
                assert(t.to_multiset().count(r[i]) > 0);
                assert(t.contains(r[i]));
                let k = choose|k: int| 0 <= k < t.len() && t[k] == r[i];
                assert(s[k] == r[i]);
                assert(s[s.len() - 1] == last);
            }
        }
        let out = r.push(last);
        assert forall|i: int, j: int| 0 <= i < j < out.len() implies !str_lt(
            out[j].name,
            out[i].name,
        ) by {
            if j < r.len() {
                assert(out[i] == r[i] && out[j] == r[j]);
            } else {
                assert(out[i] == r[i]);
            }
        }
    } else {
        let out = s.push(e);
        assert forall|i: int, j: int| 0 <= i < j < out.len() implies !str_lt(
            out[j].name,
            out[i].name,
        ) by {
            if j == s.len() && i < s.len() - 1 {
                if str_lt(e.name, s[i].name) {
                    assert(!str_lt(s[s.len() - 1].name, s[i].name));
                    if s[s.len() - 1].name == s[i].name {
                    } else {
                        lemma_str_lt_total(s[s.len() - 1].name, s[i].name);
                        lemma_str_lt_transitive(e.name, s[i].name, s[s.len() - 1].name);
                    }
                }
            }
        }
    }
}

/// The result of `sort_by_name` is sorted by name.
pub proof fn lemma_sort_sorted(s: Seq<HostEntryView>)
    ensures
        sorted_by_name(sort_by_name(s)),
    decreases s.len(),
{
    if s.len() > 0 {
        lemma_sort_sorted(s.drop_last());
        lemma_insert_sorted(sort_by_name(s.drop_last()), s.last());
    }
}

/// `sort_by_name` keeps exactly the entries it is given.
pub proof fn lemma_sort_multiset(s: Seq<HostEntryView>)
    ensures
        sort_by_name(s).to_multiset() == s.to_multiset(),
        sort_by_name(s).len() == s.len(),
    decreases s.len(),
{
    if s.len() > 0 {
        lemma_sort_multiset(s.drop_last());
        lemma_insert_multiset(sort_by_name(s.drop_last()), s.last());
        assert(s =~= s.drop_last().push(s.last()));
    }
}

/// Sorting entries already sorted by name changes nothing.
pub proof fn lemma_sort_sorted_is_identity(s: Seq<HostEntryView>)
    requires
        sorted_by_name(s),
    ensures
        sort_by_name(s) == s,
    decreases s.len(),
{
    if s.len() > 0 {
        let t = s.drop_last();
        assert(sorted_by_name(t));
        lemma_sort_sorted_is_identity(t);
        if t.len() > 0 {
            assert(!str_lt(s.last().name, t.last().name));
        }
        assert(t.push(s.last()) =~= s);
    }
}

fn insert_entry_by_name(out: &mut Vec<HostEntry>, e: HostEntry)
    ensures
        entries_view(final(out)@) == insert_by_name(entries_view(old(out)@), e@),
{
    let ghost s = entries_view(out@);
    let mut p: usize = out.len();
    while p > 0 && str_less(e.name.as_str(), out[p - 1].name.as_str())
        invariant
            p <= out.len(),
            s == entries_view(out@),
            forall|k: int| p <= k < out.len() ==> str_lt(e@.name, (#[trigger] s[k]).name),
        decreases p,
    {
        p = p - 1;
    }
    proof {
        lemma_insert_at(s, e@, p as int);
    }
    let ghost ev = e@;
    out.insert(p, e);
    assert(entries_view(out@) =~= s.take(p as int) + seq![ev] + s.skip(p as int));
}

/// The entries stably sorted by name.
pub fn sort_entries(v: Vec<HostEntry>) -> (r: Vec<HostEntry>)
    ensures
        entries_view(r@) == sort_by_name(entries_view(v@)),
{
    let ghost orig = entries_view(v@);
    let mut rest = v;
    let mut out: Vec<HostEntry> = Vec::new();
    let ghost mut k: int = 0;
    assert(orig.take(0) =~= Seq::<HostEntryView>::empty());
    assert(entries_view(out@) =~= Seq::<HostEntryView>::empty());
    while rest.len() > 0
        invariant
            0 <= k <= orig.len(),
            entries_view(rest@) == orig.skip(k),
            entries_view(out@) == sort_by_name(orig.take(k)),
        decreases rest.len(),
    {
        let ghost old_rest = rest@;
        assert(entries_view(old_rest).len() == old_rest.len());
        assert(orig.skip(k).len() == orig.len() - k);
        let e = rest.remove(0);
        assert(e == old_rest[0]);
        assert(entries_view(old_rest)[0] == orig.skip(k)[0]);
        assert(e@ == orig[k]);
        assert forall|j: int| 0 <= j < rest@.len() implies entries_view(rest@)[j] == orig.skip(
            k + 1,
        )[j] by {
            assert(rest@[j] == old_rest[j + 1]);
            assert(entries_view(old_rest)[j + 1] == orig.skip(k)[j + 1]);
        }
        assert(entries_view(rest@) =~= orig.skip(k + 1));
        insert_entry_by_name(&mut out, e);
        assert(orig.take(k + 1).drop_last() =~= orig.take(k));
        proof {
            k = k + 1;
        }
    }
    assert(orig.take(k) =~= orig);
    out
}

impl HostStore {
    /// Sorts the hosts by name, keeping the order of hosts with equal names.
    pub fn sort_hosts(&mut self)
        ensures
            final(self)@.version == old(self)@.version,
            final(self)@.hosts == sort_by_name(old(self)@.hosts),
    {
        let mut taken: Vec<HostEntry> = Vec::new();
        std::mem::swap(&mut taken, &mut self.hosts);
        self.hosts = sort_entries(taken);
    }

    /// The index of the first host named `name`.
    pub fn position(&self, name: &str) -> (r: Option<usize>)
        ensures
            match r {
                Some(i) => find_name(self@.hosts, name@) == Some(i as int),
                None => find_name(self@.hosts, name@) is None,
            },
    {
        let ghost hv = self@.hosts;
        let mut i: usize = 0;
        while i < self.hosts.len()
            invariant
                i <= self.hosts.len(),
                hv == self@.hosts,
                find_name(hv, name@) == find_from(hv, name@, i as int),
            decreases self.hosts.len() - i,
        {
            if same_text(self.hosts[i].name.as_str(), name) {
                return Some(i);
            }
            i = i + 1;
        }
        None
    }

    /// The first host named `name`.
    pub fn get_host(&self, name: &str) -> (r: Option<&HostEntry>)
        ensures
            match r {
                Some(h) => find_name(self@.hosts, name@) matches Some(i) && h@ == self@.hosts[i],
                None => find_name(self@.hosts, name@) is None,
            },
    {
        proof {
            lemma_find_name(self@.hosts, name@);
        }
        match self.position(name) {
            Some(i) => Some(&self.hosts[i]),
            None => None,
        }
    }

    /// The first host named `name`, to change in place.
    pub fn get_host_mut(&mut self, name: &str) -> (r: Option<&mut HostEntry>)
        ensures
            match r {
                Some(h) => find_name(old(self)@.hosts, name@) matches Some(i) && (*h)@ == old(
                    self,
                )@.hosts[i] && final(self).version == old(self).version && final(self).hosts@
                    == old(self).hosts@.update(i, *final(h)),
                None => find_name(old(self)@.hosts, name@) is None && *final(self) == *old(self),
            },
    {
        proof {
            lemma_find_name(self@.hosts, name@);
        }
        match self.position(name) {
            Some(i) => Some(&mut self.hosts[i]),
            None => None,
        }
    }
}

/// `base` joined with `rel` as a path: an absolute `rel` replaces `base`, and a
/// `/` goes between them unless `base` is empty or already ends in one.
pub open spec fn joined_path(base: Seq<char>, rel: Seq<char>) -> Seq<char> {
    if rel.len() > 0 && rel[0] == '/' {
        rel
    } else if base.len() == 0 || base.last() == '/' {
        base + rel
    } else {
        base + seq!['/'] + rel
    }
}

/// `~` stands for `home`, and `~/rest` for `rest` under `home`; other paths are kept.
pub open spec fn expand_tilde_spec(home: Seq<char>, path: Seq<char>) -> Seq<char> {
    if path == seq!['~'] {
        home
    } else if path.len() >= 2 && path[0] == '~' && path[1] == '/' {
        joined_path(home, path.skip(2))
    } else {
        path
    }
}

/// Where the store lives, under the home directory.
pub open spec fn storage_relative_path() -> Seq<char> {
    ".config/sesh/hosts.toml"@
}

/// `PathBuf::from(base).join(rel)` as text.
pub fn path_join(base: &str, rel: &str) -> (r: String)
    ensures
        r@ == joined_path(base@, rel@),
{
    let b = chars_of(base);
    let rl = chars_of(rel);
    if rl.len() > 0 && rl[0] == '/' {
        return owned(rel);
    }
    let mut out = owned(base);
    if !(b.len() == 0 || b[b.len() - 1] == '/') {
        out.push('/');
    }
    out.append(rel);
    out
}

/// `path` with a leading `~` expanded to `home`.
pub fn expand_tilde_in(home: &str, path: &str) -> (r: String)
    ensures
        r@ == expand_tilde_spec(home@, path@),
{
    let v = chars_of(path);
    if v.len() == 1 && v[0] == '~' {
        assert(path@ =~= seq!['~']);
        return owned(home);
    }
    if v.len() >= 2 && v[0] == '~' && v[1] == '/' {
        assert(path@ != seq!['~']);
        let tail = subrange_of(&v, 2, v.len());
        let rest = string_of(tail.as_slice());
        assert(rest@ =~= path@.skip(2));
        return path_join(home, rest.as_str());
    }
    assert(path@ != seq!['~']) by {
        if path@ == seq!['~'] {
            assert(v@.len() == 1);
        }
    }
    owned(path)
}

/// The home directory from the environment: `HOME`, else `USERPROFILE`, else
/// `HOMEDRIVE` joined with `HOMEPATH`.
pub open spec fn home_dir_spec(
    home: Option<Seq<char>>,
    user_profile: Option<Seq<char>>,
    home_drive: Option<Seq<char>>,
    home_path: Option<Seq<char>>,
) -> Option<Seq<char>> {
    if home is Some {
        home
    } else if user_profile is Some {
        user_profile
    } else if home_drive is Some && home_path is Some {
        Some(joined_path(home_drive->0, home_path->0))
    } else {
        None
    }
}

/// The error when no home directory can be found.
pub open spec fn no_home_error() -> crate::error::AppErrorView {
    invalid_input(
        "Could not determine home directory."@,
        "Set HOME (or USERPROFILE on Windows)."@,
    )
}

/// The home directory, from the values of `HOME`, `USERPROFILE`, `HOMEDRIVE`
/// and `HOMEPATH`.
pub fn find_home_dir(
    home: Option<String>,
    user_profile: Option<String>,
    home_drive: Option<String>,
    home_path: Option<String>,
) -> (r: Result<String, AppError>)
    ensures
        match home_dir_spec(
            opt_view(home),
            opt_view(user_profile),
            opt_view(home_drive),
            opt_view(home_path),
        ) {
            Some(h) => r matches Ok(s) && s@ == h,
            None => r matches Err(e) && e@ == no_home_error(),
        },
{
    if let Some(h) = home {
        return Ok(h);
    }
    if let Some(p) = user_profile {
        return Ok(p);
    }
    match (home_drive, home_path) {
        (Some(drive), Some(path)) => Ok(path_join(drive.as_str(), path.as_str())),
        _ => Err(
            make_invalid_input(
                "Could not determine home directory.",
                "Set HOME (or USERPROFILE on Windows).",
            ),
        ),
    }
}

/// Where the host store is kept.
#[derive(Debug)]
pub struct Storage {
    home: String,
    path: String,
}

pub struct StorageView {
    pub home: Seq<char>,
    pub path: Seq<char>,
}

impl View for Storage {
    type V = StorageView;

    closed spec fn view(&self) -> StorageView {
        StorageView { home: self.home@, path: self.path@ }
    }
}

impl Storage {
    /// The storage under the home directory `home`.
    pub fn new_test(home: String) -> (r: Storage)
        ensures
            r@.home == home@,
            r@.path == joined_path(home@, storage_relative_path()),
    {
        let path = path_join(home.as_str(), ".config/sesh/hosts.toml");
        Storage { home, path }
    }

    /// The storage under the home directory that the environment names, given
    /// the values of `HOME`, `USERPROFILE`, `HOMEDRIVE` and `HOMEPATH`.
    pub fn new_default(
        home: Option<String>,
        user_profile: Option<String>,
        home_drive: Option<String>,
        home_path: Option<String>,
    ) -> (r: Result<Storage, AppError>)
        ensures
            match home_dir_spec(
                opt_view(home),
                opt_view(user_profile),
                opt_view(home_drive),
                opt_view(home_path),
            ) {
                Some(h) => r matches Ok(s) && s@.home == h && s@.path == joined_path(
                    h,
                    storage_relative_path(),
                ),
                None => r matches Err(e) && e@ == no_home_error(),
            },
    {
        let home = find_home_dir(home, user_profile, home_drive, home_path)?;
        Ok(Storage::new_test(home))
    }

    /// The store file.
    pub fn path(&self) -> (r: &str)
        ensures
            r@ == self@.path,
    {
        self.path.as_str()
    }

    /// The home directory.
    pub fn home_dir(&self) -> (r: &str)
        ensures
            r@ == self@.home,
    {
        self.home.as_str()
    }

    /// `path` with a leading `~` expanded to the home directory.
    pub fn expand_tilde(&self, path: &str) -> (r: String)
        ensures
            r@ == expand_tilde_spec(self@.home, path@),
    {
        expand_tilde_in(self.home.as_str(), path)
    }
}

} // verus!
