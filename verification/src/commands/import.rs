//! Importing hosts from an SSH client configuration file.
use vstd::prelude::*;

use crate::commands::CommandContext;
use crate::storage::{
    DEFAULT_PORT, HostEntry, HostEntryView, HostStore, entries_view, expand_tilde_in,
    expand_tilde_spec, find_name, lemma_find_name, sort_by_name,
};
use crate::tags::{is_tag_list_of, normalize_tags, normalized};
use crate::text::{
    decimal, before_hash, chars_of, copy_opt, copy_strs, cut_at_hash, has_char, join_with,
    join_words_from, label, label_str, lemma_str_lt_asymmetric, lemma_str_lt_irreflexive,
    lemma_str_lt_total, lemma_str_lt_transitive, lemma_trim_end_shape, lemma_trim_start_first,
    lines, lower, lower_chars, opt_view, owned, parse_u16, parse_u16_spec, same_text,
    split_lines, split_words, lemma_lines_plain, lemma_words_plain, lemma_before_hash_none,
    is_ws, lines_from, words_from, str_less, str_lt, string_of, strings_of, strs_view, trim,
    trim_chars, trim_start, usize_text, views, words, lemma_words_from_nonempty,
};

verus! {

/// What `import` is asked to do.
#[derive(Debug)]
pub struct ImportCommand {
    /// Path to the SSH config file
    pub file: String,
    /// Replace existing hosts with the imported values
    pub overwrite: bool,
    /// Provider label for the imported entries
    pub provider: Option<String>,
    /// Tags for the imported entries
    pub tags: Vec<String>,
}

/// How many imported hosts were added, replaced and skipped.
#[derive(Debug)]
pub struct ImportMergeSummary {
    pub added: usize,
    pub replaced: usize,
    pub skipped: usize,
}

/// What an import comes to: nothing to import (with the line to report), or
/// the entries to merge.
#[derive(Debug)]
pub enum ImportPlan {
    Nothing(String),
    Merge(Vec<HostEntry>),
}

/// Reads `Host` blocks of an SSH config into host entries.
#[derive(Debug)]
pub struct SshConfigImporter {
    home_dir: String,
    source_path: String,
    tags: Vec<String>,
    provider: Option<String>,
}

pub struct ImporterView {
    pub home_dir: Seq<char>,
    pub source_path: Seq<char>,
    pub tags: Seq<Seq<char>>,
    pub provider: Option<Seq<char>>,
}

impl View for SshConfigImporter {
    type V = ImporterView;

    closed spec fn view(&self) -> ImporterView {
        ImporterView {
            home_dir: self.home_dir@,
            source_path: self.source_path@,
            tags: strs_view(self.tags@),
            provider: opt_view(self.provider),
        }
    }
}

/// The settings of one `Host` block.
#[derive(Debug)]
pub struct RawHostBlock {
    pub aliases: Vec<String>,
    pub hostname: Option<String>,
    pub user: Option<String>,
    pub port: Option<u16>,
    pub identity_file: Option<String>,
}

pub struct RawBlockView {
    pub aliases: Seq<Seq<char>>,
    pub hostname: Option<Seq<char>>,
    pub user: Option<Seq<char>>,
    pub port: Option<u16>,
    pub identity_file: Option<Seq<char>>,
}

impl View for RawHostBlock {
    type V = RawBlockView;

    open spec fn view(&self) -> RawBlockView {
        RawBlockView {
            aliases: strs_view(self.aliases@),
            hostname: opt_view(self.hostname),
            user: opt_view(self.user),
            port: self.port,
            identity_file: opt_view(self.identity_file),
        }
    }
}

/// A block that names `aliases` and sets nothing yet.
pub open spec fn new_block(aliases: Seq<Seq<char>>) -> RawBlockView {
    RawBlockView { aliases, hostname: None, user: None, port: None, identity_file: None }
}

impl RawHostBlock {
    pub fn new(aliases: Vec<String>) -> (r: RawHostBlock)
        ensures
            r@ == new_block(strs_view(aliases@)),
    {
        RawHostBlock { aliases, hostname: None, user: None, port: None, identity_file: None }
    }
}

/// An alias names one host: it is not `*` and holds no `*`, `?` or `!`.
pub open spec fn is_importable(alias: Seq<char>) -> bool {
    alias != "*"@ && !(alias.contains('*') || alias.contains('?') || alias.contains('!'))
}

/// The entry that `alias` of block `b` becomes.
pub open spec fn entry_for(imp: ImporterView, alias: Seq<char>, b: RawBlockView) -> HostEntryView {
    HostEntryView {
        name: alias,
        host: match b.hostname {
            Some(h) => h,
            None => alias,
        },
        user: b.user,
        port: match b.port {
            Some(p) => p,
            None => DEFAULT_PORT,
        },
        identity_file: match b.identity_file {
            Some(f) => Some(expand_tilde_spec(imp.home_dir, f)),
            None => None,
        },
        tags: imp.tags,
        provider: imp.provider,
        imported_from: Some(imp.source_path),
    }
}

/// `m` with an entry for each importable alias in `aliases`, later ones winning.
pub open spec fn flush_aliases(
    imp: ImporterView,
    b: RawBlockView,
    aliases: Seq<Seq<char>>,
    m: Map<Seq<char>, HostEntryView>,
) -> Map<Seq<char>, HostEntryView>
    decreases aliases.len(),
{
    if aliases.len() == 0 {
        m
    } else {
        flush_aliases(
            imp,
            b,
            aliases.drop_first(),
            if is_importable(aliases[0]) {
                m.insert(aliases[0], entry_for(imp, aliases[0], b))
            } else {
                m
            },
        )
    }
}

/// `m` with the entries of block `b`.
pub open spec fn flush(imp: ImporterView, b: RawBlockView, m: Map<Seq<char>, HostEntryView>) -> Map<
    Seq<char>,
    HostEntryView,
> {
    flush_aliases(imp, b, b.aliases, m)
}

/// Where the reading of a config stands: the block being read, and the
/// entries found so far, by name.
pub struct ParseState {
    pub current: Option<RawBlockView>,
    pub found: Map<Seq<char>, HostEntryView>,
}

/// Block `b` after a setting `key value`; unknown keys change nothing.
pub open spec fn set_key(b: RawBlockView, key: Seq<char>, value: Seq<char>) -> RawBlockView {
    if key == "hostname"@ {
        RawBlockView { hostname: Some(value), ..b }
    } else if key == "user"@ {
        RawBlockView { user: Some(value), ..b }
    } else if key == "port"@ {
        RawBlockView { port: parse_u16_spec(value), ..b }
    } else if key == "identityfile"@ {
        RawBlockView { identity_file: Some(value), ..b }
    } else {
        b
    }
}

/// The reading after one line. A comment runs from `#` to the end of the line;
/// a line is a key (any case) and a value (the remaining words, joined by
/// spaces); lines without a value are skipped. `Host` ends the current block
/// and starts one for its aliases; other keys set the current block.
pub open spec fn read_line(imp: ImporterView, st: ParseState, line: Seq<char>) -> ParseState {
    let t = trim(before_hash(line));
    if t.len() == 0 {
        st
    } else {
        let ws = words(t);
        let key = lower(ws[0]);
        let value = join_with(ws.skip(1), seq![' ']);
        if value.len() == 0 {
            st
        } else if key == "host"@ {
            ParseState {
                current: Some(new_block(words(value))),
                found: match st.current {
                    Some(b) => flush(imp, b, st.found),
                    None => st.found,
                },
            }
        } else {
            match st.current {
                Some(b) => ParseState { current: Some(set_key(b, key, value)), found: st.found },
                None => st,
            }
        }
    }
}

/// The reading after the lines `ls`, in order.
pub open spec fn read_lines(imp: ImporterView, st: ParseState, ls: Seq<Seq<char>>) -> ParseState
    decreases ls.len(),
{
    if ls.len() == 0 {
        st
    } else {
        read_lines(imp, read_line(imp, st, ls[0]), ls.drop_first())
    }
}

/// The entries that a config holds, by name. (Lines are split at `\n`; a `\r`
/// before it is whitespace, which each line loses when it is trimmed.)
pub open spec fn config_entries(imp: ImporterView, content: Seq<char>) -> Map<
    Seq<char>,
    HostEntryView,
> {
    let st = read_lines(
        imp,
        ParseState { current: None, found: Map::empty() },
        lines(content),
    );
    match st.current {
        Some(b) => flush(imp, b, st.found),
        None => st.found,
    }
}

/// `s` lists the map `m` in increasing order of name.
pub open spec fn lists_map(s: Seq<HostEntryView>, m: Map<Seq<char>, HostEntryView>) -> bool {
    &&& forall|i: int, j: int| 0 <= i < j < s.len() ==> str_lt(s[i].name, s[j].name)
    &&& forall|i: int|
        0 <= i < s.len() ==> m.contains_key(#[trigger] s[i].name) && m[s[i].name] == s[i]
    &&& forall|k: Seq<char>|
        #[trigger] m.contains_key(k) ==> exists|i: int| 0 <= i < s.len() && s[i].name == k
}

/// There is one listing of a map: two sequences that list it are equal.
pub proof fn lemma_lists_map_unique(
    a: Seq<HostEntryView>,
    b: Seq<HostEntryView>,
    m: Map<Seq<char>, HostEntryView>,
)
    requires
        lists_map(a, m),
        lists_map(b, m),
    ensures
        a == b,
    decreases a.len(),
{
    if a.len() == 0 {
        if b.len() > 0 {
            assert(m.contains_key(b[0].name));
        }
        assert(a =~= b);
    } else {
        assert(m.contains_key(a[0].name));
        assert(b.len() > 0);
        assert(m.contains_key(b[0].name));
        let i = choose|i: int| 0 <= i < a.len() && a[i].name == b[0].name;
        let j = choose|j: int| 0 <= j < b.len() && b[j].name == a[0].name;
        if i > 0 {
            if j > 0 {
                lemma_str_lt_asymmetric(b[0].name, a[0].name);
            } else {
                lemma_str_lt_irreflexive(a[0].name);
            }
        }
        assert(a[0] == b[0]);
        let m2 = m.remove(a[0].name);
        let a2 = a.drop_first();
        let b2 = b.drop_first();
        assert forall|i: int| 0 <= i < a2.len() implies a2[i].name != a[0].name by {
            assert(str_lt(a[0].name, a[i + 1].name));
            lemma_str_lt_irreflexive(a[0].name);
        }
        assert forall|i: int| 0 <= i < b2.len() implies b2[i].name != b[0].name by {
            assert(str_lt(b[0].name, b[i + 1].name));
            lemma_str_lt_irreflexive(b[0].name);
        }
        assert forall|k: Seq<char>| #[trigger] m2.contains_key(k) implies exists|i: int|
            0 <= i < a2.len() && a2[i].name == k by {
            let i = choose|i: int| 0 <= i < a.len() && a[i].name == k;
            assert(a2[i - 1].name == k);
        }
        assert forall|k: Seq<char>| #[trigger] m2.contains_key(k) implies exists|i: int|
            0 <= i < b2.len() && b2[i].name == k by {
            let i = choose|i: int| 0 <= i < b.len() && b[i].name == k;
            assert(b2[i - 1].name == k);
        }
        assert forall|i: int| 0 <= i < a2.len() implies m2.contains_key(
            #[trigger] a2[i].name,
        ) && m2[a2[i].name] == a2[i] by {
            assert(a2[i] == a[i + 1]);
        }
        assert forall|i: int| 0 <= i < b2.len() implies m2.contains_key(
            #[trigger] b2[i].name,
        ) && m2[b2[i].name] == b2[i] by {
            assert(b2[i] == b[i + 1]);
        }
        assert forall|i: int, j: int| 0 <= i < j < a2.len() implies str_lt(
            a2[i].name,
            a2[j].name,
        ) by {
            assert(a2[i] == a[i + 1] && a2[j] == a[j + 1]);
        }
        assert forall|i: int, j: int| 0 <= i < j < b2.len() implies str_lt(
            b2[i].name,
            b2[j].name,
        ) by {
            assert(b2[i] == b[i + 1] && b2[j] == b[j + 1]);
        }
        lemma_lists_map_unique(a2, b2, m2);
        assert(a =~= seq![a[0]] + a2);
        assert(b =~= seq![b[0]] + b2);
    }
}

fn insert_or_replace(out: &mut Vec<HostEntry>, e: HostEntry, Ghost(m): Ghost<
    Map<Seq<char>, HostEntryView>,
>)
    requires
        lists_map(entries_view(old(out)@), m),
    ensures
        lists_map(entries_view(final(out)@), m.insert(e@.name, e@)),
{
    let ghost s = entries_view(out@);
    let ghost ev = e@;
    let ghost m2 = m.insert(ev.name, ev);
    let mut p: usize = 0;
    while p < out.len() && str_less(out[p].name.as_str(), e.name.as_str())
        invariant
            p <= out.len(),
            s == entries_view(out@),
            ev == e@,
            forall|k: int| 0 <= k < p ==> str_lt((#[trigger] s[k]).name, ev.name),
        decreases out.len() - p,
    {
        p = p + 1;
    }
    if p < out.len() && same_text(out[p].name.as_str(), e.name.as_str()) {
        out.set(p, e);
        let ghost r = entries_view(out@);
        assert(r =~= s.update(p as int, ev));
        assert forall|i: int| 0 <= i < r.len() && i != p implies (#[trigger] r[i]).name
            != ev.name by {
            assert(r[i] == s[i]);
            if i < p {
                lemma_str_lt_irreflexive(s[i].name);
            } else {
                assert(str_lt(s[p as int].name, s[i].name));
                lemma_str_lt_irreflexive(s[i].name);
            }
        }
        assert forall|i: int| 0 <= i < r.len() implies m2.contains_key(#[trigger] r[i].name)
            && m2[r[i].name] == r[i] by {
            if i != p {
                assert(r[i] == s[i]);
            }
        }
        assert forall|k: Seq<char>| #[trigger] m2.contains_key(k) implies exists|i: int|
            0 <= i < r.len() && r[i].name == k by {
            if k == ev.name {
                assert(r[p as int].name == k);
            } else {
                let i = choose|i: int| 0 <= i < s.len() && s[i].name == k;
                assert(r[i] == s[i]);
            }
        }
        assert forall|i: int, j: int| 0 <= i < j < r.len() implies str_lt(r[i].name, r[j].name) by {
            assert(str_lt(s[i].name, s[j].name));
        }
        return ;
    }
    proof {
        if p < s.len() {
            assert(!str_lt(s[p as int].name, ev.name));
            assert(s[p as int].name != ev.name);
            lemma_str_lt_total(s[p as int].name, ev.name);
            assert forall|k: int| p <= k < s.len() implies str_lt(ev.name, (#[trigger] s[k]).name) by {
                if k > p {
                    lemma_str_lt_transitive(ev.name, s[p as int].name, s[k].name);
                }
            }
        }
    }
    out.insert(p, e);
    let ghost r = entries_view(out@);
    assert(r =~= s.take(p as int) + seq![ev] + s.skip(p as int));
    assert forall|i: int, j: int| 0 <= i < j < r.len() implies str_lt(r[i].name, r[j].name) by {
        if j < p {
            assert(r[i] == s[i] && r[j] == s[j]);
        } else if j == p {
            assert(r[i] == s[i]);
        } else if i < p {
            assert(r[i] == s[i] && r[j] == s[j - 1]);
            lemma_str_lt_transitive(s[i].name, ev.name, s[j - 1].name);
        } else if i == p {
            assert(r[j] == s[j - 1]);
        } else {
            assert(r[i] == s[i - 1] && r[j] == s[j - 1]);
        }
    }
    assert forall|i: int| 0 <= i < r.len() implies m2.contains_key(#[trigger] r[i].name)
        && m2[r[i].name] == r[i] by {
        if i < p {
            assert(r[i] == s[i]);
            lemma_str_lt_irreflexive(ev.name);
        } else if i > p {
            assert(r[i] == s[i - 1]);
            lemma_str_lt_irreflexive(ev.name);
        }
    }
    assert forall|k: Seq<char>| #[trigger] m2.contains_key(k) implies exists|i: int|
        0 <= i < r.len() && r[i].name == k by {
        if k == ev.name {
            assert(r[p as int].name == k);
        } else {
            let i = choose|i: int| 0 <= i < s.len() && s[i].name == k;
            if i < p {
                assert(r[i] == s[i]);
            } else {
                assert(r[i + 1] == s[i]);
            }
        }
    }
}

/// The block being read, by its view.
pub open spec fn current_view(c: Option<RawHostBlock>) -> Option<RawBlockView> {
    match c {
        Some(b) => Some(b@),
        None => None,
    }
}

fn set_block_key(b: RawHostBlock, key: &String, value: &Vec<char>) -> (r: RawHostBlock)
    ensures
        r@ == set_key(b@, key@, value@),
{
    let mut b = b;
    if *key == owned("hostname") {
        b.hostname = Some(string_of(value.as_slice()));
    } else if *key == owned("user") {
        b.user = Some(string_of(value.as_slice()));
    } else if *key == owned("port") {
        b.port = parse_u16(value);
    } else if *key == owned("identityfile") {
        b.identity_file = Some(string_of(value.as_slice()));
    }
    b
}

impl SshConfigImporter {
    /// An importer that expands `~` to `home_dir`, records `source_path` as the
    /// origin of each entry, and gives each entry `tags` and `provider`.
    pub fn new(
        home_dir: String,
        source_path: String,
        tags: Vec<String>,
        provider: Option<String>,
    ) -> (r: SshConfigImporter)
        ensures
            r@ == (ImporterView {
                home_dir: home_dir@,
                source_path: source_path@,
                tags: strs_view(tags@),
                provider: opt_view(provider),
            }),
    {
        SshConfigImporter { home_dir, source_path, tags, provider }
    }

    /// The host entries of an SSH config, one for each importable alias (the
    /// last block that names it wins), in increasing order of name.
    pub fn parse(&self, content: &str) -> (r: Vec<HostEntry>)
        ensures
            lists_map(entries_view(r@), config_entries(self@, content@)),
    {
        let ghost imp = self@;
        let chars = chars_of(content);
        let ls = split_lines(&chars);
        let ghost lsv = views(ls@);
        let ghost init = ParseState { current: None, found: Map::empty() };
        let mut out: Vec<HostEntry> = Vec::new();
        let mut current: Option<RawHostBlock> = None;
        let ghost mut m: Map<Seq<char>, HostEntryView> = Map::empty();
        let mut i: usize = 0;
        assert(lsv.skip(0) =~= lsv);
        assert(lists_map(entries_view(out@), m));
        while i < ls.len()
            invariant
                i <= ls.len(),
                imp == self@,
                lsv == views(ls@),
                lsv == lines(content@),
                lists_map(entries_view(out@), m),
                read_lines(imp, init, lsv) == read_lines(
                    imp,
                    ParseState { current: current_view(current), found: m },
                    lsv.skip(i as int),
                ),
            decreases ls.len() - i,
        {
            let ghost st = ParseState { current: current_view(current), found: m };
            assert(lsv.skip(i as int).drop_first() =~= lsv.skip(i + 1));
            assert(lsv.skip(i as int)[0] == ls@[i as int]@);
            let ghost next = read_line(imp, st, ls@[i as int]@);
            assert(read_lines(imp, st, lsv.skip(i as int)) == read_lines(
                imp,
                next,
                lsv.skip(i + 1),
            ));
            let bh = cut_at_hash(&ls[i]);
            let t = trim_chars(&bh);
            if t.len() > 0 {
                proof {
                    lemma_trim_start_first(bh@);
                    lemma_trim_end_shape(trim_start(bh@));
                    lemma_words_from_nonempty(t@, seq![]);
                }
                let ws = split_words(&t);
                let key = string_of(lower_chars(&ws[0]).as_slice());
                let value = join_words_from(&ws, 1);
                if value.len() > 0 {
                    if key == owned("host") {
                        let prev = current;
                        match prev {
                            Some(b) => {
                                self.flush_host_block(b, &mut out, Ghost(m));
                            },
                            None => {},
                        }
                        proof {
                            m = next.found;
                        }
                        let aliases = strings_of(&split_words(&value));
                        current = Some(RawHostBlock::new(aliases));
                    } else {
                        current =
                        match current {
                            Some(b) => Some(set_block_key(b, &key, &value)),
                            None => None,
                        };
                    }
                }
            }
            i = i + 1;
        }
        assert(lsv.skip(i as int) =~= Seq::<Seq<char>>::empty());
        match current {
            Some(b) => {
                self.flush_host_block(b, &mut out, Ghost(m));
            },
            None => {},
        }
        out
    }

    /// Adds to `out` an entry for each importable alias of `block`.
    fn flush_host_block(
        &self,
        block: RawHostBlock,
        out: &mut Vec<HostEntry>,
        Ghost(m): Ghost<Map<Seq<char>, HostEntryView>>,
    )
        requires
            lists_map(entries_view(old(out)@), m),
        ensures
            lists_map(entries_view(final(out)@), flush(self@, block@, m)),
    {
        let ghost imp = self@;
        let ghost bv = block@;
        let ghost mut mk = m;
        let mut k: usize = 0;
        assert(bv.aliases.skip(0) =~= bv.aliases);
        while k < block.aliases.len()
            invariant
                k <= block.aliases.len(),
                imp == self@,
                bv == block@,
                lists_map(entries_view(out@), mk),
                flush(imp, bv, m) == flush_aliases(imp, bv, bv.aliases.skip(k as int), mk),
            decreases block.aliases.len() - k,
        {
            let alias = &block.aliases[k];
            assert(bv.aliases.skip(k as int).drop_first() =~= bv.aliases.skip(k + 1));
            assert(bv.aliases.skip(k as int)[0] == alias@);
            if Self::is_importable_alias(alias.as_str()) {
                let host = match &block.hostname {
                    Some(h) => h.clone(),
                    None => alias.clone(),
                };
                let identity_file = match &block.identity_file {
                    Some(f) => Some(self.expand_tilde(f.as_str())),
                    None => None,
                };
                let entry = HostEntry {
                    name: alias.clone(),
                    host,
                    user: copy_opt(&block.user),
                    port: match block.port {
                        Some(p) => p,
                        None => DEFAULT_PORT,
                    },
                    identity_file,
                    tags: copy_strs(&self.tags),
                    provider: copy_opt(&self.provider),
                    imported_from: Some(self.source_path.clone()),
                };
                assert(entry@ == entry_for(imp, alias@, bv));
                insert_or_replace(out, entry, Ghost(mk));
                proof {
                    mk = mk.insert(alias@, entry_for(imp, alias@, bv));
                }
            }
            k = k + 1;
        }
    }

    /// Whether an alias names one host rather than a pattern.
    pub fn is_importable_alias(alias: &str) -> (r: bool)
        ensures
            r == is_importable(alias@),
    {
        if same_text(alias, "*") {
            return false;
        }
        !(has_char(alias, '*') || has_char(alias, '?') || has_char(alias, '!'))
    }

    /// `path` with a leading `~` expanded to the home directory.
    pub fn expand_tilde(&self, path: &str) -> (r: String)
        ensures
            r@ == expand_tilde_spec(self@.home_dir, path@),
    {
        expand_tilde_in(self.home_dir.as_str(), path)
    }
}

/// Every entry in `m` is an importable alias's, named by its key, and records
/// the config file as its origin.
pub open spec fn well_keyed(imp: ImporterView, m: Map<Seq<char>, HostEntryView>) -> bool {
    forall|k: Seq<char>|
        #[trigger] m.contains_key(k) ==> is_importable(k) && m[k].name == k && m[k].imported_from
            == Some(imp.source_path)
}

proof fn lemma_flush_aliases_well_keyed(
    imp: ImporterView,
    b: RawBlockView,
    aliases: Seq<Seq<char>>,
    m: Map<Seq<char>, HostEntryView>,
)
    requires
        well_keyed(imp, m),
    ensures
        well_keyed(imp, flush_aliases(imp, b, aliases, m)),
    decreases aliases.len(),
{
    if aliases.len() > 0 {
        let next = if is_importable(aliases[0]) {
            m.insert(aliases[0], entry_for(imp, aliases[0], b))
        } else {
            m
        };
        assert(well_keyed(imp, next));
        lemma_flush_aliases_well_keyed(imp, b, aliases.drop_first(), next);
    }
}

proof fn lemma_read_lines_well_keyed(imp: ImporterView, st: ParseState, ls: Seq<Seq<char>>)
    requires
        well_keyed(imp, st.found),
    ensures
        well_keyed(imp, read_lines(imp, st, ls).found),
        read_lines(imp, st, ls).current matches Some(b) ==> well_keyed(
            imp,
            flush(imp, b, read_lines(imp, st, ls).found),
        ),
    decreases ls.len(),
{
    if ls.len() > 0 {
        match st.current {
            Some(b) => lemma_flush_aliases_well_keyed(imp, b, b.aliases, st.found),
            None => {},
        }
        lemma_read_lines_well_keyed(imp, read_line(imp, st, ls[0]), ls.drop_first());
    } else {
        match st.current {
            Some(b) => lemma_flush_aliases_well_keyed(imp, b, b.aliases, st.found),
            None => {},
        }
    }
}

/// Only importable aliases become entries; each entry is named by its alias
/// and records the config file as its origin.
pub proof fn lemma_config_entries_well_keyed(imp: ImporterView, content: Seq<char>)
    ensures
        well_keyed(imp, config_entries(imp, content)),
{
    let init = ParseState { current: None, found: Map::empty() };
    lemma_read_lines_well_keyed(imp, init, lines(content));
}

/// An alias is importable exactly when it is not `*` and holds none of `*`,
/// `?` and `!`; any other text, a domain name or an address among them, names
/// one host.
pub proof fn lemma_importable_meaning(a: Seq<char>)
    ensures
        is_importable(a) <==> (a != seq!['*'] && !a.contains('*') && !a.contains('?')
            && !a.contains('!')),
{
    reveal_strlit("*");
    assert("*"@ =~= seq!['*']);
}

/// A config whose one line is `Host a` gives one entry for `a` (an alias of
/// non-whitespace characters, without `#`, that is not a pattern): named `a`,
/// reached at host `a` on port 22, with no user and no identity file, and
/// carrying the importer's tags, provider and origin.
pub proof fn lemma_single_host_imported(imp: ImporterView, a: Seq<char>)
    requires
        a.len() > 0,
        forall|i: int| 0 <= i < a.len() ==> !is_ws(#[trigger] a[i]) && a[i] != '#',
        a != seq!['*'],
        !a.contains('*'),
        !a.contains('?'),
        !a.contains('!'),
    ensures
        ({
            let m = config_entries(imp, "Host "@ + a + "\n"@);
            &&& m.dom() =~= set![a]
            &&& m[a].name =~= a
            &&& m[a].host =~= a
            &&& m[a].user is None
            &&& m[a].port == 22
            &&& m[a].identity_file is None
            &&& m[a].tags == imp.tags
            &&& m[a].provider == imp.provider
            &&& m[a].imported_from == Some(imp.source_path)
        }),
{
    reveal_strlit("Host ");
    reveal_strlit("\n");
    reveal_strlit("host");
    reveal_strlit("*");
    let h = seq!['H', 'o', 's', 't'];
    let l1 = h + seq![' '] + a;
    assert("Host "@ + a =~= l1);
    let c = l1 + seq!['\n'];
    assert("Host "@ + a + "\n"@ =~= c);
    // the lines
    assert forall|i: int| 0 <= i < l1.len() implies #[trigger] l1[i] != '\n' by {
        if i >= 5 {
            assert(l1[i] == a[i - 5]);
            assert(!is_ws(a[i - 5]));
        }
    }
    lemma_lines_plain(l1, seq!['\n'], seq![]);
    assert(Seq::<char>::empty() + l1 =~= l1);
    assert(seq!['\n'].drop_first() =~= Seq::<char>::empty());
    let ls = lines(c);
    let nl = seq!['\n'];
    assert(nl[0] == '\n');
    assert(lines_from(nl, l1) == seq![l1] + lines_from(nl.drop_first(), seq![]));
    assert(lines_from(Seq::<char>::empty(), seq![]) == seq![Seq::<char>::empty()]);
    assert(ls == lines_from(nl, l1));
    assert(ls =~= seq![l1, Seq::<char>::empty()]);
    // the first line
    assert forall|i: int| 0 <= i < l1.len() implies #[trigger] l1[i] != '#' by {
        if i >= 5 {
            assert(l1[i] == a[i - 5]);
        }
    }
    lemma_before_hash_none(l1);
    assert(l1[0] == 'H');
    assert(l1.last() == a.last());
    assert(!is_ws(a[a.len() - 1]));
    assert(trim_start(l1) == l1);
    assert(trim(l1) == l1);
    assert forall|i: int| 0 <= i < h.len() implies !is_ws(#[trigger] h[i]) by {}
    lemma_words_plain(h, seq![' '] + a, seq![]);
    assert(h + (seq![' '] + a) =~= l1);
    assert(Seq::<char>::empty() + h =~= h);
    let rest = seq![' '] + a;
    assert(rest[0] == ' ');
    assert(rest.drop_first() =~= a);
    lemma_words_plain(a, Seq::<char>::empty(), seq![]);
    assert(a + Seq::<char>::empty() =~= a);
    assert(Seq::<char>::empty() + a =~= a);
    assert(words(a) =~= seq![a]);
    assert(words(l1) =~= seq![h, a]);
    let ws = words(l1);
    assert(lower(h) =~= seq!['h', 'o', 's', 't']);
    assert("host"@ =~= seq!['h', 'o', 's', 't']);
    assert(ws.skip(1) =~= seq![a]);
    assert(join_with(ws.skip(1), seq![' ']) == a);
    let init = ParseState { current: None, found: Map::empty() };
    let st1 = ParseState { current: Some(new_block(seq![a])), found: Map::empty() };
    assert(read_line(imp, init, l1) == st1);
    // the empty last line
    assert(trim(before_hash(Seq::<char>::empty())) =~= Seq::<char>::empty());
    assert(read_line(imp, st1, Seq::<char>::empty()) == st1);
    assert(ls.drop_first() =~= seq![Seq::<char>::empty()]);
    assert(seq![Seq::<char>::empty()].drop_first() =~= Seq::<Seq<char>>::empty());
    let ls2 = seq![Seq::<char>::empty()];
    assert(read_lines(imp, st1, ls2.drop_first()) == st1);
    assert(read_lines(imp, st1, ls2) == read_lines(imp, read_line(imp, st1, ls2[0]), ls2.drop_first()));
    assert(read_lines(imp, st1, ls2) == st1);
    assert(ls[0] == l1);
    assert(read_lines(imp, init, ls) == read_lines(imp, read_line(imp, init, ls[0]), ls.drop_first()));
    assert(read_lines(imp, init, ls) == st1);
    // the block is flushed at the end
    assert("*"@ =~= seq!['*']);
    assert(is_importable(a));
    let b = new_block(seq![a]);
    assert(seq![a].drop_first() =~= Seq::<Seq<char>>::empty());
    let m = Map::<Seq<char>, HostEntryView>::empty().insert(a, entry_for(imp, a, b));
    let al = seq![a];
    assert(al[0] == a);
    assert(flush_aliases(imp, b, al.drop_first(), m) == m);
    assert(flush_aliases(imp, b, al, Map::empty()) == flush_aliases(
        imp,
        b,
        al.drop_first(),
        m,
    ));
    assert(b.aliases == al);
    assert(flush(imp, b, Map::empty()) == m);
    assert(config_entries(imp, c) == m);
}

/// Where a merge stands: the hosts, and how many incoming entries were added,
/// replaced and skipped.
pub struct MergeView {
    pub hosts: Seq<HostEntryView>,
    pub added: nat,
    pub replaced: nat,
    pub skipped: nat,
}

/// One incoming entry merged: a host of that name is replaced (with
/// `overwrite`) or kept; otherwise the entry is added at the end.
pub open spec fn merge_one(st: MergeView, e: HostEntryView, overwrite: bool) -> MergeView {
    match find_name(st.hosts, e.name) {
        Some(i) => if overwrite {
            MergeView { hosts: st.hosts.update(i, e), replaced: st.replaced + 1, ..st }
        } else {
            MergeView { skipped: st.skipped + 1, ..st }
        },
        None => MergeView { hosts: st.hosts.push(e), added: st.added + 1, ..st },
    }
}

/// The incoming entries merged one after the other.
pub open spec fn merge_all(st: MergeView, incoming: Seq<HostEntryView>, overwrite: bool) -> MergeView
    decreases incoming.len(),
{
    if incoming.len() == 0 {
        st
    } else {
        merge_all(merge_one(st, incoming[0], overwrite), incoming.drop_first(), overwrite)
    }
}

/// `incoming` merged into `hosts`.
pub open spec fn merge_spec(
    hosts: Seq<HostEntryView>,
    incoming: Seq<HostEntryView>,
    overwrite: bool,
) -> MergeView {
    merge_all(MergeView { hosts, added: 0, replaced: 0, skipped: 0 }, incoming, overwrite)
}

proof fn lemma_merge_all_counts(st: MergeView, incoming: Seq<HostEntryView>, overwrite: bool)
    ensures
        merge_all(st, incoming, overwrite).added + merge_all(st, incoming, overwrite).replaced
            + merge_all(st, incoming, overwrite).skipped == st.added + st.replaced + st.skipped
            + incoming.len(),
        merge_all(st, incoming, overwrite).hosts.len() == st.hosts.len() + merge_all(
            st,
            incoming,
            overwrite,
        ).added - st.added,
        merge_all(st, incoming, overwrite).added >= st.added,
        !overwrite ==> merge_all(st, incoming, overwrite).hosts.take(st.hosts.len() as int)
            == st.hosts,
    decreases incoming.len(),
{
    if incoming.len() > 0 {
        let next = merge_one(st, incoming[0], overwrite);
        lemma_find_name(st.hosts, incoming[0].name);
        lemma_merge_all_counts(next, incoming.drop_first(), overwrite);
        if !overwrite {
            assert(next.hosts.len() >= st.hosts.len());
            assert(next.hosts.take(st.hosts.len() as int) =~= st.hosts);
            assert(merge_all(next, incoming.drop_first(), overwrite).hosts.take(
                st.hosts.len() as int,
            ) =~= merge_all(next, incoming.drop_first(), overwrite).hosts.take(
                next.hosts.len() as int,
            ).take(st.hosts.len() as int));
        }
    }
}

/// Every incoming entry is counted once as added, replaced or skipped; the
/// store grows by the number added; and without `overwrite` the hosts that
/// were there stay as they were, in front.
pub proof fn lemma_merge_counts(
    hosts: Seq<HostEntryView>,
    incoming: Seq<HostEntryView>,
    overwrite: bool,
)
    ensures
        merge_spec(hosts, incoming, overwrite).added + merge_spec(hosts, incoming, overwrite).replaced
            + merge_spec(hosts, incoming, overwrite).skipped == incoming.len(),
        merge_spec(hosts, incoming, overwrite).hosts.len() == hosts.len() + merge_spec(
            hosts,
            incoming,
            overwrite,
        ).added,
        !overwrite ==> merge_spec(hosts, incoming, overwrite).hosts.take(hosts.len() as int)
            == hosts,
{
    lemma_merge_all_counts(
        MergeView { hosts, added: 0, replaced: 0, skipped: 0 },
        incoming,
        overwrite,
    );
}

impl ImportMergeSummary {
    /// Merges the imported hosts into the store, one after the other: a host
    /// of the same name is replaced with `overwrite` and kept without it; a new
    /// name is added at the end.
    pub fn apply(store: &mut HostStore, imported_hosts: Vec<HostEntry>, overwrite: bool) -> (r:
        ImportMergeSummary)
        ensures
            final(store)@.version == old(store)@.version,
            final(store)@.hosts == merge_spec(
                old(store)@.hosts,
                entries_view(imported_hosts@),
                overwrite,
            ).hosts,
            r.added == merge_spec(old(store)@.hosts, entries_view(imported_hosts@), overwrite).added,
            r.replaced == merge_spec(
                old(store)@.hosts,
                entries_view(imported_hosts@),
                overwrite,
            ).replaced,
            r.skipped == merge_spec(
                old(store)@.hosts,
                entries_view(imported_hosts@),
                overwrite,
            ).skipped,
    {
        let ghost incoming = entries_view(imported_hosts@);
        let ghost goal = merge_spec(old(store)@.hosts, incoming, overwrite);
        let mut summary = ImportMergeSummary { added: 0, replaced: 0, skipped: 0 };
        let total: usize = imported_hosts.len();
        assert(incoming.len() == total);
        let mut rest = imported_hosts;
        let ghost mut k: int = 0;
        assert(incoming.skip(0) =~= incoming);
        while rest.len() > 0
            invariant
                0 <= k <= incoming.len(),
                entries_view(rest@) == incoming.skip(k),
                summary.added + summary.replaced + summary.skipped == k,
                incoming.len() == total,
                store@.version == old(store)@.version,
                goal == merge_all(
                    MergeView {
                        hosts: store@.hosts,
                        added: summary.added as nat,
                        replaced: summary.replaced as nat,
                        skipped: summary.skipped as nat,
                    },
                    incoming.skip(k),
                    overwrite,
                ),
            decreases rest.len(),
        {
            let ghost old_rest = rest@;
            let ghost st = MergeView {
                hosts: store@.hosts,
                added: summary.added as nat,
                replaced: summary.replaced as nat,
                skipped: summary.skipped as nat,
            };
            assert(entries_view(old_rest).len() == old_rest.len());
            let incoming_entry = rest.remove(0);
            assert(entries_view(old_rest)[0] == incoming.skip(k)[0]);
            assert forall|j: int| 0 <= j < rest@.len() implies entries_view(rest@)[j]
                == incoming.skip(k + 1)[j] by {
                assert(rest@[j] == old_rest[j + 1]);
                assert(entries_view(old_rest)[j + 1] == incoming.skip(k)[j + 1]);
            }
            assert(entries_view(rest@) =~= incoming.skip(k + 1));
            assert(incoming.skip(k).drop_first() =~= incoming.skip(k + 1));
            let ghost ev = incoming_entry@;
            let ghost next = merge_one(st, ev, overwrite);
            proof {
                lemma_find_name(store@.hosts, ev.name);
            }
            let ghost before = store.hosts@;
            match store.get_host_mut(incoming_entry.name.as_str()) {
                Some(existing) => {
                    if overwrite {
                        *existing = incoming_entry;
                        summary.replaced = summary.replaced + 1;
                    } else {
                        summary.skipped = summary.skipped + 1;
                    }
                },
                None => {
                    store.hosts.push(incoming_entry);
                    summary.added = summary.added + 1;
                },
            }
            assert(store@.hosts =~= next.hosts);
            proof {
                k = k + 1;
            }
        }
        assert(incoming.skip(k) =~= Seq::<HostEntryView>::empty());
        summary
    }

    /// The line that reports the merge.
    pub fn report(&self) -> (r: String)
        ensures
            r@ == "Import complete: added "@ + decimal(self.added as nat) + ", replaced "@
                + decimal(self.replaced as nat) + ", skipped "@ + decimal(self.skipped as nat)
                + " (use --overwrite to replace duplicates)."@,
    {
        let mut out = owned("Import complete: added ");
        out.append(usize_text(self.added).as_str());
        out.append(", replaced ");
        out.append(usize_text(self.replaced).as_str());
        out.append(", skipped ");
        out.append(usize_text(self.skipped).as_str());
        out.append(" (use --overwrite to replace duplicates).");
        out
    }
}

/// The importer settings of an import command, with `home` as the home
/// directory.
pub open spec fn import_view(cmd: &ImportCommand, home: Seq<char>) -> ImporterView {
    ImporterView {
        home_dir: home,
        source_path: expand_tilde_spec(home, cmd.file@),
        tags: normalized(strs_view(cmd.tags@)),
        provider: match cmd.provider {
            Some(p) => Some(label(p@)),
            None => None::<Seq<char>>,
        },
    }
}

impl ImportCommand {
    /// The `--tags` value, normalized.
    pub fn normalized_tags(&self) -> (r: Vec<String>)
        ensures
            is_tag_list_of(strs_view(r@), strs_view(self.tags@)),
            strs_view(r@) == normalized(strs_view(self.tags@)),
    {
        normalize_tags(&self.tags)
    }

    /// The config file, with `~` expanded.
    pub fn config_path(&self, ctx: &CommandContext) -> (r: String)
        ensures
            r@ == expand_tilde_spec(ctx.storage@.home, self.file@),
    {
        ctx.storage.expand_tilde(self.file.as_str())
    }

    /// The importer for this command: normalized tags and provider, and the
    /// config file as the origin of each entry.
    pub fn importer(&self, ctx: &CommandContext) -> (r: SshConfigImporter)
        ensures
            r@ == import_view(self, ctx.storage@.home),
    {
        let provider = match &self.provider {
            Some(p) => Some(label_str(p.as_str())),
            None => None,
        };
        SshConfigImporter::new(
            owned(ctx.storage.home_dir()),
            self.config_path(ctx),
            self.normalized_tags(),
            provider,
        )
    }

    /// The entries that the config text `content` holds, for this command.
    pub fn import_hosts(&self, ctx: &CommandContext, content: &str) -> (r: Vec<HostEntry>)
        ensures
            lists_map(
                entries_view(r@),
                config_entries(import_view(self, ctx.storage@.home), content@),
            ),
    {
        let importer = self.importer(ctx);
        importer.parse(content)
    }

    /// What to do with a config: report that it holds no importable entry
    /// (and leave the store alone), or merge its entries into the store.
    pub fn plan(&self, ctx: &CommandContext, content: &str) -> (r: ImportPlan)
        ensures
            match r {
                ImportPlan::Nothing(message) => config_entries(
                    import_view(self, ctx.storage@.home),
                    content@,
                ).dom().len() == 0 && message@ == "No importable host entries found in "@
                    + expand_tilde_spec(ctx.storage@.home, self.file@),
                ImportPlan::Merge(hosts) => hosts@.len() > 0 && lists_map(
                    entries_view(hosts@),
                    config_entries(import_view(self, ctx.storage@.home), content@),
                ),
            },
    {
        let hosts = self.import_hosts(ctx, content);
        let ghost m = config_entries(import_view(self, ctx.storage@.home), content@);
        if hosts.len() == 0 {
            proof {
                assert forall|k: Seq<char>| !m.contains_key(k) by {
                    if m.contains_key(k) {
                        let i = choose|i: int|
                            0 <= i < entries_view(hosts@).len() && entries_view(hosts@)[i].name
                                == k;
                    }
                }
                assert(m.dom() =~= Set::<Seq<char>>::empty());
            }
            let mut message = owned("No importable host entries found in ");
            message.append(self.config_path(ctx).as_str());
            return ImportPlan::Nothing(message);
        }
        ImportPlan::Merge(hosts)
    }

    /// Merges imported entries into the store and sorts it by name.
    pub fn merge(&self, store: &mut HostStore, imported_hosts: Vec<HostEntry>) -> (r:
        ImportMergeSummary)
        ensures
            final(store)@.version == old(store)@.version,
            final(store)@.hosts == sort_by_name(
                merge_spec(old(store)@.hosts, entries_view(imported_hosts@), self.overwrite).hosts,
            ),
            r.added == merge_spec(
                old(store)@.hosts,
                entries_view(imported_hosts@),
                self.overwrite,
            ).added,
            r.replaced == merge_spec(
                old(store)@.hosts,
                entries_view(imported_hosts@),
                self.overwrite,
            ).replaced,
            r.skipped == merge_spec(
                old(store)@.hosts,
                entries_view(imported_hosts@),
                self.overwrite,
            ).skipped,
    {
        let summary = ImportMergeSummary::apply(store, imported_hosts, self.overwrite);
        store.sort_hosts();
        summary
    }
}

} // verus!
