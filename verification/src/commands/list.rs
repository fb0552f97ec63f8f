//! Listing stored hosts as a table.
use vstd::prelude::*;

use crate::storage::{
    HostEntry, HostEntryView, HostStore, entries_view, matches_filter_spec, sort_by_name,
    sort_entries,
};
use crate::text::{
    decimal, join_with, label, label_str, owned, pad, pad_str, strs_view, u16_text,
};

verus! {

/// What `list` is asked to show.
#[derive(Debug)]
pub struct ListCommand {
    /// Filter by tag
    pub tag: Option<String>,
    /// Filter by provider
    pub provider: Option<String>,
}

/// The entries that pass the filters, in their order.
pub open spec fn filter_hosts(
    s: Seq<HostEntryView>,
    tag: Option<Seq<char>>,
    provider: Option<Seq<char>>,
) -> Seq<HostEntryView>
    decreases s.len(),
{
    if s.len() == 0 {
        s
    } else {
        let r = filter_hosts(s.drop_last(), tag, provider);
        if matches_filter_spec(s.last(), tag, provider) {
            r.push(s.last())
        } else {
            r
        }
    }
}

/// The table's heading.
pub open spec fn header_line() -> Seq<char> {
    pad("NAME"@, 20) + " "@ + pad("HOST"@, 30) + " "@ + pad("PORT"@, 6) + " "@ + pad("USER"@, 16)
        + " "@ + pad("PROVIDER"@, 16) + " TAGS"@
}

/// An optional text, or `-`.
pub open spec fn or_dash(o: Option<Seq<char>>) -> Seq<char> {
    match o {
        Some(s) => s,
        None => "-"@,
    }
}

/// The tags joined by commas, or `-`.
pub open spec fn tags_cell(tags: Seq<Seq<char>>) -> Seq<char> {
    if tags.len() == 0 {
        "-"@
    } else {
        join_with(tags, seq![','])
    }
}

/// The table's row for one entry.
pub open spec fn row_line(h: HostEntryView) -> Seq<char> {
    pad(h.name, 20) + " "@ + pad(h.host, 30) + " "@ + pad(decimal(h.port as nat), 6) + " "@ + pad(
        or_dash(h.user),
        16,
    ) + " "@ + pad(or_dash(h.provider), 16) + " "@ + tags_cell(h.tags)
}

/// The lines that list these rows.
pub open spec fn listing(rows: Seq<HostEntryView>) -> Seq<Seq<char>> {
    if rows.len() == 0 {
        seq!["No host entries found."@]
    } else {
        seq![header_line()] + rows.map_values(|h: HostEntryView| row_line(h))
    }
}

/// An optional filter, trimmed and in lower case.
pub open spec fn filter_label(o: Option<String>) -> Option<Seq<char>> {
    match o {
        Some(s) => Some(label(s@)),
        None => None,
    }
}

fn cell(s: &str, width: usize, out: &mut String)
    ensures
        final(out)@ == old(out)@ + pad(s@, width as nat),
{
    let p = pad_str(s, width);
    out.append(p.as_str());
}

fn join_tags(tags: &Vec<String>) -> (r: String)
    ensures
        r@ == tags_cell(strs_view(tags@)),
{
    if tags.len() == 0 {
        return owned("-");
    }
    let ghost all = strs_view(tags@);
    let mut out = owned(tags[0].as_str());
    let mut i: usize = 1;
    assert(all.take(1) =~= seq![all[0]]);
    while i < tags.len()
        invariant
            1 <= i <= tags.len(),
            all == strs_view(tags@),
            out@ == join_with(all.take(i as int), seq![',']),
        decreases tags.len() - i,
    {
        assert(all.take(i + 1).drop_last() =~= all.take(i as int));
        out.push(',');
        out.append(tags[i].as_str());
        assert(out@ =~= join_with(all.take(i as int), seq![',']) + seq![','] + all[i as int]);
        i = i + 1;
    }
    assert(all.take(i as int) =~= all);
    out
}

fn render_row(h: &HostEntry) -> (r: String)
    ensures
        r@ == row_line(h@),
{
    let mut out = String::new();
    cell(h.name.as_str(), 20, &mut out);
    out.append(" ");
    cell(h.host.as_str(), 30, &mut out);
    out.append(" ");
    cell(u16_text(h.port).as_str(), 6, &mut out);
    out.append(" ");
    match &h.user {
        Some(u) => cell(u.as_str(), 16, &mut out),
        None => cell("-", 16, &mut out),
    }
    out.append(" ");
    match &h.provider {
        Some(p) => cell(p.as_str(), 16, &mut out),
        None => cell("-", 16, &mut out),
    }
    out.append(" ");
    out.append(join_tags(&h.tags).as_str());
    out
}

impl ListCommand {
    /// The lines to print: the matching hosts sorted by name under a heading,
    /// or a note that there are none.
    pub fn execute(self, store: &HostStore) -> (r: Vec<String>)
        ensures
            strs_view(r@) == listing(
                sort_by_name(
                    filter_hosts(store@.hosts, filter_label(self.tag), filter_label(self.provider)),
                ),
            ),
    {
        let tag_filter = match &self.tag {
            Some(t) => Some(label_str(t.as_str())),
            None => None,
        };
        let provider_filter = match &self.provider {
            Some(p) => Some(label_str(p.as_str())),
            None => None,
        };
        let ghost tf = filter_label(self.tag);
        let ghost pf = filter_label(self.provider);
        let ghost hv = store@.hosts;
        let mut picked: Vec<HostEntry> = Vec::new();
        let mut i: usize = 0;
        assert(hv.take(0) =~= Seq::<HostEntryView>::empty());
        assert(entries_view(picked@) =~= Seq::<HostEntryView>::empty());
        while i < store.hosts.len()
            invariant
                i <= store.hosts.len(),
                hv == store@.hosts,
                entries_view(picked@) == filter_hosts(hv.take(i as int), tf, pf),
                tf == match tag_filter {
                    Some(t) => Some(t@),
                    None => None::<Seq<char>>,
                },
                pf == match provider_filter {
                    Some(p) => Some(p@),
                    None => None::<Seq<char>>,
                },
            decreases store.hosts.len() - i,
        {
            let h = &store.hosts[i];
            assert(hv.take(i + 1).drop_last() =~= hv.take(i as int));
            assert(hv.take(i + 1).last() == h@);
            let t = match &tag_filter {
                Some(t) => Some(t.as_str()),
                None => None,
            };
            let p = match &provider_filter {
                Some(p) => Some(p.as_str()),
                None => None,
            };
            if h.matches_filter(t, p) {
                let ghost before = entries_view(picked@);
                let d = h.duplicate();
                picked.push(d);
                assert(entries_view(picked@) =~= before.push(h@));
            }
            i = i + 1;
        }
        assert(hv.take(i as int) =~= hv);
        let rows = sort_entries(picked);
        let mut lines: Vec<String> = Vec::new();
        if rows.len() == 0 {
            lines.push(owned("No host entries found."));
            assert(strs_view(lines@) =~= seq!["No host entries found."@]);
            return lines;
        }
        let mut header = String::new();
        cell("NAME", 20, &mut header);
        header.append(" ");
        cell("HOST", 30, &mut header);
        header.append(" ");
        cell("PORT", 6, &mut header);
        header.append(" ");
        cell("USER", 16, &mut header);
        header.append(" ");
        cell("PROVIDER", 16, &mut header);
        header.append(" TAGS");
        lines.push(header);
        let ghost rv = entries_view(rows@);
        let mut k: usize = 0;
        while k < rows.len()
            invariant
                k <= rows.len(),
                rv == entries_view(rows@),
                lines@.len() == k + 1,
                lines@[0]@ == header_line(),
                forall|j: int| 0 <= j < k ==> (#[trigger] lines@[j + 1])@ == row_line(rv[j]),
            decreases rows.len() - k,
        {
            let line = render_row(&rows[k]);
            lines.push(line);
            k = k + 1;
        }
        let ghost want = listing(rv);
        assert forall|j: int| 0 <= j < lines@.len() implies strs_view(lines@)[j] == want[j] by {
            if j > 0 {
                assert(lines@[(j - 1) + 1]@ == row_line(rv[j - 1]));
            }
        }
        assert(strs_view(lines@) =~= want);
        lines
    }
}

} // verus!
