//! Connecting to a host: deciding which `ssh` arguments to use, and adding a
//! new entry on the way where asked.
use vstd::prelude::*;

use crate::commands::CommandContext;
use crate::commands::add::name_taken_hint;
use crate::error::{
    AppError, AppErrorView, host_exists, host_not_found, invalid_input, make_host_exists,
    make_host_not_found, make_invalid_input,
};
use crate::storage::{
    DEFAULT_PORT, HostEntry, HostEntryView, HostStore, expand_tilde_spec, find_name, has_name,
    lemma_find_name, sort_by_name, ssh_args_spec,
};
use crate::tags::{is_tag_list_of, normalize_tags, normalized};
use crate::text::{
    chars_of, has_char, join_with, label, label_str, opt_view, owned, string_of, strs_view,
    subrange_of, trim, trim_str,
};

verus! {

/// What `connect` is asked to do.
#[derive(Debug)]
pub struct ConnectCommand {
    /// Stored entry name, or direct destination (e.g. user@host)
    pub target: String,
    /// Hostname or IP to auto-add and save a missing entry
    pub host: Option<String>,
    /// SSH user when auto-adding
    pub user: Option<String>,
    /// SSH port when auto-adding
    pub port: Option<u16>,
    /// Private key path for -i when auto-adding
    pub identity_file: Option<String>,
    /// Tags when auto-adding
    pub tags: Vec<String>,
    /// Provider label when auto-adding
    pub provider: Option<String>,
    /// Name to save an auto-added entry as
    pub save_as: Option<String>,
    /// Print the ssh command without running it
    pub dry_run: bool,
}

/// What to run: the `ssh` arguments, the name of the entry that was added
/// (if one was), and whether only to print the command.
#[derive(Debug)]
pub struct ConnectPlan {
    pub ssh_args: Vec<String>,
    pub added: Option<String>,
    pub dry_run: bool,
}

/// Whether any flag that describes a new entry is given.
pub open spec fn uses_auto_add_flags_spec(cmd: &ConnectCommand) -> bool {
    ||| cmd.host is Some
    ||| cmd.user is Some
    ||| cmd.port is Some
    ||| cmd.identity_file is Some
    ||| cmd.tags@.len() > 0
    ||| cmd.provider is Some
    ||| cmd.save_as is Some
}

pub open spec fn auto_add_flags_error() -> AppErrorView {
    invalid_input(
        "Cannot use auto-add flags when connecting to an existing entry."@,
        "Remove auto-add flags or choose a different entry name."@,
    )
}

/// The hint when the target is neither a stored name nor a destination.
pub open spec fn connect_hint() -> Seq<char> {
    "Run `sesh list` to see available names. For new entries use `sesh connect <name> --host <hostname>` or `sesh connect user@host`."@
}

/// The index of the first `c` in `s`, or `s.len()` where there is none.
pub open spec fn index_of_char(s: Seq<char>, c: char) -> int
    decreases s.len(),
{
    if s.len() == 0 {
        0
    } else if s[0] == c {
        0
    } else {
        1 + index_of_char(s.drop_first(), c)
    }
}

/// A target that looks like a host: it holds a `.` or a `:`. (Every textual
/// IPv4 address holds a `.` and every IPv6 address a `:`.)
pub open spec fn looks_like_host_spec(t: Seq<char>) -> bool {
    t.contains('.') || t.contains(':')
}

/// How a target reads as a destination: `user@host` (both parts non-empty,
/// no second `@`), a bare host, or not a destination.
pub open spec fn destination_spec(t: Seq<char>) -> Result<
    Option<(Option<Seq<char>>, Seq<char>)>,
    AppErrorView,
> {
    if t.contains('@') {
        let k = index_of_char(t, '@');
        let user = t.take(k);
        let host = t.skip(k + 1);
        if user.len() == 0 || host.len() == 0 || host.contains('@') {
            Err(invalid_input("Invalid destination '"@ + t + "'."@, "Use `user@host`."@))
        } else {
            Ok(Some((Some(user), host)))
        }
    } else if looks_like_host_spec(t) {
        Ok(Some((None, t)))
    } else {
        Ok(None)
    }
}

/// The error that a new entry's name and host give, if any.
pub open spec fn to_entry_check(name: Seq<char>, host: Seq<char>) -> Option<AppErrorView> {
    if trim(name).len() == 0 || name.contains(' ') {
        Some(
            invalid_input(
                "Host name cannot be empty or contain spaces."@,
                "Use `--save-as` with a slug like `web-1`."@,
            ),
        )
    } else if trim(host).len() == 0 {
        Some(invalid_input("Host cannot be empty."@, "Provide `--host` with a hostname or IP."@))
    } else {
        None
    }
}

/// The new entry with this name, host and user, the other fields from the
/// command: the port (default 22), the identity file with `~` expanded, the
/// tags normalized, and the provider trimmed and in lower case (none if that
/// leaves it blank).
pub open spec fn connect_entry(
    cmd: &ConnectCommand,
    name: Seq<char>,
    host: Seq<char>,
    user: Option<Seq<char>>,
    home: Seq<char>,
) -> HostEntryView {
    HostEntryView {
        name,
        host,
        user,
        port: match cmd.port {
            Some(p) => p,
            None => DEFAULT_PORT,
        },
        identity_file: match cmd.identity_file {
            Some(f) => Some(expand_tilde_spec(home, f@)),
            None => None::<Seq<char>>,
        },
        tags: normalized(strs_view(cmd.tags@)),
        provider: match cmd.provider {
            Some(p) => if label(p@).len() == 0 {
                None
            } else {
                Some(label(p@))
            },
            None => None::<Seq<char>>,
        },
        imported_from: None,
    }
}

/// What a command with an unknown target asks to add.
pub enum AutoAdd {
    /// No host is given and the target is no destination.
    Missing,
    /// The target or flags are refused.
    Fail(AppErrorView),
    /// An entry with this name, host and user.
    Entry { name: Seq<char>, host: Seq<char>, user: Option<Seq<char>> },
}

/// With `--host`, the entry is named by `--save-as` or the target; otherwise
/// the target must be a destination, whose user may not be given twice, and
/// the entry is named by `--save-as` or the destination's host.
pub open spec fn auto_add_spec(cmd: &ConnectCommand) -> AutoAdd {
    match cmd.host {
        Some(h) => AutoAdd::Entry {
            name: match cmd.save_as {
                Some(s) => s@,
                None => cmd.target@,
            },
            host: h@,
            user: opt_view(cmd.user),
        },
        None => match destination_spec(cmd.target@) {
            Err(e) => AutoAdd::Fail(e),
            Ok(None) => AutoAdd::Missing,
            Ok(Some((pu, ph))) => if pu is Some && cmd.user is Some {
                AutoAdd::Fail(
                    invalid_input(
                        "SSH user is set twice."@,
                        "Use either `user@host` or `--user`, not both."@,
                    ),
                )
            } else {
                AutoAdd::Entry {
                    name: match cmd.save_as {
                        Some(s) => s@,
                        None => ph,
                    },
                    host: ph,
                    user: if cmd.user is Some {
                        opt_view(cmd.user)
                    } else {
                        pu
                    },
                }
            },
        },
    }
}

/// An unknown bare-host target (no `@`, holding a `.` or a `:`) without
/// `--host` is added with that host, named by `--save-as` or the target, with
/// the `--user` value as its user (none where none is given); with `--host`,
/// the entry has that host and the `--user` value as its user.
pub proof fn lemma_auto_add_user(cmd: &ConnectCommand, home: Seq<char>)
    ensures
        cmd.host is None && !cmd.target@.contains('@') && (cmd.target@.contains('.')
            || cmd.target@.contains(':')) ==> (auto_add_spec(cmd) matches AutoAdd::Entry {
            name,
            host,
            user,
        } && host =~= cmd.target@ && name =~= (match cmd.save_as {
            Some(s) => s@,
            None => cmd.target@,
        }) && connect_entry(cmd, name, host, user, home).user == match cmd.user {
            Some(u) => Some(u@),
            None => None::<Seq<char>>,
        }),
        cmd.host matches Some(h) ==> (auto_add_spec(cmd) matches AutoAdd::Entry {
            name,
            host,
            user,
        } && host =~= h@ && connect_entry(cmd, name, host, user, home).user == match cmd.user {
            Some(u) => Some(u@),
            None => None::<Seq<char>>,
        }),
{
}

/// `c` may stand in a shell word without quotes.
pub open spec fn is_plain_char(c: char) -> bool {
    ||| 'a' <= c <= 'z'
    ||| 'A' <= c <= 'Z'
    ||| '0' <= c <= '9'
    ||| c == '-'
    ||| c == '_'
    ||| c == '.'
    ||| c == '/'
    ||| c == ':'
    ||| c == '@'
}

/// `s` with each `'` written as `'\''`.
pub open spec fn escape_quotes(s: Seq<char>) -> Seq<char>
    decreases s.len(),
{
    if s.len() == 0 {
        s
    } else {
        (if s[0] == '\'' {
            seq!['\'', '\\', '\'', '\'']
        } else {
            seq![s[0]]
        }) + escape_quotes(s.drop_first())
    }
}

/// A word as the shell reads it back: kept where every character is plain,
/// else in single quotes.
pub open spec fn shell_word(s: Seq<char>) -> Seq<char> {
    if forall|i: int| 0 <= i < s.len() ==> is_plain_char(#[trigger] s[i]) {
        s
    } else {
        seq!['\''] + escape_quotes(s) + seq!['\'']
    }
}

/// The words quoted for the shell and joined by spaces.
pub open spec fn shell_line(args: Seq<Seq<char>>) -> Seq<char> {
    join_with(args.map_values(|a: Seq<char>| shell_word(a)), seq![' '])
}

/// Blanks that separate words outside quotes.
pub open spec fn is_blank(c: char) -> bool {
    c == ' ' || c == '\t' || c == '\n'
}

/// The words that a POSIX shell reads from `s` after word splitting and quote
/// removal, for text without expansions: outside quotes a blank ends a word,
/// `'` opens a quote that runs to the next `'`, and `\` makes the next
/// character literal; inside quotes every character but `'` is literal.
/// `cur` is the word begun so far, `started` whether one is begun (an empty
/// `''` begins one), and `quoted` whether a quote is open.
pub open spec fn shell_split(s: Seq<char>, cur: Seq<char>, started: bool, quoted: bool) -> Seq<
    Seq<char>,
>
    decreases s.len(),
{
    if s.len() == 0 {
        if started {
            seq![cur]
        } else {
            Seq::empty()
        }
    } else if quoted {
        if s[0] == '\'' {
            shell_split(s.drop_first(), cur, true, false)
        } else {
            shell_split(s.drop_first(), cur.push(s[0]), true, true)
        }
    } else if is_blank(s[0]) {
        (if started {
            seq![cur]
        } else {
            Seq::empty()
        }) + shell_split(s.drop_first(), Seq::empty(), false, false)
    } else if s[0] == '\'' {
        shell_split(s.drop_first(), cur, true, true)
    } else if s[0] == '\\' && s.len() > 1 {
        shell_split(s.skip(2), cur.push(s[1]), true, false)
    } else {
        shell_split(s.drop_first(), cur.push(s[0]), true, false)
    }
}

/// The words a POSIX shell reads from a command line.
pub open spec fn shell_words(s: Seq<char>) -> Seq<Seq<char>> {
    shell_split(s, Seq::empty(), false, false)
}

proof fn lemma_split_plain(p: Seq<char>, t: Seq<char>, cur: Seq<char>, started: bool)
    requires
        p.len() > 0,
        forall|i: int| 0 <= i < p.len() ==> is_plain_char(#[trigger] p[i]),
    ensures
        shell_split(p + t, cur, started, false) == shell_split(t, cur + p, true, false),
    decreases p.len(),
{
    let s = p + t;
    assert(s[0] == p[0]);
    assert(s.drop_first() =~= p.drop_first() + t);
    if p.len() == 1 {
        assert(p.drop_first() + t =~= t);
        assert(cur.push(p[0]) =~= cur + p);
    } else {
        lemma_split_plain(p.drop_first(), t, cur.push(p[0]), true);
        assert(cur.push(p[0]) + p.drop_first() =~= cur + p);
    }
}

proof fn lemma_split_escaped(w: Seq<char>, t: Seq<char>, cur: Seq<char>)
    ensures
        shell_split(escape_quotes(w) + t, cur, true, true) == shell_split(t, cur + w, true, true),
    decreases w.len(),
{
    if w.len() == 0 {
        assert(escape_quotes(w) + t =~= t);
        assert(cur + w =~= cur);
    } else {
        let rest = escape_quotes(w.drop_first()) + t;
        let c = w[0];
        if c == '\'' {
            let s = seq!['\'', '\\', '\'', '\''] + rest;
            assert(escape_quotes(w) + t =~= s);
            // the quote closes
            assert(s.drop_first() =~= seq!['\\', '\'', '\''] + rest);
            let s1 = s.drop_first();
            // the backslash makes the quote literal
            assert(s1.skip(2) =~= seq!['\''] + rest);
            let s2 = s1.skip(2);
            // the quote opens again
            assert(s2.drop_first() =~= rest);
            assert(shell_split(s2, cur.push('\''), true, false) == shell_split(
                rest,
                cur.push('\''),
                true,
                true,
            ));
            assert(shell_split(s1, cur, true, false) == shell_split(
                s2,
                cur.push('\''),
                true,
                false,
            ));
        } else {
            let s = seq![c] + rest;
            assert(escape_quotes(w) + t =~= s);
            assert(s.drop_first() =~= rest);
        }
        lemma_split_escaped(w.drop_first(), t, cur.push(c));
        assert(cur.push(c) + w.drop_first() =~= cur + w);
    }
}

proof fn lemma_split_word(a: Seq<char>, t: Seq<char>, cur: Seq<char>, started: bool)
    requires
        a.len() > 0,
    ensures
        shell_split(shell_word(a) + t, cur, started, false) == shell_split(t, cur + a, true, false),
{
    if forall|i: int| 0 <= i < a.len() ==> is_plain_char(#[trigger] a[i]) {
        lemma_split_plain(a, t, cur, started);
    } else {
        let inner = escape_quotes(a) + (seq!['\''] + t);
        let s = seq!['\''] + inner;
        assert(shell_word(a) + t =~= s);
        assert(s.drop_first() =~= inner);
        lemma_split_escaped(a, seq!['\''] + t, cur);
        let q = seq!['\''] + t;
        assert(q.drop_first() =~= t);
    }
}

proof fn lemma_split_join(args: Seq<Seq<char>>, t: Seq<char>)
    requires
        args.len() > 0,
        forall|i: int| 0 <= i < args.len() ==> (#[trigger] args[i]).len() > 0,
    ensures
        shell_split(shell_line(args) + t, Seq::empty(), false, false) == args.drop_last()
            + shell_split(t, args.last(), true, false),
    decreases args.len(),
{
    let ws = args.map_values(|a: Seq<char>| shell_word(a));
    if args.len() == 1 {
        assert(shell_line(args) == ws[0]);
        lemma_split_word(args[0], t, Seq::empty(), false);
        assert(Seq::<char>::empty() + args[0] =~= args[0]);
        assert(args.drop_last() + shell_split(t, args.last(), true, false) =~= shell_split(
            t,
            args.last(),
            true,
            false,
        ));
    } else {
        let front = args.drop_last();
        let a = args.last();
        assert(ws.drop_last() =~= front.map_values(|a: Seq<char>| shell_word(a)));
        assert(shell_line(args) == shell_line(front) + seq![' '] + shell_word(a));
        let t2 = seq![' '] + (shell_word(a) + t);
        assert(shell_line(args) + t =~= shell_line(front) + t2);
        assert forall|i: int| 0 <= i < front.len() implies (#[trigger] front[i]).len() > 0 by {
            assert(front[i] == args[i]);
        }
        lemma_split_join(front, t2);
        assert(t2.drop_first() =~= shell_word(a) + t);
        lemma_split_word(a, t, Seq::empty(), false);
        assert(Seq::<char>::empty() + a =~= a);
        assert(shell_split(t2, front.last(), true, false) == seq![front.last()] + shell_split(
            t,
            a,
            true,
            false,
        ));
        assert(front.drop_last() + (seq![front.last()] + shell_split(t, a, true, false))
            =~= front + shell_split(t, a, true, false));
    }
}

/// A POSIX shell splits the printed command line back into the arguments:
/// the same count, order and characters. (An empty argument prints as nothing
/// and is lost, so each argument must be non-empty.)
pub proof fn lemma_shell_line_round_trip(args: Seq<Seq<char>>)
    requires
        forall|i: int| 0 <= i < args.len() ==> (#[trigger] args[i]).len() > 0,
    ensures
        shell_words(shell_line(args)) == args,
{
    if args.len() == 0 {
        assert(shell_line(args) =~= Seq::<char>::empty());
        assert(shell_words(shell_line(args)) =~= args);
    } else {
        lemma_split_join(args, Seq::empty());
        assert(shell_line(args) + Seq::<char>::empty() =~= shell_line(args));
        assert(args.drop_last() + seq![args.last()] =~= args);
    }
}

fn is_plain(c: char) -> (r: bool)
    ensures
        r == is_plain_char(c),
{
    ('a' <= c && c <= 'z') || ('A' <= c && c <= 'Z') || ('0' <= c && c <= '9') || c == '-' || c
        == '_' || c == '.' || c == '/' || c == ':' || c == '@'
}

fn quote_word(a: &str) -> (r: Vec<char>)
    ensures
        r@ == shell_word(a@),
{
    let v = chars_of(a);
    let mut plain = true;
    let mut i: usize = 0;
    while i < v.len()
        invariant
            i <= v.len(),
            v@ == a@,
            plain == forall|k: int| 0 <= k < i ==> is_plain_char(#[trigger] v@[k]),
        decreases v.len() - i,
    {
        if !is_plain(v[i]) {
            plain = false;
        }
        i = i + 1;
    }
    if plain {
        return v;
    }
    let mut out: Vec<char> = Vec::new();
    out.push('\'');
    let mut j: usize = 0;
    assert(v@.skip(0) =~= v@);
    while j < v.len()
        invariant
            j <= v.len(),
            out@ + escape_quotes(v@.skip(j as int)) == seq!['\''] + escape_quotes(v@),
        decreases v.len() - j,
    {
        let ghost before = out@;
        assert(v@.skip(j as int).drop_first() =~= v@.skip(j + 1));
        if v[j] == '\'' {
            out.push('\'');
            out.push('\\');
            out.push('\'');
            out.push('\'');
            assert(out@ =~= before + seq!['\'', '\\', '\'', '\'']);
        } else {
            out.push(v[j]);
            assert(out@ =~= before + seq![v@[j as int]]);
        }
        assert(out@ + escape_quotes(v@.skip(j + 1)) =~= before + escape_quotes(
            v@.skip(j as int),
        ));
        j = j + 1;
    }
    assert(v@.skip(j as int) =~= Seq::<char>::empty());
    assert(out@ + Seq::<char>::empty() =~= out@);
    out.push('\'');
    out
}

impl ConnectCommand {
    /// Whether any flag that describes a new entry is given.
    pub fn uses_auto_add_flags(&self) -> (r: bool)
        ensures
            r == uses_auto_add_flags_spec(self),
    {
        self.host.is_some() || self.user.is_some() || self.port.is_some()
            || self.identity_file.is_some() || self.tags.len() > 0 || self.provider.is_some()
            || self.save_as.is_some()
    }

    /// A stored entry is reached as it is stored: flags for a new entry are refused.
    pub fn ensure_no_auto_add_flags_for_existing_entry(&self) -> (r: Result<(), AppError>)
        ensures
            r is Ok <==> !uses_auto_add_flags_spec(self),
            r matches Err(e) ==> e@ == auto_add_flags_error(),
    {
        if self.uses_auto_add_flags() {
            return Err(
                make_invalid_input(
                    "Cannot use auto-add flags when connecting to an existing entry.",
                    "Remove auto-add flags or choose a different entry name.",
                ),
            );
        }
        Ok(())
    }

    /// A target that holds a `.` or a `:`.
    pub fn looks_like_host(target: &str) -> (r: bool)
        ensures
            r == looks_like_host_spec(target@),
    {
        has_char(target, '.') || has_char(target, ':')
    }

    /// Reads the target as `user@host`, as a bare host, or as no destination.
    pub fn parse_destination_target(target: &str) -> (r: Result<
        Option<(Option<String>, String)>,
        AppError,
    >)
        ensures
            match destination_spec(target@) {
                Err(e) => r matches Err(x) && x@ == e,
                Ok(None) => r matches Ok(None),
                Ok(Some((u, h))) => r matches Ok(Some((ru, rh))) && opt_view(ru) == u && rh@ == h,
            },
    {
        let v = chars_of(target);
        let mut k: usize = 0;
        assert(v@.skip(0) =~= v@);
        while k < v.len() && v[k] != '@'
            invariant
                k <= v.len(),
                v@ == target@,
                index_of_char(v@, '@') == k + index_of_char(v@.skip(k as int), '@'),
                forall|j: int| 0 <= j < k ==> v@[j] != '@',
            decreases v.len() - k,
        {
            assert(v@.skip(k as int).drop_first() =~= v@.skip(k + 1));
            k = k + 1;
        }
        if k < v.len() {
            assert(target@.contains('@'));
            assert(index_of_char(v@, '@') == k);
            let user = subrange_of(&v, 0, k);
            let host = subrange_of(&v, k + 1, v.len());
            assert(user@ =~= v@.take(k as int));
            assert(host@ =~= v@.skip(k + 1));
            let host_has_at = has_char(string_of(host.as_slice()).as_str(), '@');
            if user.len() == 0 || host.len() == 0 || host_has_at {
                let mut message = owned("Invalid destination '");
                message.append(target);
                message.append("'.");
                return Err(AppError::InvalidInput { message, hint: Some(owned("Use `user@host`.")) });
            }
            return Ok(Some((Some(string_of(user.as_slice())), string_of(host.as_slice()))));
        }
        assert(!target@.contains('@'));
        if Self::looks_like_host(target) {
            return Ok(Some((None, owned(target))));
        }
        Ok(None)
    }

    /// Trims and lower-cases the tags, drops blank ones, sorts them and removes
    /// repeats.
    pub fn normalize_tags(raw_tags: Vec<String>) -> (r: Vec<String>)
        ensures
            is_tag_list_of(strs_view(r@), strs_view(raw_tags@)),
            strs_view(r@) == normalized(strs_view(raw_tags@)),
    {
        normalize_tags(&raw_tags)
    }

    /// The new entry with this name, host and user; a blank name, a name with a
    /// space, or a blank host is refused.
    pub fn to_entry(&self, ctx: &CommandContext, name: String, host: String, user: Option<String>) -> (r:
        Result<HostEntry, AppError>)
        ensures
            match to_entry_check(name@, host@) {
                Some(err) => r matches Err(e) && e@ == err,
                None => r matches Ok(e) && e@ == connect_entry(
                    self,
                    name@,
                    host@,
                    opt_view(user),
                    ctx.storage@.home,
                ),
            },
    {
        if trim_str(name.as_str()).as_str().is_empty() || has_char(name.as_str(), ' ') {
            return Err(
                make_invalid_input(
                    "Host name cannot be empty or contain spaces.",
                    "Use `--save-as` with a slug like `web-1`.",
                ),
            );
        }
        if trim_str(host.as_str()).as_str().is_empty() {
            return Err(
                make_invalid_input("Host cannot be empty.", "Provide `--host` with a hostname or IP."),
            );
        }
        let tags = normalize_tags(&self.tags);
        let provider = match &self.provider {
            Some(value) => {
                let normalized = label_str(value.as_str());
                if normalized.as_str().is_empty() {
                    None
                } else {
                    Some(normalized)
                }
            },
            None => None,
        };
        let identity_file = match &self.identity_file {
            Some(path) => Some(ctx.storage.expand_tilde(path.as_str())),
            None => None,
        };
        let port = match self.port {
            Some(p) => p,
            None => DEFAULT_PORT,
        };
        Ok(
            HostEntry {
                name,
                host,
                user,
                port,
                identity_file,
                tags,
                provider,
                imported_from: None,
            },
        )
    }

    /// The entry to add for an unknown target: `None` where the command
    /// describes none.
    pub fn build_auto_add_entry(&self, ctx: &CommandContext) -> (r: Option<
        Result<HostEntry, AppError>,
    >)
        ensures
            match auto_add_spec(self) {
                AutoAdd::Missing => r is None,
                AutoAdd::Fail(err) => r matches Some(Err(e)) && e@ == err,
                AutoAdd::Entry { name, host, user } => match to_entry_check(name, host) {
                    Some(err) => r matches Some(Err(e)) && e@ == err,
                    None => r matches Some(Ok(e)) && e@ == connect_entry(
                        self,
                        name,
                        host,
                        user,
                        ctx.storage@.home,
                    ),
                },
            },
    {
        if let Some(host) = &self.host {
            let name = match &self.save_as {
                Some(s) => s.clone(),
                None => self.target.clone(),
            };
            let user = match &self.user {
                Some(u) => Some(u.clone()),
                None => None,
            };
            return Some(self.to_entry(ctx, name, host.clone(), user));
        }
        let parsed = match Self::parse_destination_target(self.target.as_str()) {
            Ok(Some(parsed)) => parsed,
            Ok(None) => {
                return None;
            },
            Err(err) => {
                return Some(Err(err));
            },
        };
        let (parsed_user, parsed_host) = parsed;
        if parsed_user.is_some() && self.user.is_some() {
            return Some(
                Err(
                    make_invalid_input(
                        "SSH user is set twice.",
                        "Use either `user@host` or `--user`, not both.",
                    ),
                ),
            );
        }
        let user = match &self.user {
            Some(u) => Some(u.clone()),
            None => parsed_user,
        };
        let name = match &self.save_as {
            Some(s) => s.clone(),
            None => parsed_host.clone(),
        };
        Some(self.to_entry(ctx, name, parsed_host, user))
    }

    /// Picks what to connect to. A stored target is reached as stored; an
    /// unknown one is added (the store then sorted by name) where the command
    /// describes an entry. Every failure leaves the store as it was.
    pub fn execute(self, ctx: &CommandContext, store: &mut HostStore) -> (r: Result<
        ConnectPlan,
        AppError,
    >)
        ensures
            match find_name(old(store)@.hosts, self.target@) {
                Some(i) => *final(store) == *old(store) && if uses_auto_add_flags_spec(&self) {
                    r matches Err(e) && e@ == auto_add_flags_error()
                } else {
                    r matches Ok(p) && strs_view(p.ssh_args@) == ssh_args_spec(old(store)@.hosts[i])
                        && p.added is None && p.dry_run == self.dry_run
                },
                None => match auto_add_spec(&self) {
                    AutoAdd::Missing => *final(store) == *old(store) && (r matches Err(e) && e@
                        == host_not_found(self.target@, connect_hint())),
                    AutoAdd::Fail(err) => *final(store) == *old(store) && (r matches Err(e) && e@
                        == err),
                    AutoAdd::Entry { name, host, user } => match to_entry_check(name, host) {
                        Some(err) => *final(store) == *old(store) && (r matches Err(e) && e@
                            == err),
                        None => if has_name(old(store)@.hosts, name) {
                            *final(store) == *old(store) && (r matches Err(e) && e@
                                == host_exists(name, name_taken_hint()))
                        } else {
                            r matches Ok(p) && final(store)@.version == old(store)@.version
                                && p.dry_run == self.dry_run && opt_view(p.added) == Some(name)
                                && final(store)@.hosts == sort_by_name(
                                old(store)@.hosts.push(
                                    connect_entry(&self, name, host, user, ctx.storage@.home),
                                ),
                            ) && strs_view(p.ssh_args@) == ssh_args_spec(
                                connect_entry(&self, name, host, user, ctx.storage@.home),
                            )
                        },
                    },
                },
            },
    {
        proof {
            lemma_find_name(store@.hosts, self.target@);
        }
        if let Some(existing) = store.get_host(self.target.as_str()) {
            self.ensure_no_auto_add_flags_for_existing_entry()?;
            return Ok(ConnectPlan { ssh_args: existing.ssh_args(), added: None, dry_run: self.dry_run });
        }
        let host = match self.build_auto_add_entry(ctx) {
            None => {
                return Err(
                    make_host_not_found(
                        self.target,
                        "Run `sesh list` to see available names. For new entries use `sesh connect <name> --host <hostname>` or `sesh connect user@host`.",
                    ),
                );
            },
            Some(Err(e)) => {
                return Err(e);
            },
            Some(Ok(h)) => h,
        };
        proof {
            lemma_find_name(store@.hosts, host@.name);
        }
        if store.get_host(host.name.as_str()).is_some() {
            return Err(
                make_host_exists(
                    host.name,
                    "Use a different name or remove the existing entry first.",
                ),
            );
        }
        let ssh_args = host.ssh_args();
        let added = host.name.clone();
        let ghost ev = host@;
        let ghost before = store@.hosts;
        store.hosts.push(host);
        assert(store@.hosts =~= before.push(ev));
        store.sort_hosts();
        Ok(ConnectPlan { ssh_args, added: Some(added), dry_run: self.dry_run })
    }

    /// The arguments quoted for a shell, joined by spaces.
    pub fn shell_escape_args(args: &Vec<String>) -> (r: String)
        ensures
            r@ == shell_line(strs_view(args@)),
    {
        let ghost words = strs_view(args@).map_values(|a: Seq<char>| shell_word(a));
        let mut out: Vec<char> = Vec::new();
        let mut i: usize = 0;
        assert(words.take(0) =~= Seq::<Seq<char>>::empty());
        while i < args.len()
            invariant
                i <= args.len(),
                words == strs_view(args@).map_values(|a: Seq<char>| shell_word(a)),
                out@ == join_with(words.take(i as int), seq![' ']),
            decreases args.len() - i,
        {
            let ghost before = out@;
            assert(words.take(i + 1).drop_last() =~= words.take(i as int));
            let w = quote_word(args[i].as_str());
            assert(w@ == words.take(i + 1).last());
            if i > 0 {
                out.push(' ');
            }
            let mut k: usize = 0;
            let ghost mid = out@;
            while k < w.len()
                invariant
                    k <= w.len(),
                    out@ == mid + w@.take(k as int),
                decreases w.len() - k,
            {
                out.push(w[k]);
                k = k + 1;
                assert(out@ =~= mid + w@.take(k as int));
            }
            assert(w@.take(w@.len() as int) =~= w@);
            if i > 0 {
                assert(out@ =~= before + seq![' '] + w@);
            } else {
                assert(out@ =~= w@);
            }
            i = i + 1;
        }
        assert(words.take(i as int) =~= words);
        string_of(out.as_slice())
    }

    /// The command line that a dry run prints.
    pub fn dry_run_line(args: &Vec<String>) -> (r: String)
        ensures
            r@ == "ssh "@ + shell_line(strs_view(args@)),
    {
        let mut out = owned("ssh ");
        out.append(Self::shell_escape_args(args).as_str());
        out
    }
}

} // verus!
