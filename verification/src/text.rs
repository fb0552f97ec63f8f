//! Character-level helpers shared by the host store and the command logic.
//!
//! Strings are modelled by their view, a `Seq<char>`. The functions here
//! compute on that view and are proved against short spec functions.
use vstd::prelude::*;

verus! {

/// `String::push` appends one character to the end of the string.
pub assume_specification[ String::push ](s: &mut String, ch: char)
    ensures
        final(s)@ == old(s)@.push(ch),
;

/// An optional string by its view.
pub open spec fn opt_view(o: Option<String>) -> Option<Seq<char>> {
    match o {
        Some(s) => Some(s@),
        None => None,
    }
}

/// A list of strings by their views.
pub open spec fn strs_view(v: Seq<String>) -> Seq<Seq<char>> {
    v.map_values(|s: String| s@)
}

/// A copy of an optional string.
pub fn copy_opt(o: &Option<String>) -> (r: Option<String>)
    ensures
        opt_view(r) == opt_view(*o),
{
    match o {
        Some(s) => Some(s.clone()),
        None => None,
    }
}

/// A copy of a list of strings.
pub fn copy_strs(v: &Vec<String>) -> (r: Vec<String>)
    ensures
        strs_view(r@) == strs_view(v@),
{
    let mut r: Vec<String> = Vec::new();
    let mut i: usize = 0;
    while i < v.len()
        invariant
            i <= v.len(),
            r@.len() == i,
            forall|k: int| 0 <= k < i ==> (#[trigger] r@[k])@ == v@[k]@,
        decreases v.len() - i,
    {
        let s = v[i].clone();
        r.push(s);
        i = i + 1;
    }
    assert(strs_view(r@) =~= strs_view(v@));
    r
}

/// The Unicode `White_Space` property, which `char::is_whitespace` tests.
pub open spec fn is_ws(c: char) -> bool {
    let u = c as u32;
    ||| 0x09 <= u <= 0x0D
    ||| u == 0x20
    ||| u == 0x85
    ||| u == 0xA0
    ||| u == 0x1680
    ||| 0x2000 <= u <= 0x200A
    ||| u == 0x2028
    ||| u == 0x2029
    ||| u == 0x202F
    ||| u == 0x205F
    ||| u == 0x3000
}

pub fn is_whitespace(c: char) -> (b: bool)
    ensures
        b == is_ws(c),
{
    let u = c as u32;
    (0x09 <= u && u <= 0x0D) || u == 0x20 || u == 0x85 || u == 0xA0 || u == 0x1680 || (0x2000
        <= u && u <= 0x200A) || u == 0x2028 || u == 0x2029 || u == 0x202F || u == 0x205F || u
        == 0x3000
}

/// ASCII upper-case letters map to lower case; every other character is kept.
pub open spec fn lower_char(c: char) -> char {
    if 'A' <= c <= 'Z' {
        ((c as u32) + 32) as char
    } else {
        c
    }
}

pub open spec fn lower(s: Seq<char>) -> Seq<char> {
    s.map_values(|c: char| lower_char(c))
}

pub fn to_lower_char(c: char) -> (r: char)
    ensures
        r == lower_char(c),
{
    if 'A' <= c && c <= 'Z' {
        let v: u32 = c as u32 + 32;
        let b: u8 = v as u8;
        b as char
    } else {
        c
    }
}

/// Leading whitespace removed.
pub open spec fn trim_start(s: Seq<char>) -> Seq<char>
    decreases s.len(),
{
    if s.len() > 0 && is_ws(s[0]) {
        trim_start(s.drop_first())
    } else {
        s
    }
}

/// Trailing whitespace removed.
pub open spec fn trim_end(s: Seq<char>) -> Seq<char>
    decreases s.len(),
{
    if s.len() > 0 && is_ws(s.last()) {
        trim_end(s.drop_last())
    } else {
        s
    }
}

/// A non-empty result of `trim_start` begins with a non-whitespace character.
pub proof fn lemma_trim_start_first(s: Seq<char>)
    ensures
        trim_start(s).len() > 0 ==> !is_ws(trim_start(s)[0]),
    decreases s.len(),
{
    if s.len() > 0 && is_ws(s[0]) {
        lemma_trim_start_first(s.drop_first());
    }
}

/// `trim_end` keeps a prefix, which ends in a non-whitespace character.
pub proof fn lemma_trim_end_shape(s: Seq<char>)
    ensures
        trim_end(s).len() <= s.len(),
        trim_end(s) == s.take(trim_end(s).len() as int),
        trim_end(s).len() > 0 ==> !is_ws(trim_end(s).last()),
    decreases s.len(),
{
    if s.len() > 0 && is_ws(s.last()) {
        lemma_trim_end_shape(s.drop_last());
        assert(s.drop_last().take(trim_end(s).len() as int) =~= s.take(
            trim_end(s).len() as int,
        ));
    } else {
        assert(s.take(s.len() as int) =~= s);
    }
}

/// Leading and trailing whitespace removed, as `str::trim` does.
pub open spec fn trim(s: Seq<char>) -> Seq<char> {
    trim_end(trim_start(s))
}

/// The characters of a string slice, in order.
pub fn chars_of(s: &str) -> (r: Vec<char>)
    ensures
        r@ == s@,
{
    let mut r: Vec<char> = Vec::new();
    for c in it: s.chars()
        invariant
            r@ == it.seq().take(it.index() as int),
            it.seq() == s@,
    {
        r.push(c);
    }
    r
}

/// A string made of the given characters.
pub fn string_of(v: &[char]) -> (s: String)
    ensures
        s@ == v@,
{
    let mut s = String::new();
    let mut i: usize = 0;
    while i < v.len()
        invariant
            i <= v.len(),
            s@ == v@.take(i as int),
        decreases v.len() - i,
    {
        s.push(v[i]);
        i = i + 1;
        assert(s@ =~= v@.take(i as int));
    }
    assert(v@.take(v@.len() as int) =~= v@);
    s
}

/// An owned copy of a string slice.
pub fn owned(s: &str) -> (r: String)
    ensures
        r@ == s@,
{
    s.to_owned()
}

pub fn subrange_of(v: &Vec<char>, lo: usize, hi: usize) -> (r: Vec<char>)
    requires
        lo <= hi <= v.len(),
    ensures
        r@ == v@.subrange(lo as int, hi as int),
{
    let mut r: Vec<char> = Vec::new();
    let mut i: usize = lo;
    while i < hi
        invariant
            lo <= i <= hi <= v.len(),
            r@ == v@.subrange(lo as int, i as int),
        decreases hi - i,
    {
        r.push(v[i]);
        i = i + 1;
        assert(r@ =~= v@.subrange(lo as int, i as int));
    }
    r
}

proof fn lemma_trim_start_skip(s: Seq<char>, i: int)
    requires
        0 <= i < s.len(),
        is_ws(s[i]),
    ensures
        trim_start(s.skip(i)) == trim_start(s.skip(i + 1)),
{
    assert(s.skip(i).drop_first() =~= s.skip(i + 1));
}

proof fn lemma_trim_end_take(s: Seq<char>, j: int)
    requires
        0 < j <= s.len(),
        is_ws(s[j - 1]),
    ensures
        trim_end(s.take(j)) == trim_end(s.take(j - 1)),
{
    assert(s.take(j).drop_last() =~= s.take(j - 1));
}

/// The characters of `s` without leading and trailing whitespace.
pub fn trim_chars(s: &Vec<char>) -> (r: Vec<char>)
    ensures
        r@ == trim(s@),
{
    let n = s.len();
    let mut i: usize = 0;
    assert(s@.skip(0) =~= s@);
    while i < n && is_whitespace(s[i])
        invariant
            i <= n == s@.len(),
            trim_start(s@) == trim_start(s@.skip(i as int)),
        decreases n - i,
    {
        proof {
            lemma_trim_start_skip(s@, i as int);
        }
        i = i + 1;
    }
    assert(trim_start(s@) == s@.skip(i as int));
    let t = subrange_of(s, i, n);
    assert(t@ =~= s@.skip(i as int));
    let m = t.len();
    let mut j: usize = m;
    assert(t@.take(m as int) =~= t@);
    while j > 0 && is_whitespace(t[j - 1])
        invariant
            j <= m == t@.len(),
            trim_end(t@) == trim_end(t@.take(j as int)),
        decreases j,
    {
        proof {
            lemma_trim_end_take(t@, j as int);
        }
        j = j - 1;
    }
    assert(trim_end(t@.take(j as int)) == t@.take(j as int));
    let r = subrange_of(&t, 0, j);
    assert(r@ =~= t@.take(j as int));
    r
}

/// `str::trim`, on an owned result.
pub fn trim_str(s: &str) -> (r: String)
    ensures
        r@ == trim(s@),
{
    let v = chars_of(s);
    let t = trim_chars(&v);
    string_of(t.as_slice())
}

pub fn lower_chars(s: &Vec<char>) -> (r: Vec<char>)
    ensures
        r@ == lower(s@),
{
    let mut r: Vec<char> = Vec::new();
    let mut i: usize = 0;
    while i < s.len()
        invariant
            i <= s.len(),
            r@ == lower(s@.take(i as int)),
        decreases s.len() - i,
    {
        let c = to_lower_char(s[i]);
        r.push(c);
        i = i + 1;
        assert(r@ =~= lower(s@.take(i as int)));
    }
    assert(s@.take(s@.len() as int) =~= s@);
    r
}

/// A label as the commands store it: trimmed, then ASCII lower case.
pub open spec fn label(s: Seq<char>) -> Seq<char> {
    lower(trim(s))
}


/// `s.trim().to_ascii_lowercase()`.
pub fn label_str(s: &str) -> (r: String)
    ensures
        r@ == label(s@),
{
    let v = chars_of(s);
    let t = trim_chars(&v);
    let l = lower_chars(&t);
    string_of(l.as_slice())
}

/// Whether `s` holds the character `c`.
pub fn has_char(s: &str, c: char) -> (b: bool)
    ensures
        b == s@.contains(c),
{
    let v = chars_of(s);
    let mut i: usize = 0;
    while i < v.len()
        invariant
            i <= v.len(),
            v@ == s@,
            forall|k: int| 0 <= k < i ==> v@[k] != c,
        decreases v.len() - i,
    {
        if v[i] == c {
            return true;
        }
        i = i + 1;
    }
    false
}

/// Two string slices hold the same characters.
pub fn same_text(a: &str, b: &str) -> (r: bool)
    ensures
        r == (a@ == b@),
{
    let x = owned(a);
    let y = owned(b);
    x == y
}

/// Lexicographic order by code point. UTF-8 keeps code-point order, so this is
/// the order of `String` and `str`, which compare their bytes.
pub open spec fn str_lt(a: Seq<char>, b: Seq<char>) -> bool
    decreases a.len(),
{
    if a.len() == 0 {
        b.len() > 0
    } else if b.len() == 0 {
        false
    } else if a[0] != b[0] {
        a[0] < b[0]
    } else {
        str_lt(a.drop_first(), b.drop_first())
    }
}

pub proof fn lemma_str_lt_irreflexive(a: Seq<char>)
    ensures
        !str_lt(a, a),
    decreases a.len(),
{
    if a.len() > 0 {
        lemma_str_lt_irreflexive(a.drop_first());
    }
}

pub proof fn lemma_str_lt_transitive(a: Seq<char>, b: Seq<char>, c: Seq<char>)
    requires
        str_lt(a, b),
        str_lt(b, c),
    ensures
        str_lt(a, c),
    decreases a.len(),
{
    if a.len() > 0 && b.len() > 0 && c.len() > 0 {
        if a[0] == b[0] && b[0] == c[0] {
            lemma_str_lt_transitive(a.drop_first(), b.drop_first(), c.drop_first());
        }
    }
}

pub proof fn lemma_str_lt_total(a: Seq<char>, b: Seq<char>)
    requires
        a != b,
    ensures
        str_lt(a, b) || str_lt(b, a),
    decreases a.len(),
{
    if a.len() > 0 && b.len() > 0 && a[0] == b[0] {
        if a.drop_first() == b.drop_first() {
            assert(a =~= seq![a[0]] + a.drop_first());
            assert(b =~= seq![b[0]] + b.drop_first());
        }
        lemma_str_lt_total(a.drop_first(), b.drop_first());
    } else if a.len() == 0 && b.len() == 0 {
        assert(a =~= b);
    }
}

pub proof fn lemma_str_lt_asymmetric(a: Seq<char>, b: Seq<char>)
    requires
        str_lt(a, b),
    ensures
        !str_lt(b, a),
{
    if str_lt(b, a) {
        lemma_str_lt_transitive(a, b, a);
        lemma_str_lt_irreflexive(a);
    }
}

pub fn chars_less(a: &Vec<char>, b: &Vec<char>) -> (r: bool)
    ensures
        r == str_lt(a@, b@),
{
    let mut i: usize = 0;
    assert(a@.skip(0) =~= a@);
    assert(b@.skip(0) =~= b@);
    while i < a.len() && i < b.len() && a[i] == b[i]
        invariant
            i <= a.len(),
            i <= b.len(),
            str_lt(a@, b@) == str_lt(a@.skip(i as int), b@.skip(i as int)),
        decreases a.len() - i,
    {
        assert(a@.skip(i as int).drop_first() =~= a@.skip(i + 1));
        assert(b@.skip(i as int).drop_first() =~= b@.skip(i + 1));
        i = i + 1;
    }
    if i == a.len() {
        i < b.len()
    } else if i == b.len() {
        false
    } else {
        a[i] < b[i]
    }
}

/// `a < b` for strings.
pub fn str_less(a: &str, b: &str) -> (r: bool)
    ensures
        r == str_lt(a@, b@),
{
    let x = chars_of(a);
    let y = chars_of(b);
    chars_less(&x, &y)
}

/// The ASCII digit for `d < 10`.
pub open spec fn digit_char(d: nat) -> char {
    ((d + 48) as u32) as char
}

/// Decimal notation of `n`, as `Display` writes an unsigned integer.
pub open spec fn decimal(n: nat) -> Seq<char>
    decreases n,
{
    if n < 10 {
        seq![digit_char(n)]
    } else {
        decimal(n / 10).push(digit_char(n % 10))
    }
}

/// `n.to_string()` for a `u64`.
pub fn u64_text(n: u64) -> (r: String)
    ensures
        r@ == decimal(n as nat),
{
    // digits, least significant first
    let mut rev: Vec<char> = Vec::new();
    let mut m: u64 = n;
    while m >= 10
        invariant
            decimal(n as nat) == decimal(m as nat) + rev@.reverse(),
        decreases m,
    {
        let d: u8 = (m % 10) as u8;
        let c: char = (d + 48) as char;
        assert(c == digit_char((m % 10) as nat));
        assert(decimal(m as nat) == decimal((m / 10) as nat).push(c));
        let ghost before = rev@;
        rev.push(c);
        assert(rev@.reverse() =~= seq![c] + before.reverse());
        assert(decimal(m as nat) + before.reverse() =~= decimal((m / 10) as nat)
            + rev@.reverse());
        m = m / 10;
    }
    let d: u8 = m as u8;
    let c: char = (d + 48) as char;
    assert(decimal(m as nat) == seq![c]);
    let ghost before = rev@;
    rev.push(c);
    assert(rev@.reverse() =~= seq![c] + before.reverse());
    let mut out: Vec<char> = Vec::new();
    let mut k: usize = rev.len();
    while k > 0
        invariant
            k <= rev.len(),
            out@ == rev@.reverse().take(rev.len() - k),
        decreases k,
    {
        k = k - 1;
        out.push(rev[k]);
        assert(out@ =~= rev@.reverse().take(rev.len() - k));
    }
    assert(out@ =~= rev@.reverse());
    string_of(out.as_slice())
}


/// `n.to_string()` for a `u16`.
pub fn u16_text(n: u16) -> (r: String)
    ensures
        r@ == decimal(n as nat),
{
    u64_text(n as u64)
}

/// `n.to_string()` for a `usize`.
pub fn usize_text(n: usize) -> (r: String)
    ensures
        r@ == decimal(n as nat),
{
    u64_text(n as u64)
}

pub open spec fn is_digit(c: char) -> bool {
    '0' <= c <= '9'
}

pub open spec fn digit_value(c: char) -> nat {
    (c as int - '0' as int) as nat
}

/// The number that a run of ASCII digits denotes.
pub open spec fn digits_value(d: Seq<char>) -> nat
    decreases d.len(),
{
    if d.len() == 0 {
        0
    } else {
        digits_value(d.drop_last()) * 10 + digit_value(d.last())
    }
}

pub open spec fn all_digits(d: Seq<char>) -> bool {
    forall|i: int| 0 <= i < d.len() ==> is_digit(#[trigger] d[i])
}

/// What `str::parse::<u16>` accepts: an optional `+`, then one or more ASCII
/// digits whose value fits in a `u16`.
pub open spec fn parse_u16_spec(s: Seq<char>) -> Option<u16> {
    let d = if s.len() > 0 && s[0] == '+' {
        s.drop_first()
    } else {
        s
    };
    if d.len() > 0 && all_digits(d) && digits_value(d) <= 65535 {
        Some(digits_value(d) as u16)
    } else {
        None
    }
}

proof fn lemma_digits_value_prefix(d: Seq<char>, k: int)
    requires
        0 <= k <= d.len(),
        all_digits(d),
    ensures
        digits_value(d.take(k)) <= digits_value(d),
    decreases d.len(),
{
    if k < d.len() {
        assert(all_digits(d.drop_last()));
        lemma_digits_value_prefix(d.drop_last(), k);
        assert(d.drop_last().take(k) =~= d.take(k));
    } else {
        assert(d.take(k) =~= d);
    }
}

/// `s.parse::<u16>().ok()`.
pub fn parse_u16(v: &Vec<char>) -> (r: Option<u16>)
    ensures
        r == parse_u16_spec(v@),
{
    let start: usize = if v.len() > 0 && v[0] == '+' {
        1
    } else {
        0
    };
    let ghost d = if v@.len() > 0 && v@[0] == '+' {
        v@.drop_first()
    } else {
        v@
    };
    assert(d =~= v@.subrange(start as int, v@.len() as int));
    if start == v.len() {
        return None;
    }
    let mut acc: u32 = 0;
    let mut i: usize = start;
    assert(d.take(0) =~= seq![]);
    while i < v.len()
        invariant
            start <= i <= v.len(),
            d == v@.subrange(start as int, v@.len() as int),
            d == (if v@.len() > 0 && v@[0] == '+' {
                v@.drop_first()
            } else {
                v@
            }),
            all_digits(d.take(i - start)),
            acc as nat == digits_value(d.take(i - start)),
            acc <= 65535,
        decreases v.len() - i,
    {
        let c = v[i];
        if !('0' <= c && c <= '9') {
            assert(d[i - start] == c);
            assert(!is_digit(d[i - start]));
            assert(!all_digits(d));
            return None;
        }
        let dv: u32 = (c as u32) - 48;
        assert(d.take(i - start + 1).drop_last() =~= d.take(i - start));
        assert(d.take(i - start + 1).last() == c);
        let next: u32 = acc * 10 + dv;
        assert(next as nat == digits_value(d.take(i - start + 1)));
        assert(all_digits(d.take(i - start + 1)));
        if next > 65535 {
            proof {
                if all_digits(d) {
                    lemma_digits_value_prefix(d, i - start + 1);
                    assert(digits_value(d) > 65535);
                }
                assert(parse_u16_spec(v@) is None);
            }
            return None;
        }
        acc = next;
        i = i + 1;
    }
    assert(d.take(i - start) =~= d);
    Some(acc as u16)
}

/// `s` followed by spaces up to `width` characters, as `{:<width}` formats it.
pub open spec fn pad(s: Seq<char>, width: nat) -> Seq<char> {
    if s.len() >= width {
        s
    } else {
        s + Seq::new((width - s.len()) as nat, |i: int| ' ')
    }
}

pub fn pad_str(s: &str, width: usize) -> (r: String)
    ensures
        r@ == pad(s@, width as nat),
{
    let mut v = chars_of(s);
    let n = v.len();
    if n >= width {
        return string_of(v.as_slice());
    }
    let mut k: usize = n;
    while k < width
        invariant
            n <= k <= width,
            v@ == s@ + Seq::new((k - n) as nat, |i: int| ' '),
        decreases width - k,
    {
        v.push(' ');
        k = k + 1;
        assert(v@ =~= s@ + Seq::new((k - n) as nat, |i: int| ' '));
    }
    string_of(v.as_slice())
}

/// The pieces of `s` between `\n` characters, `cur` being the piece begun so far.
pub open spec fn lines_from(s: Seq<char>, cur: Seq<char>) -> Seq<Seq<char>>
    decreases s.len(),
{
    if s.len() == 0 {
        seq![cur]
    } else if s[0] == '\n' {
        seq![cur] + lines_from(s.drop_first(), seq![])
    } else {
        lines_from(s.drop_first(), cur.push(s[0]))
    }
}

/// The pieces of `s` between `\n` characters.
pub open spec fn lines(s: Seq<char>) -> Seq<Seq<char>> {
    lines_from(s, seq![])
}

pub open spec fn views(v: Seq<Vec<char>>) -> Seq<Seq<char>> {
    v.map_values(|w: Vec<char>| w@)
}

pub fn split_lines(s: &Vec<char>) -> (r: Vec<Vec<char>>)
    ensures
        views(r@) == lines(s@),
{
    let mut out: Vec<Vec<char>> = Vec::new();
    let mut cur: Vec<char> = Vec::new();
    let mut i: usize = 0;
    assert(s@.skip(0) =~= s@);
    while i < s.len()
        invariant
            i <= s.len(),
            views(out@) + lines_from(s@.skip(i as int), cur@) == lines(s@),
        decreases s.len() - i,
    {
        assert(s@.skip(i as int).drop_first() =~= s@.skip(i + 1));
        let c = s[i];
        if c == '\n' {
            let ghost before = out@;
            let piece = cur;
            out.push(piece);
            cur = Vec::new();
            assert(views(out@) =~= views(before) + seq![piece@]);
        } else {
            cur.push(c);
        }
        i = i + 1;
    }
    let ghost before = out@;
    out.push(cur);
    assert(views(out@) =~= views(before) + seq![cur@]);
    out
}

/// The characters of `s` before its first `#`.
pub open spec fn before_hash(s: Seq<char>) -> Seq<char>
    decreases s.len(),
{
    if s.len() == 0 {
        s
    } else if s[0] == '#' {
        seq![]
    } else {
        seq![s[0]] + before_hash(s.drop_first())
    }
}

pub fn cut_at_hash(s: &Vec<char>) -> (r: Vec<char>)
    ensures
        r@ == before_hash(s@),
{
    let mut i: usize = 0;
    assert(s@.skip(0) =~= s@);
    while i < s.len() && s[i] != '#'
        invariant
            i <= s.len(),
            before_hash(s@) == s@.take(i as int) + before_hash(s@.skip(i as int)),
        decreases s.len() - i,
    {
        assert(s@.skip(i as int).drop_first() =~= s@.skip(i + 1));
        assert(s@.take(i + 1) =~= s@.take(i as int) + seq![s@[i as int]]);
        i = i + 1;
    }
    let r = subrange_of(s, 0, i);
    assert(r@ =~= s@.take(i as int) + before_hash(s@.skip(i as int)));
    r
}

/// The whitespace-separated words of `s`, `cur` being the word begun so far.
pub open spec fn words_from(s: Seq<char>, cur: Seq<char>) -> Seq<Seq<char>>
    decreases s.len(),
{
    if s.len() == 0 {
        if cur.len() == 0 {
            seq![]
        } else {
            seq![cur]
        }
    } else if is_ws(s[0]) {
        (if cur.len() == 0 {
            seq![]
        } else {
            seq![cur]
        }) + words_from(s.drop_first(), seq![])
    } else {
        words_from(s.drop_first(), cur.push(s[0]))
    }
}

/// The whitespace-separated words of `s`, as `str::split_whitespace` yields them.
pub open spec fn words(s: Seq<char>) -> Seq<Seq<char>> {
    words_from(s, seq![])
}

pub fn split_words(s: &Vec<char>) -> (r: Vec<Vec<char>>)
    ensures
        views(r@) == words(s@),
{
    let mut out: Vec<Vec<char>> = Vec::new();
    let mut cur: Vec<char> = Vec::new();
    let mut i: usize = 0;
    assert(s@.skip(0) =~= s@);
    while i < s.len()
        invariant
            i <= s.len(),
            views(out@) + words_from(s@.skip(i as int), cur@) == words(s@),
        decreases s.len() - i,
    {
        assert(s@.skip(i as int).drop_first() =~= s@.skip(i + 1));
        let c = s[i];
        let ghost old_cur = cur@;
        assert(s@.skip(i as int)[0] == c);
        if is_whitespace(c) {
            let ghost rest = words_from(s@.skip(i + 1), seq![]);
            assert(words_from(s@.skip(i as int), old_cur) == (if old_cur.len() == 0 {
                seq![]
            } else {
                seq![old_cur]
            }) + rest);
            if cur.len() > 0 {
                let ghost before = out@;
                let piece = cur;
                out.push(piece);
                cur = Vec::new();
                assert(views(out@) =~= views(before) + seq![piece@]);
                assert(cur@ =~= Seq::<char>::empty());
                assert(views(out@) + rest =~= views(before) + (seq![piece@] + rest));
            } else {
                assert(old_cur =~= Seq::<char>::empty());
                assert(Seq::<Seq<char>>::empty() + rest =~= rest);
                assert(words_from(s@.skip(i as int), old_cur) =~= rest);
            }
        } else {
            cur.push(c);
        }
        i = i + 1;
    }
    if cur.len() > 0 {
        let ghost before = out@;
        out.push(cur);
        assert(views(out@) =~= views(before) + seq![cur@]);
    } else {
        assert(views(out@) + seq![] =~= views(out@));
    }
    out
}

/// A piece without `\n` joins the line begun so far.
pub proof fn lemma_lines_plain(p: Seq<char>, t: Seq<char>, cur: Seq<char>)
    requires
        forall|i: int| 0 <= i < p.len() ==> #[trigger] p[i] != '\n',
    ensures
        lines_from(p + t, cur) == lines_from(t, cur + p),
    decreases p.len(),
{
    if p.len() == 0 {
        assert(p + t =~= t);
        assert(cur + p =~= cur);
    } else {
        assert((p + t)[0] == p[0]);
        assert((p + t).drop_first() =~= p.drop_first() + t);
        lemma_lines_plain(p.drop_first(), t, cur.push(p[0]));
        assert(cur.push(p[0]) + p.drop_first() =~= cur + p);
    }
}

/// A piece without whitespace joins the word begun so far.
pub proof fn lemma_words_plain(p: Seq<char>, t: Seq<char>, cur: Seq<char>)
    requires
        forall|i: int| 0 <= i < p.len() ==> !is_ws(#[trigger] p[i]),
    ensures
        words_from(p + t, cur) == words_from(t, cur + p),
    decreases p.len(),
{
    if p.len() == 0 {
        assert(p + t =~= t);
        assert(cur + p =~= cur);
    } else {
        assert((p + t)[0] == p[0]);
        assert((p + t).drop_first() =~= p.drop_first() + t);
        lemma_words_plain(p.drop_first(), t, cur.push(p[0]));
        assert(cur.push(p[0]) + p.drop_first() =~= cur + p);
    }
}

/// Text without `#` holds no comment.
pub proof fn lemma_before_hash_none(s: Seq<char>)
    requires
        forall|i: int| 0 <= i < s.len() ==> #[trigger] s[i] != '#',
    ensures
        before_hash(s) == s,
    decreases s.len(),
{
    if s.len() > 0 {
        lemma_before_hash_none(s.drop_first());
        assert(seq![s[0]] + s.drop_first() =~= s);
    }
}

/// A word starts wherever the next character is not whitespace.
pub proof fn lemma_words_from_nonempty(s: Seq<char>, cur: Seq<char>)
    requires
        cur.len() > 0 || (s.len() > 0 && !is_ws(s[0])),
    ensures
        words_from(s, cur).len() > 0,
    decreases s.len(),
{
    if s.len() > 0 && !is_ws(s[0]) {
        lemma_words_from_nonempty(s.drop_first(), cur.push(s[0]));
    }
}

/// Strings made of character vectors.
pub fn strings_of(v: &Vec<Vec<char>>) -> (r: Vec<String>)
    ensures
        strs_view(r@) == views(v@),
{
    let mut r: Vec<String> = Vec::new();
    let mut i: usize = 0;
    while i < v.len()
        invariant
            i <= v.len(),
            r@.len() == i,
            forall|k: int| 0 <= k < i ==> (#[trigger] r@[k])@ == v@[k]@,
        decreases v.len() - i,
    {
        let s = string_of(v[i].as_slice());
        r.push(s);
        i = i + 1;
    }
    assert(strs_view(r@) =~= views(v@));
    r
}

/// The words joined by single spaces.
pub open spec fn join_with(ws: Seq<Seq<char>>, sep: Seq<char>) -> Seq<char>
    decreases ws.len(),
{
    if ws.len() == 0 {
        seq![]
    } else if ws.len() == 1 {
        ws[0]
    } else {
        join_with(ws.drop_last(), sep) + sep + ws.last()
    }
}

/// `ws[from..].join(" ")` on character vectors.
pub fn join_words_from(ws: &Vec<Vec<char>>, from: usize) -> (r: Vec<char>)
    requires
        from <= ws.len(),
    ensures
        r@ == join_with(views(ws@).skip(from as int), seq![' ']),
{
    let mut out: Vec<char> = Vec::new();
    let mut i: usize = from;
    let ghost all = views(ws@).skip(from as int);
    assert(all.take(0) =~= seq![]);
    while i < ws.len()
        invariant
            from <= i <= ws.len(),
            all == views(ws@).skip(from as int),
            out@ == join_with(all.take(i - from), seq![' ']),
        decreases ws.len() - i,
    {
        let ghost before = out@;
        assert(all.take(i - from + 1).drop_last() =~= all.take(i - from));
        assert(all.take(i - from + 1).last() == ws@[i as int]@);
        if i > from {
            out.push(' ');
        }
        let w = &ws[i];
        let mut k: usize = 0;
        let ghost mid = out@;
        while k < w.len()
            invariant
                k <= w.len(),
                out@ == mid + w@.take(k as int),
            decreases w.len() - k,
        {
            out.push(w[k]);
            k = k + 1;
            assert(out@ =~= mid + w@.take(k as int));
        }
        assert(w@.take(w@.len() as int) =~= w@);
        if i > from {
            assert(out@ =~= before + seq![' '] + w@);
        } else {
            assert(out@ =~= w@);
        }
        i = i + 1;
    }
    assert(all.take(i - from) =~= all);
    out
}

} // verus!
