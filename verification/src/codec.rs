//! The textual format of the routine definition file: a TOML-style layout of
//! `[table]` headers and `key = value` lines, where a value is a quoted
//! string, a boolean, or an array of quoted strings.
//!
//! Reading and writing are both defined here, and writing then reading is
//! proved to recover the definition (see `lemma_serialize_then_read`).

use vstd::prelude::*;
use vstd::string::StrSliceExecFns;
use crate::text::str_to_chars;

verus! {

/// Horizontal whitespace, ignored around keys, values and headers.
pub open spec fn is_space(c: char) -> bool {
    c == ' ' || c == '\t' || c == '\r'
}

/// The least index of `c` in `s`, or `s.len()` when `c` does not occur.
pub open spec fn first_idx(s: Seq<char>, c: char) -> int
    decreases s.len(),
{
    if s.len() == 0 {
        0
    } else if s[0] == c {
        0
    } else {
        1 + first_idx(s.drop_first(), c)
    }
}

pub proof fn lemma_first_idx_bounds(s: Seq<char>, c: char)
    ensures
        0 <= first_idx(s, c) <= s.len(),
        first_idx(s, c) < s.len() ==> s[first_idx(s, c)] == c,
        forall|j: int| 0 <= j < first_idx(s, c) ==> s[j] != c,
    decreases s.len(),
{
    if s.len() > 0 && s[0] != c {
        lemma_first_idx_bounds(s.drop_first(), c);
        assert forall|j: int| 0 <= j < first_idx(s, c) implies s[j] != c by {
            if j >= 1 {
                assert(s[j] == s.drop_first()[j - 1]);
            }
        }
    }
}

/// `first_idx` is pinned down by where `c` first stands.
pub proof fn lemma_first_idx_is(s: Seq<char>, c: char, k: int)
    requires
        0 <= k <= s.len(),
        forall|j: int| 0 <= j < k ==> s[j] != c,
        k < s.len() ==> s[k] == c,
    ensures
        first_idx(s, c) == k,
    decreases s.len(),
{
    if s.len() > 0 && k > 0 {
        assert(s[0] != c);
        assert(forall|j: int| 0 <= j < k - 1 ==> s.drop_first()[j] != c);
        lemma_first_idx_is(s.drop_first(), c, k - 1);
    }
}

/// `s` with its leading whitespace removed.
pub open spec fn trim_start(s: Seq<char>) -> Seq<char>
    decreases s.len(),
{
    if s.len() > 0 && is_space(s[0]) {
        trim_start(s.drop_first())
    } else {
        s
    }
}

/// `s` with its trailing whitespace removed.
pub open spec fn trim_end(s: Seq<char>) -> Seq<char>
    decreases s.len(),
{
    if s.len() > 0 && is_space(s.last()) {
        trim_end(s.drop_last())
    } else {
        s
    }
}

/// `s` with whitespace removed at both ends.
pub open spec fn trim(s: Seq<char>) -> Seq<char> {
    trim_end(trim_start(s))
}

pub proof fn lemma_trim_start_is(s: Seq<char>, a: int)
    requires
        0 <= a <= s.len(),
        forall|j: int| 0 <= j < a ==> is_space(s[j]),
        a < s.len() ==> !is_space(s[a]),
    ensures
        trim_start(s) == s.skip(a),
    decreases s.len(),
{
    if a == 0 {
        assert(s.skip(0) =~= s);
    } else {
        assert(is_space(s[0]));
        assert(forall|j: int| 0 <= j < a - 1 ==> is_space(s.drop_first()[j]));
        lemma_trim_start_is(s.drop_first(), a - 1);
        assert(s.drop_first().skip(a - 1) =~= s.skip(a));
    }
}

pub proof fn lemma_trim_end_is(s: Seq<char>, b: int)
    requires
        0 <= b <= s.len(),
        forall|j: int| b <= j < s.len() ==> is_space(s[j]),
        b > 0 ==> !is_space(s[b - 1]),
    ensures
        trim_end(s) == s.take(b),
    decreases s.len(),
{
    if b == s.len() {
        if s.len() == 0 || !is_space(s.last()) {
            assert(s.take(b) =~= s);
        } else {
            assert(!is_space(s[b - 1]));
        }
    } else {
        assert(is_space(s.last()));
        assert(forall|j: int| b <= j < s.drop_last().len() ==> is_space(s.drop_last()[j]));
        lemma_trim_end_is(s.drop_last(), b);
        assert(s.drop_last().take(b) =~= s.take(b));
    }
}

/// Trimming changes nothing when both ends are already clean.
pub proof fn lemma_trim_noop(s: Seq<char>)
    requires
        s.len() > 0 ==> !is_space(s[0]) && !is_space(s.last()),
    ensures
        trim(s) == s,
{
    lemma_trim_start_is(s, 0);
    assert(s.skip(0) =~= s);
    lemma_trim_end_is(s, s.len() as int);
    assert(s.take(s.len() as int) =~= s);
}


/// The quote parity after scanning `s`, starting from `q`: each quote
/// toggles it.
#[verifier::opaque]
pub open spec fn parity_after(s: Seq<char>, q: bool) -> bool
    decreases s.len(),
{
    if s.len() == 0 {
        q
    } else {
        parity_after(s.drop_first(), if s[0] == '"' {
            !q
        } else {
            q
        })
    }
}

/// The least index of a `#` standing outside quotes, scanning from parity
/// `q`; `s.len()` when there is none. A comment begins there.
#[verifier::opaque]
pub open spec fn first_hash_outside(s: Seq<char>, q: bool) -> int
    decreases s.len(),
{
    if s.len() == 0 {
        0
    } else if !q && s[0] == '#' {
        0
    } else {
        1 + first_hash_outside(s.drop_first(), if s[0] == '"' {
            !q
        } else {
            q
        })
    }
}

pub proof fn lemma_fho_bounds(s: Seq<char>, q: bool)
    ensures
        0 <= first_hash_outside(s, q) <= s.len(),
    decreases s.len(),
{
    reveal(first_hash_outside);
    if s.len() > 0 && !(!q && s[0] == '#') {
        lemma_fho_bounds(s.drop_first(), if s[0] == '"' {
            !q
        } else {
            q
        });
    }
}

/// Scanning joined texts scans the parts in order.
pub proof fn lemma_fho_append(a: Seq<char>, b: Seq<char>, q: bool)
    requires
        first_hash_outside(a, q) == a.len(),
    ensures
        first_hash_outside(a + b, q) == a.len() + first_hash_outside(b, parity_after(a, q)),
        parity_after(a + b, q) == parity_after(b, parity_after(a, q)),
    decreases a.len(),
{
    reveal(first_hash_outside);
    reveal(parity_after);
    if a.len() == 0 {
        assert(a + b =~= b);
    } else {
        let q2 = if a[0] == '"' {
            !q
        } else {
            q
        };
        assert((a + b)[0] == a[0]);
        assert((a + b).drop_first() =~= a.drop_first() + b);
        lemma_fho_append(a.drop_first(), b, q2);
    }
}

/// Inside quotes, a quote-free text holds no comment start.
pub proof fn lemma_fho_inquote(s: Seq<char>)
    requires
        forall|j: int| 0 <= j < s.len() ==> s[j] != '"',
    ensures
        first_hash_outside(s, true) == s.len(),
        parity_after(s, true) == true,
    decreases s.len(),
{
    reveal(first_hash_outside);
    reveal(parity_after);
    if s.len() > 0 {
        lemma_fho_inquote(s.drop_first());
    }
}

/// Outside quotes, a text without quotes and hashes holds no comment start.
pub proof fn lemma_fho_clean(s: Seq<char>)
    requires
        forall|j: int| 0 <= j < s.len() ==> s[j] != '"' && s[j] != '#',
    ensures
        first_hash_outside(s, false) == s.len(),
        parity_after(s, false) == false,
    decreases s.len(),
{
    reveal(first_hash_outside);
    reveal(parity_after);
    if s.len() > 0 {
        lemma_fho_clean(s.drop_first());
    }
}

/// One quoted run: a quote, quote-free contents, a quote.
pub proof fn lemma_fho_quoted_run(v: Seq<char>)
    requires
        forall|j: int| 0 <= j < v.len() ==> v[j] != '"',
    ensures
        first_hash_outside(seq!['"'] + v + seq!['"'], false) == v.len() + 2,
        parity_after(seq!['"'] + v + seq!['"'], false) == false,
{
    reveal(first_hash_outside);
    reveal(parity_after);
    let a = seq!['"'];
    let emp = Seq::<char>::empty();
    assert(a.drop_first() =~= emp);
    assert(first_hash_outside(emp, true) == 0);
    assert(first_hash_outside(emp, false) == 0);
    assert(parity_after(emp, true) == true);
    assert(parity_after(emp, false) == false);
    assert(first_hash_outside(a, false) == 1);
    assert(parity_after(a, false) == true);
    assert(first_hash_outside(a, true) == 1);
    assert(parity_after(a, true) == false);
    lemma_fho_inquote(v);
    lemma_fho_append(a, v, false);
    assert(first_hash_outside(a + v, false) == v.len() + 1);
    assert(parity_after(a + v, false) == true);
    lemma_fho_append(a + v, a, false);
    assert((a + v) + a =~= a + v + a);
    assert(seq!['"'] + v + seq!['"'] =~= a + v + a);
}

/// The line with its comment removed: everything before the first unquoted
/// `#`, trimmed at the end.
pub open spec fn strip_comment(t: Seq<char>) -> Seq<char> {
    trim_end(t.take(first_hash_outside(t, false)))
}

/// A text without quotes, hashes and newlines sheds no comment.
pub proof fn lemma_strip_noop_clean(t: Seq<char>)
    requires
        forall|j: int| 0 <= j < t.len() ==> t[j] != '"' && t[j] != '#',
        t.len() > 0 ==> !is_space(t.last()),
    ensures
        strip_comment(t) == t,
{
    lemma_fho_clean(t);
    assert(t.take(t.len() as int) =~= t);
    lemma_trim_end_is(t, t.len() as int);
}

/// The lines of `s`, split on `'\n'`; a final fragment without a newline is
/// a line of its own, and a trailing newline adds no empty line.
pub open spec fn split_lines(s: Seq<char>) -> Seq<Seq<char>>
    decreases s.len(),
    via split_lines_decreases
{
    if s.len() == 0 {
        Seq::empty()
    } else {
        let i = first_idx(s, '\n');
        if i == s.len() {
            seq![s]
        } else {
            seq![s.take(i)] + split_lines(s.skip(i + 1))
        }
    }
}

#[via_fn]
proof fn split_lines_decreases(s: Seq<char>) {
    lemma_first_idx_bounds(s, '\n');
}

/// The lines joined back, each terminated by a newline.
pub open spec fn join_lines(lines: Seq<Seq<char>>) -> Seq<char>
    decreases lines.len(),
{
    if lines.len() == 0 {
        Seq::empty()
    } else {
        lines[0] + seq!['\n'] + join_lines(lines.drop_first())
    }
}

/// A line that holds no newline of its own.
pub open spec fn line_clean(l: Seq<char>) -> bool {
    forall|j: int| 0 <= j < l.len() ==> l[j] != '\n'
}

/// Splitting undoes joining, for clean lines.
pub proof fn lemma_split_join_lines(lines: Seq<Seq<char>>)
    requires
        forall|k: int| 0 <= k < lines.len() ==> line_clean(#[trigger] lines[k]),
    ensures
        split_lines(join_lines(lines)) == lines,
    decreases lines.len(),
{
    if lines.len() == 0 {
        assert(split_lines(join_lines(lines)) =~= lines);
    } else {
        let l0 = lines[0];
        let rest = join_lines(lines.drop_first());
        let t = join_lines(lines);
        assert(t =~= l0 + seq!['\n'] + rest);
        assert(line_clean(l0));
        assert(forall|j: int| 0 <= j < l0.len() ==> t[j] == l0[j] && t[j] != '\n');
        assert(t[l0.len() as int] == '\n');
        lemma_first_idx_is(t, '\n', l0.len() as int);
        assert(t.take(l0.len() as int) =~= l0);
        assert(t.skip(l0.len() as int + 1) =~= rest);
        lemma_split_join_lines(lines.drop_first());
        assert(seq![l0] + split_lines(rest) =~= lines);
    }
}

/// Splits the text into its lines.
pub fn split_to_lines(s: &str) -> (r: Vec<String>)
    ensures
        r@.map_values(|l: String| l@) == split_lines(s@),
{
    let chars = str_to_chars(s);
    let n = chars.len();
    let mut r: Vec<String> = Vec::new();
    let mut start: usize = 0;
    let mut i: usize = 0;
    proof {
        assert(s@.skip(0) =~= s@);
        assert(r@.map_values(|l: String| l@) + split_lines(s@) =~= split_lines(s@));
    }
    while i < n
        invariant
            n == s@.len(),
            chars@ == s@,
            start <= i <= n,
            forall|j: int| start <= j < i ==> s@[j] != '\n',
            split_lines(s@) == r@.map_values(|l: String| l@) + split_lines(s@.skip(start as int)),
        decreases n - i,
    {
        if chars[i] == '\n' {
            let line = s.substring_char(start, i).to_owned();
            proof {
                let t = s@.skip(start as int);
                assert(forall|j: int| 0 <= j < i - start ==> t[j] != '\n');
                assert(t[i - start as int] == '\n');
                lemma_first_idx_is(t, '\n', i - start as int);
                assert(t.take(i - start as int) =~= s@.subrange(start as int, i as int));
                assert(t.skip(i - start as int + 1) =~= s@.skip(i as int + 1));
                assert(split_lines(t) == seq![s@.subrange(start as int, i as int)] + split_lines(
                    s@.skip(i as int + 1),
                ));
            }
            r.push(line);
            proof {
                assert(r@.map_values(|l: String| l@) =~= r@.drop_last().map_values(
                    |l: String| l@,
                ) + seq![s@.subrange(start as int, i as int)]);
                assert(split_lines(s@) =~= r@.map_values(|l: String| l@) + split_lines(
                    s@.skip(i as int + 1),
                ));
            }
            start = i + 1;
        }
        i += 1;
    }
    if start < n {
        let line = s.substring_char(start, n).to_owned();
        proof {
            let t = s@.skip(start as int);
            assert(forall|j: int| 0 <= j < t.len() ==> t[j] != '\n');
            lemma_first_idx_is(t, '\n', t.len() as int);
            assert(t.take(t.len() as int) =~= t);
            assert(t =~= s@.subrange(start as int, n as int));
            assert(split_lines(t) == seq![s@.subrange(start as int, n as int)]);
        }
        r.push(line);
        proof {
            assert(r@.map_values(|l: String| l@) =~= r@.drop_last().map_values(|l: String| l@)
                + seq![s@.subrange(start as int, n as int)]);
        }
    } else {
        proof {
            assert(s@.skip(start as int) =~= Seq::<char>::empty());
            assert(split_lines(s@.skip(start as int)) =~= Seq::<Seq<char>>::empty());
        }
    }
    proof {
        assert(r@.map_values(|l: String| l@) =~= split_lines(s@));
    }
    r
}

/// A value on the right of a `key = value` line, at the specification level.
pub enum ValueV {
    VStr(Seq<char>),
    VBool(bool),
    VArr(Seq<Seq<char>>),
}

/// What one line of the definition file means. `TabKv` is a key given a
/// whole inline table of simple values at once.
pub enum LineTok {
    Blank,
    Header(Seq<char>),
    Kv(Seq<char>, ValueV),
    TabKv(Seq<char>, Seq<(Seq<char>, ValueV)>),
    Bad,
}

/// A value on the right of a `key = value` line.
pub enum TomlValue {
    Str(String),
    Bool(bool),
    Arr(Vec<String>),
}

/// One parsed line of the definition file.
pub enum ParsedLine {
    Blank,
    Header(String),
    Kv(String, TomlValue),
    TabKv(String, Vec<(String, TomlValue)>),
    Bad,
}

/// The contents of a parsed value.
pub open spec fn value_view(v: TomlValue) -> ValueV {
    match v {
        TomlValue::Str(s) => ValueV::VStr(s@),
        TomlValue::Bool(b) => ValueV::VBool(b),
        TomlValue::Arr(a) => ValueV::VArr(a@.map_values(|x: String| x@)),
    }
}

/// The contents of the pairs of a parsed inline table.
pub open spec fn pair_views(ps: Seq<(String, TomlValue)>) -> Seq<(Seq<char>, ValueV)> {
    ps.map_values(|pr: (String, TomlValue)| (pr.0@, value_view(pr.1)))
}

/// The contents of a parsed line.
pub open spec fn line_view(l: ParsedLine) -> LineTok {
    match l {
        ParsedLine::Blank => LineTok::Blank,
        ParsedLine::Header(h) => LineTok::Header(h@),
        ParsedLine::Kv(k, v) => LineTok::Kv(k@, value_view(v)),
        ParsedLine::TabKv(k, ps) => LineTok::TabKv(k@, pair_views(ps@)),
        ParsedLine::Bad => LineTok::Bad,
    }
}

proof fn lemma_trim_start_len(s: Seq<char>)
    ensures
        trim_start(s).len() <= s.len(),
    decreases s.len(),
{
    if s.len() > 0 && is_space(s[0]) {
        lemma_trim_start_len(s.drop_first());
    }
}

/// The elements of a non-empty array body: a quoted string, then optionally
/// a comma and further elements.
pub open spec fn parse_elems_ne(t: Seq<char>) -> Option<Seq<Seq<char>>>
    decreases t.len(),
    via parse_elems_ne_decreases
{
    if t.len() == 0 || t[0] != '"' {
        None
    } else {
        let q = 1 + first_idx(t.skip(1), '"');
        if q >= t.len() {
            None
        } else {
            let content = t.subrange(1, q);
            let rest = trim_start(t.skip(q + 1));
            if rest.len() == 0 {
                Some(seq![content])
            } else if rest[0] == ',' {
                match parse_elems_ne(trim_start(rest.drop_first())) {
                    Some(es) => Some(seq![content] + es),
                    None => None,
                }
            } else {
                None
            }
        }
    }
}

#[via_fn]
proof fn parse_elems_ne_decreases(t: Seq<char>) {
    lemma_first_idx_bounds(t.skip(1), '"');
    if t.len() > 0 && t[0] == '"' {
        let q = 1 + first_idx(t.skip(1), '"');
        if q < t.len() {
            lemma_trim_start_len(t.skip(q + 1));
            let rest = trim_start(t.skip(q + 1));
            if rest.len() > 0 {
                lemma_trim_start_len(rest.drop_first());
            }
        }
    }
}

/// One simple value at the front of `w`, and what follows it: a quoted
/// string, or a boolean word.
pub open spec fn parse_scalar_front(w: Seq<char>) -> Option<(ValueV, Seq<char>)> {
    if w.len() > 0 && w[0] == '"' {
        let q = 1 + first_idx(w.skip(1), '"');
        if q >= w.len() {
            None
        } else {
            Some((ValueV::VStr(w.subrange(1, q)), w.skip(q + 1)))
        }
    } else if crate::text::is_prefix_of("true"@, w) {
        Some((ValueV::VBool(true), w.skip("true"@.len() as int)))
    } else if crate::text::is_prefix_of("false"@, w) {
        Some((ValueV::VBool(false), w.skip("false"@.len() as int)))
    } else {
        None
    }
}

/// The pairs of a non-empty inline table body: `key = value`, separated by
/// commas.
pub open spec fn parse_pairs_ne(t: Seq<char>) -> Option<Seq<(Seq<char>, ValueV)>>
    decreases t.len(),
    via parse_pairs_ne_decreases
{
    let e = first_idx(t, '=');
    if e == t.len() {
        None
    } else {
        let key = trim_end(t.take(e));
        if key.len() == 0 {
            None
        } else {
            let w = trim_start(t.skip(e + 1));
            match parse_scalar_front(w) {
                Some(vr) => {
                    let rest = trim_start(vr.1);
                    if rest.len() == 0 {
                        Some(seq![(key, vr.0)])
                    } else if rest[0] == ',' {
                        match parse_pairs_ne(trim_start(rest.drop_first())) {
                            Some(ps) => Some(seq![(key, vr.0)] + ps),
                            None => None,
                        }
                    } else {
                        None
                    }
                },
                None => None,
            }
        }
    }
}

#[via_fn]
proof fn parse_pairs_ne_decreases(t: Seq<char>) {
    reveal_strlit("true");
    reveal_strlit("false");
    lemma_first_idx_bounds(t, '=');
    let e = first_idx(t, '=');
    if e < t.len() {
        lemma_trim_start_len(t.skip(e + 1));
        let w = trim_start(t.skip(e + 1));
        lemma_first_idx_bounds(w.skip(1), '"');
        if parse_scalar_front(w) is Some {
            let vr = parse_scalar_front(w)->Some_0;
            assert(vr.1.len() < w.len());
            lemma_trim_start_len(vr.1);
            let rest = trim_start(vr.1);
            if rest.len() > 0 {
                lemma_trim_start_len(rest.drop_first());
            }
        }
    }
}

/// The meaning of a value text: `true` or `false`, a quoted string whose
/// contents hold no quote, or a bracketed array of such strings.
pub open spec fn parse_value_spec(v: Seq<char>) -> Option<ValueV> {
    if v == "true"@ {
        Some(ValueV::VBool(true))
    } else if v == "false"@ {
        Some(ValueV::VBool(false))
    } else if v.len() >= 2 && v[0] == '"' && first_idx(v.skip(1), '"') == v.len() - 2 {
        Some(ValueV::VStr(v.subrange(1, v.len() - 1)))
    } else if v.len() >= 2 && v[0] == '[' && v.last() == ']' {
        let inner = trim(v.subrange(1, v.len() - 1));
        if inner.len() == 0 {
            Some(ValueV::VArr(Seq::empty()))
        } else {
            match parse_elems_ne(inner) {
                Some(es) => Some(ValueV::VArr(es)),
                None => None,
            }
        }
    } else {
        None
    }
}

/// The meaning of one line: blank or comment, a `[table]` header, a
/// `key = value` pair, or malformed.
pub open spec fn parse_line_spec(l: Seq<char>) -> LineTok {
    let t = strip_comment(trim(l));
    if t.len() == 0 {
        LineTok::Blank
    } else if t[0] == '[' {
        if t.len() >= 2 && t.last() == ']' {
            LineTok::Header(t.subrange(1, t.len() - 1))
        } else {
            LineTok::Bad
        }
    } else {
        let e = first_idx(t, '=');
        if e == t.len() {
            LineTok::Bad
        } else {
            let key = trim_end(t.take(e));
            let vtxt = trim_start(t.skip(e + 1));
            if key.len() == 0 {
                LineTok::Bad
            } else if vtxt.len() >= 2 && vtxt[0] == '{' && vtxt.last() == '}' {
                let inner = trim(vtxt.subrange(1, vtxt.len() - 1));
                if inner.len() == 0 {
                    LineTok::TabKv(key, Seq::empty())
                } else {
                    match parse_pairs_ne(inner) {
                        Some(ps) => LineTok::TabKv(key, ps),
                        None => LineTok::Bad,
                    }
                }
            } else {
                match parse_value_spec(vtxt) {
                    Some(v) => LineTok::Kv(key, v),
                    None => LineTok::Bad,
                }
            }
        }
    }
}

/// Trims whitespace from both ends of the line.
pub fn trim_exec(s: &str) -> (r: String)
    ensures
        r@ == trim(s@),
{
    let chars = str_to_chars(s);
    let n = chars.len();
    let mut a: usize = 0;
    while a < n && (chars[a] == ' ' || chars[a] == '\t' || chars[a] == '\r')
        invariant
            n == s@.len(),
            chars@ == s@,
            a <= n,
            forall|j: int| 0 <= j < a ==> is_space(s@[j]),
        decreases n - a,
    {
        a += 1;
    }
    proof {
        lemma_trim_start_is(s@, a as int);
    }
    let mut b: usize = n;
    while b > a && (chars[b - 1] == ' ' || chars[b - 1] == '\t' || chars[b - 1] == '\r')
        invariant
            n == s@.len(),
            chars@ == s@,
            a <= b <= n,
            forall|j: int| b <= j < n ==> is_space(s@[j]),
        decreases b,
    {
        b -= 1;
    }
    let r = s.substring_char(a, b).to_owned();
    proof {
        let t = s@.skip(a as int);
        assert(forall|j: int| b - a <= j < t.len() ==> is_space(t[j]));
        if b > a {
            assert(!is_space(t[b - a - 1]));
        }
        lemma_trim_end_is(t, b - a as int);
        assert(t.take(b - a as int) =~= s@.subrange(a as int, b as int));
    }
    r
}

/// The least position in `[from, to)` holding `c`, or `to`.
pub(crate) fn scan_to(chars: &Vec<char>, from: usize, to: usize, c: char) -> (r: usize)
    requires
        from <= to <= chars@.len(),
    ensures
        from <= r <= to,
        forall|j: int| from <= j < r ==> chars@[j] != c,
        r < to ==> chars@[r as int] == c,
{
    let mut r = from;
    while r < to && chars[r] != c
        invariant
            from <= r <= to <= chars@.len(),
            forall|j: int| from <= j < r ==> chars@[j] != c,
        decreases to - r,
    {
        r += 1;
    }
    r
}

/// The least position in `[from, to)` holding something besides whitespace,
/// or `to`.
pub(crate) fn skip_ws(chars: &Vec<char>, from: usize, to: usize) -> (r: usize)
    requires
        from <= to <= chars@.len(),
    ensures
        from <= r <= to,
        forall|j: int| from <= j < r ==> is_space(chars@[j]),
        r < to ==> !is_space(chars@[r as int]),
{
    let mut r = from;
    while r < to && (chars[r] == ' ' || chars[r] == '\t' || chars[r] == '\r')
        invariant
            from <= r <= to <= chars@.len(),
            forall|j: int| from <= j < r ==> is_space(chars@[j]),
        decreases to - r,
    {
        r += 1;
    }
    r
}

/// Parses the elements of a non-empty array body standing at `[p, ih)`.
#[verifier::rlimit(100)]
fn parse_elems_exec(ts: &str, chars: &Vec<char>, p: usize, ih: usize) -> (r: Option<Vec<String>>)
    requires
        chars@ == ts@,
        p <= ih <= chars@.len(),
    ensures
        ({
            let cur = chars@.subrange(p as int, ih as int);
            match r {
                Some(es) => parse_elems_ne(cur) == Some(es@.map_values(|x: String| x@)),
                None => parse_elems_ne(cur) is None,
            }
        }),
    decreases ih - p,
{
    let ghost cur = chars@.subrange(p as int, ih as int);
    if p == ih || chars[p] != '"' {
        return None;
    }
    let fq = scan_to(chars, p + 1, ih, '"');
    proof {
        assert(cur.skip(1) =~= chars@.subrange(p as int + 1, ih as int));
        lemma_first_idx_is(cur.skip(1), '"', fq - (p + 1));
    }
    if fq == ih {
        return None;
    }
    let content = ts.substring_char(p + 1, fq).to_owned();
    proof {
        assert(cur.subrange(1, fq - p as int) =~= chars@.subrange(p as int + 1, fq as int));
    }
    let rs = skip_ws(chars, fq + 1, ih);
    let ghost after = cur.skip(fq - p as int + 1);
    proof {
        assert(after =~= chars@.subrange(fq as int + 1, ih as int));
        lemma_trim_start_is(after, rs - (fq + 1));
        assert(after.skip(rs - (fq + 1) as int) =~= chars@.subrange(rs as int, ih as int));
    }
    let ghost rest = trim_start(after);
    if rs == ih {
        let mut v: Vec<String> = Vec::new();
        v.push(content);
        proof {
            assert(v@.map_values(|x: String| x@) =~= seq![
                chars@.subrange(p as int + 1, fq as int),
            ]);
        }
        return Some(v);
    }
    if chars[rs] != ',' {
        return None;
    }
    let p2 = skip_ws(chars, rs + 1, ih);
    proof {
        assert(rest.drop_first() =~= chars@.subrange(rs as int + 1, ih as int));
        lemma_trim_start_is(rest.drop_first(), p2 - (rs + 1));
        assert(rest.drop_first().skip(p2 - (rs + 1) as int) =~= chars@.subrange(
            p2 as int,
            ih as int,
        ));
    }
    match parse_elems_exec(ts, chars, p2, ih) {
        Some(mut es) => {
            es.insert(0, content);
            proof {
                assert(es@.map_values(|x: String| x@) =~= seq![
                    chars@.subrange(p as int + 1, fq as int),
                ] + es@.drop_first().map_values(|x: String| x@));
            }
            Some(es)
        },
        None => None,
    }
}

/// Parses the value text standing at `[lo, hi)`.
fn parse_value_exec(ts: &str, chars: &Vec<char>, lo: usize, hi: usize) -> (r: Option<TomlValue>)
    requires
        chars@ == ts@,
        lo <= hi <= chars@.len(),
    ensures
        ({
            let v = chars@.subrange(lo as int, hi as int);
            match r {
                Some(val) => parse_value_spec(v) == Some(value_view(val)),
                None => parse_value_spec(v) is None,
            }
        }),
{
    let ghost v = chars@.subrange(lo as int, hi as int);
    let sub = ts.substring_char(lo, hi);
    if crate::text::string_eq(sub, "true") {
        return Some(TomlValue::Bool(true));
    }
    if crate::text::string_eq(sub, "false") {
        return Some(TomlValue::Bool(false));
    }
    if lo < hi && chars[lo] == '"' {
        let fq = scan_to(chars, lo + 1, hi, '"');
        proof {
            assert(v.skip(1) =~= chars@.subrange(lo as int + 1, hi as int));
            lemma_first_idx_is(v.skip(1), '"', fq - (lo + 1));
        }
        if fq == hi {
            return None;
        }
        if fq != hi - 1 {
            return None;
        }
        let content = ts.substring_char(lo + 1, hi - 1).to_owned();
        proof {
            assert(v.subrange(1, v.len() - 1) =~= chars@.subrange(lo as int + 1, hi as int - 1));
        }
        return Some(TomlValue::Str(content));
    }
    if lo < hi && chars[lo] == '[' && chars[hi - 1] == ']' {
        if hi - lo < 2 {
            return None;
        }
        let ghost inner0 = v.subrange(1, v.len() - 1);
        proof {
            assert(inner0 =~= chars@.subrange(lo as int + 1, hi as int - 1));
        }
        let il = skip_ws(chars, lo + 1, hi - 1);
        proof {
            lemma_trim_start_is(inner0, il - (lo + 1));
            assert(trim_start(inner0) =~= chars@.subrange(il as int, hi as int - 1));
        }
        let mut ih: usize = hi - 1;
        while ih > il && (chars[ih - 1] == ' ' || chars[ih - 1] == '\t' || chars[ih - 1] == '\r')
            invariant
                il <= ih <= hi - 1,
                hi <= chars@.len(),
                forall|j: int| ih <= j < hi - 1 ==> is_space(chars@[j]),
            decreases ih,
        {
            ih -= 1;
        }
        proof {
            let t1 = trim_start(inner0);
            assert(forall|j: int| ih - il <= j < t1.len() ==> is_space(t1[j]));
            if ih > il {
                assert(!is_space(t1[ih - il - 1]));
            }
            lemma_trim_end_is(t1, ih - il as int);
            assert(t1.take(ih - il as int) =~= chars@.subrange(il as int, ih as int));
        }
        if il == ih {
            let empty: Vec<String> = Vec::new();
            proof {
                assert(empty@.map_values(|x: String| x@) =~= Seq::<Seq<char>>::empty());
            }
            return Some(TomlValue::Arr(empty));
        }
        return match parse_elems_exec(ts, chars, il, ih) {
            Some(es) => Some(TomlValue::Arr(es)),
            None => None,
        };
    }
    None
}

/// Parses one simple value standing at `[ws, ih)` and returns where the
/// rest begins.
fn parse_scalar_exec(ts: &str, chars: &Vec<char>, ws: usize, ih: usize) -> (r: Option<
    (TomlValue, usize),
>)
    requires
        chars@ == ts@,
        ws <= ih <= chars@.len(),
    ensures
        ({
            let w = chars@.subrange(ws as int, ih as int);
            match r {
                Some(vr) => ws < vr.1 <= ih && parse_scalar_front(w) == Some::<
                    (ValueV, Seq<char>),
                >((value_view(vr.0), chars@.subrange(vr.1 as int, ih as int))),
                None => parse_scalar_front(w) is None,
            }
        }),
{
    let ghost w = chars@.subrange(ws as int, ih as int);
    if ws < ih && chars[ws] == '"' {
        let q = scan_to(chars, ws + 1, ih, '"');
        proof {
            assert(w.skip(1) =~= chars@.subrange(ws as int + 1, ih as int));
            lemma_first_idx_is(w.skip(1), '"', q - (ws + 1));
        }
        if q == ih {
            return None;
        }
        let v = TomlValue::Str(ts.substring_char(ws + 1, q).to_owned());
        proof {
            assert(w.subrange(1, q - ws as int) =~= chars@.subrange(ws as int + 1, q as int));
            assert(w.skip(q - ws as int + 1) =~= chars@.subrange(q as int + 1, ih as int));
        }
        return Some((v, q + 1));
    }
    if ih - ws >= 4 && crate::text::string_eq(ts.substring_char(ws, ws + 4), "true") {
        proof {
            reveal_strlit("true");
            assert(w.subrange(0, 4) =~= chars@.subrange(ws as int, ws as int + 4));
            assert(crate::text::is_prefix_of("true"@, w));
            assert(w.skip(4) =~= chars@.subrange(ws as int + 4, ih as int));
        }
        return Some((TomlValue::Bool(true), ws + 4));
    }
    if ih - ws >= 5 && crate::text::string_eq(ts.substring_char(ws, ws + 5), "false") {
        proof {
            reveal_strlit("true");
            reveal_strlit("false");
            assert(w.subrange(0, 5) =~= chars@.subrange(ws as int, ws as int + 5));
            assert(crate::text::is_prefix_of("false"@, w));
            assert(!crate::text::is_prefix_of("true"@, w)) by {
                if crate::text::is_prefix_of("true"@, w) {
                    assert(w[0] == 't' && w[0] == 'f');
                }
            }
            assert(w.skip(5) =~= chars@.subrange(ws as int + 5, ih as int));
        }
        return Some((TomlValue::Bool(false), ws + 5));
    }
    proof {
        reveal_strlit("true");
        reveal_strlit("false");
        if crate::text::is_prefix_of("true"@, w) {
            assert(w.subrange(0, 4) =~= chars@.subrange(ws as int, ws as int + 4));
        }
        if crate::text::is_prefix_of("false"@, w) {
            assert(w.subrange(0, 5) =~= chars@.subrange(ws as int, ws as int + 5));
        }
    }
    None
}

/// Parses the pairs of a non-empty inline table body standing at `[p, ih)`.
#[verifier::rlimit(100)]
fn parse_pairs_exec(ts: &str, chars: &Vec<char>, p: usize, ih: usize) -> (r: Option<
    Vec<(String, TomlValue)>,
>)
    requires
        chars@ == ts@,
        p <= ih <= chars@.len(),
    ensures
        ({
            let cur = chars@.subrange(p as int, ih as int);
            match r {
                Some(ps) => parse_pairs_ne(cur) == Some(pair_views(ps@)),
                None => parse_pairs_ne(cur) is None,
            }
        }),
    decreases ih - p,
{
    let ghost cur = chars@.subrange(p as int, ih as int);
    let e = scan_to(chars, p, ih, '=');
    proof {
        lemma_first_idx_is(cur, '=', e - p);
    }
    if e == ih {
        return None;
    }
    let mut ke: usize = e;
    while ke > p && (chars[ke - 1] == ' ' || chars[ke - 1] == '\t' || chars[ke - 1] == '\r')
        invariant
            p <= ke <= e <= ih <= chars@.len(),
            forall|j: int| ke <= j < e ==> is_space(chars@[j]),
        decreases ke,
    {
        ke -= 1;
    }
    proof {
        let kt = cur.take(e - p as int);
        assert(kt =~= chars@.subrange(p as int, e as int));
        assert(forall|j: int| ke - p <= j < kt.len() ==> is_space(kt[j]));
        if ke > p {
            assert(!is_space(kt[ke - p - 1]));
        }
        lemma_trim_end_is(kt, ke - p as int);
        assert(kt.take(ke - p as int) =~= chars@.subrange(p as int, ke as int));
    }
    if ke == p {
        return None;
    }
    let key = ts.substring_char(p, ke).to_owned();
    let ws = skip_ws(chars, e + 1, ih);
    proof {
        assert(cur.skip(e - p as int + 1) =~= chars@.subrange(e as int + 1, ih as int));
        lemma_trim_start_is(cur.skip(e - p as int + 1), ws - (e + 1));
        assert(cur.skip(e - p as int + 1).skip(ws - (e + 1) as int) =~= chars@.subrange(
            ws as int,
            ih as int,
        ));
    }
    let ghost w = trim_start(cur.skip(e - p as int + 1));
    proof {
        assert(w == chars@.subrange(ws as int, ih as int));
    }
    let (v, rem) = match parse_scalar_exec(ts, chars, ws, ih) {
        Some(vr) => vr,
        None => {
            return None;
        },
    };
    let ghost vv = value_view(v);
    let ghost spec_rem = chars@.subrange(rem as int, ih as int);
    let r2 = skip_ws(chars, rem, ih);
    proof {
        lemma_trim_start_is(spec_rem, r2 - rem);
        assert(spec_rem.skip(r2 - rem as int) =~= chars@.subrange(r2 as int, ih as int));
    }
    let ghost rest = trim_start(spec_rem);
    if r2 == ih {
        let mut out: Vec<(String, TomlValue)> = Vec::new();
        let ghost kk = key@;
        out.push((key, v));
        proof {
            assert(pair_views(out@) =~= seq![(kk, vv)]);
        }
        return Some(out);
    }
    if chars[r2] != ',' {
        return None;
    }
    let p2 = skip_ws(chars, r2 + 1, ih);
    proof {
        assert(rest.drop_first() =~= chars@.subrange(r2 as int + 1, ih as int));
        lemma_trim_start_is(rest.drop_first(), p2 - (r2 + 1));
        assert(rest.drop_first().skip(p2 - (r2 + 1) as int) =~= chars@.subrange(
            p2 as int,
            ih as int,
        ));
    }
    match parse_pairs_exec(ts, chars, p2, ih) {
        Some(mut ps) => {
            let ghost kk = key@;
            ps.insert(0, (key, v));
            proof {
                assert(pair_views(ps@) =~= seq![(kk, vv)] + pair_views(ps@.drop_first()));
            }
            Some(ps)
        },
        None => None,
    }
}

/// Trims the line and removes any comment: everything from the first `#`
/// standing outside quotes.
fn strip_line(l: &str) -> (r: String)
    ensures
        r@ == strip_comment(trim(l@)),
{
    let t = trim_exec(l);
    let ts = t.as_str();
    let chars = str_to_chars(ts);
    let n = chars.len();
    let ghost tv0 = trim(l@);
    let mut h: usize = 0;
    let mut inq = false;
    proof {
        reveal(first_hash_outside);
        assert(tv0.skip(0) =~= tv0);
    }
    while h < n && (inq || chars[h] != '#')
        invariant
            n == chars@.len(),
            chars@ == tv0,
            h <= n,
            first_hash_outside(tv0, false) == h + first_hash_outside(tv0.skip(h as int), inq),
        decreases n - h,
    {
        proof {
            reveal(first_hash_outside);
            assert(tv0.skip(h as int)[0] == tv0[h as int]);
            assert(tv0.skip(h as int).drop_first() =~= tv0.skip(h as int + 1));
        }
        if chars[h] == '"' {
            inq = !inq;
        }
        h += 1;
    }
    proof {
        reveal(first_hash_outside);
        if h == n {
            assert(tv0.skip(n as int) =~= Seq::<char>::empty());
        }
        assert(first_hash_outside(tv0, false) == h);
    }
    let mut m: usize = h;
    while m > 0 && (chars[m - 1] == ' ' || chars[m - 1] == '\t' || chars[m - 1] == '\r')
        invariant
            m <= h <= n == chars@.len(),
            chars@ == tv0,
            forall|j: int| m <= j < h ==> is_space(tv0[j]),
        decreases m,
    {
        m -= 1;
    }
    proof {
        let cut = tv0.take(h as int);
        assert(forall|j: int| m <= j < cut.len() ==> is_space(cut[j]));
        if m > 0 {
            assert(!is_space(cut[m - 1]));
        }
        lemma_trim_end_is(cut, m as int);
        assert(cut.take(m as int) =~= tv0.subrange(0, m as int));
        assert(strip_comment(tv0) == tv0.subrange(0, m as int));
    }
    ts.substring_char(0, m).to_owned()
}

/// Parses one line of the definition file.
pub fn parse_line(l: &str) -> (r: ParsedLine)
    ensures
        line_view(r) == parse_line_spec(l@),
{
    let t2 = strip_line(l);
    let ts = t2.as_str();
    let chars = str_to_chars(ts);
    let n = chars.len();
    let ghost tv = strip_comment(trim(l@));
    proof {
        assert(chars@ == tv);
        assert(tv.len() > 0 ==> tv.last() == tv[tv.len() - 1]);
    }
    if n == 0 {
        return ParsedLine::Blank;
    }
    if chars[0] == '[' {
        if n >= 2 && chars[n - 1] == ']' {
            let name = ts.substring_char(1, n - 1).to_owned();
            proof {
                assert(tv.subrange(1, tv.len() - 1) =~= name@);
            }
            return ParsedLine::Header(name);
        }
        return ParsedLine::Bad;
    }
    let e = scan_to(&chars, 0, n, '=');
    proof {
        lemma_first_idx_is(tv, '=', e as int);
    }
    if e == n {
        return ParsedLine::Bad;
    }
    let mut ke: usize = e;
    while ke > 0 && (chars[ke - 1] == ' ' || chars[ke - 1] == '\t' || chars[ke - 1] == '\r')
        invariant
            ke <= e <= n == chars@.len(),
            forall|j: int| ke <= j < e ==> is_space(chars@[j]),
        decreases ke,
    {
        ke -= 1;
    }
    proof {
        let kt = tv.take(e as int);
        assert(forall|j: int| ke <= j < kt.len() ==> is_space(kt[j]));
        if ke > 0 {
            assert(!is_space(kt[ke - 1]));
        }
        lemma_trim_end_is(kt, ke as int);
        assert(kt.take(ke as int) =~= tv.subrange(0, ke as int));
    }
    if ke == 0 {
        return ParsedLine::Bad;
    }
    let key = ts.substring_char(0, ke).to_owned();
    let vs = skip_ws(&chars, e + 1, n);
    proof {
        let vt = tv.skip(e as int + 1);
        assert(vt =~= chars@.subrange(e as int + 1, n as int));
        lemma_trim_start_is(vt, vs - (e + 1));
        assert(vt.skip(vs - (e + 1) as int) =~= chars@.subrange(vs as int, n as int));
    }
    if vs < n && chars[vs] == '{' && n - vs >= 2 && chars[n - 1] == '}' {
        let ghost vtxt = chars@.subrange(vs as int, n as int);
        let ghost inner0 = vtxt.subrange(1, vtxt.len() - 1);
        proof {
            assert(vtxt[0] == '{' && vtxt.last() == '}');
            assert(inner0 =~= chars@.subrange(vs as int + 1, n as int - 1));
        }
        let il = skip_ws(&chars, vs + 1, n - 1);
        proof {
            lemma_trim_start_is(inner0, il - (vs + 1));
            assert(trim_start(inner0) =~= chars@.subrange(il as int, n as int - 1));
        }
        let mut ih: usize = n - 1;
        while ih > il && (chars[ih - 1] == ' ' || chars[ih - 1] == '\t' || chars[ih - 1] == '\r')
            invariant
                il <= ih <= n - 1,
                n <= chars@.len(),
                forall|j: int| ih <= j < n - 1 ==> is_space(chars@[j]),
            decreases ih,
        {
            ih -= 1;
        }
        proof {
            let t1 = trim_start(inner0);
            assert(forall|j: int| ih - il <= j < t1.len() ==> is_space(t1[j]));
            if ih > il {
                assert(!is_space(t1[ih - il - 1]));
            }
            lemma_trim_end_is(t1, ih - il as int);
            assert(t1.take(ih - il as int) =~= chars@.subrange(il as int, ih as int));
        }
        if il == ih {
            let empty: Vec<(String, TomlValue)> = Vec::new();
            proof {
                assert(pair_views(empty@) =~= Seq::<(Seq<char>, ValueV)>::empty());
            }
            return ParsedLine::TabKv(key, empty);
        }
        return match parse_pairs_exec(ts, &chars, il, ih) {
            Some(ps) => ParsedLine::TabKv(key, ps),
            None => ParsedLine::Bad,
        };
    }
    proof {
        let vtxt = chars@.subrange(vs as int, n as int);
        if vtxt.len() >= 2 && vtxt[0] == '{' && vtxt.last() == '}' {
            assert(chars@[vs as int] == '{' && chars@[n - 1] == '}');
        }
    }
    match parse_value_exec(ts, &chars, vs, n) {
        Some(val) => ParsedLine::Kv(key, val),
        None => ParsedLine::Bad,
    }
}

/// The table a line belongs to while reading, set by the latest header.
#[derive(Clone, Copy)]
pub enum Sect {
    SNone,
    SBase,
    SInterval,
    SCrypt,
    SPress,
    SAdvanced,
    SNtfy,
    SGit,
    SOther,
}

/// Which table a header names.
pub open spec fn section_of(name: Seq<char>) -> Sect {
    if name == "base"@ {
        Sect::SBase
    } else if name == "base.interval"@ {
        Sect::SInterval
    } else if name == "crypt"@ {
        Sect::SCrypt
    } else if name == "press"@ {
        Sect::SPress
    } else if name == "advanced"@ {
        Sect::SAdvanced
    } else if name == "ntfy"@ {
        Sect::SNtfy
    } else if name == "git"@ {
        Sect::SGit
    } else {
        Sect::SOther
    }
}

/// The fields collected so far while reading a definition.
pub struct Partial {
    pub title: Option<String>,
    pub path: Option<String>,
    pub timestamp: Option<bool>,
    pub commit_interval: Option<String>,
    pub sync_method: Option<String>,
    pub time_zone: Option<String>,
    pub last_sync_time: Option<String>,
    pub encrypt: Option<bool>,
    pub password: Option<String>,
    pub password_eval: Option<String>,
    pub compression: Option<String>,
    pub exclude: Option<Vec<String>>,
    pub sync_on_startup: Option<bool>,
    pub ntfy_topic: Option<String>,
    pub notification_on_success: Option<bool>,
    pub notification_on_failure: Option<bool>,
    pub remote: Option<String>,
    pub branch: Option<String>,
    pub force_push: Option<bool>,
}

#[verifier::ext_equal]
pub struct PartialV {
    pub title: Option<Seq<char>>,
    pub path: Option<Seq<char>>,
    pub timestamp: Option<bool>,
    pub commit_interval: Option<Seq<char>>,
    pub sync_method: Option<Seq<char>>,
    pub time_zone: Option<Seq<char>>,
    pub last_sync_time: Option<Seq<char>>,
    pub encrypt: Option<bool>,
    pub password: Option<Seq<char>>,
    pub password_eval: Option<Seq<char>>,
    pub compression: Option<Seq<char>>,
    pub exclude: Option<Seq<Seq<char>>>,
    pub sync_on_startup: Option<bool>,
    pub ntfy_topic: Option<Seq<char>>,
    pub notification_on_success: Option<bool>,
    pub notification_on_failure: Option<bool>,
    pub remote: Option<Seq<char>>,
    pub branch: Option<Seq<char>>,
    pub force_push: Option<bool>,
}

impl View for Partial {
    type V = PartialV;

    open spec fn view(&self) -> PartialV {
        PartialV {
            title: crate::routine::view_opt(self.title),
            path: crate::routine::view_opt(self.path),
            timestamp: self.timestamp,
            commit_interval: crate::routine::view_opt(self.commit_interval),
            sync_method: crate::routine::view_opt(self.sync_method),
            time_zone: crate::routine::view_opt(self.time_zone),
            last_sync_time: crate::routine::view_opt(self.last_sync_time),
            encrypt: self.encrypt,
            password: crate::routine::view_opt(self.password),
            password_eval: crate::routine::view_opt(self.password_eval),
            compression: crate::routine::view_opt(self.compression),
            exclude: match self.exclude {
                Some(v) => Some(v@.map_values(|x: String| x@)),
                None => None,
            },
            sync_on_startup: self.sync_on_startup,
            ntfy_topic: crate::routine::view_opt(self.ntfy_topic),
            notification_on_success: self.notification_on_success,
            notification_on_failure: self.notification_on_failure,
            remote: crate::routine::view_opt(self.remote),
            branch: crate::routine::view_opt(self.branch),
            force_push: self.force_push,
        }
    }
}

/// No field collected yet.
pub open spec fn empty_partial() -> PartialV {
    PartialV {
        title: None,
        path: None,
        timestamp: None,
        commit_interval: None,
        sync_method: None,
        time_zone: None,
        last_sync_time: None,
        encrypt: None,
        password: None,
        password_eval: None,
        compression: None,
        exclude: None,
        sync_on_startup: None,
        ntfy_topic: None,
        notification_on_success: None,
        notification_on_failure: None,
        remote: None,
        branch: None,
        force_push: None,
    }
}

/// What one `key = value` pair does to the collected fields: a known key of
/// the current table must carry a value of the declared type, or the read
/// fails naming the field; keys of unknown tables and unknown keys are
/// ignored.
pub open spec fn apply_kv(p: PartialV, sect: Sect, key: Seq<char>, v: ValueV) -> Result<
    PartialV,
    Seq<char>,
> {
    match sect {
        Sect::SBase => {
            if key == "title"@ {
                match v {
                    ValueV::VStr(s) => Ok(PartialV { title: Some(s), ..p }),
                    _ => Err("base.title"@),
                }
            } else if key == "path"@ {
                match v {
                    ValueV::VStr(s) => Ok(PartialV { path: Some(s), ..p }),
                    _ => Err("base.path"@),
                }
            } else {
                Ok(p)
            }
        },
        Sect::SInterval => {
            if key == "timestamp"@ {
                match v {
                    ValueV::VBool(b) => Ok(PartialV { timestamp: Some(b), ..p }),
                    _ => Err("base.interval.timestamp"@),
                }
            } else if key == "commit_interval"@ {
                match v {
                    ValueV::VStr(s) => Ok(PartialV { commit_interval: Some(s), ..p }),
                    _ => Err("base.interval.commit_interval"@),
                }
            } else if key == "sync_method"@ {
                match v {
                    ValueV::VStr(s) => Ok(PartialV { sync_method: Some(s), ..p }),
                    _ => Err("base.interval.sync_method"@),
                }
            } else if key == "time_zone"@ {
                match v {
                    ValueV::VStr(s) => Ok(PartialV { time_zone: Some(s), ..p }),
                    _ => Err("base.interval.time_zone"@),
                }
            } else if key == "last_sync_time"@ {
                match v {
                    ValueV::VStr(s) => Ok(PartialV { last_sync_time: Some(s), ..p }),
                    _ => Err("base.interval.last_sync_time"@),
                }
            } else {
                Ok(p)
            }
        },
        Sect::SCrypt => {
            if key == "encrypt"@ {
                match v {
                    ValueV::VBool(b) => Ok(PartialV { encrypt: Some(b), ..p }),
                    _ => Err("crypt.encrypt"@),
                }
            } else if key == "password"@ {
                match v {
                    ValueV::VStr(s) => Ok(PartialV { password: Some(s), ..p }),
                    _ => Err("crypt.password"@),
                }
            } else if key == "password_eval"@ {
                match v {
                    ValueV::VStr(s) => Ok(PartialV { password_eval: Some(s), ..p }),
                    _ => Err("crypt.password_eval"@),
                }
            } else {
                Ok(p)
            }
        },
        Sect::SPress => {
            if key == "compression"@ {
                match v {
                    ValueV::VStr(s) => Ok(PartialV { compression: Some(s), ..p }),
                    _ => Err("press.compression"@),
                }
            } else {
                Ok(p)
            }
        },
        Sect::SAdvanced => {
            if key == "exclude"@ {
                match v {
                    ValueV::VArr(es) => Ok(PartialV { exclude: Some(es), ..p }),
                    _ => Err("advanced.exclude"@),
                }
            } else if key == "sync_on_startup"@ {
                match v {
                    ValueV::VBool(b) => Ok(PartialV { sync_on_startup: Some(b), ..p }),
                    _ => Err("advanced.sync_on_startup"@),
                }
            } else {
                Ok(p)
            }
        },
        Sect::SNtfy => {
            if key == "ntfy_topic"@ {
                match v {
                    ValueV::VStr(s) => Ok(PartialV { ntfy_topic: Some(s), ..p }),
                    _ => Err("ntfy.ntfy_topic"@),
                }
            } else if key == "notification_on_success"@ {
                match v {
                    ValueV::VBool(b) => Ok(PartialV { notification_on_success: Some(b), ..p }),
                    _ => Err("ntfy.notification_on_success"@),
                }
            } else if key == "notification_on_failure"@ {
                match v {
                    ValueV::VBool(b) => Ok(PartialV { notification_on_failure: Some(b), ..p }),
                    _ => Err("ntfy.notification_on_failure"@),
                }
            } else {
                Ok(p)
            }
        },
        Sect::SGit => {
            if key == "remote"@ {
                match v {
                    ValueV::VStr(s) => Ok(PartialV { remote: Some(s), ..p }),
                    _ => Err("git.remote"@),
                }
            } else if key == "branch"@ {
                match v {
                    ValueV::VStr(s) => Ok(PartialV { branch: Some(s), ..p }),
                    _ => Err("git.branch"@),
                }
            } else if key == "force_push"@ {
                match v {
                    ValueV::VBool(b) => Ok(PartialV { force_push: Some(b), ..p }),
                    _ => Err("git.force_push"@),
                }
            } else {
                Ok(p)
            }
        },
        _ => Ok(p),
    }
}

/// Which table an inline table under `key` fills: a known top-level table
/// before any header, the interval table inside the base table, and an
/// ignored one anywhere else.
pub open spec fn table_section(sect: Sect, key: Seq<char>) -> Sect {
    if sect is SNone {
        section_of(key)
    } else if sect is SBase && key == "interval"@ {
        Sect::SInterval
    } else {
        Sect::SOther
    }
}

/// Applies an inline table's pairs in order.
pub open spec fn apply_pairs(
    p: PartialV,
    sect: Sect,
    ps: Seq<(Seq<char>, ValueV)>,
) -> Result<PartialV, Seq<char>>
    decreases ps.len(),
{
    if ps.len() == 0 {
        Ok(p)
    } else {
        match apply_kv(p, sect, ps[0].0, ps[0].1) {
            Ok(p2) => apply_pairs(p2, sect, ps.drop_first()),
            Err(e) => Err(e),
        }
    }
}

/// Runs the lines through the collector, front to back.
pub open spec fn run2(toks: Seq<LineTok>, sect: Sect, p: PartialV) -> Result<
    (Sect, PartialV),
    Seq<char>,
>
    decreases toks.len(),
{
    if toks.len() == 0 {
        Ok((sect, p))
    } else {
        match toks[0] {
            LineTok::Blank => run2(toks.drop_first(), sect, p),
            LineTok::Header(h) => run2(toks.drop_first(), section_of(h), p),
            LineTok::Kv(k, v) => match apply_kv(p, sect, k, v) {
                Ok(p2) => run2(toks.drop_first(), sect, p2),
                Err(e) => Err(e),
            },
            LineTok::TabKv(k, ps) => match apply_pairs(p, table_section(sect, k), ps) {
                Ok(p2) => run2(toks.drop_first(), sect, p2),
                Err(e) => Err(e),
            },
            LineTok::Bad => Err("syntax"@),
        }
    }
}

/// Builds the routine from the collected fields, failing on the first
/// required field that is missing.
pub open spec fn assemble(p: PartialV) -> Result<crate::routine::RoutineV, Seq<char>> {
    if p.title is None {
        Err("base.title"@)
    } else if p.path is None {
        Err("base.path"@)
    } else if p.timestamp is None {
        Err("base.interval.timestamp"@)
    } else if p.commit_interval is None {
        Err("base.interval.commit_interval"@)
    } else if p.sync_method is None {
        Err("base.interval.sync_method"@)
    } else if p.time_zone is None {
        Err("base.interval.time_zone"@)
    } else if p.encrypt is None {
        Err("crypt.encrypt"@)
    } else if p.compression is None {
        Err("press.compression"@)
    } else if p.exclude is None {
        Err("advanced.exclude"@)
    } else if p.sync_on_startup is None {
        Err("advanced.sync_on_startup"@)
    } else if p.ntfy_topic is None {
        Err("ntfy.ntfy_topic"@)
    } else if p.notification_on_success is None {
        Err("ntfy.notification_on_success"@)
    } else if p.notification_on_failure is None {
        Err("ntfy.notification_on_failure"@)
    } else if p.remote is None {
        Err("git.remote"@)
    } else if p.branch is None {
        Err("git.branch"@)
    } else if p.force_push is None {
        Err("git.force_push"@)
    } else {
        Ok(
            crate::routine::RoutineV {
                base: crate::routine::BaseV {
                    title: p.title->0,
                    path: p.path->0,
                    interval: crate::routine::BaseIntervalV {
                        timestamp: p.timestamp->0,
                        commit_interval: p.commit_interval->0,
                        sync_method: p.sync_method->0,
                        time_zone: p.time_zone->0,
                        last_sync_time: p.last_sync_time,
                    },
                },
                crypt: crate::routine::EncryptV {
                    encrypt: p.encrypt->0,
                    password: p.password,
                    password_eval: p.password_eval,
                },
                press: crate::routine::CompressV { compression: p.compression->0 },
                advanced: crate::routine::AdvancedV {
                    exclude: p.exclude->0,
                    sync_on_startup: p.sync_on_startup->0,
                },
                ntfy: crate::routine::NtfyV {
                    ntfy_topic: p.ntfy_topic->0,
                    notification_on_success: p.notification_on_success->0,
                    notification_on_failure: p.notification_on_failure->0,
                },
                git: crate::routine::GitV {
                    remote: p.remote->0,
                    branch: p.branch->0,
                    force_push: p.force_push->0,
                },
            },
        )
    }
}

/// The meaning of each line in turn.
pub open spec fn toks_of(lines: Seq<Seq<char>>) -> Seq<LineTok> {
    lines.map_values(|l: Seq<char>| parse_line_spec(l))
}

/// What reading a definition text yields: the routine, or the name of the
/// field (or the word `syntax`) on which the read fails.
pub open spec fn read_spec(text: Seq<char>) -> Result<crate::routine::RoutineV, Seq<char>> {
    match run2(toks_of(split_lines(text)), Sect::SNone, empty_partial()) {
        Ok(sp) => assemble(sp.1),
        Err(e) => Err(e),
    }
}

impl Partial {
    /// Starts a read with no field collected.
    pub fn new() -> (r: Partial)
        ensures
            r@ == empty_partial(),
    {
        Partial {
            title: None,
            path: None,
            timestamp: None,
            commit_interval: None,
            sync_method: None,
            time_zone: None,
            last_sync_time: None,
            encrypt: None,
            password: None,
            password_eval: None,
            compression: None,
            exclude: None,
            sync_on_startup: None,
            ntfy_topic: None,
            notification_on_success: None,
            notification_on_failure: None,
            remote: None,
            branch: None,
            force_push: None,
        }
    }
}

/// Which table a header names.
fn section_of_exec(name: &str) -> (s: Sect)
    ensures
        s == section_of(name@),
{
    if crate::text::string_eq(name, "base") {
        Sect::SBase
    } else if crate::text::string_eq(name, "base.interval") {
        Sect::SInterval
    } else if crate::text::string_eq(name, "crypt") {
        Sect::SCrypt
    } else if crate::text::string_eq(name, "press") {
        Sect::SPress
    } else if crate::text::string_eq(name, "advanced") {
        Sect::SAdvanced
    } else if crate::text::string_eq(name, "ntfy") {
        Sect::SNtfy
    } else if crate::text::string_eq(name, "git") {
        Sect::SGit
    } else {
        Sect::SOther
    }
}

/// Which table an inline table under `key` fills.
fn table_section_exec(sect: Sect, key: &str) -> (s: Sect)
    ensures
        s == table_section(sect, key@),
{
    match sect {
        Sect::SNone => section_of_exec(key),
        Sect::SBase => {
            if crate::text::string_eq(key, "interval") {
                Sect::SInterval
            } else {
                Sect::SOther
            }
        },
        _ => Sect::SOther,
    }
}

/// Applies one `key = value` pair to the collected fields.
fn apply_kv_exec(p: Partial, sect: Sect, key: &str, v: TomlValue) -> (r: Result<Partial, String>)
    ensures
        match r {
            Ok(p2) => apply_kv(p@, sect, key@, value_view(v)) == Ok::<PartialV, Seq<char>>(p2@),
            Err(m) => apply_kv(p@, sect, key@, value_view(v)) == Err::<PartialV, Seq<char>>(m@),
        },
{
    match sect {
        Sect::SBase => {
            if crate::text::string_eq(key, "title") {
                match v {
                    TomlValue::Str(s) => Ok(Partial { title: Some(s), ..p }),
                    _ => Err("base.title".to_owned()),
                }
            } else if crate::text::string_eq(key, "path") {
                match v {
                    TomlValue::Str(s) => Ok(Partial { path: Some(s), ..p }),
                    _ => Err("base.path".to_owned()),
                }
            } else {
                Ok(p)
            }
        },
        Sect::SInterval => {
            if crate::text::string_eq(key, "timestamp") {
                match v {
                    TomlValue::Bool(b) => Ok(Partial { timestamp: Some(b), ..p }),
                    _ => Err("base.interval.timestamp".to_owned()),
                }
            } else if crate::text::string_eq(key, "commit_interval") {
                match v {
                    TomlValue::Str(s) => Ok(Partial { commit_interval: Some(s), ..p }),
                    _ => Err("base.interval.commit_interval".to_owned()),
                }
            } else if crate::text::string_eq(key, "sync_method") {
                match v {
                    TomlValue::Str(s) => Ok(Partial { sync_method: Some(s), ..p }),
                    _ => Err("base.interval.sync_method".to_owned()),
                }
            } else if crate::text::string_eq(key, "time_zone") {
                match v {
                    TomlValue::Str(s) => Ok(Partial { time_zone: Some(s), ..p }),
                    _ => Err("base.interval.time_zone".to_owned()),
                }
            } else if crate::text::string_eq(key, "last_sync_time") {
                match v {
                    TomlValue::Str(s) => Ok(Partial { last_sync_time: Some(s), ..p }),
                    _ => Err("base.interval.last_sync_time".to_owned()),
                }
            } else {
                Ok(p)
            }
        },
        Sect::SCrypt => {
            if crate::text::string_eq(key, "encrypt") {
                match v {
                    TomlValue::Bool(b) => Ok(Partial { encrypt: Some(b), ..p }),
                    _ => Err("crypt.encrypt".to_owned()),
                }
            } else if crate::text::string_eq(key, "password") {
                match v {
                    TomlValue::Str(s) => Ok(Partial { password: Some(s), ..p }),
                    _ => Err("crypt.password".to_owned()),
                }
            } else if crate::text::string_eq(key, "password_eval") {
                match v {
                    TomlValue::Str(s) => Ok(Partial { password_eval: Some(s), ..p }),
                    _ => Err("crypt.password_eval".to_owned()),
                }
            } else {
                Ok(p)
            }
        },
        Sect::SPress => {
            if crate::text::string_eq(key, "compression") {
                match v {
                    TomlValue::Str(s) => Ok(Partial { compression: Some(s), ..p }),
                    _ => Err("press.compression".to_owned()),
                }
            } else {
                Ok(p)
            }
        },
        Sect::SAdvanced => {
            if crate::text::string_eq(key, "exclude") {
                match v {
                    TomlValue::Arr(es) => Ok(Partial { exclude: Some(es), ..p }),
                    _ => Err("advanced.exclude".to_owned()),
                }
            } else if crate::text::string_eq(key, "sync_on_startup") {
                match v {
                    TomlValue::Bool(b) => Ok(Partial { sync_on_startup: Some(b), ..p }),
                    _ => Err("advanced.sync_on_startup".to_owned()),
                }
            } else {
                Ok(p)
            }
        },
        Sect::SNtfy => {
            if crate::text::string_eq(key, "ntfy_topic") {
                match v {
                    TomlValue::Str(s) => Ok(Partial { ntfy_topic: Some(s), ..p }),
                    _ => Err("ntfy.ntfy_topic".to_owned()),
                }
            } else if crate::text::string_eq(key, "notification_on_success") {
                match v {
                    TomlValue::Bool(b) => Ok(Partial { notification_on_success: Some(b), ..p }),
                    _ => Err("ntfy.notification_on_success".to_owned()),
                }
            } else if crate::text::string_eq(key, "notification_on_failure") {
                match v {
                    TomlValue::Bool(b) => Ok(Partial { notification_on_failure: Some(b), ..p }),
                    _ => Err("ntfy.notification_on_failure".to_owned()),
                }
            } else {
                Ok(p)
            }
        },
        Sect::SGit => {
            if crate::text::string_eq(key, "remote") {
                match v {
                    TomlValue::Str(s) => Ok(Partial { remote: Some(s), ..p }),
                    _ => Err("git.remote".to_owned()),
                }
            } else if crate::text::string_eq(key, "branch") {
                match v {
                    TomlValue::Str(s) => Ok(Partial { branch: Some(s), ..p }),
                    _ => Err("git.branch".to_owned()),
                }
            } else if crate::text::string_eq(key, "force_push") {
                match v {
                    TomlValue::Bool(b) => Ok(Partial { force_push: Some(b), ..p }),
                    _ => Err("git.force_push".to_owned()),
                }
            } else {
                Ok(p)
            }
        },
        _ => Ok(p),
    }
}

/// Builds the routine from the collected fields.
fn assemble_exec(p: Partial) -> (r: Result<crate::routine::Routine, crate::errors::ActError>)
    ensures
        match assemble(p@) {
            Ok(v) => r matches Ok(rt) && rt@ == v,
            Err(f) => r matches Err(e) && (e matches crate::errors::ActError::ParseError(m)
                && m@ == f),
        },
{
    let Partial {
        title,
        path,
        timestamp,
        commit_interval,
        sync_method,
        time_zone,
        last_sync_time,
        encrypt,
        password,
        password_eval,
        compression,
        exclude,
        sync_on_startup,
        ntfy_topic,
        notification_on_success,
        notification_on_failure,
        remote,
        branch,
        force_push,
    } = p;
    let title = match title {
        Some(x) => x,
        None => {
            return Err(crate::errors::ActError::ParseError("base.title".to_owned()));
        },
    };
    let path = match path {
        Some(x) => x,
        None => {
            return Err(crate::errors::ActError::ParseError("base.path".to_owned()));
        },
    };
    let timestamp = match timestamp {
        Some(x) => x,
        None => {
            return Err(
                crate::errors::ActError::ParseError("base.interval.timestamp".to_owned()),
            );
        },
    };
    let commit_interval = match commit_interval {
        Some(x) => x,
        None => {
            return Err(
                crate::errors::ActError::ParseError("base.interval.commit_interval".to_owned()),
            );
        },
    };
    let sync_method = match sync_method {
        Some(x) => x,
        None => {
            return Err(
                crate::errors::ActError::ParseError("base.interval.sync_method".to_owned()),
            );
        },
    };
    let time_zone = match time_zone {
        Some(x) => x,
        None => {
            return Err(
                crate::errors::ActError::ParseError("base.interval.time_zone".to_owned()),
            );
        },
    };
    let encrypt = match encrypt {
        Some(x) => x,
        None => {
            return Err(crate::errors::ActError::ParseError("crypt.encrypt".to_owned()));
        },
    };
    let compression = match compression {
        Some(x) => x,
        None => {
            return Err(crate::errors::ActError::ParseError("press.compression".to_owned()));
        },
    };
    let exclude = match exclude {
        Some(x) => x,
        None => {
            return Err(crate::errors::ActError::ParseError("advanced.exclude".to_owned()));
        },
    };
    let sync_on_startup = match sync_on_startup {
        Some(x) => x,
        None => {
            return Err(
                crate::errors::ActError::ParseError("advanced.sync_on_startup".to_owned()),
            );
        },
    };
    let ntfy_topic = match ntfy_topic {
        Some(x) => x,
        None => {
            return Err(crate::errors::ActError::ParseError("ntfy.ntfy_topic".to_owned()));
        },
    };
    let notification_on_success = match notification_on_success {
        Some(x) => x,
        None => {
            return Err(
                crate::errors::ActError::ParseError("ntfy.notification_on_success".to_owned()),
            );
        },
    };
    let notification_on_failure = match notification_on_failure {
        Some(x) => x,
        None => {
            return Err(
                crate::errors::ActError::ParseError("ntfy.notification_on_failure".to_owned()),
            );
        },
    };
    let remote = match remote {
        Some(x) => x,
        None => {
            return Err(crate::errors::ActError::ParseError("git.remote".to_owned()));
        },
    };
    let branch = match branch {
        Some(x) => x,
        None => {
            return Err(crate::errors::ActError::ParseError("git.branch".to_owned()));
        },
    };
    let force_push = match force_push {
        Some(x) => x,
        None => {
            return Err(crate::errors::ActError::ParseError("git.force_push".to_owned()));
        },
    };
    Ok(
        crate::routine::Routine {
            base: crate::routine::Base {
                title,
                path,
                interval: crate::routine::BaseInterval {
                    timestamp,
                    commit_interval,
                    sync_method,
                    time_zone,
                    last_sync_time,
                },
            },
            crypt: crate::routine::Encrypt { encrypt, password, password_eval },
            press: crate::routine::Compress { compression },
            advanced: crate::routine::Advanced { exclude, sync_on_startup },
            ntfy: crate::routine::Ntfy {
                ntfy_topic,
                notification_on_success,
                notification_on_failure,
            },
            git: crate::routine::Git { remote, branch, force_push },
        },
    )
}

impl crate::routine::Routine {
    /// Reads a routine definition from the text of its file.
    ///
    /// On success the routine is exactly what `read_spec` assigns to the
    /// text; on failure the error names the missing or ill-typed field, or
    /// the word `syntax` for a malformed line.
    pub fn read(routine_str: &str) -> (r: Result<
        crate::routine::Routine,
        crate::errors::ActError,
    >)
        ensures
            match read_spec(routine_str@) {
                Ok(v) => r matches Ok(rt) && rt@ == v,
                Err(f) => r matches Err(e) && (e matches crate::errors::ActError::ParseError(m)
                    && m@ == f),
            },
    {
        let lines = split_to_lines(routine_str);
        let ghost toks = toks_of(split_lines(routine_str@));
        let mut p = Partial::new();
        let mut sect = Sect::SNone;
        let mut i: usize = 0;
        let n = lines.len();
        proof {
            assert(toks.skip(0) =~= toks);
        }
        while i < n
            invariant
                n == lines@.len(),
                lines@.map_values(|l: String| l@) == split_lines(routine_str@),
                toks == toks_of(split_lines(routine_str@)),
                i <= n,
                n == toks.len(),
                run2(toks, Sect::SNone, empty_partial()) == run2(toks.skip(i as int), sect, p@),
            decreases n - i,
        {
            let tok = parse_line(lines[i].as_str());
            proof {
                assert(lines@.map_values(|l: String| l@)[i as int] == lines@[i as int]@);
                assert(toks[i as int] == parse_line_spec(lines@[i as int]@));
                assert(toks.skip(i as int)[0] == toks[i as int]);
                assert(toks.skip(i as int).drop_first() =~= toks.skip(i as int + 1));
            }
            match tok {
                ParsedLine::Blank => {
                },
                ParsedLine::Header(h) => {
                    sect = section_of_exec(h.as_str());
                },
                ParsedLine::Kv(k, v) => {
                    match apply_kv_exec(p, sect, k.as_str(), v) {
                        Ok(p2) => {
                            p = p2;
                        },
                        Err(m) => {
                            return Err(crate::errors::ActError::ParseError(m));
                        },
                    }
                },
                ParsedLine::TabKv(k, pairs) => {
                    let sect2 = table_section_exec(sect, k.as_str());
                    let ghost ps0 = pair_views(pairs@);
                    let ghost p_at = p@;
                    let mut pairs = pairs;
                    proof {
                        assert(pair_views(pairs@) =~= ps0);
                        assert(run2(toks.skip(i as int), sect, p_at) == (
                        match apply_pairs(p_at, sect2, ps0) {
                            Ok(p2) => run2(toks.skip(i as int + 1), sect, p2),
                            Err(e) => Err(e),
                        }));
                    }
                    while pairs.len() > 0
                        invariant
                            toks == toks_of(split_lines(routine_str@)),
                            sect2 == table_section(sect, k@),
                            apply_pairs(p_at, sect2, ps0) == apply_pairs(
                                p@,
                                sect2,
                                pair_views(pairs@),
                            ),
                            run2(toks, Sect::SNone, empty_partial()) == (match apply_pairs(
                                p_at,
                                sect2,
                                ps0,
                            ) {
                                Ok(p2) => run2(toks.skip(i as int + 1), sect, p2),
                                Err(e) => Err(e),
                            }),
                        decreases pairs@.len(),
                    {
                        let ghost old_pairs = pairs@;
                        let ghost pv = p@;
                        let pr = pairs.remove(0);
                        proof {
                            assert(pairs@ =~= old_pairs.drop_first());
                            assert(pr == old_pairs[0]);
                            assert(pair_views(old_pairs)[0] == (pr.0@, value_view(pr.1)));
                            assert(pair_views(old_pairs).drop_first() =~= pair_views(pairs@));
                        }
                        match apply_kv_exec(p, sect2, pr.0.as_str(), pr.1) {
                            Ok(p2) => {
                                proof {
                                    assert(apply_pairs(pv, sect2, pair_views(old_pairs))
                                        == apply_pairs(p2@, sect2, pair_views(pairs@)));
                                }
                                p = p2;
                            },
                            Err(m) => {
                                proof {
                                    assert(pair_views(old_pairs).len() == old_pairs.len());
                                    assert(apply_kv(pv, sect2, pair_views(old_pairs)[0].0,
                                        pair_views(old_pairs)[0].1) == Err::<PartialV, Seq<char>>(
                                        m@,
                                    ));
                                    assert(apply_pairs(pv, sect2, pair_views(old_pairs))
                                        == Err::<PartialV, Seq<char>>(m@));
                                    assert(apply_pairs(p_at, sect2, ps0) == Err::<
                                        PartialV,
                                        Seq<char>,
                                    >(m@));
                                    assert(run2(toks, Sect::SNone, empty_partial()) == Err::<
                                        (Sect, PartialV),
                                        Seq<char>,
                                    >(m@));
                                    assert(read_spec(routine_str@) == Err::<
                                        crate::routine::RoutineV,
                                        Seq<char>,
                                    >(m@));
                                }
                                return Err(crate::errors::ActError::ParseError(m));
                            },
                        }
                    }
                    proof {
                        assert(pair_views(pairs@) =~= Seq::<(Seq<char>, ValueV)>::empty());
                        assert(apply_pairs(p_at, sect2, ps0) == Ok::<PartialV, Seq<char>>(p@));
                    }
                },
                ParsedLine::Bad => {
                    return Err(crate::errors::ActError::ParseError("syntax".to_owned()));
                },
            }
            i += 1;
        }
        proof {
            assert(toks.skip(n as int) =~= Seq::<LineTok>::empty());
        }
        assemble_exec(p)
    }
}

/// A `[name]` header line.
pub open spec fn render_header(name: Seq<char>) -> Seq<char> {
    "["@ + name + "]"@
}

/// A `key = "value"` line.
pub open spec fn render_sline(key: Seq<char>, val: Seq<char>) -> Seq<char> {
    key + " = \""@ + val + "\""@
}

/// A `key = true` or `key = false` line.
pub open spec fn render_bline(key: Seq<char>, b: bool) -> Seq<char> {
    key + " = "@ + (if b {
        "true"@
    } else {
        "false"@
    })
}

/// The elements of an array, quoted and comma-separated.
pub open spec fn render_elems(es: Seq<Seq<char>>) -> Seq<char>
    decreases es.len(),
{
    if es.len() == 0 {
        Seq::empty()
    } else if es.len() == 1 {
        "\""@ + es[0] + "\""@
    } else {
        "\""@ + es[0] + "\", "@ + render_elems(es.drop_first())
    }
}

/// A `key = ["a", "b"]` line.
pub open spec fn render_aline(key: Seq<char>, es: Seq<Seq<char>>) -> Seq<char> {
    key + " = ["@ + render_elems(es) + "]"@
}

/// One string line for a present optional field, none for an absent one.
pub open spec fn opt_sline(key: Seq<char>, o: Option<Seq<char>>) -> Seq<Seq<char>> {
    match o {
        Some(s) => seq![render_sline(key, s)],
        None => Seq::empty(),
    }
}

/// The lines a routine serializes to, in their fixed order.
pub open spec fn lines_spec(rv: crate::routine::RoutineV) -> Seq<Seq<char>> {
    seq![
        render_header("base"@),
        render_sline("title"@, rv.base.title),
        render_sline("path"@, rv.base.path),
        render_header("base.interval"@),
        render_bline("timestamp"@, rv.base.interval.timestamp),
        render_sline("commit_interval"@, rv.base.interval.commit_interval),
        render_sline("sync_method"@, rv.base.interval.sync_method),
        render_sline("time_zone"@, rv.base.interval.time_zone),
    ] + opt_sline("last_sync_time"@, rv.base.interval.last_sync_time) + seq![
        render_header("crypt"@),
        render_bline("encrypt"@, rv.crypt.encrypt),
    ] + opt_sline("password"@, rv.crypt.password) + opt_sline(
        "password_eval"@,
        rv.crypt.password_eval,
    ) + seq![
        render_header("press"@),
        render_sline("compression"@, rv.press.compression),
        render_header("advanced"@),
        render_aline("exclude"@, rv.advanced.exclude),
        render_bline("sync_on_startup"@, rv.advanced.sync_on_startup),
        render_header("ntfy"@),
        render_sline("ntfy_topic"@, rv.ntfy.ntfy_topic),
        render_bline("notification_on_success"@, rv.ntfy.notification_on_success),
        render_bline("notification_on_failure"@, rv.ntfy.notification_on_failure),
        render_header("git"@),
        render_sline("remote"@, rv.git.remote),
        render_sline("branch"@, rv.git.branch),
        render_bline("force_push"@, rv.git.force_push),
    ]
}

/// The full serialized text of a routine.
pub open spec fn serialize_spec(rv: crate::routine::RoutineV) -> Seq<char> {
    join_lines(lines_spec(rv))
}

/// The views of the collected lines.
pub open spec fn line_views(v: Seq<String>) -> Seq<Seq<char>> {
    v.map_values(|l: String| l@)
}

fn push_header(out: &mut Vec<String>, name: &str)
    ensures
        line_views(final(out)@) == line_views(old(out)@) + seq![render_header(name@)],
{
    let mut s = "[".to_owned();
    s.append(name);
    s.append("]");
    proof {
        assert(s@ == render_header(name@));
    }
    out.push(s);
    proof {
        assert(line_views(out@) =~= line_views(out@.drop_last()) + seq![render_header(name@)]);
    }
}

fn push_sline(out: &mut Vec<String>, key: &str, val: &str)
    ensures
        line_views(final(out)@) == line_views(old(out)@) + seq![render_sline(key@, val@)],
{
    let mut s = key.to_owned();
    s.append(" = \"");
    s.append(val);
    s.append("\"");
    proof {
        assert(s@ == render_sline(key@, val@));
    }
    out.push(s);
    proof {
        assert(line_views(out@) =~= line_views(out@.drop_last()) + seq![
            render_sline(key@, val@),
        ]);
    }
}

fn push_bline(out: &mut Vec<String>, key: &str, b: bool)
    ensures
        line_views(final(out)@) == line_views(old(out)@) + seq![render_bline(key@, b)],
{
    let mut s = key.to_owned();
    s.append(" = ");
    if b {
        s.append("true");
    } else {
        s.append("false");
    }
    proof {
        assert(s@ == render_bline(key@, b));
    }
    out.push(s);
    proof {
        assert(line_views(out@) =~= line_views(out@.drop_last()) + seq![render_bline(key@, b)]);
    }
}

fn push_opt_sline(out: &mut Vec<String>, key: &str, o: &Option<String>)
    ensures
        line_views(final(out)@) == line_views(old(out)@) + opt_sline(
            key@,
            crate::routine::view_opt(*o),
        ),
{
    match o {
        Some(v) => {
            push_sline(out, key, v.as_str());
        },
        None => {
            proof {
                assert(line_views(out@) =~= line_views(out@) + opt_sline(
                    key@,
                    crate::routine::view_opt(*o),
                ));
            }
        },
    }
}

pub(crate) fn render_elems_exec(es: &Vec<String>) -> (r: String)
    ensures
        r@ == render_elems(es@.map_values(|x: String| x@)),
{
    let ghost esv = es@.map_values(|x: String| x@);
    let mut s = String::new();
    let n = es.len();
    let mut i: usize = 0;
    proof {
        assert(esv.skip(0) =~= esv);
        assert(Seq::<char>::empty() + render_elems(esv) =~= render_elems(esv));
    }
    while i < n
        invariant
            n == es@.len(),
            esv == es@.map_values(|x: String| x@),
            i <= n,
            render_elems(esv) == s@ + render_elems(esv.skip(i as int)),
        decreases n - i,
    {
        proof {
            assert(esv[i as int] == es@[i as int]@);
        }
        s.append("\"");
        s.append(es[i].as_str());
        if i + 1 < n {
            s.append("\", ");
            proof {
                assert(esv.skip(i as int).drop_first() =~= esv.skip(i as int + 1));
                assert(render_elems(esv) =~= s@ + render_elems(esv.skip(i as int + 1)));
            }
        } else {
            s.append("\"");
            proof {
                assert(esv.skip(i as int) =~= seq![esv[i as int]]);
                assert(esv.skip(i as int + 1) =~= Seq::<Seq<char>>::empty());
                assert(render_elems(esv) =~= s@ + render_elems(esv.skip(i as int + 1)));
            }
        }
        i += 1;
    }
    proof {
        assert(esv.skip(n as int) =~= Seq::<Seq<char>>::empty());
        assert(render_elems(esv) =~= s@);
    }
    s
}

fn push_aline(out: &mut Vec<String>, key: &str, es: &Vec<String>)
    ensures
        line_views(final(out)@) == line_views(old(out)@) + seq![
            render_aline(key@, es@.map_values(|x: String| x@)),
        ],
{
    let ghost esv = es@.map_values(|x: String| x@);
    let inner = render_elems_exec(es);
    let mut s = key.to_owned();
    s.append(" = [");
    s.append(inner.as_str());
    s.append("]");
    proof {
        assert(s@ =~= render_aline(key@, esv));
    }
    out.push(s);
    proof {
        assert(line_views(out@) =~= line_views(out@.drop_last()) + seq![
            render_aline(key@, esv),
        ]);
    }
}

/// Joins the lines into a text, one newline after each.
pub(crate) fn join_exec(lines: &Vec<String>) -> (r: String)
    ensures
        r@ == join_lines(line_views(lines@)),
{
    let ghost lv = line_views(lines@);
    let mut r = String::new();
    let n = lines.len();
    let mut i: usize = 0;
    proof {
        assert(lv.skip(0) =~= lv);
    }
    while i < n
        invariant
            n == lines@.len(),
            lv == line_views(lines@),
            i <= n,
            join_lines(lv) == r@ + join_lines(lv.skip(i as int)),
        decreases n - i,
    {
        proof {
            assert(lv.skip(i as int)[0] == lv[i as int]);
            assert(lv.skip(i as int).drop_first() =~= lv.skip(i as int + 1));
            assert(lv[i as int] == lines@[i as int]@);
        }
        r.append(lines[i].as_str());
        r.append("\n");
        proof {
            assert("\n"@ =~= seq!['\n']) by {
                reveal_strlit("\n");
            }
            assert(join_lines(lv) =~= r@ + join_lines(lv.skip(i as int + 1)));
        }
        i += 1;
    }
    proof {
        assert(lv.skip(n as int) =~= Seq::<Seq<char>>::empty());
        assert(r@ =~= join_lines(lv));
    }
    r
}

impl crate::routine::Routine {
    /// Writes the routine back out as definition-file text, in the fixed
    /// canonical order of tables and keys.
    #[verifier::rlimit(100)]
    pub fn serialize(&self) -> (r: String)
        ensures
            r@ == serialize_spec(self@),
    {
        let mut lines: Vec<String> = Vec::new();
        push_header(&mut lines, "base");
        push_sline(&mut lines, "title", self.base.title.as_str());
        push_sline(&mut lines, "path", self.base.path.as_str());
        push_header(&mut lines, "base.interval");
        push_bline(&mut lines, "timestamp", self.base.interval.timestamp);
        push_sline(&mut lines, "commit_interval", self.base.interval.commit_interval.as_str());
        push_sline(&mut lines, "sync_method", self.base.interval.sync_method.as_str());
        push_sline(&mut lines, "time_zone", self.base.interval.time_zone.as_str());
        push_opt_sline(&mut lines, "last_sync_time", &self.base.interval.last_sync_time);
        push_header(&mut lines, "crypt");
        push_bline(&mut lines, "encrypt", self.crypt.encrypt);
        push_opt_sline(&mut lines, "password", &self.crypt.password);
        push_opt_sline(&mut lines, "password_eval", &self.crypt.password_eval);
        push_header(&mut lines, "press");
        push_sline(&mut lines, "compression", self.press.compression.as_str());
        push_header(&mut lines, "advanced");
        push_aline(&mut lines, "exclude", &self.advanced.exclude);
        push_bline(&mut lines, "sync_on_startup", self.advanced.sync_on_startup);
        push_header(&mut lines, "ntfy");
        push_sline(&mut lines, "ntfy_topic", self.ntfy.ntfy_topic.as_str());
        push_bline(&mut lines, "notification_on_success", self.ntfy.notification_on_success);
        push_bline(&mut lines, "notification_on_failure", self.ntfy.notification_on_failure);
        push_header(&mut lines, "git");
        push_sline(&mut lines, "remote", self.git.remote.as_str());
        push_sline(&mut lines, "branch", self.git.branch.as_str());
        push_bline(&mut lines, "force_push", self.git.force_push);
        proof {
            assert(line_views(lines@) =~= lines_spec(self@));
        }
        join_exec(&lines)
    }
}

/// A string that can stand inside quotes on one line: it holds no quote and
/// no newline.
pub open spec fn plain_str(s: Seq<char>) -> bool {
    forall|j: int| 0 <= j < s.len() ==> s[j] != '"' && s[j] != '\n'
}

/// A plain optional string.
pub open spec fn plain_opt(o: Option<Seq<char>>) -> bool {
    match o {
        Some(s) => plain_str(s),
        None => true,
    }
}

/// Plain strings throughout.
pub open spec fn plain_strs(es: Seq<Seq<char>>) -> bool {
    forall|k: int| 0 <= k < es.len() ==> plain_str(#[trigger] es[k])
}

/// A routine whose string fields are all plain; exactly the routines that
/// reading a definition file can yield.
pub open spec fn plain_routine(rv: crate::routine::RoutineV) -> bool {
    &&& plain_str(rv.base.title)
    &&& plain_str(rv.base.path)
    &&& plain_str(rv.base.interval.commit_interval)
    &&& plain_str(rv.base.interval.sync_method)
    &&& plain_str(rv.base.interval.time_zone)
    &&& plain_opt(rv.base.interval.last_sync_time)
    &&& plain_opt(rv.crypt.password)
    &&& plain_opt(rv.crypt.password_eval)
    &&& plain_str(rv.press.compression)
    &&& plain_strs(rv.advanced.exclude)
    &&& plain_str(rv.ntfy.ntfy_topic)
    &&& plain_str(rv.git.remote)
    &&& plain_str(rv.git.branch)
}

/// A key as this format writes one: non-empty, no `=`, no newline, clean at
/// both ends, and not opening a comment or a header.
pub open spec fn key_ok(k: Seq<char>) -> bool {
    &&& k.len() > 0
    &&& k[0] != '['
    &&& !is_space(k[0])
    &&& !is_space(k[k.len() - 1])
    &&& forall|j: int|
        0 <= j < k.len() ==> k[j] != '=' && k[j] != '\n' && k[j] != '"' && k[j] != '#'
}

/// Running a joined token sequence runs the two parts in order.
pub proof fn lemma_run2_append(a: Seq<LineTok>, b: Seq<LineTok>, sect: Sect, p: PartialV)
    ensures
        run2(a + b, sect, p) == (match run2(a, sect, p) {
            Ok(sp) => run2(b, sp.0, sp.1),
            Err(e) => Err(e),
        }),
    decreases a.len(),
{
    if a.len() == 0 {
        assert(a + b =~= b);
    } else {
        assert((a + b)[0] == a[0]);
        assert((a + b).drop_first() =~= a.drop_first() + b);
        match a[0] {
            LineTok::Blank => {
                lemma_run2_append(a.drop_first(), b, sect, p);
            },
            LineTok::Header(h) => {
                lemma_run2_append(a.drop_first(), b, section_of(h), p);
            },
            LineTok::Kv(k, v) => {
                match apply_kv(p, sect, k, v) {
                    Ok(p2) => {
                        lemma_run2_append(a.drop_first(), b, sect, p2);
                    },
                    Err(_) => {
                    },
                }
            },
            LineTok::TabKv(k, ps) => {
                match apply_pairs(p, table_section(sect, k), ps) {
                    Ok(p2) => {
                        lemma_run2_append(a.drop_first(), b, sect, p2);
                    },
                    Err(_) => {
                    },
                }
            },
            LineTok::Bad => {
            },
        }
    }
}

/// A table name as this format writes one: no newline, quote or hash.
pub open spec fn name_ok(s: Seq<char>) -> bool {
    forall|j: int| 0 <= j < s.len() ==> s[j] != '\n' && s[j] != '"' && s[j] != '#'
}

/// A header line reads back as that header.
pub proof fn lemma_parse_header_line(name: Seq<char>)
    requires
        name_ok(name),
    ensures
        parse_line_spec(render_header(name)) == LineTok::Header(name),
        line_clean(render_header(name)),
{
    reveal_strlit("[");
    reveal_strlit("]");
    reveal_strlit("#");
    let t = render_header(name);
    assert(t[0] == '[');
    assert(t.last() == ']');
    lemma_trim_noop(t);
    assert(forall|j: int| 0 <= j < t.len() ==> t[j] != '"' && t[j] != '#');
    lemma_strip_noop_clean(t);
    assert(t.subrange(1, t.len() - 1) =~= name);
}

/// Rendered array elements shed no comment: every hash stands in quotes.
proof fn lemma_fho_elems(es: Seq<Seq<char>>)
    requires
        plain_strs(es),
    ensures
        first_hash_outside(render_elems(es), false) == render_elems(es).len(),
        parity_after(render_elems(es), false) == false,
    decreases es.len(),
{
    reveal(first_hash_outside);
    reveal(parity_after);
    reveal_strlit("\"");
    reveal_strlit("\", ");
    if es.len() == 0 {
        assert(render_elems(es) =~= Seq::<char>::empty());
    } else if es.len() == 1 {
        lemma_fho_quoted_run(es[0]);
        assert(render_elems(es) =~= seq!['"'] + es[0] + seq!['"']);
    } else {
        lemma_fho_elems(es.drop_first());
        let qrun = seq!['"'] + es[0] + seq!['"'];
        lemma_fho_quoted_run(es[0]);
        let sep = seq![',', ' '];
        assert(forall|j: int| 0 <= j < sep.len() ==> sep[j] != '"' && sep[j] != '#');
        lemma_fho_clean(sep);
        lemma_fho_append(qrun, sep, false);
        lemma_fho_append(qrun + sep, render_elems(es.drop_first()), false);
        assert(render_elems(es) =~= (qrun + sep) + render_elems(es.drop_first()));
    }
}

/// A quoted-string line reads back as that key and string.
pub proof fn lemma_parse_sline(key: Seq<char>, val: Seq<char>)
    requires
        key_ok(key),
        plain_str(val),
    ensures
        parse_line_spec(render_sline(key, val)) == LineTok::Kv(key, ValueV::VStr(val)),
        line_clean(render_sline(key, val)),
{
    reveal_strlit(" = \"");
    reveal_strlit("\"");
    reveal_strlit("true");
    reveal_strlit("false");
    let t = render_sline(key, val);
    let kn = key.len() as int;
    assert(t[0] == key[0]);
    assert(t.last() == '"');
    lemma_trim_noop(t);
    let lead = key + seq![' ', '=', ' '];
    assert(forall|j: int| 0 <= j < lead.len() ==> lead[j] != '"' && lead[j] != '#');
    lemma_fho_clean(lead);
    lemma_fho_quoted_run(val);
    lemma_fho_append(lead, seq!['"'] + val + seq!['"'], false);
    assert(t =~= lead + (seq!['"'] + val + seq!['"']));
    assert(first_hash_outside(t, false) == t.len());
    assert(t.take(t.len() as int) =~= t);
    lemma_trim_end_is(t, t.len() as int);
    assert(strip_comment(t) == t);
    assert(t.len() == kn + 4 + val.len() + 1);
    assert forall|j: int| 0 <= j < kn + 1 implies t[j] != '=' by {
        if j < kn {
            assert(t[j] == key[j]);
        } else {
            assert(t[j] == ' ');
        }
    }
    assert(t[kn + 1] == '=');
    lemma_first_idx_is(t, '=', kn + 1);
    let kt = t.take(kn + 1);
    assert(forall|j: int| kn <= j < kt.len() ==> is_space(kt[j]));
    assert(!is_space(kt[kn - 1]));
    lemma_trim_end_is(kt, kn);
    assert(kt.take(kn) =~= key);
    let vt0 = t.skip(kn + 2);
    assert(vt0[0] == ' ');
    assert(vt0[1] == '"');
    lemma_trim_start_is(vt0, 1);
    let v = trim_start(vt0);
    assert(v =~= "\""@ + val + "\""@);
    assert(v[0] == '"');
    assert(v != "true"@);
    assert(v != "false"@);
    assert(v.skip(1) =~= val + "\""@);
    assert forall|j: int| 0 <= j < val.len() implies v.skip(1)[j] != '"' by {
        assert(v.skip(1)[j] == val[j]);
    }
    lemma_first_idx_is(v.skip(1), '"', val.len() as int);
    assert(v.subrange(1, v.len() - 1) =~= val);
    assert(parse_line_spec(t) == LineTok::Kv(key, ValueV::VStr(val)));
}

/// A boolean line reads back as that key and boolean.
pub proof fn lemma_parse_bline(key: Seq<char>, b: bool)
    requires
        key_ok(key),
    ensures
        parse_line_spec(render_bline(key, b)) == LineTok::Kv(key, ValueV::VBool(b)),
        line_clean(render_bline(key, b)),
{
    reveal_strlit(" = ");
    reveal_strlit("true");
    reveal_strlit("false");
    let t = render_bline(key, b);
    let kn = key.len() as int;
    let w = if b {
        "true"@
    } else {
        "false"@
    };
    assert(t[0] == key[0]);
    assert(t.last() == w.last());
    assert(!is_space(t.last()));
    lemma_trim_noop(t);
    assert(forall|j: int| 0 <= j < t.len() ==> t[j] != '"' && t[j] != '#');
    lemma_strip_noop_clean(t);
    assert(t[0] != '[');
    assert forall|j: int| 0 <= j < kn + 1 implies t[j] != '=' by {
        if j < kn {
            assert(t[j] == key[j]);
        } else {
            assert(t[j] == ' ');
        }
    }
    assert(t[kn + 1] == '=');
    lemma_first_idx_is(t, '=', kn + 1);
    let kt = t.take(kn + 1);
    assert(forall|j: int| kn <= j < kt.len() ==> is_space(kt[j]));
    assert(!is_space(kt[kn - 1]));
    lemma_trim_end_is(kt, kn);
    assert(kt.take(kn) =~= key);
    let vt0 = t.skip(kn + 2);
    assert(vt0[0] == ' ');
    assert(!is_space(vt0[1]));
    lemma_trim_start_is(vt0, 1);
    let v = trim_start(vt0);
    assert(v =~= w);
    assert(parse_line_spec(t) == LineTok::Kv(key, ValueV::VBool(b)));
}

/// Rendered array elements read back as those elements.
#[verifier::rlimit(100)]
pub proof fn lemma_parse_render_elems(es: Seq<Seq<char>>)
    requires
        es.len() > 0,
        plain_strs(es),
    ensures
        parse_elems_ne(render_elems(es)) == Some(es),
        render_elems(es).len() >= 2,
        render_elems(es)[0] == '"',
        render_elems(es).last() == '"',
        forall|j: int| 0 <= j < render_elems(es).len() ==> render_elems(es)[j] != '\n',
    decreases es.len(),
{
    reveal_strlit("\"");
    reveal_strlit("\", ");
    let t = render_elems(es);
    let e0 = es[0];
    assert(plain_str(e0));
    if es.len() == 1 {
        assert(t =~= seq!['"'] + e0 + seq!['"']);
        assert(t[0] == '"');
        assert(t.skip(1) =~= e0 + seq!['"']);
        assert forall|j: int| 0 <= j < e0.len() implies t.skip(1)[j] != '"' by {
            assert(t.skip(1)[j] == e0[j]);
        }
        lemma_first_idx_is(t.skip(1), '"', e0.len() as int);
        let q = 1 + e0.len() as int;
        assert(t.subrange(1, q) =~= e0);
        assert(t.skip(q + 1) =~= Seq::<char>::empty());
        assert(trim_start(t.skip(q + 1)) == Seq::<char>::empty());
        assert(parse_elems_ne(t) == Some(seq![e0]));
        assert(seq![e0] =~= es);
    } else {
        lemma_parse_render_elems(es.drop_first());
        let rest_r = render_elems(es.drop_first());
        assert(t =~= seq!['"'] + e0 + seq!['"', ',', ' '] + rest_r);
        assert(t[0] == '"');
        assert(t.skip(1) =~= e0 + seq!['"', ',', ' '] + rest_r);
        assert forall|j: int| 0 <= j < e0.len() implies t.skip(1)[j] != '"' by {
            assert(t.skip(1)[j] == e0[j]);
        }
        assert(t.skip(1)[e0.len() as int] == '"');
        lemma_first_idx_is(t.skip(1), '"', e0.len() as int);
        let q = 1 + e0.len() as int;
        assert(t.subrange(1, q) =~= e0);
        assert(t.skip(q + 1) =~= seq![',', ' '] + rest_r);
        assert(!is_space(t.skip(q + 1)[0]));
        lemma_trim_start_is(t.skip(q + 1), 0);
        let rest = trim_start(t.skip(q + 1));
        assert(rest =~= seq![',', ' '] + rest_r);
        assert(rest[0] == ',');
        assert(rest.drop_first() =~= seq![' '] + rest_r);
        assert(!is_space(rest.drop_first()[1]));
        lemma_trim_start_is(rest.drop_first(), 1);
        assert(trim_start(rest.drop_first()) =~= rest_r);
        assert(parse_elems_ne(t) == Some(seq![e0] + es.drop_first()));
        assert(seq![e0] + es.drop_first() =~= es);
        assert(t.last() == rest_r.last());
    }
}

/// An array line reads back as that key and array.
#[verifier::rlimit(100)]
#[verifier::spinoff_prover]
pub proof fn lemma_parse_aline(key: Seq<char>, es: Seq<Seq<char>>)
    requires
        key_ok(key),
        plain_strs(es),
    ensures
        parse_line_spec(render_aline(key, es)) == LineTok::Kv(key, ValueV::VArr(es)),
        line_clean(render_aline(key, es)),
{
    reveal_strlit(" = [");
    reveal_strlit("]");
    reveal_strlit("true");
    reveal_strlit("false");
    let t = render_aline(key, es);
    let kn = key.len() as int;
    let inner_r = render_elems(es);
    if es.len() > 0 {
        lemma_parse_render_elems(es);
    }
    assert(t[0] == key[0]);
    assert(t.last() == ']');
    lemma_trim_noop(t);
    let lead = key + seq![' ', '=', ' ', '['];
    assert(forall|j: int| 0 <= j < lead.len() ==> lead[j] != '"' && lead[j] != '#');
    lemma_fho_clean(lead);
    lemma_fho_elems(es);
    lemma_fho_append(lead, inner_r, false);
    let shut = seq![']'];
    assert(forall|j: int| 0 <= j < shut.len() ==> shut[j] != '"' && shut[j] != '#');
    lemma_fho_clean(shut);
    lemma_fho_append(lead + inner_r, shut, false);
    assert(t =~= (lead + inner_r) + shut);
    assert(first_hash_outside(t, false) == t.len());
    assert(t.take(t.len() as int) =~= t);
    lemma_trim_end_is(t, t.len() as int);
    assert(strip_comment(t) == t);
    assert forall|j: int| 0 <= j < kn + 1 implies t[j] != '=' by {
        if j < kn {
            assert(t[j] == key[j]);
        } else {
            assert(t[j] == ' ');
        }
    }
    assert(t[kn + 1] == '=');
    lemma_first_idx_is(t, '=', kn + 1);
    let kt = t.take(kn + 1);
    assert(forall|j: int| kn <= j < kt.len() ==> is_space(kt[j]));
    assert(!is_space(kt[kn - 1]));
    lemma_trim_end_is(kt, kn);
    assert(kt.take(kn) =~= key);
    let vt0 = t.skip(kn + 2);
    assert(vt0[0] == ' ');
    assert(vt0[1] == '[');
    lemma_trim_start_is(vt0, 1);
    let v = trim_start(vt0);
    assert(v =~= seq!['['] + inner_r + seq![']']);
    assert(v[0] == '[');
    assert(v != "true"@);
    assert(v != "false"@);
    assert(v.last() == ']');
    assert(v.len() >= 2);
    let inner0 = v.subrange(1, v.len() - 1);
    assert(inner0 =~= inner_r);
    if es.len() == 0 {
        assert(inner_r =~= Seq::<char>::empty());
        lemma_trim_noop(inner0);
        assert(trim(inner0).len() == 0);
        assert(es =~= Seq::<Seq<char>>::empty());
        assert(parse_line_spec(t) == LineTok::Kv(key, ValueV::VArr(es)));
    } else {
        assert(!is_space(inner0[0]));
        assert(!is_space(inner0.last()));
        lemma_trim_noop(inner0);
        assert(trim(inner0) == inner_r);
        assert(parse_elems_ne(inner_r) == Some(es));
        assert(parse_line_spec(t) == LineTok::Kv(key, ValueV::VArr(es)));
    }
}

/// The fixed keys and table names of the format are well-shaped, each table
/// name maps to its own table, and the keys of one table are distinct.
proof fn lemma_format_facts()
    ensures
        key_ok("title"@),
        key_ok("path"@),
        key_ok("timestamp"@),
        key_ok("commit_interval"@),
        key_ok("sync_method"@),
        key_ok("time_zone"@),
        key_ok("last_sync_time"@),
        key_ok("encrypt"@),
        key_ok("password"@),
        key_ok("password_eval"@),
        key_ok("compression"@),
        key_ok("exclude"@),
        key_ok("sync_on_startup"@),
        key_ok("ntfy_topic"@),
        key_ok("notification_on_success"@),
        key_ok("notification_on_failure"@),
        key_ok("remote"@),
        key_ok("branch"@),
        key_ok("force_push"@),
        name_ok("base"@),
        name_ok("base.interval"@),
        name_ok("crypt"@),
        name_ok("press"@),
        name_ok("advanced"@),
        name_ok("ntfy"@),
        name_ok("git"@),
        section_of("base"@) == Sect::SBase,
        section_of("base.interval"@) == Sect::SInterval,
        section_of("crypt"@) == Sect::SCrypt,
        section_of("press"@) == Sect::SPress,
        section_of("advanced"@) == Sect::SAdvanced,
        section_of("ntfy"@) == Sect::SNtfy,
        section_of("git"@) == Sect::SGit,
        "path"@ != "title"@,
        "commit_interval"@ != "timestamp"@,
        "sync_method"@ != "timestamp"@ && "sync_method"@ != "commit_interval"@,
        "time_zone"@ != "timestamp"@ && "time_zone"@ != "commit_interval"@ && "time_zone"@
            != "sync_method"@,
        "last_sync_time"@ != "timestamp"@ && "last_sync_time"@ != "commit_interval"@
            && "last_sync_time"@ != "sync_method"@ && "last_sync_time"@ != "time_zone"@,
        "password"@ != "encrypt"@,
        "password_eval"@ != "encrypt"@ && "password_eval"@ != "password"@,
        "sync_on_startup"@ != "exclude"@,
        "notification_on_success"@ != "ntfy_topic"@,
        "notification_on_failure"@ != "ntfy_topic"@ && "notification_on_failure"@
            != "notification_on_success"@,
        "branch"@ != "remote"@,
        "force_push"@ != "remote"@ && "force_push"@ != "branch"@,
{
    reveal_strlit("title");
    reveal_strlit("path");
    reveal_strlit("timestamp");
    reveal_strlit("commit_interval");
    reveal_strlit("sync_method");
    reveal_strlit("time_zone");
    reveal_strlit("last_sync_time");
    reveal_strlit("encrypt");
    reveal_strlit("password");
    reveal_strlit("password_eval");
    reveal_strlit("compression");
    reveal_strlit("exclude");
    reveal_strlit("sync_on_startup");
    reveal_strlit("ntfy_topic");
    reveal_strlit("notification_on_success");
    reveal_strlit("notification_on_failure");
    reveal_strlit("remote");
    reveal_strlit("branch");
    reveal_strlit("force_push");
    reveal_strlit("base");
    reveal_strlit("base.interval");
    reveal_strlit("crypt");
    reveal_strlit("press");
    reveal_strlit("advanced");
    reveal_strlit("ntfy");
    reveal_strlit("git");
    assert("notification_on_failure"@[16] == 'f' && "notification_on_success"@[16] == 's');
    assert("press"@[0] == 'p' && "crypt"@[0] == 'c');
    assert("time_zone"@[0] == 't' && "timestamp"@[4] == 's' && "time_zone"@[4] == '_');
    assert("ntfy"@[0] == 'n' && "base"@[0] == 'b');
    assert("branch"@[0] == 'b' && "remote"@[0] == 'r');
}

/// One step of the line collector, at position `i`.
proof fn lemma_run2_step(toks: Seq<LineTok>, i: int, sect: Sect, p: PartialV)
    requires
        0 <= i < toks.len(),
    ensures
        run2(toks.skip(i), sect, p) == (match toks[i] {
            LineTok::Blank => run2(toks.skip(i + 1), sect, p),
            LineTok::Header(h) => run2(toks.skip(i + 1), section_of(h), p),
            LineTok::Kv(k, v) => match apply_kv(p, sect, k, v) {
                Ok(p2) => run2(toks.skip(i + 1), sect, p2),
                Err(e) => Err(e),
            },
            LineTok::TabKv(k, ps) => match apply_pairs(p, table_section(sect, k), ps) {
                Ok(p2) => run2(toks.skip(i + 1), sect, p2),
                Err(e) => Err(e),
            },
            LineTok::Bad => Err("syntax"@),
        }),
{
    assert(toks.skip(i)[0] == toks[i]);
    assert(toks.skip(i).drop_first() =~= toks.skip(i + 1));
}

/// A present optional string field's token, or nothing.
pub open spec fn opt_stok(key: Seq<char>, o: Option<Seq<char>>) -> Seq<LineTok> {
    match o {
        Some(v) => seq![LineTok::Kv(key, ValueV::VStr(v))],
        None => Seq::<LineTok>::empty(),
    }
}

/// The tokens a serialized routine's lines carry, in order.
pub open spec fn expected_toks(rv: crate::routine::RoutineV) -> Seq<LineTok> {
    ((((seq![
        LineTok::Header("base"@),
        LineTok::Kv("title"@, ValueV::VStr(rv.base.title)),
        LineTok::Kv("path"@, ValueV::VStr(rv.base.path)),
        LineTok::Header("base.interval"@),
        LineTok::Kv("timestamp"@, ValueV::VBool(rv.base.interval.timestamp)),
        LineTok::Kv("commit_interval"@, ValueV::VStr(rv.base.interval.commit_interval)),
        LineTok::Kv("sync_method"@, ValueV::VStr(rv.base.interval.sync_method)),
        LineTok::Kv("time_zone"@, ValueV::VStr(rv.base.interval.time_zone)),
    ] + opt_stok("last_sync_time"@, rv.base.interval.last_sync_time)) + seq![
        LineTok::Header("crypt"@),
        LineTok::Kv("encrypt"@, ValueV::VBool(rv.crypt.encrypt)),
    ]) + opt_stok("password"@, rv.crypt.password)) + opt_stok(
        "password_eval"@,
        rv.crypt.password_eval,
    )) + seq![
        LineTok::Header("press"@),
        LineTok::Kv("compression"@, ValueV::VStr(rv.press.compression)),
        LineTok::Header("advanced"@),
        LineTok::Kv("exclude"@, ValueV::VArr(rv.advanced.exclude)),
        LineTok::Kv("sync_on_startup"@, ValueV::VBool(rv.advanced.sync_on_startup)),
        LineTok::Header("ntfy"@),
        LineTok::Kv("ntfy_topic"@, ValueV::VStr(rv.ntfy.ntfy_topic)),
        LineTok::Kv("notification_on_success"@, ValueV::VBool(rv.ntfy.notification_on_success)),
        LineTok::Kv("notification_on_failure"@, ValueV::VBool(rv.ntfy.notification_on_failure)),
        LineTok::Header("git"@),
        LineTok::Kv("remote"@, ValueV::VStr(rv.git.remote)),
        LineTok::Kv("branch"@, ValueV::VStr(rv.git.branch)),
        LineTok::Kv("force_push"@, ValueV::VBool(rv.git.force_push)),
    ]
}

/// The collector's state after all of a routine's lines.
pub open spec fn final_partial(rv: crate::routine::RoutineV) -> PartialV {
    PartialV {
        title: Some(rv.base.title),
        path: Some(rv.base.path),
        timestamp: Some(rv.base.interval.timestamp),
        commit_interval: Some(rv.base.interval.commit_interval),
        sync_method: Some(rv.base.interval.sync_method),
        time_zone: Some(rv.base.interval.time_zone),
        last_sync_time: rv.base.interval.last_sync_time,
        encrypt: Some(rv.crypt.encrypt),
        password: rv.crypt.password,
        password_eval: rv.crypt.password_eval,
        compression: Some(rv.press.compression),
        exclude: Some(rv.advanced.exclude),
        sync_on_startup: Some(rv.advanced.sync_on_startup),
        ntfy_topic: Some(rv.ntfy.ntfy_topic),
        notification_on_success: Some(rv.ntfy.notification_on_success),
        notification_on_failure: Some(rv.ntfy.notification_on_failure),
        remote: Some(rv.git.remote),
        branch: Some(rv.git.branch),
        force_push: Some(rv.git.force_push),
    }
}

/// Every line a routine serializes to is clean: none holds a newline.
#[verifier::rlimit(100)]
proof fn lemma_routine_lines(rv: crate::routine::RoutineV)
    requires
        plain_routine(rv),
    ensures
        forall|k: int|
            0 <= k < lines_spec(rv).len() ==> line_clean(#[trigger] lines_spec(rv)[k]),
{
    lemma_format_facts();
    let s1 = seq![
        render_header("base"@),
        render_sline("title"@, rv.base.title),
        render_sline("path"@, rv.base.path),
        render_header("base.interval"@),
        render_bline("timestamp"@, rv.base.interval.timestamp),
        render_sline("commit_interval"@, rv.base.interval.commit_interval),
        render_sline("sync_method"@, rv.base.interval.sync_method),
        render_sline("time_zone"@, rv.base.interval.time_zone),
    ];
    let so1 = opt_sline("last_sync_time"@, rv.base.interval.last_sync_time);
    let s2 = seq![render_header("crypt"@), render_bline("encrypt"@, rv.crypt.encrypt)];
    let so2 = opt_sline("password"@, rv.crypt.password);
    let so3 = opt_sline("password_eval"@, rv.crypt.password_eval);
    let s3 = seq![
        render_header("press"@),
        render_sline("compression"@, rv.press.compression),
        render_header("advanced"@),
        render_aline("exclude"@, rv.advanced.exclude),
        render_bline("sync_on_startup"@, rv.advanced.sync_on_startup),
        render_header("ntfy"@),
        render_sline("ntfy_topic"@, rv.ntfy.ntfy_topic),
        render_bline("notification_on_success"@, rv.ntfy.notification_on_success),
        render_bline("notification_on_failure"@, rv.ntfy.notification_on_failure),
        render_header("git"@),
        render_sline("remote"@, rv.git.remote),
        render_sline("branch"@, rv.git.branch),
        render_bline("force_push"@, rv.git.force_push),
    ];
    let lines = lines_spec(rv);
    assert(lines == ((((s1 + so1) + s2) + so2) + so3) + s3);

    lemma_parse_header_line("base"@);
    lemma_parse_sline("title"@, rv.base.title);
    lemma_parse_sline("path"@, rv.base.path);
    lemma_parse_header_line("base.interval"@);
    lemma_parse_bline("timestamp"@, rv.base.interval.timestamp);
    lemma_parse_sline("commit_interval"@, rv.base.interval.commit_interval);
    lemma_parse_sline("sync_method"@, rv.base.interval.sync_method);
    lemma_parse_sline("time_zone"@, rv.base.interval.time_zone);
    if rv.base.interval.last_sync_time is Some {
        lemma_parse_sline("last_sync_time"@, rv.base.interval.last_sync_time->0);
    }
    lemma_parse_header_line("crypt"@);
    lemma_parse_bline("encrypt"@, rv.crypt.encrypt);
    if rv.crypt.password is Some {
        lemma_parse_sline("password"@, rv.crypt.password->0);
    }
    if rv.crypt.password_eval is Some {
        lemma_parse_sline("password_eval"@, rv.crypt.password_eval->0);
    }
    lemma_parse_header_line("press"@);
    lemma_parse_sline("compression"@, rv.press.compression);
    lemma_parse_header_line("advanced"@);
    lemma_parse_aline("exclude"@, rv.advanced.exclude);
    lemma_parse_bline("sync_on_startup"@, rv.advanced.sync_on_startup);
    lemma_parse_header_line("ntfy"@);
    lemma_parse_sline("ntfy_topic"@, rv.ntfy.ntfy_topic);
    lemma_parse_bline("notification_on_success"@, rv.ntfy.notification_on_success);
    lemma_parse_bline("notification_on_failure"@, rv.ntfy.notification_on_failure);
    lemma_parse_header_line("git"@);
    lemma_parse_sline("remote"@, rv.git.remote);
    lemma_parse_sline("branch"@, rv.git.branch);
    lemma_parse_bline("force_push"@, rv.git.force_push);

    assert forall|k: int| 0 <= k < lines.len() implies line_clean(#[trigger] lines[k]) by {
        let a1 = s1.len() as int;
        let a2 = a1 + so1.len() as int;
        let a3 = a2 + s2.len() as int;
        let a4 = a3 + so2.len() as int;
        let a5 = a4 + so3.len() as int;
        if k < a1 {
            assert(lines[k] == s1[k]);
        } else if k < a2 {
            assert(lines[k] == so1[k - a1]);
        } else if k < a3 {
            assert(lines[k] == s2[k - a2]);
        } else if k < a4 {
            assert(lines[k] == so2[k - a3]);
        } else if k < a5 {
            assert(lines[k] == so3[k - a4]);
        } else {
            assert(lines[k] == s3[k - a5]);
        }
    }
}

/// Reading the lines of two runs in turn reads each run's lines.
proof fn lemma_toks_of_distributes(a: Seq<Seq<char>>, b: Seq<Seq<char>>)
    ensures
        toks_of(a + b) == toks_of(a) + toks_of(b),
{
    assert(toks_of(a + b) =~= toks_of(a) + toks_of(b));
}

/// The tokens of a serialized routine's lines are the expected ones.
#[verifier::rlimit(100)]
proof fn lemma_routine_toks(rv: crate::routine::RoutineV)
    requires
        plain_routine(rv),
    ensures
        toks_of(lines_spec(rv)) == expected_toks(rv),
{
    lemma_format_facts();
    let s1 = seq![
        render_header("base"@),
        render_sline("title"@, rv.base.title),
        render_sline("path"@, rv.base.path),
        render_header("base.interval"@),
        render_bline("timestamp"@, rv.base.interval.timestamp),
        render_sline("commit_interval"@, rv.base.interval.commit_interval),
        render_sline("sync_method"@, rv.base.interval.sync_method),
        render_sline("time_zone"@, rv.base.interval.time_zone),
    ];
    let so1 = opt_sline("last_sync_time"@, rv.base.interval.last_sync_time);
    let s2 = seq![render_header("crypt"@), render_bline("encrypt"@, rv.crypt.encrypt)];
    let so2 = opt_sline("password"@, rv.crypt.password);
    let so3 = opt_sline("password_eval"@, rv.crypt.password_eval);
    let s3 = seq![
        render_header("press"@),
        render_sline("compression"@, rv.press.compression),
        render_header("advanced"@),
        render_aline("exclude"@, rv.advanced.exclude),
        render_bline("sync_on_startup"@, rv.advanced.sync_on_startup),
        render_header("ntfy"@),
        render_sline("ntfy_topic"@, rv.ntfy.ntfy_topic),
        render_bline("notification_on_success"@, rv.ntfy.notification_on_success),
        render_bline("notification_on_failure"@, rv.ntfy.notification_on_failure),
        render_header("git"@),
        render_sline("remote"@, rv.git.remote),
        render_sline("branch"@, rv.git.branch),
        render_bline("force_push"@, rv.git.force_push),
    ];
    let lines = lines_spec(rv);
    assert(lines == ((((s1 + so1) + s2) + so2) + so3) + s3);

    lemma_parse_header_line("base"@);
    lemma_parse_sline("title"@, rv.base.title);
    lemma_parse_sline("path"@, rv.base.path);
    lemma_parse_header_line("base.interval"@);
    lemma_parse_bline("timestamp"@, rv.base.interval.timestamp);
    lemma_parse_sline("commit_interval"@, rv.base.interval.commit_interval);
    lemma_parse_sline("sync_method"@, rv.base.interval.sync_method);
    lemma_parse_sline("time_zone"@, rv.base.interval.time_zone);
    if rv.base.interval.last_sync_time is Some {
        lemma_parse_sline("last_sync_time"@, rv.base.interval.last_sync_time->0);
    }
    lemma_parse_header_line("crypt"@);
    lemma_parse_bline("encrypt"@, rv.crypt.encrypt);
    if rv.crypt.password is Some {
        lemma_parse_sline("password"@, rv.crypt.password->0);
    }
    if rv.crypt.password_eval is Some {
        lemma_parse_sline("password_eval"@, rv.crypt.password_eval->0);
    }
    lemma_parse_header_line("press"@);
    lemma_parse_sline("compression"@, rv.press.compression);
    lemma_parse_header_line("advanced"@);
    lemma_parse_aline("exclude"@, rv.advanced.exclude);
    lemma_parse_bline("sync_on_startup"@, rv.advanced.sync_on_startup);
    lemma_parse_header_line("ntfy"@);
    lemma_parse_sline("ntfy_topic"@, rv.ntfy.ntfy_topic);
    lemma_parse_bline("notification_on_success"@, rv.ntfy.notification_on_success);
    lemma_parse_bline("notification_on_failure"@, rv.ntfy.notification_on_failure);
    lemma_parse_header_line("git"@);
    lemma_parse_sline("remote"@, rv.git.remote);
    lemma_parse_sline("branch"@, rv.git.branch);
    lemma_parse_bline("force_push"@, rv.git.force_push);

    let e1 = seq![
        LineTok::Header("base"@),
        LineTok::Kv("title"@, ValueV::VStr(rv.base.title)),
        LineTok::Kv("path"@, ValueV::VStr(rv.base.path)),
        LineTok::Header("base.interval"@),
        LineTok::Kv("timestamp"@, ValueV::VBool(rv.base.interval.timestamp)),
        LineTok::Kv("commit_interval"@, ValueV::VStr(rv.base.interval.commit_interval)),
        LineTok::Kv("sync_method"@, ValueV::VStr(rv.base.interval.sync_method)),
        LineTok::Kv("time_zone"@, ValueV::VStr(rv.base.interval.time_zone)),
    ];
    let eo1 = match rv.base.interval.last_sync_time {
        Some(v) => seq![LineTok::Kv("last_sync_time"@, ValueV::VStr(v))],
        None => Seq::<LineTok>::empty(),
    };
    let e2 = seq![
        LineTok::Header("crypt"@),
        LineTok::Kv("encrypt"@, ValueV::VBool(rv.crypt.encrypt)),
    ];
    let eo2 = match rv.crypt.password {
        Some(v) => seq![LineTok::Kv("password"@, ValueV::VStr(v))],
        None => Seq::<LineTok>::empty(),
    };
    let eo3 = match rv.crypt.password_eval {
        Some(v) => seq![LineTok::Kv("password_eval"@, ValueV::VStr(v))],
        None => Seq::<LineTok>::empty(),
    };
    let e3 = seq![
        LineTok::Header("press"@),
        LineTok::Kv("compression"@, ValueV::VStr(rv.press.compression)),
        LineTok::Header("advanced"@),
        LineTok::Kv("exclude"@, ValueV::VArr(rv.advanced.exclude)),
        LineTok::Kv("sync_on_startup"@, ValueV::VBool(rv.advanced.sync_on_startup)),
        LineTok::Header("ntfy"@),
        LineTok::Kv("ntfy_topic"@, ValueV::VStr(rv.ntfy.ntfy_topic)),
        LineTok::Kv("notification_on_success"@, ValueV::VBool(rv.ntfy.notification_on_success)),
        LineTok::Kv("notification_on_failure"@, ValueV::VBool(rv.ntfy.notification_on_failure)),
        LineTok::Header("git"@),
        LineTok::Kv("remote"@, ValueV::VStr(rv.git.remote)),
        LineTok::Kv("branch"@, ValueV::VStr(rv.git.branch)),
        LineTok::Kv("force_push"@, ValueV::VBool(rv.git.force_push)),
    ];

    assert(toks_of(s1) =~= e1);
    assert(toks_of(so1) =~= eo1);
    assert(toks_of(s2) =~= e2);
    assert(toks_of(so2) =~= eo2);
    assert(toks_of(so3) =~= eo3);
    assert(toks_of(s3) =~= e3);
    lemma_toks_of_distributes(s1, so1);
    lemma_toks_of_distributes(s1 + so1, s2);
    lemma_toks_of_distributes((s1 + so1) + s2, so2);
    lemma_toks_of_distributes(((s1 + so1) + s2) + so2, so3);
    lemma_toks_of_distributes((((s1 + so1) + s2) + so2) + so3, s3);
    assert(expected_toks(rv) == ((((e1 + eo1) + e2) + eo2) + eo3) + e3);
}

/// Running the expected tokens of a routine collects exactly its fields.
#[verifier::rlimit(100)]
proof fn lemma_run_expected(rv: crate::routine::RoutineV)
    ensures
        run2(expected_toks(rv), Sect::SNone, empty_partial()) == Ok::<
            (Sect, PartialV),
            Seq<char>,
        >((Sect::SGit, final_partial(rv))),
{
    lemma_format_facts();
    let e1 = seq![
        LineTok::Header("base"@),
        LineTok::Kv("title"@, ValueV::VStr(rv.base.title)),
        LineTok::Kv("path"@, ValueV::VStr(rv.base.path)),
        LineTok::Header("base.interval"@),
        LineTok::Kv("timestamp"@, ValueV::VBool(rv.base.interval.timestamp)),
        LineTok::Kv("commit_interval"@, ValueV::VStr(rv.base.interval.commit_interval)),
        LineTok::Kv("sync_method"@, ValueV::VStr(rv.base.interval.sync_method)),
        LineTok::Kv("time_zone"@, ValueV::VStr(rv.base.interval.time_zone)),
    ];
    let eo1 = opt_stok("last_sync_time"@, rv.base.interval.last_sync_time);
    let e2 = seq![
        LineTok::Header("crypt"@),
        LineTok::Kv("encrypt"@, ValueV::VBool(rv.crypt.encrypt)),
    ];
    let eo2 = opt_stok("password"@, rv.crypt.password);
    let eo3 = opt_stok("password_eval"@, rv.crypt.password_eval);
    let e3 = seq![
        LineTok::Header("press"@),
        LineTok::Kv("compression"@, ValueV::VStr(rv.press.compression)),
        LineTok::Header("advanced"@),
        LineTok::Kv("exclude"@, ValueV::VArr(rv.advanced.exclude)),
        LineTok::Kv("sync_on_startup"@, ValueV::VBool(rv.advanced.sync_on_startup)),
        LineTok::Header("ntfy"@),
        LineTok::Kv("ntfy_topic"@, ValueV::VStr(rv.ntfy.ntfy_topic)),
        LineTok::Kv("notification_on_success"@, ValueV::VBool(rv.ntfy.notification_on_success)),
        LineTok::Kv("notification_on_failure"@, ValueV::VBool(rv.ntfy.notification_on_failure)),
        LineTok::Header("git"@),
        LineTok::Kv("remote"@, ValueV::VStr(rv.git.remote)),
        LineTok::Kv("branch"@, ValueV::VStr(rv.git.branch)),
        LineTok::Kv("force_push"@, ValueV::VBool(rv.git.force_push)),
    ];
    assert(expected_toks(rv) == ((((e1 + eo1) + e2) + eo2) + eo3) + e3);

    let p0 = empty_partial();
    let q1 = PartialV { title: Some(rv.base.title), ..p0 };
    let q2 = PartialV { path: Some(rv.base.path), ..q1 };
    let q3 = PartialV { timestamp: Some(rv.base.interval.timestamp), ..q2 };
    let q4 = PartialV { commit_interval: Some(rv.base.interval.commit_interval), ..q3 };
    let q5 = PartialV { sync_method: Some(rv.base.interval.sync_method), ..q4 };
    let q6 = PartialV { time_zone: Some(rv.base.interval.time_zone), ..q5 };
    assert(run2(e1, Sect::SNone, p0) == Ok::<(Sect, PartialV), Seq<char>>((Sect::SInterval, q6)))
        by {
        assert(e1.skip(0) =~= e1);
        lemma_run2_step(e1, 0, Sect::SNone, p0);
        lemma_run2_step(e1, 1, Sect::SBase, p0);
        lemma_run2_step(e1, 2, Sect::SBase, q1);
        lemma_run2_step(e1, 3, Sect::SBase, q2);
        lemma_run2_step(e1, 4, Sect::SInterval, q2);
        lemma_run2_step(e1, 5, Sect::SInterval, q3);
        lemma_run2_step(e1, 6, Sect::SInterval, q4);
        lemma_run2_step(e1, 7, Sect::SInterval, q5);
        assert(e1.skip(8) =~= Seq::<LineTok>::empty());
    }

    let q7 = match rv.base.interval.last_sync_time {
        Some(v) => PartialV { last_sync_time: Some(v), ..q6 },
        None => q6,
    };
    assert(run2(eo1, Sect::SInterval, q6) == Ok::<(Sect, PartialV), Seq<char>>((
        Sect::SInterval,
        q7,
    ))) by {
        if rv.base.interval.last_sync_time is Some {
            assert(eo1.skip(0) =~= eo1);
            lemma_run2_step(eo1, 0, Sect::SInterval, q6);
            assert(eo1.skip(1) =~= Seq::<LineTok>::empty());
        }
    }
    assert(q7.last_sync_time == rv.base.interval.last_sync_time);

    let q8 = PartialV { encrypt: Some(rv.crypt.encrypt), ..q7 };
    assert(run2(e2, Sect::SInterval, q7) == Ok::<(Sect, PartialV), Seq<char>>((Sect::SCrypt, q8)))
        by {
        assert(e2.skip(0) =~= e2);
        lemma_run2_step(e2, 0, Sect::SInterval, q7);
        lemma_run2_step(e2, 1, Sect::SCrypt, q7);
        assert(e2.skip(2) =~= Seq::<LineTok>::empty());
    }

    let q9 = match rv.crypt.password {
        Some(v) => PartialV { password: Some(v), ..q8 },
        None => q8,
    };
    assert(run2(eo2, Sect::SCrypt, q8) == Ok::<(Sect, PartialV), Seq<char>>((Sect::SCrypt, q9)))
        by {
        if rv.crypt.password is Some {
            assert(eo2.skip(0) =~= eo2);
            lemma_run2_step(eo2, 0, Sect::SCrypt, q8);
            assert(eo2.skip(1) =~= Seq::<LineTok>::empty());
        }
    }
    assert(q9.password == rv.crypt.password);

    let q10 = match rv.crypt.password_eval {
        Some(v) => PartialV { password_eval: Some(v), ..q9 },
        None => q9,
    };
    assert(run2(eo3, Sect::SCrypt, q9) == Ok::<(Sect, PartialV), Seq<char>>((Sect::SCrypt, q10)))
        by {
        if rv.crypt.password_eval is Some {
            assert(eo3.skip(0) =~= eo3);
            lemma_run2_step(eo3, 0, Sect::SCrypt, q9);
            assert(eo3.skip(1) =~= Seq::<LineTok>::empty());
        }
    }
    assert(q10.password_eval == rv.crypt.password_eval);

    let q11 = PartialV { compression: Some(rv.press.compression), ..q10 };
    let q12 = PartialV { exclude: Some(rv.advanced.exclude), ..q11 };
    let q13 = PartialV { sync_on_startup: Some(rv.advanced.sync_on_startup), ..q12 };
    let q14 = PartialV { ntfy_topic: Some(rv.ntfy.ntfy_topic), ..q13 };
    let q15 = PartialV {
        notification_on_success: Some(rv.ntfy.notification_on_success),
        ..q14
    };
    let q16 = PartialV {
        notification_on_failure: Some(rv.ntfy.notification_on_failure),
        ..q15
    };
    let q17 = PartialV { remote: Some(rv.git.remote), ..q16 };
    let q18 = PartialV { branch: Some(rv.git.branch), ..q17 };
    let q19 = PartialV { force_push: Some(rv.git.force_push), ..q18 };
    assert(run2(e3, Sect::SCrypt, q10) == Ok::<(Sect, PartialV), Seq<char>>((Sect::SGit, q19)))
        by {
        assert(e3.skip(0) =~= e3);
        lemma_run2_step(e3, 0, Sect::SCrypt, q10);
        lemma_run2_step(e3, 1, Sect::SPress, q10);
        lemma_run2_step(e3, 2, Sect::SPress, q11);
        lemma_run2_step(e3, 3, Sect::SAdvanced, q11);
        lemma_run2_step(e3, 4, Sect::SAdvanced, q12);
        lemma_run2_step(e3, 5, Sect::SAdvanced, q13);
        lemma_run2_step(e3, 6, Sect::SNtfy, q13);
        lemma_run2_step(e3, 7, Sect::SNtfy, q14);
        lemma_run2_step(e3, 8, Sect::SNtfy, q15);
        lemma_run2_step(e3, 9, Sect::SNtfy, q16);
        lemma_run2_step(e3, 10, Sect::SGit, q16);
        lemma_run2_step(e3, 11, Sect::SGit, q17);
        lemma_run2_step(e3, 12, Sect::SGit, q18);
        assert(e3.skip(13) =~= Seq::<LineTok>::empty());
    }

    lemma_run2_append(e1, eo1, Sect::SNone, p0);
    lemma_run2_append(e1 + eo1, e2, Sect::SNone, p0);
    lemma_run2_append((e1 + eo1) + e2, eo2, Sect::SNone, p0);
    lemma_run2_append(((e1 + eo1) + e2) + eo2, eo3, Sect::SNone, p0);
    lemma_run2_append((((e1 + eo1) + e2) + eo2) + eo3, e3, Sect::SNone, p0);
    assert(q19 =~= final_partial(rv));
}

/// Assembling the collected fields of a routine rebuilds that routine.
proof fn lemma_assemble_final(rv: crate::routine::RoutineV)
    ensures
        assemble(final_partial(rv)) == Ok::<crate::routine::RoutineV, Seq<char>>(rv),
{
    let built = assemble(final_partial(rv))->Ok_0;
    assert(built.base.interval =~= rv.base.interval);
    assert(built.base =~= rv.base);
    assert(built.crypt =~= rv.crypt);
    assert(built.press =~= rv.press);
    assert(built.advanced =~= rv.advanced);
    assert(built.ntfy =~= rv.ntfy);
    assert(built.git =~= rv.git);
    assert(built =~= rv);
}

/// Writing a routine out and reading the text back yields that routine:
/// the law behind the read–serialize–read round trip.
///
/// It is stated for routines whose string fields are plain (no quote, no
/// newline): the strings of a definition file are read from between one
/// pair of quotes on a single line, so a routine that came from `read`
/// stays within this bound, and reading, writing, and reading again
/// changes nothing.
pub proof fn lemma_serialize_then_read(rt: crate::routine::Routine)
    requires
        plain_routine(rt@),
    ensures
        read_spec(serialize_spec(rt@)) == Ok::<crate::routine::RoutineV, Seq<char>>(rt@),
{
    let rv = rt@;
    lemma_routine_lines(rv);
    lemma_routine_toks(rv);
    lemma_split_join_lines(lines_spec(rv));
    lemma_run_expected(rv);
    lemma_assemble_final(rv);
}

} // verus!
