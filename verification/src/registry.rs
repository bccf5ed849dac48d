//! The routine registry: the name-to-path index that resolves a routine's
//! logical title to the canonical path of its definition file.
//!
//! Entries live in insertion order with unique titles; an upsert overwrites
//! the entry holding the same title in place. Reconciliation against a fresh
//! scan of the configuration directory is proved idempotent
//! (see `lemma_reconcile_idempotent`).

use vstd::prelude::*;
use vstd::string::StrSliceExecFns;
use vstd::string::StringExecFns;
use crate::codec::{
    split_lines, split_to_lines, trim, trim_end, trim_start, first_idx, join_lines,
    lemma_first_idx_is, scan_to, skip_ws, join_exec,
};
use crate::errors::ActError;

verus! {

/// One registry entry: a routine's title and the path of its definition.
pub struct ListerEntry {
    pub title: String,
    pub path: String,
}

/// The contents of one registry entry.
#[verifier::ext_equal]
pub struct EntryV {
    pub title: Seq<char>,
    pub path: Seq<char>,
}

impl View for ListerEntry {
    type V = EntryV;

    open spec fn view(&self) -> EntryV {
        EntryV { title: self.title@, path: self.path@ }
    }
}

/// The contents of a whole entry list.
pub open spec fn entries_view(v: Seq<ListerEntry>) -> Seq<EntryV> {
    v.map_values(|e: ListerEntry| e@)
}

/// No two entries share a title.
pub open spec fn titles_unique(es: Seq<EntryV>) -> bool {
    forall|i: int, j: int| 0 <= i < j < es.len() ==> es[i].title != es[j].title
}

/// The path registered under a title, if any.
pub open spec fn lookup(es: Seq<EntryV>, t: Seq<char>) -> Option<Seq<char>>
    decreases es.len(),
{
    if es.len() == 0 {
        None
    } else if es[0].title == t {
        Some(es[0].path)
    } else {
        lookup(es.drop_first(), t)
    }
}

/// Registers a path under a title: the entry with that title is replaced in
/// place, or a new entry is appended.
pub open spec fn upsert(es: Seq<EntryV>, t: Seq<char>, p: Seq<char>) -> Seq<EntryV>
    decreases es.len(),
{
    if es.len() == 0 {
        seq![EntryV { title: t, path: p }]
    } else if es[0].title == t {
        seq![EntryV { title: t, path: p }] + es.drop_first()
    } else {
        seq![es[0]] + upsert(es.drop_first(), t, p)
    }
}

/// The entries whose underlying file still exists.
pub open spec fn filter_alive(es: Seq<EntryV>, alive: Seq<bool>) -> Seq<EntryV>
    decreases es.len(),
{
    if es.len() == 0 || alive.len() == 0 {
        Seq::empty()
    } else if alive[0] {
        seq![es[0]] + filter_alive(es.drop_first(), alive.drop_first())
    } else {
        filter_alive(es.drop_first(), alive.drop_first())
    }
}

/// Upserts the scanned entries, front to back.
pub open spec fn upsert_all(es: Seq<EntryV>, adds: Seq<EntryV>) -> Seq<EntryV>
    decreases adds.len(),
{
    if adds.len() == 0 {
        es
    } else {
        upsert_all(upsert(es, adds[0].title, adds[0].path), adds.drop_first())
    }
}

/// What reconciliation produces: the surviving entries, with every scanned
/// entry upserted over them.
pub open spec fn reconcile_spec(
    existing: Seq<EntryV>,
    scanned: Seq<EntryV>,
    alive: Seq<bool>,
) -> Seq<EntryV> {
    upsert_all(filter_alive(existing, alive), scanned)
}

/// Looks a title up in the entries.
fn lookup_exec(es: &Vec<ListerEntry>, t: &str) -> (r: Option<String>)
    ensures
        match r {
            Some(p) => lookup(entries_view(es@), t@) == Some(p@),
            None => lookup(entries_view(es@), t@) is None,
        },
{
    let ghost ev = entries_view(es@);
    let n = es.len();
    let mut i: usize = 0;
    proof {
        assert(ev.skip(0) =~= ev);
    }
    while i < n
        invariant
            n == es@.len(),
            ev == entries_view(es@),
            i <= n,
            lookup(ev, t@) == lookup(ev.skip(i as int), t@),
        decreases n - i,
    {
        proof {
            assert(ev.skip(i as int)[0] == ev[i as int]);
            assert(ev.skip(i as int).drop_first() =~= ev.skip(i as int + 1));
            assert(ev[i as int] == es@[i as int]@);
        }
        if crate::text::string_eq(es[i].title.as_str(), t) {
            return Some(es[i].path.clone());
        }
        i += 1;
    }
    proof {
        assert(ev.skip(n as int) =~= Seq::<EntryV>::empty());
    }
    None
}

/// Upserts one entry into the list.
fn upsert_exec(es: &mut Vec<ListerEntry>, title: String, path: String)
    ensures
        entries_view(final(es)@) == upsert(entries_view(old(es)@), title@, path@),
{
    let ghost ev0 = entries_view(old(es)@);
    let n = es.len();
    let mut i: usize = 0;
    proof {
        assert(ev0.skip(0) =~= ev0);
        assert(ev0.take(0) =~= Seq::<EntryV>::empty());
        assert(ev0.take(0) + upsert(ev0, title@, path@) =~= upsert(ev0, title@, path@));
    }
    while i < n
        invariant
            n == es@.len(),
            ev0 == entries_view(es@),
            ev0 == entries_view(old(es)@),
            i <= n,
            upsert(ev0, title@, path@) == ev0.take(i as int) + upsert(
                ev0.skip(i as int),
                title@,
                path@,
            ),
            forall|j: int| 0 <= j < i ==> ev0[j].title != title@,
        decreases n - i,
    {
        proof {
            assert(ev0.skip(i as int)[0] == ev0[i as int]);
            assert(ev0.skip(i as int).drop_first() =~= ev0.skip(i as int + 1));
            assert(ev0[i as int] == es@[i as int]@);
        }
        if crate::text::string_eq(es[i].title.as_str(), title.as_str()) {
            proof {
                assert(upsert(ev0.skip(i as int), title@, path@) =~= seq![
                    EntryV { title: title@, path: path@ },
                ] + ev0.skip(i as int + 1));
            }
            es.set(i, ListerEntry { title, path });
            proof {
                assert(entries_view(es@) =~= ev0.take(i as int) + (seq![
                    EntryV { title: title@, path: path@ },
                ] + ev0.skip(i as int + 1)));
                assert(ev0 == entries_view(old(es)@));
                assert(entries_view(es@) == upsert(ev0, title@, path@));
            }
            return ;
        }
        proof {
            assert(ev0.take(i as int + 1) =~= ev0.take(i as int) + seq![ev0[i as int]]);
            assert(ev0.take(i as int) + (seq![ev0[i as int]] + upsert(
                ev0.skip(i as int + 1),
                title@,
                path@,
            )) =~= ev0.take(i as int + 1) + upsert(ev0.skip(i as int + 1), title@, path@));
        }
        i += 1;
    }
    proof {
        assert(ev0.skip(n as int) =~= Seq::<EntryV>::empty());
    }
    es.push(ListerEntry { title, path });
    proof {
        assert(ev0.take(n as int) =~= ev0);
        assert(entries_view(es@) =~= ev0 + seq![EntryV { title: title@, path: path@ }]);
        assert(upsert(Seq::<EntryV>::empty(), title@, path@) =~= seq![
            EntryV { title: title@, path: path@ },
        ]);
        assert(ev0 + seq![EntryV { title: title@, path: path@ }] =~= upsert(
            ev0,
            title@,
            path@,
        ));
    }
}

/// Reconciles the registry against a fresh scan: entries whose file no
/// longer exists are pruned, and every scanned entry is upserted so that
/// titles and paths stay current. Entries still alive outside the scanned
/// directory survive.
pub fn reconcile_entries(
    existing: &Vec<ListerEntry>,
    scanned: &Vec<ListerEntry>,
    alive: &Vec<bool>,
) -> (r: Vec<ListerEntry>)
    requires
        alive@.len() == existing@.len(),
    ensures
        entries_view(r@) == reconcile_spec(entries_view(existing@), entries_view(scanned@), alive@),
{
    let ghost ev = entries_view(existing@);
    let ghost sv = entries_view(scanned@);
    let mut kept: Vec<ListerEntry> = Vec::new();
    let n = existing.len();
    let mut i: usize = 0;
    proof {
        assert(ev.skip(0) =~= ev);
        assert(alive@.skip(0) =~= alive@);
        assert(entries_view(kept@) + filter_alive(ev, alive@) =~= filter_alive(ev, alive@));
    }
    while i < n
        invariant
            n == existing@.len(),
            alive@.len() == n,
            ev == entries_view(existing@),
            i <= n,
            filter_alive(ev, alive@) == entries_view(kept@) + filter_alive(
                ev.skip(i as int),
                alive@.skip(i as int),
            ),
        decreases n - i,
    {
        proof {
            assert(ev.skip(i as int)[0] == ev[i as int]);
            assert(ev.skip(i as int).drop_first() =~= ev.skip(i as int + 1));
            assert(alive@.skip(i as int)[0] == alive@[i as int]);
            assert(alive@.skip(i as int).drop_first() =~= alive@.skip(i as int + 1));
            assert(ev[i as int] == existing@[i as int]@);
        }
        if alive[i] {
            kept.push(
                ListerEntry { title: existing[i].title.clone(), path: existing[i].path.clone() },
            );
            proof {
                assert(entries_view(kept@) =~= entries_view(kept@.drop_last()) + seq![
                    ev[i as int],
                ]);
                assert(filter_alive(ev, alive@) =~= entries_view(kept@) + filter_alive(
                    ev.skip(i as int + 1),
                    alive@.skip(i as int + 1),
                ));
            }
        }
        i += 1;
    }
    proof {
        assert(ev.skip(n as int) =~= Seq::<EntryV>::empty());
        assert(filter_alive(ev.skip(n as int), alive@.skip(n as int)) =~= Seq::<EntryV>::empty());
        assert(entries_view(kept@) =~= filter_alive(ev, alive@));
    }
    let m = scanned.len();
    let mut k: usize = 0;
    proof {
        assert(sv.skip(0) =~= sv);
    }
    while k < m
        invariant
            m == scanned@.len(),
            sv == entries_view(scanned@),
            k <= m,
            upsert_all(entries_view(kept@), sv.skip(k as int)) == reconcile_spec(
                ev,
                sv,
                alive@,
            ),
        decreases m - k,
    {
        proof {
            assert(sv.skip(k as int)[0] == sv[k as int]);
            assert(sv.skip(k as int).drop_first() =~= sv.skip(k as int + 1));
            assert(sv[k as int] == scanned@[k as int]@);
        }
        upsert_exec(&mut kept, scanned[k].title.clone(), scanned[k].path.clone());
        k += 1;
    }
    proof {
        assert(sv.skip(m as int) =~= Seq::<EntryV>::empty());
    }
    kept
}

/// What an upsert does to any lookup.
pub proof fn lemma_lookup_upsert(es: Seq<EntryV>, t: Seq<char>, p: Seq<char>, u: Seq<char>)
    ensures
        lookup(upsert(es, t, p), u) == (if u == t {
            Some(p)
        } else {
            lookup(es, u)
        }),
    decreases es.len(),
{
    let r = upsert(es, t, p);
    if es.len() == 0 {
        assert(r == seq![EntryV { title: t, path: p }]);
        assert(r[0].title == t && r[0].path == p);
        assert(r.drop_first() =~= Seq::<EntryV>::empty());
        if u != t {
            assert(lookup(r, u) == lookup(r.drop_first(), u));
        }
    } else if es[0].title == t {
        assert(r == seq![EntryV { title: t, path: p }] + es.drop_first());
        assert(r[0].title == t && r[0].path == p);
        assert(r.drop_first() =~= es.drop_first());
        if u != t {
            assert(lookup(r, u) == lookup(es.drop_first(), u));
            assert(lookup(es, u) == lookup(es.drop_first(), u));
        }
    } else {
        assert(r == seq![es[0]] + upsert(es.drop_first(), t, p));
        assert(r[0] == es[0]);
        assert(r.drop_first() =~= upsert(es.drop_first(), t, p));
        lemma_lookup_upsert(es.drop_first(), t, p, u);
        if r[0].title == u {
            assert(lookup(r, u) == Some(es[0].path));
            assert(lookup(es, u) == Some(es[0].path));
        } else {
            assert(lookup(r, u) == lookup(upsert(es.drop_first(), t, p), u));
            assert(lookup(es, u) == lookup(es.drop_first(), u));
        }
    }
}

/// An upsert keeps titles unique, and registers exactly the old titles plus
/// the new one.
pub proof fn lemma_upsert_unique(es: Seq<EntryV>, t: Seq<char>, p: Seq<char>)
    requires
        titles_unique(es),
    ensures
        titles_unique(upsert(es, t, p)),
    decreases es.len(),
{
    if es.len() == 0 {
    } else if es[0].title == t {
        let r = seq![EntryV { title: t, path: p }] + es.drop_first();
        assert(upsert(es, t, p) == r);
        assert forall|i: int, j: int| 0 <= i < j < r.len() implies r[i].title != r[j].title by {
            if i == 0 {
                assert(r[j] == es[j]);
            } else {
                assert(r[i] == es[i] && r[j] == es[j]);
            }
        }
    } else {
        assert(forall|i: int, j: int|
            0 <= i < j < es.drop_first().len() ==> es.drop_first()[i].title
                != es.drop_first()[j].title);
        lemma_upsert_unique(es.drop_first(), t, p);
        lemma_upsert_titles(es.drop_first(), t, p);
        let r = seq![es[0]] + upsert(es.drop_first(), t, p);
        assert(upsert(es, t, p) == r);
        assert forall|i: int, j: int| 0 <= i < j < r.len() implies r[i].title != r[j].title by {
            if i == 0 {
                assert(r[j] == upsert(es.drop_first(), t, p)[j - 1]);
            } else {
                assert(r[i] == upsert(es.drop_first(), t, p)[i - 1]);
                assert(r[j] == upsert(es.drop_first(), t, p)[j - 1]);
            }
        }
    }
}

/// Every entry of an upsert carries the new title or one already present.
pub proof fn lemma_upsert_titles(es: Seq<EntryV>, t: Seq<char>, p: Seq<char>)
    ensures
        forall|k: int|
            0 <= k < upsert(es, t, p).len() ==> (#[trigger] upsert(es, t, p)[k].title == t
                || exists|j: int| 0 <= j < es.len() && es[j].title == upsert(es, t, p)[k].title),
    decreases es.len(),
{
    if es.len() == 0 {
    } else if es[0].title == t {
        let r = seq![EntryV { title: t, path: p }] + es.drop_first();
        assert forall|k: int| 0 <= k < r.len() implies (r[k].title == t || exists|j: int|
            0 <= j < es.len() && es[j].title == r[k].title) by {
            if k > 0 {
                assert(r[k] == es[k]);
            }
        }
    } else {
        lemma_upsert_titles(es.drop_first(), t, p);
        let rr = upsert(es.drop_first(), t, p);
        let r = seq![es[0]] + rr;
        assert(upsert(es, t, p) == r);
        assert forall|k: int| 0 <= k < r.len() implies (r[k].title == t || exists|j: int|
            0 <= j < es.len() && es[j].title == r[k].title) by {
            if k == 0 {
                assert(es[0].title == r[0].title);
            } else {
                assert(r[k] == rr[k - 1]);
                if rr[k - 1].title != t {
                    let j = choose|j: int|
                        0 <= j < es.drop_first().len() && es.drop_first()[j].title == rr[k
                            - 1].title;
                    assert(es[j + 1].title == r[k].title);
                }
            }
        }
    }
}

/// The path the scan itself assigns to a title: its last occurrence wins.
pub open spec fn scan_lookup(adds: Seq<EntryV>, u: Seq<char>) -> Option<Seq<char>>
    decreases adds.len(),
{
    if adds.len() == 0 {
        None
    } else {
        match scan_lookup(adds.drop_first(), u) {
            Some(p) => Some(p),
            None => if adds[0].title == u {
                Some(adds[0].path)
            } else {
                None
            },
        }
    }
}

/// What upserting a whole scan does to any lookup: a title the scan holds
/// resolves to its last scanned path, every other title is untouched.
pub proof fn lemma_lookup_upsert_all(es: Seq<EntryV>, adds: Seq<EntryV>, u: Seq<char>)
    ensures
        lookup(upsert_all(es, adds), u) == (match scan_lookup(adds, u) {
            Some(p) => Some(p),
            None => lookup(es, u),
        }),
    decreases adds.len(),
{
    if adds.len() > 0 {
        let es2 = upsert(es, adds[0].title, adds[0].path);
        lemma_lookup_upsert_all(es2, adds.drop_first(), u);
        lemma_lookup_upsert(es, adds[0].title, adds[0].path, u);
    }
}

/// Keeping every entry filters nothing out.
pub proof fn lemma_filter_alive_true(es: Seq<EntryV>, alive: Seq<bool>)
    requires
        alive.len() == es.len(),
        forall|k: int| 0 <= k < alive.len() ==> alive[k],
    ensures
        filter_alive(es, alive) == es,
    decreases es.len(),
{
    if es.len() == 0 {
        assert(filter_alive(es, alive) =~= es);
    } else {
        assert(alive[0]);
        lemma_filter_alive_true(es.drop_first(), alive.drop_first());
        assert(filter_alive(es, alive) =~= es);
    }
}

/// Reconciliation is idempotent: a second reconciliation against the same
/// scan, with every produced entry still alive, resolves every title to the
/// same path as the first — the entry set does not change.
pub proof fn lemma_reconcile_idempotent(
    existing: Seq<EntryV>,
    scanned: Seq<EntryV>,
    alive: Seq<bool>,
    alive2: Seq<bool>,
)
    requires
        alive.len() == existing.len(),
        alive2.len() == reconcile_spec(existing, scanned, alive).len(),
        forall|k: int| 0 <= k < alive2.len() ==> alive2[k],
    ensures
        forall|u: Seq<char>|
            #[trigger] lookup(reconcile_spec(reconcile_spec(existing, scanned, alive), scanned, alive2), u)
                == lookup(reconcile_spec(existing, scanned, alive), u),
{
    let r1 = reconcile_spec(existing, scanned, alive);
    lemma_filter_alive_true(r1, alive2);
    assert forall|u: Seq<char>|
        #[trigger] lookup(reconcile_spec(r1, scanned, alive2), u) == lookup(r1, u) by {
        lemma_lookup_upsert_all(r1, scanned, u);
        lemma_lookup_upsert_all(filter_alive(existing, alive), scanned, u);
    }
}

/// What one line of the registry's backing store means.
pub enum StoreTok {
    SBlank,
    SEntry(Seq<char>, Seq<char>),
    SBad,
}

/// One parsed line of the backing store.
pub enum StoreLine {
    Blank,
    Entry(String, String),
    Bad,
}

/// The contents of a parsed store line.
pub open spec fn store_line_view(l: StoreLine) -> StoreTok {
    match l {
        StoreLine::Blank => StoreTok::SBlank,
        StoreLine::Entry(t, p) => StoreTok::SEntry(t@, p@),
        StoreLine::Bad => StoreTok::SBad,
    }
}

/// The meaning of one store line: blank or comment, a quoted
/// `"title": "path"` pair — the form the store is written in, representing
/// every title and path without quotes or newlines — or a bare
/// `title: path` pair, still read for stores written without quoting.
pub open spec fn store_line_tok(l: Seq<char>) -> StoreTok {
    let t = trim(l);
    if t.len() == 0 || t[0] == '#' {
        StoreTok::SBlank
    } else if t[0] == '"' {
        let q = 1 + first_idx(t.skip(1), '"');
        if q >= t.len() {
            StoreTok::SBad
        } else {
            let title = t.subrange(1, q);
            let rest = trim_start(t.skip(q + 1));
            if rest.len() == 0 || rest[0] != ':' {
                StoreTok::SBad
            } else {
                let rest2 = trim_start(rest.drop_first());
                if rest2.len() < 2 || rest2[0] != '"' {
                    StoreTok::SBad
                } else {
                    let q2 = 1 + first_idx(rest2.skip(1), '"');
                    if q2 != rest2.len() - 1 {
                        StoreTok::SBad
                    } else {
                        StoreTok::SEntry(title, rest2.subrange(1, q2))
                    }
                }
            }
        }
    } else {
        let c = first_idx(t, ':');
        if c == t.len() {
            StoreTok::SBad
        } else {
            let title = trim_end(t.take(c));
            let path = trim_start(t.skip(c + 1));
            if title.len() == 0 || path.len() == 0 {
                StoreTok::SBad
            } else {
                StoreTok::SEntry(title, path)
            }
        }
    }
}

/// Folds the store lines into entries, upserting in order.
pub open spec fn store_run(toks: Seq<StoreTok>, acc: Seq<EntryV>) -> Option<Seq<EntryV>>
    decreases toks.len(),
{
    if toks.len() == 0 {
        Some(acc)
    } else {
        match toks[0] {
            StoreTok::SBlank => store_run(toks.drop_first(), acc),
            StoreTok::SEntry(t, p) => store_run(toks.drop_first(), upsert(acc, t, p)),
            StoreTok::SBad => None,
        }
    }
}

/// What reading the backing store yields: the entries, or nothing for a
/// malformed store.
/// The meaning of each store line in turn.
pub open spec fn store_toks_of(lines: Seq<Seq<char>>) -> Seq<StoreTok> {
    lines.map_values(|l: Seq<char>| store_line_tok(l))
}

pub open spec fn store_read_spec(text: Seq<char>) -> Option<Seq<EntryV>> {
    store_run(store_toks_of(split_lines(text)), Seq::empty())
}

/// Parses one line of the backing store.
fn parse_store_line(l: &str) -> (r: StoreLine)
    ensures
        store_line_view(r) == store_line_tok(l@),
{
    let t = crate::codec::trim_exec(l);
    let ts = t.as_str();
    let chars = crate::text::str_to_chars(ts);
    let n = chars.len();
    let ghost tv = trim(l@);
    if n == 0 {
        return StoreLine::Blank;
    }
    if chars[0] == '#' {
        return StoreLine::Blank;
    }
    if chars[0] == '"' {
        let fq = scan_to(&chars, 1, n, '"');
        proof {
            assert(tv.skip(1) =~= chars@.subrange(1, n as int));
            lemma_first_idx_is(tv.skip(1), '"', fq - 1);
        }
        if fq == n {
            return StoreLine::Bad;
        }
        let title = ts.substring_char(1, fq).to_owned();
        proof {
            assert(tv.subrange(1, fq as int) =~= title@);
        }
        let j = skip_ws(&chars, fq + 1, n);
        let ghost after = tv.skip(fq as int + 1);
        proof {
            assert(after =~= chars@.subrange(fq as int + 1, n as int));
            crate::codec::lemma_trim_start_is(after, j - (fq + 1));
            assert(after.skip(j - (fq + 1) as int) =~= chars@.subrange(j as int, n as int));
        }
        let ghost rest = trim_start(after);
        if j == n {
            return StoreLine::Bad;
        }
        if chars[j] != ':' {
            return StoreLine::Bad;
        }
        let k = skip_ws(&chars, j + 1, n);
        proof {
            assert(rest.drop_first() =~= chars@.subrange(j as int + 1, n as int));
            crate::codec::lemma_trim_start_is(rest.drop_first(), k - (j + 1));
            assert(rest.drop_first().skip(k - (j + 1) as int) =~= chars@.subrange(
                k as int,
                n as int,
            ));
        }
        let ghost rest2 = trim_start(rest.drop_first());
        if n - k < 2 {
            return StoreLine::Bad;
        }
        if chars[k] != '"' {
            return StoreLine::Bad;
        }
        let q2 = scan_to(&chars, k + 1, n, '"');
        proof {
            assert(rest2.skip(1) =~= chars@.subrange(k as int + 1, n as int));
            lemma_first_idx_is(rest2.skip(1), '"', q2 - (k + 1));
        }
        if q2 != n - 1 {
            return StoreLine::Bad;
        }
        let path = ts.substring_char(k + 1, n - 1).to_owned();
        proof {
            assert(rest2.subrange(1, rest2.len() - 1) =~= chars@.subrange(
                k as int + 1,
                n as int - 1,
            ));
        }
        return StoreLine::Entry(title, path);
    }
    let c = scan_to(&chars, 0, n, ':');
    proof {
        lemma_first_idx_is(tv, ':', c as int);
    }
    if c == n {
        return StoreLine::Bad;
    }
    let mut ke: usize = c;
    while ke > 0 && (chars[ke - 1] == ' ' || chars[ke - 1] == '\t' || chars[ke - 1] == '\r')
        invariant
            ke <= c <= n == chars@.len(),
            forall|j: int| ke <= j < c ==> crate::codec::is_space(chars@[j]),
        decreases ke,
    {
        ke -= 1;
    }
    proof {
        let kt = tv.take(c as int);
        assert(forall|j: int| ke <= j < kt.len() ==> crate::codec::is_space(kt[j]));
        if ke > 0 {
            assert(!crate::codec::is_space(kt[ke - 1]));
        }
        crate::codec::lemma_trim_end_is(kt, ke as int);
        assert(kt.take(ke as int) =~= tv.subrange(0, ke as int));
    }
    if ke == 0 {
        return StoreLine::Bad;
    }
    let ps = skip_ws(&chars, c + 1, n);
    proof {
        let pt = tv.skip(c as int + 1);
        assert(pt =~= chars@.subrange(c as int + 1, n as int));
        crate::codec::lemma_trim_start_is(pt, ps - (c + 1));
        assert(pt.skip(ps - (c + 1) as int) =~= chars@.subrange(ps as int, n as int));
    }
    if ps == n {
        return StoreLine::Bad;
    }
    let title = ts.substring_char(0, ke).to_owned();
    let path = ts.substring_char(ps, n).to_owned();
    StoreLine::Entry(title, path)
}

/// The line a registry entry is stored as: title and path each inside one
/// pair of quotes, so that any quote-free, newline-free title and path is
/// represented exactly.
pub open spec fn store_render(e: EntryV) -> Seq<char> {
    "\""@ + e.title + "\": \""@ + e.path + "\""@
}

/// The full text of the backing store for the given entries.
pub open spec fn store_dump_spec(es: Seq<EntryV>) -> Seq<char> {
    join_lines(es.map_values(|e: EntryV| store_render(e)))
}

/// The in-memory routine registry: the path of its backing store and the
/// entries, loaded at startup and persisted before exit if mutated.
pub struct Lister {
    pub file_path: String,
    pub paths: Vec<ListerEntry>,
}

/// The registry's invariant: no two entries share a title.
pub open spec fn lister_wf(l: &Lister) -> bool {
    titles_unique(entries_view(l.paths@))
}

impl Lister {
    /// An empty registry backed by the given store path.
    pub fn new(file_path: String) -> (r: Lister)
        ensures
            r.file_path@ == file_path@,
            entries_view(r.paths@) == Seq::<EntryV>::empty(),
            lister_wf(&r),
    {
        let r = Lister { file_path, paths: Vec::new() };
        proof {
            assert(entries_view(r.paths@) =~= Seq::<EntryV>::empty());
        }
        r
    }

    /// Parses the backing store's text into entries. Titles are unique in
    /// the result: a later line overwrites an earlier one with the same
    /// title.
    pub fn parse_lister_file(buffer: &str) -> (r: Result<Vec<ListerEntry>, ActError>)
        ensures
            match r {
                Ok(v) => store_read_spec(buffer@) == Some(entries_view(v@)) && titles_unique(
                    entries_view(v@),
                ),
                Err(e) => store_read_spec(buffer@) is None && e is ParseError,
            },
    {
        let lines = split_to_lines(buffer);
        let ghost toks = store_toks_of(split_lines(buffer@));
        let mut acc: Vec<ListerEntry> = Vec::new();
        let n = lines.len();
        let mut i: usize = 0;
        proof {
            assert(toks.skip(0) =~= toks);
            assert(entries_view(acc@) =~= Seq::<EntryV>::empty());
        }
        while i < n
            invariant
                n == lines@.len(),
                lines@.map_values(|l: String| l@) == split_lines(buffer@),
                toks == store_toks_of(split_lines(buffer@)),
                i <= n,
                n == toks.len(),
                titles_unique(entries_view(acc@)),
                store_run(toks, Seq::empty()) == store_run(
                    toks.skip(i as int),
                    entries_view(acc@),
                ),
            decreases n - i,
        {
            proof {
                assert(lines@.map_values(|l: String| l@)[i as int] == lines@[i as int]@);
                assert(toks[i as int] == store_line_tok(lines@[i as int]@));
                assert(toks.skip(i as int)[0] == toks[i as int]);
                assert(toks.skip(i as int).drop_first() =~= toks.skip(i as int + 1));
            }
            match parse_store_line(lines[i].as_str()) {
                StoreLine::Blank => {
                },
                StoreLine::Entry(t, p) => {
                    proof {
                        lemma_upsert_unique(entries_view(acc@), t@, p@);
                    }
                    upsert_exec(&mut acc, t, p);
                },
                StoreLine::Bad => {
                    return Err(ActError::ParseError("store".to_owned()));
                },
            }
            i += 1;
        }
        proof {
            assert(toks.skip(n as int) =~= Seq::<StoreTok>::empty());
        }
        Ok(acc)
    }

    /// The text to persist the registry as, one `title: path` line per
    /// entry: the full entry set, replacing the store's previous content.
    pub fn dump(&self) -> (r: String)
        ensures
            r@ == store_dump_spec(entries_view(self.paths@)),
    {
        let ghost ev = entries_view(self.paths@);
        let mut lines: Vec<String> = Vec::new();
        let n = self.paths.len();
        let mut i: usize = 0;
        while i < n
            invariant
                n == self.paths@.len(),
                ev == entries_view(self.paths@),
                i <= n,
                crate::codec::line_views(lines@) == ev.take(i as int).map_values(
                    |e: EntryV| store_render(e),
                ),
            decreases n - i,
        {
            let mut s = "\"".to_owned();
            s.append(self.paths[i].title.as_str());
            s.append("\": \"");
            s.append(self.paths[i].path.as_str());
            s.append("\"");
            proof {
                assert(ev[i as int] == self.paths@[i as int]@);
                assert(s@ == store_render(ev[i as int]));
            }
            lines.push(s);
            proof {
                assert(ev.take(i as int + 1) =~= ev.take(i as int).push(ev[i as int]));
                assert(ev.take(i as int + 1).map_values(|e: EntryV| store_render(e)) =~= ev.take(
                    i as int,
                ).map_values(|e: EntryV| store_render(e)).push(store_render(ev[i as int])));
                assert(crate::codec::line_views(lines@) =~= crate::codec::line_views(
                    lines@.drop_last(),
                ).push(store_render(ev[i as int])));
            }
            i += 1;
        }
        proof {
            assert(ev.take(n as int) =~= ev);
        }
        join_exec(&lines)
    }

    /// Exact-match lookup of a routine's definition path by its title: no
    /// fuzzy matching, no partial-name expansion.
    pub fn resolve(&self, name: &str) -> (r: Option<String>)
        ensures
            match r {
                Some(p) => lookup(entries_view(self.paths@), name@) == Some(p@),
                None => lookup(entries_view(self.paths@), name@) is None,
            },
    {
        lookup_exec(&self.paths, name)
    }

    /// Registers a path under a title, replacing any entry with that title.
    pub fn insert_entry(&mut self, title: String, path: String)
        ensures
            entries_view(final(self).paths@) == upsert(
                entries_view(old(self).paths@),
                title@,
                path@,
            ),
            final(self).file_path == old(self).file_path,
            lister_wf(old(self)) ==> lister_wf(final(self)),
    {
        proof {
            if titles_unique(entries_view(self.paths@)) {
                lemma_upsert_unique(entries_view(self.paths@), title@, path@);
            }
        }
        upsert_exec(&mut self.paths, title, path);
    }

    /// Registers the definition file at `path`. With an explicit name the
    /// registration always succeeds, whatever the definition holds. Without
    /// one the title is read from the definition's text, and a definition
    /// that cannot be read is an error reported to the caller. The stored
    /// path is the canonical form of `path` where the file exists, and
    /// `path` itself otherwise.
    pub fn add_file(&mut self, path: &String, name: Option<String>, definition: Option<&String>)
        -> (r: Result<(), ActError>)
        ensures
            final(self).file_path == old(self).file_path,
            lister_wf(old(self)) && r is Ok ==> lister_wf(final(self)),
            match name {
                Some(n) => r is Ok && exists|cp: Seq<char>|
                    entries_view(final(self).paths@) == upsert(
                        entries_view(old(self).paths@),
                        n@,
                        cp,
                    ),
                None => match definition {
                    Some(d) => match crate::codec::read_spec(d@) {
                        Ok(v) => r is Ok && exists|cp: Seq<char>|
                            entries_view(final(self).paths@) == upsert(
                                entries_view(old(self).paths@),
                                v.base.title,
                                cp,
                            ),
                        Err(f) => (r matches Err(e) && (e matches ActError::ParseError(m)
                            && m@ == f)) && *final(self) == *old(self),
                    },
                    None => r matches Err(e) && e is NotFound && *final(self) == *old(self),
                },
            },
    {
        let title: String = match name {
            Some(n) => n,
            None => {
                match definition {
                    Some(d) => {
                        match crate::routine::Routine::read(d.as_str()) {
                            Ok(rt) => rt.base.title,
                            Err(e) => {
                                return Err(e);
                            },
                        }
                    },
                    None => {
                        return Err(ActError::NotFound);
                    },
                }
            },
        };
        let stored: String = match crate::fsops::canonicalize_path(path.as_str()) {
            Some(c) => c,
            None => path.clone(),
        };
        let ghost tspec = title@;
        let ghost pspec = stored@;
        self.insert_entry(title, stored);
        proof {
            assert(entries_view(self.paths@) == upsert(
                entries_view(old(self).paths@),
                tspec,
                pspec,
            ));
            if name is Some {
                assert(name->0@ == tspec);
                assert(entries_view(self.paths@) == upsert(
                    entries_view(old(self).paths@),
                    name->0@,
                    pspec,
                ));
            } else if definition is Some {
                let v = crate::codec::read_spec(definition->0@)->Ok_0;
                assert(v.base.title == tspec);
                assert(entries_view(self.paths@) == upsert(
                    entries_view(old(self).paths@),
                    v.base.title,
                    pspec,
                ));
            }
        }
        Ok(())
    }

    /// A read-only view of the stored entries, for listing and debugging.
    pub fn get_data(&self) -> (r: &Vec<ListerEntry>)
        ensures
            r@ == self.paths@,
    {
        &self.paths
    }
}


/// The tokens of a rendered entry list, one per entry.
pub open spec fn entry_toks(es: Seq<EntryV>) -> Seq<StoreTok> {
    es.map_values(|e: EntryV| StoreTok::SEntry(e.title, e.path))
}

/// An entry list whose titles and paths hold no quote and no newline:
/// exactly what one store line can carry.
pub open spec fn plain_entries(es: Seq<EntryV>) -> bool {
    forall|k: int|
        0 <= k < es.len() ==> crate::codec::plain_str(#[trigger] es[k].title)
            && crate::codec::plain_str(es[k].path)
}

/// What appending an entry does to any lookup: titles already present keep
/// their paths, the new title resolves last.
proof fn lemma_lookup_push(es: Seq<EntryV>, e: EntryV, u: Seq<char>)
    ensures
        lookup(es.push(e), u) == (match lookup(es, u) {
            Some(p) => Some(p),
            None => if e.title == u {
                Some(e.path)
            } else {
                None
            },
        }),
    decreases es.len(),
{
    if es.len() == 0 {
        assert(es.push(e)[0] == e);
        assert(es.push(e).drop_first() =~= Seq::<EntryV>::empty());
    } else {
        assert(es.push(e)[0] == es[0]);
        assert(es.push(e).drop_first() =~= es.drop_first().push(e));
        lemma_lookup_push(es.drop_first(), e, u);
    }
}

/// Upserting a fresh title appends its entry.
proof fn lemma_upsert_absent(es: Seq<EntryV>, t: Seq<char>, p: Seq<char>)
    requires
        lookup(es, t) is None,
    ensures
        upsert(es, t, p) == es.push(EntryV { title: t, path: p }),
    decreases es.len(),
{
    if es.len() == 0 {
        assert(upsert(es, t, p) =~= es.push(EntryV { title: t, path: p }));
    } else {
        assert(es[0].title != t);
        lemma_upsert_absent(es.drop_first(), t, p);
        assert(upsert(es, t, p) =~= es.push(EntryV { title: t, path: p }));
    }
}

/// A rendered store line reads back as its entry, and holds no newline.
proof fn lemma_store_line_round_trip(t: Seq<char>, p: Seq<char>)
    requires
        crate::codec::plain_str(t),
        crate::codec::plain_str(p),
    ensures
        store_line_tok(store_render(EntryV { title: t, path: p })) == StoreTok::SEntry(t, p),
        crate::codec::line_clean(store_render(EntryV { title: t, path: p })),
{
    reveal_strlit("\"");
    reveal_strlit("\": \"");
    reveal_strlit("#");
    let l = store_render(EntryV { title: t, path: p });
    assert(l[0] == '"');
    assert(l.last() == '"');
    crate::codec::lemma_trim_noop(l);
    assert(l.skip(1) =~= t + "\": \""@ + p + "\""@);
    assert forall|j: int| 0 <= j < t.len() implies l.skip(1)[j] != '"' by {
        assert(l.skip(1)[j] == t[j]);
    }
    assert(l.skip(1)[t.len() as int] == '"');
    lemma_first_idx_is(l.skip(1), '"', t.len() as int);
    let q = t.len() as int + 1;
    assert(l.subrange(1, q) =~= t);
    let after = l.skip(q + 1);
    assert(after =~= seq![':', ' ', '"'] + p + seq!['"']);
    assert(!crate::codec::is_space(after[0]));
    crate::codec::lemma_trim_start_is(after, 0);
    let rest = trim_start(after);
    assert(rest =~= after);
    assert(rest[0] == ':');
    assert(rest.drop_first() =~= seq![' ', '"'] + p + seq!['"']);
    assert(!crate::codec::is_space(rest.drop_first()[1]));
    crate::codec::lemma_trim_start_is(rest.drop_first(), 1);
    let rest2 = trim_start(rest.drop_first());
    assert(rest2 =~= seq!['"'] + p + seq!['"']);
    assert(rest2.len() >= 2 && rest2[0] == '"');
    assert(rest2.skip(1) =~= p + seq!['"']);
    assert forall|j: int| 0 <= j < p.len() implies rest2.skip(1)[j] != '"' by {
        assert(rest2.skip(1)[j] == p[j]);
    }
    assert(rest2.skip(1)[p.len() as int] == '"');
    lemma_first_idx_is(rest2.skip(1), '"', p.len() as int);
    assert(rest2.subrange(1, rest2.len() - 1) =~= p);
    assert(store_line_tok(l) == StoreTok::SEntry(t, p));
}

/// Folding the tokens of fresh entries appends them all in order.
proof fn lemma_store_run_rebuild(es: Seq<EntryV>, acc: Seq<EntryV>)
    requires
        titles_unique(es),
        forall|k: int| 0 <= k < es.len() ==> lookup(acc, #[trigger] es[k].title) is None,
    ensures
        store_run(entry_toks(es), acc) == Some(acc + es),
    decreases es.len(),
{
    if es.len() == 0 {
        assert(acc + es =~= acc);
        assert(entry_toks(es) =~= Seq::<StoreTok>::empty());
    } else {
        let e0 = es[0];
        assert(entry_toks(es)[0] == StoreTok::SEntry(e0.title, e0.path));
        assert(entry_toks(es).drop_first() =~= entry_toks(es.drop_first()));
        lemma_upsert_absent(acc, e0.title, e0.path);
        let acc2 = acc.push(e0);
        assert(forall|i: int, j: int|
            0 <= i < j < es.drop_first().len() ==> es.drop_first()[i].title
                != es.drop_first()[j].title);
        assert forall|k: int|
            0 <= k < es.drop_first().len() implies lookup(
            acc2,
            #[trigger] es.drop_first()[k].title,
        ) is None by {
            lemma_lookup_push(acc, e0, es.drop_first()[k].title);
            assert(es.drop_first()[k] == es[k + 1]);
            assert(e0.title != es[k + 1].title);
        }
        lemma_store_run_rebuild(es.drop_first(), acc2);
        assert(acc2 + es.drop_first() =~= acc + es);
    }
}

/// Persisting an entry set and parsing the text back yields that entry set,
/// for every set the registry can hold: unique titles, each title and path
/// free of quotes and newlines.
pub proof fn lemma_dump_then_parse(es: Seq<EntryV>)
    requires
        titles_unique(es),
        plain_entries(es),
    ensures
        store_read_spec(store_dump_spec(es)) == Some(es),
{
    let lines = es.map_values(|e: EntryV| store_render(e));
    assert forall|k: int|
        0 <= k < lines.len() implies crate::codec::line_clean(#[trigger] lines[k]) by {
        lemma_store_line_round_trip(es[k].title, es[k].path);
    }
    crate::codec::lemma_split_join_lines(lines);
    assert forall|k: int|
        0 <= k < lines.len() implies store_toks_of(lines)[k] == entry_toks(es)[k] by {
        lemma_store_line_round_trip(es[k].title, es[k].path);
    }
    assert(store_toks_of(lines) =~= entry_toks(es));
    assert(forall|k: int| 0 <= k < es.len() ==> lookup(
        Seq::<EntryV>::empty(),
        #[trigger] es[k].title,
    ) is None);
    lemma_store_run_rebuild(es, Seq::empty());
    assert(Seq::<EntryV>::empty() + es =~= es);
}

/// Which of the entries' files still exist on disk, by a canonicalization
/// probe of each path.
pub fn probe_alive(entries: &Vec<ListerEntry>) -> (r: Vec<bool>)
    ensures
        r@.len() == entries@.len(),
{
    let mut r: Vec<bool> = Vec::new();
    let n = entries.len();
    let mut i: usize = 0;
    while i < n
        invariant
            n == entries@.len(),
            i <= n,
            r@.len() == i,
        decreases n - i,
    {
        let alive = match crate::fsops::canonicalize_path(entries[i].path.as_str()) {
            Some(_) => true,
            None => false,
        };
        r.push(alive);
        i += 1;
    }
    r
}

} // verus!
