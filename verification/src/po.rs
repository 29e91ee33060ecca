//! Translation tables read from simple PO text (`msgctxt` / `msgid` /
//! `msgstr` lines), kept in an insertion-ordered map.

use vstd::prelude::*;

use indexmap::IndexMap;

use crate::strings::{chars_of, matches_at, occurs_at, slice_range, string_of, trim, trim_chars};

verus! {

/// `indexmap::IndexMap`, an insertion-ordered hash map; opaque here, its
/// contents are named by [`table_entries`].
#[verifier::external_type_specification]
#[verifier::external_body]
#[verifier::reject_recursive_types(K)]
#[verifier::reject_recursive_types(V)]
#[verifier::reject_recursive_types(S)]
pub struct ExIndexMap<K, V, S>(IndexMap<K, V, S>);

/// Translation table: loc key to translated string, in insertion order.
pub type TranslationTable = IndexMap<String, String>;

/// The `(key, text)` pairs a table holds, in its order.
pub uninterp spec fn table_entries(t: IndexMap<String, String>) -> Seq<(Seq<char>, Seq<char>)>;

/// Position of the first pair with key `k`.
pub open spec fn key_index(es: Seq<(Seq<char>, Seq<char>)>, k: Seq<char>) -> Option<int>
    decreases es.len(),
{
    if es.len() == 0 {
        None
    } else if es.last().0 == k && key_index(es.drop_last(), k) is None {
        Some(es.len() - 1)
    } else {
        key_index(es.drop_last(), k)
    }
}

/// Inserting into an insertion-ordered map: a present key keeps its place
/// and takes the new value; a new key goes last.
pub open spec fn inserted(es: Seq<(Seq<char>, Seq<char>)>, k: Seq<char>, v: Seq<char>) -> Seq<
    (Seq<char>, Seq<char>),
> {
    match key_index(es, k) {
        Some(i) => es.update(i, (k, v)),
        None => es.push((k, v)),
    }
}

/// `IndexMap::new`: an empty table.
#[verifier::external_body]
pub(crate) fn new_table() -> (t: IndexMap<String, String>)
    ensures
        table_entries(t) == Seq::<(Seq<char>, Seq<char>)>::empty(),
{
    IndexMap::new()
}

/// `IndexMap::insert`: an equal key already present keeps its position and
/// gets the new value; otherwise the pair is appended. The value it returns
/// (the replaced one) is not passed on.
#[verifier::external_body]
pub(crate) fn table_insert(t: &mut IndexMap<String, String>, key: String, value: String)
    ensures
        table_entries(*final(t)) == inserted(table_entries(*old(t)), key@, value@),
{
    t.insert(key, value);
}

/// `IndexMap::get`: the value stored under a key equal to `key`, if any
/// (keys of an `IndexMap` are unique, so it is the first pair with that key).
#[verifier::external_body]
pub(crate) fn table_get<'a>(t: &'a IndexMap<String, String>, key: &str) -> (r: Option<&'a String>)
    ensures
        match r {
            Some(v) => lookup(table_entries(*t), key@) == Some(v@),
            None => lookup(table_entries(*t), key@) is None,
        },
{
    t.get(key)
}

/// `IndexMap::len`: the number of pairs the table holds.
#[verifier::external_body]
pub(crate) fn table_len(t: &IndexMap<String, String>) -> (n: usize)
    ensures
        n == table_entries(*t).len(),
{
    t.len()
}

/// `s` with each non-overlapping occurrence of `from` (left to right)
/// replaced by `to` (`str::replace`).
pub open spec fn replaced(s: Seq<char>, from: Seq<char>, to: Seq<char>) -> Seq<char>
    decreases s.len(),
{
    if s.len() == 0 {
        s
    } else if from.len() > 0 && occurs_at(s, from, 0) {
        to + replaced(s.skip(from.len() as int), from, to)
    } else {
        seq![s[0]] + replaced(s.drop_first(), from, to)
    }
}

/// `str::replace` on characters, for a non-empty pattern.
pub fn replace_chars(v: &[char], from: &[char], to: &[char]) -> (r: Vec<char>)
    requires
        from@.len() > 0,
    ensures
        r@ == replaced(v@, from@, to@),
{
    let mut out: Vec<char> = Vec::new();
    let mut i: usize = 0;
    assert(v@.skip(0) =~= v@);
    while i < v.len()
        invariant
            0 <= i <= v@.len(),
            from@.len() > 0,
            replaced(v@, from@, to@) == out@ + replaced(v@.skip(i as int), from@, to@),
        decreases v@.len() - i,
    {
        let ghost rest = v@.skip(i as int);
        let m = matches_at(v, from, i);
        if m {
            assert(occurs_at(rest, from@, 0)) by {
                assert(rest.subrange(0, from@.len() as int) =~= v@.subrange(
                    i as int,
                    i + from@.len(),
                ));
            }
            assert(rest.skip(from@.len() as int) =~= v@.skip(i + from@.len()));
            let ghost o = out@;
            let mut k: usize = 0;
            while k < to.len()
                invariant
                    0 <= k <= to@.len(),
                    out@ == o + to@.take(k as int),
                decreases to@.len() - k,
            {
                out.push(to[k]);
                k += 1;
                assert(out@ =~= o + to@.take(k as int));
            }
            assert(to@.take(to@.len() as int) =~= to@);
            assert(o + (to@ + replaced(v@.skip(i + from@.len()), from@, to@)) =~= (o + to@)
                + replaced(v@.skip(i + from@.len()), from@, to@));
            i = i + from.len();
        } else {
            assert(!occurs_at(rest, from@, 0)) by {
                if occurs_at(rest, from@, 0) {
                    assert(rest.subrange(0, from@.len() as int) =~= v@.subrange(
                        i as int,
                        i + from@.len(),
                    ));
                }
            }
            assert(rest.drop_first() =~= v@.skip(i + 1));
            let ghost o = out@;
            out.push(v[i]);
            assert(o + (seq![v@[i as int]] + replaced(v@.skip(i + 1), from@, to@)) =~= out@
                + replaced(v@.skip(i + 1), from@, to@));
            i = i + 1;
        }
    }
    assert(v@.skip(i as int).len() == 0);
    assert(out@ + Seq::<char>::empty() =~= out@);
    out
}

/// A PO string value: quotes removed (then `\"` and `\\` unescaped, in that
/// order) when the trimmed text is quoted; otherwise the trimmed text.
pub open spec fn unquoted(s: Seq<char>) -> Seq<char> {
    let t = trim(s);
    if t.len() >= 2 && t[0] == '"' && t.last() == '"' {
        replaced(
            replaced(t.subrange(1, t.len() - 1), seq!['\\', '"'], seq!['"']),
            seq!['\\', '\\'],
            seq!['\\'],
        )
    } else {
        t
    }
}

fn unquote_po(s: &[char]) -> (r: Vec<char>)
    ensures
        r@ == unquoted(s@),
{
    let t = trim_chars(s);
    if t.len() >= 2 && t[0] == '"' && t[t.len() - 1] == '"' {
        let inner = slice_range(t.as_slice(), 1, t.len() - 1);
        let esc_quote: [char; 2] = ['\\', '"'];
        let quote: [char; 1] = ['"'];
        let esc_slash: [char; 2] = ['\\', '\\'];
        let slash: [char; 1] = ['\\'];
        assert(esc_quote@ =~= seq!['\\', '"']);
        assert(quote@ =~= seq!['"']);
        assert(esc_slash@ =~= seq!['\\', '\\']);
        assert(slash@ =~= seq!['\\']);
        let a = replace_chars(inner.as_slice(), esc_quote.as_slice(), quote.as_slice());
        replace_chars(a.as_slice(), esc_slash.as_slice(), slash.as_slice())
    } else {
        t
    }
}

/// Lines of `s` split at `\n`: `cur` is the line being read, `acc` the
/// lines already complete.
pub open spec fn lines_from(s: Seq<char>, cur: Seq<char>, acc: Seq<Seq<char>>) -> Seq<Seq<char>>
    decreases s.len(),
{
    if s.len() == 0 {
        acc.push(cur)
    } else if s[0] == '\n' {
        lines_from(s.drop_first(), seq![], acc.push(cur))
    } else {
        lines_from(s.drop_first(), cur.push(s[0]), acc)
    }
}

/// The pieces of `s` between `\n` characters.
pub open spec fn split_lines(s: Seq<char>) -> Seq<Seq<char>> {
    lines_from(s, seq![], seq![])
}

fn split_lines_exec(v: &[char]) -> (r: Vec<Vec<char>>)
    ensures
        r@.len() == split_lines(v@).len(),
        forall|k: int| 0 <= k < r@.len() ==> #[trigger] r@[k]@ == split_lines(v@)[k],
{
    let mut acc: Vec<Vec<char>> = Vec::new();
    let mut cur: Vec<char> = Vec::new();
    let ghost mut acc_v: Seq<Seq<char>> = seq![];
    let mut i: usize = 0;
    assert(v@.skip(0) =~= v@);
    while i < v.len()
        invariant
            0 <= i <= v@.len(),
            acc@.len() == acc_v.len(),
            forall|k: int| 0 <= k < acc@.len() ==> #[trigger] acc@[k]@ == acc_v[k],
            split_lines(v@) == lines_from(v@.skip(i as int), cur@, acc_v),
        decreases v@.len() - i,
    {
        let c = v[i];
        assert(v@.skip(i as int)[0] == c);
        assert(v@.skip(i as int).drop_first() =~= v@.skip(i + 1));
        if c == '\n' {
            proof {
                acc_v = acc_v.push(cur@);
            }
            acc.push(cur);
            cur = Vec::new();
            assert(cur@ =~= seq![]);
        } else {
            cur.push(c);
        }
        i += 1;
    }
    assert(v@.skip(i as int).len() == 0);
    proof {
        acc_v = acc_v.push(cur@);
    }
    acc.push(cur);
    acc
}

/// Line prefix of a context.
pub open spec fn ctxt_tag() -> Seq<char> {
    "msgctxt "@
}

/// Line prefix of a source text.
pub open spec fn msgid_tag() -> Seq<char> {
    "msgid "@
}

/// Line prefix of a translation.
pub open spec fn msgstr_tag() -> Seq<char> {
    "msgstr "@
}

/// Reading state: pending context, pending source text, and the table.
pub type PoState = (Seq<char>, Seq<char>, Seq<(Seq<char>, Seq<char>)>);

/// One line read (trimmed): `msgctxt` and `msgid` set the pending context /
/// source; `msgstr` files the translation under the context, or the source
/// when there is no context (unless either is empty), then clears both.
pub open spec fn po_line(st: PoState, line: Seq<char>) -> PoState {
    let t = trim(line);
    if occurs_at(t, ctxt_tag(), 0) {
        (unquoted(t.skip(ctxt_tag().len() as int)), st.1, st.2)
    } else if occurs_at(t, msgid_tag(), 0) {
        (st.0, unquoted(t.skip(msgid_tag().len() as int)), st.2)
    } else if occurs_at(t, msgstr_tag(), 0) {
        let v = unquoted(t.skip(msgstr_tag().len() as int));
        let key = if st.0.len() == 0 {
            st.1
        } else {
            st.0
        };
        (
            Seq::<char>::empty(),
            Seq::<char>::empty(),
            if key.len() > 0 && v.len() > 0 {
                inserted(st.2, key, v)
            } else {
                st.2
            },
        )
    } else {
        st
    }
}

/// The state after reading `ls` in order.
pub open spec fn po_lines(st: PoState, ls: Seq<Seq<char>>) -> PoState
    decreases ls.len(),
{
    if ls.len() == 0 {
        st
    } else {
        po_lines(po_line(st, ls[0]), ls.drop_first())
    }
}

/// The table read from PO text.
pub open spec fn po_table(text: Seq<char>) -> Seq<(Seq<char>, Seq<char>)> {
    po_lines((Seq::<char>::empty(), Seq::<char>::empty(), Seq::<(Seq<char>, Seq<char>)>::empty()), split_lines(text)).2
}

/// Read a translation table from simple PO text.
pub fn parse_simple_po_table(text: &str) -> (table: TranslationTable)
    ensures
        table_entries(table) == po_table(text@),
{
    let v = chars_of(text);
    let lines = split_lines_exec(v.as_slice());
    let ghost ls = split_lines(text@);
    let ctag = chars_of("msgctxt ");
    let itag = chars_of("msgid ");
    let stag = chars_of("msgstr ");
    let mut table = new_table();
    let mut ctxt: Vec<char> = Vec::new();
    let mut msgid: Vec<char> = Vec::new();
    let mut i: usize = 0;
    assert(ls.skip(0) =~= ls);
    while i < lines.len()
        invariant
            0 <= i <= lines@.len(),
            lines@.len() == ls.len(),
            forall|k: int| 0 <= k < lines@.len() ==> #[trigger] lines@[k]@ == ls[k],
            ctag@ == ctxt_tag(),
            itag@ == msgid_tag(),
            stag@ == msgstr_tag(),
            po_table(text@) == po_lines((ctxt@, msgid@, table_entries(table)), ls.skip(i as int)).2,
        decreases lines@.len() - i,
    {
        let ghost st = (ctxt@, msgid@, table_entries(table));
        assert(ls.skip(i as int)[0] == lines@[i as int]@);
        assert(ls.skip(i as int).drop_first() =~= ls.skip(i + 1));
        let t = trim_chars(lines[i].as_slice());
        if matches_at(t.as_slice(), ctag.as_slice(), 0) {
            let rest = slice_range(t.as_slice(), ctag.len(), t.len());
            assert(rest@ =~= t@.skip(ctag@.len() as int));
            ctxt = unquote_po(rest.as_slice());
        } else if matches_at(t.as_slice(), itag.as_slice(), 0) {
            let rest = slice_range(t.as_slice(), itag.len(), t.len());
            assert(rest@ =~= t@.skip(itag@.len() as int));
            msgid = unquote_po(rest.as_slice());
        } else if matches_at(t.as_slice(), stag.as_slice(), 0) {
            let rest = slice_range(t.as_slice(), stag.len(), t.len());
            assert(rest@ =~= t@.skip(stag@.len() as int));
            let msgstr = unquote_po(rest.as_slice());
            let key = if ctxt.len() == 0 {
                slice_range(msgid.as_slice(), 0, msgid.len())
            } else {
                slice_range(ctxt.as_slice(), 0, ctxt.len())
            };
            assert(key@ == (if st.0.len() == 0 {
                st.1
            } else {
                st.0
            })) by {
                assert(msgid@.subrange(0, msgid@.len() as int) =~= msgid@);
                assert(ctxt@.subrange(0, ctxt@.len() as int) =~= ctxt@);
            }
            if key.len() > 0 && msgstr.len() > 0 {
                table_insert(&mut table, string_of(key.as_slice()), string_of(msgstr.as_slice()));
            }
            ctxt = Vec::new();
            msgid = Vec::new();
            assert(ctxt@ =~= Seq::<char>::empty());
            assert(msgid@ =~= Seq::<char>::empty());
        }
        assert(po_line(st, ls[i as int]) == (ctxt@, msgid@, table_entries(table)));
        i += 1;
    }
    assert(ls.skip(i as int).len() == 0);
    table
}

/// No key occurs twice.
pub open spec fn keys_distinct(es: Seq<(Seq<char>, Seq<char>)>) -> bool {
    forall|i: int, j: int| 0 <= i < j < es.len() ==> es[i].0 != es[j].0
}

/// The text filed under `k`, if any.
pub open spec fn lookup(es: Seq<(Seq<char>, Seq<char>)>, k: Seq<char>) -> Option<Seq<char>> {
    match key_index(es, k) {
        Some(i) => Some(es[i].1),
        None => None,
    }
}

/// `key_index` finds the first pair with the key, or reports there is none.
pub proof fn lemma_key_index(es: Seq<(Seq<char>, Seq<char>)>, k: Seq<char>)
    ensures
        match key_index(es, k) {
            Some(i) => 0 <= i < es.len() && es[i].0 == k && forall|j: int|
                0 <= j < i ==> es[j].0 != k,
            None => forall|j: int| 0 <= j < es.len() ==> es[j].0 != k,
        },
    decreases es.len(),
{
    if es.len() > 0 {
        lemma_key_index(es.drop_last(), k);
        assert forall|j: int| 0 <= j < es.len() - 1 implies es[j] == es.drop_last()[j] by {}
    }
}

/// Inserting keeps keys distinct; afterwards the key reads back the new
/// text and every other key reads back what it did before.
pub proof fn lemma_inserted(es: Seq<(Seq<char>, Seq<char>)>, k: Seq<char>, v: Seq<char>)
    requires
        keys_distinct(es),
    ensures
        keys_distinct(inserted(es, k, v)),
        lookup(inserted(es, k, v), k) == Some(v),
        forall|k2: Seq<char>| k2 != k ==> lookup(inserted(es, k, v), k2) == lookup(es, k2),
{
    let r = inserted(es, k, v);
    lemma_key_index(es, k);
    lemma_key_index(r, k);
    assert forall|k2: Seq<char>| k2 != k implies lookup(r, k2) == lookup(es, k2) by {
        lemma_key_index(es, k2);
        lemma_key_index(r, k2);
        match key_index(es, k2) {
            Some(i) => {
                assert(r[i] == es[i]);
                if let Some(i2) = key_index(r, k2) {
                    if i2 < i {
                        assert(r[i2] == es[i2]);
                    }
                }
            },
            None => {
                if let Some(i2) = key_index(r, k2) {
                    if i2 < es.len() {
                        assert(r[i2] == es[i2]);
                    }
                }
            },
        }
    }
    match key_index(es, k) {
        Some(i) => {
            if let Some(i2) = key_index(r, k) {
                if i2 < i {
                    assert(r[i2] == es[i2]);
                }
                if i2 > i {
                    assert(r[i].0 == k);
                }
            }
        },
        None => {
            if let Some(i2) = key_index(r, k) {
                if i2 < es.len() {
                    assert(r[i2] == es[i2]);
                }
            }
        },
    }
}

proof fn lemma_po_lines_distinct(st: PoState, ls: Seq<Seq<char>>)
    requires
        keys_distinct(st.2),
    ensures
        keys_distinct(po_lines(st, ls).2),
    decreases ls.len(),
{
    if ls.len() > 0 {
        let t = trim(ls[0]);
        if !occurs_at(t, ctxt_tag(), 0) && !occurs_at(t, msgid_tag(), 0) && occurs_at(
            t,
            msgstr_tag(),
            0,
        ) {
            let v = unquoted(t.skip(msgstr_tag().len() as int));
            let key = if st.0.len() == 0 {
                st.1
            } else {
                st.0
            };
            lemma_inserted(st.2, key, v);
        }
        lemma_po_lines_distinct(po_line(st, ls[0]), ls.drop_first());
    }
}

/// A table read from PO text never holds a key twice; a later translation
/// of the same key replaces the earlier one in place.
pub proof fn lemma_po_table_keys_distinct(text: Seq<char>)
    ensures
        keys_distinct(po_table(text)),
{
    lemma_po_lines_distinct(
        (Seq::<char>::empty(), Seq::<char>::empty(), Seq::<(Seq<char>, Seq<char>)>::empty()),
        split_lines(text),
    );
}

} // verus!
