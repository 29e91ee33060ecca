//! Localization keys, slugs and PO-style templates for dialogue and choice
//! lines.

use vstd::prelude::*;

use indexmap::IndexMap;

use crate::po::{inserted, new_table, table_entries, table_insert};

use crate::strings::{
    ascii_alphanumeric, ascii_lower, chars_eq, chars_of, decimal, is_ascii_alnum,
    is_ascii_digit, is_whitespace, is_ws, lemma_decimal_digits, lemma_decimal_injective, owned,
    push_char, push_decimal, push_str, string_of, to_ascii_lower,
};

verus! {

/// Classification of a localizable entry.
#[derive(Debug, Clone, Copy, PartialEq, Eq, Structural)]
pub enum LocKind {
    /// Character or narrator dialogue.
    Dialogue,
    /// Choice option text.
    Choice,
}

/// One localizable string extracted from a story program.
#[derive(Debug, Clone)]
pub struct LocEntry {
    /// Stable key (`scene:op:kind[:arm]`).
    pub key: String,
    /// Source scene name.
    pub scene: String,
    /// Source text (template with `{vars}` allowed).
    pub source: String,
    /// Optional speaker character id for dialogue.
    pub speaker: Option<String>,
    /// Kind of line.
    pub kind: LocKind,
}

/// Catalog of localization keys extracted from a program.
#[derive(Debug, Clone)]
pub struct LocCatalog {
    /// Entries in extraction order.
    pub entries: Vec<LocEntry>,
}

impl Default for LocCatalog {
    fn default() -> (r: Self)
        ensures
            r.entries@.len() == 0,
    {
        LocCatalog { entries: Vec::new() }
    }
}

impl LocCatalog {
    /// Number of keys.
    pub fn len(&self) -> (r: usize)
        ensures
            r == self.entries@.len(),
    {
        self.entries.len()
    }

    /// Whether the catalog is empty.
    pub fn is_empty(&self) -> (r: bool)
        ensures
            r == (self.entries@.len() == 0),
    {
        self.entries.len() == 0
    }

    /// The first entry with the given key.
    pub fn get(&self, key: &str) -> (r: Option<&LocEntry>)
        ensures
            match r {
                Some(e) => exists|i: int|
                    0 <= i < self.entries@.len() && self.entries@[i] == *e && e.key@ == key@
                        && forall|k: int| 0 <= k < i ==> (#[trigger] self.entries@[k]).key@ != key@,
                None => forall|k: int|
                    0 <= k < self.entries@.len() ==> (#[trigger] self.entries@[k]).key@ != key@,
            },
    {
        let want = chars_of(key);
        let mut i: usize = 0;
        while i < self.entries.len()
            invariant
                0 <= i <= self.entries@.len(),
                want@ == key@,
                forall|k: int| 0 <= k < i ==> (#[trigger] self.entries@[k]).key@ != key@,
            decreases self.entries@.len() - i,
        {
            let c = chars_of(self.entries[i].key.as_str());
            if chars_eq(c.as_slice(), want.as_slice()) {
                return Some(&self.entries[i]);
            }
            i += 1;
        }
        None
    }
}

/// Key of the dialogue line at op `n` of `scene`: `scene:n:dialogue`.
pub open spec fn dialogue_key_spec(scene: Seq<char>, n: nat) -> Seq<char> {
    scene + ":"@ + decimal(n) + ":dialogue"@
}

/// Key of choice arm `arm` of the choice at op `n`: `scene:n:choice:arm`.
pub open spec fn choice_key_spec(scene: Seq<char>, n: nat, arm: nat) -> Seq<char> {
    scene + ":"@ + decimal(n) + ":choice:"@ + decimal(arm)
}

/// Stable dialogue key for an op index.
pub fn dialogue_key(scene: &str, op_index: usize) -> (r: String)
    ensures
        r@ == dialogue_key_spec(scene@, op_index as nat),
{
    let mut s = owned(scene);
    push_str(&mut s, ":");
    push_decimal(&mut s, op_index);
    push_str(&mut s, ":dialogue");
    s
}

/// Stable choice key for an op index and arm.
pub fn choice_key(scene: &str, op_index: usize, arm: usize) -> (r: String)
    ensures
        r@ == choice_key_spec(scene@, op_index as nat, arm as nat),
{
    let mut s = owned(scene);
    push_str(&mut s, ":");
    push_decimal(&mut s, op_index);
    push_str(&mut s, ":choice:");
    push_decimal(&mut s, arm);
    s
}

/// If `x + [':'] + d1 == y + [':'] + d2` where `d1` and `d2` are made of
/// digits, then `x == y` and `d1 == d2`.
proof fn lemma_split_last_colon(x: Seq<char>, d1: Seq<char>, y: Seq<char>, d2: Seq<char>)
    requires
        x + seq![':'] + d1 == y + seq![':'] + d2,
        forall|k: int| 0 <= k < d1.len() ==> is_ascii_digit(#[trigger] d1[k]),
        forall|k: int| 0 <= k < d2.len() ==> is_ascii_digit(#[trigger] d2[k]),
    ensures
        x == y,
        d1 == d2,
{
    let s = x + seq![':'] + d1;
    let t = y + seq![':'] + d2;
    let n = s.len();
    if d1.len() < d2.len() {
        assert(s[n - d1.len() - 1] == ':');
        assert(t[n - d1.len() - 1] == d2[d2.len() - d1.len() - 1]);
    } else if d2.len() < d1.len() {
        assert(t[n - d2.len() - 1] == ':');
        assert(s[n - d2.len() - 1] == d1[d1.len() - d2.len() - 1]);
    } else {
        assert(x =~= s.subrange(0, x.len() as int));
        assert(y =~= t.subrange(0, y.len() as int));
        assert(d1 =~= s.subrange(n - d1.len(), n as int));
        assert(d2 =~= t.subrange(n - d2.len(), n as int));
    }
}

/// Localization keys are unique: a dialogue key determines its scene and
/// op index, a choice key its scene, op index and arm, and no dialogue key
/// equals a choice key.
pub proof fn lemma_loc_keys_distinct(s1: Seq<char>, n1: nat, a1: nat, s2: Seq<char>, n2: nat, a2: nat)
    ensures
        dialogue_key_spec(s1, n1) == dialogue_key_spec(s2, n2) ==> s1 == s2 && n1 == n2,
        choice_key_spec(s1, n1, a1) == choice_key_spec(s2, n2, a2) ==> s1 == s2 && n1 == n2 && a1
            == a2,
        dialogue_key_spec(s1, n1) != choice_key_spec(s2, n2, a2),
{
    reveal_strlit(":");
    reveal_strlit(":dialogue");
    reveal_strlit(":choice:");
    lemma_decimal_digits(n1);
    lemma_decimal_digits(n2);
    lemma_decimal_digits(a1);
    lemma_decimal_digits(a2);
    let suffix_d = ":dialogue"@;
    if dialogue_key_spec(s1, n1) == dialogue_key_spec(s2, n2) {
        let k1 = dialogue_key_spec(s1, n1);
        let k2 = dialogue_key_spec(s2, n2);
        let p1 = s1 + seq![':'] + decimal(n1);
        let p2 = s2 + seq![':'] + decimal(n2);
        assert(k1 =~= p1 + suffix_d);
        assert(k2 =~= p2 + suffix_d);
        assert(p1 =~= k1.subrange(0, k1.len() - suffix_d.len()));
        assert(p2 =~= k2.subrange(0, k2.len() - suffix_d.len()));
        lemma_split_last_colon(s1, decimal(n1), s2, decimal(n2));
        lemma_decimal_injective(n1, n2);
    }
    if choice_key_spec(s1, n1, a1) == choice_key_spec(s2, n2, a2) {
        let k1 = choice_key_spec(s1, n1, a1);
        let k2 = choice_key_spec(s2, n2, a2);
        let x1 = s1 + ":"@ + decimal(n1) + seq![':', 'c', 'h', 'o', 'i', 'c', 'e'];
        let x2 = s2 + ":"@ + decimal(n2) + seq![':', 'c', 'h', 'o', 'i', 'c', 'e'];
        assert(k1 =~= x1 + seq![':'] + decimal(a1));
        assert(k2 =~= x2 + seq![':'] + decimal(a2));
        lemma_split_last_colon(x1, decimal(a1), x2, decimal(a2));
        lemma_decimal_injective(a1, a2);
        let p1 = s1 + seq![':'] + decimal(n1);
        let p2 = s2 + seq![':'] + decimal(n2);
        assert(p1 =~= x1.subrange(0, x1.len() - 7));
        assert(p2 =~= x2.subrange(0, x2.len() - 7));
        lemma_split_last_colon(s1, decimal(n1), s2, decimal(n2));
        lemma_decimal_injective(n1, n2);
    }
    let d = dialogue_key_spec(s1, n1);
    let c = choice_key_spec(s2, n2, a2);
    assert(d.last() == 'e');
    assert(c.last() == decimal(a2).last());
    assert(is_ascii_digit(decimal(a2)[decimal(a2).len() - 1]));
}

/// One step of slug building: ASCII letters and digits are kept
/// (lower-cased); whitespace, `-` and `_` become one `_` between words.
pub open spec fn slug_step(out: Seq<char>, ch: char) -> Seq<char> {
    if is_ascii_alnum(ch) {
        out.push(ascii_lower(ch))
    } else if (is_ws(ch) || ch == '-' || ch == '_') && out.len() > 0 && out.last() != '_' {
        out.push('_')
    } else {
        out
    }
}

/// Slug building over `s`, stopping once `max` characters are reached.
pub open spec fn slug_scan(s: Seq<char>, out: Seq<char>, max: nat) -> Seq<char>
    decreases s.len(),
{
    if s.len() == 0 {
        out
    } else {
        let o = slug_step(out, s[0]);
        if o.len() >= max {
            o
        } else {
            slug_scan(s.drop_first(), o, max)
        }
    }
}

/// `s` without trailing underscores.
pub open spec fn drop_trailing_underscores(s: Seq<char>) -> Seq<char>
    decreases s.len(),
{
    if s.len() > 0 && s.last() == '_' {
        drop_trailing_underscores(s.drop_last())
    } else {
        s
    }
}

/// The slug of `text` with length budget `max`; `line` when nothing is left.
pub open spec fn slug(text: Seq<char>, max: nat) -> Seq<char> {
    let r = drop_trailing_underscores(slug_scan(text, seq![], max));
    if r.len() == 0 {
        "line"@
    } else {
        r
    }
}

/// Characters a slug is made of.
pub open spec fn slug_char(c: char) -> bool {
    ('a' <= c <= 'z') || ('0' <= c <= '9') || c == '_'
}

/// A well-shaped partial slug: slug characters, no leading `_`, no `__`.
pub open spec fn slug_shaped(s: Seq<char>) -> bool {
    &&& forall|k: int| 0 <= k < s.len() ==> slug_char(#[trigger] s[k])
    &&& (s.len() > 0 ==> s[0] != '_')
    &&& forall|k: int| 0 <= k < s.len() - 1 ==> !(#[trigger] s[k] == '_' && s[k + 1] == '_')
}

/// Scanning keeps a partial slug well shaped and within budget.
proof fn lemma_slug_scan_shape(s: Seq<char>, out: Seq<char>, max: nat)
    requires
        slug_shaped(out),
        out.len() < max || (out.len() == 0),
    ensures
        slug_shaped(slug_scan(s, out, max)),
        slug_scan(s, out, max).len() <= if max == 0 {
            1
        } else {
            max
        },
    decreases s.len(),
{
    if s.len() > 0 {
        let o = slug_step(out, s[0]);
        let c = s[0];
        if is_ascii_alnum(c) {
            assert(slug_char(ascii_lower(c)));
        }
        assert(slug_shaped(o)) by {
            if o.len() > out.len() {
                assert forall|k: int| 0 <= k < o.len() - 1 implies !(#[trigger] o[k] == '_' && o[k
                    + 1] == '_') by {
                    if k < out.len() - 1 {
                        assert(o[k] == out[k] && o[k + 1] == out[k + 1]);
                    }
                }
            }
        }
        if o.len() < max {
            lemma_slug_scan_shape(s.drop_first(), o, max);
        }
    }
}

/// Slugs are made of `a-z`, `0-9` and single inner underscores; they are
/// never empty and stay within the budget (at least one character), or are
/// `line`.
pub proof fn lemma_slug_shape(text: Seq<char>, max: nat)
    ensures
        slug(text, max).len() > 0,
        forall|k: int| 0 <= k < slug(text, max).len() ==> slug_char(#[trigger] slug(text, max)[k]),
        slug(text, max)[0] != '_',
        slug(text, max).last() != '_',
        forall|k: int|
            0 <= k < slug(text, max).len() - 1 ==> !(#[trigger] slug(text, max)[k] == '_' && slug(
                text,
                max,
            )[k + 1] == '_'),
        slug(text, max) == "line"@ || slug(text, max).len() <= if max == 0 {
            1
        } else {
            max
        },
{
    reveal_strlit("line");
    let scanned = slug_scan(text, seq![], max);
    lemma_slug_scan_shape(text, seq![], max);
    lemma_drop_underscores(scanned);
}

/// Dropping trailing underscores keeps a partial slug well shaped and gives
/// one that does not end with `_`.
proof fn lemma_drop_underscores(s: Seq<char>)
    requires
        slug_shaped(s),
    ensures
        slug_shaped(drop_trailing_underscores(s)),
        drop_trailing_underscores(s).len() <= s.len(),
        drop_trailing_underscores(s).len() > 0 ==> drop_trailing_underscores(s).last() != '_',
        drop_trailing_underscores(s) == s.take(drop_trailing_underscores(s).len() as int),
    decreases s.len(),
{
    if s.len() > 0 && s.last() == '_' {
        let d = s.drop_last();
        assert(slug_shaped(d)) by {
            assert forall|k: int| 0 <= k < d.len() - 1 implies !(#[trigger] d[k] == '_' && d[k
                + 1] == '_') by {
                assert(d[k] == s[k] && d[k + 1] == s[k + 1]);
            }
        }
        lemma_drop_underscores(d);
        assert(d.take(drop_trailing_underscores(d).len() as int) =~= s.take(
            drop_trailing_underscores(d).len() as int,
        ));
    } else {
        assert(s.take(s.len() as int) =~= s);
    }
}

/// Normalize source text into a suggested key slug (not guaranteed unique).
pub fn slugify_text(text: &str, max_len: usize) -> (r: String)
    ensures
        r@ == slug(text@, max_len as nat),
{
    let v = chars_of(text);
    let mut out: Vec<char> = Vec::new();
    let mut i: usize = 0;
    let mut stop = false;
    let ghost goal = slug_scan(text@, seq![], max_len as nat);
    assert(v@.skip(0) =~= v@);
    while i < v.len() && !stop
        invariant
            0 <= i <= v.len(),
            v@ == text@,
            goal == slug_scan(text@, seq![], max_len as nat),
            stop ==> goal == out@,
            !stop ==> goal == slug_scan(v@.skip(i as int), out@, max_len as nat),
        decreases v.len() - i + if stop {
            0int
        } else {
            1int
        },
    {
        let ch = v[i];
        assert(v@.skip(i as int)[0] == ch);
        assert(v@.skip(i as int).drop_first() =~= v@.skip(i + 1));
        if ascii_alphanumeric(ch) {
            out.push(to_ascii_lower(ch));
        } else if (is_whitespace(ch) || ch == '-' || ch == '_') && out.len() > 0 && out[out.len()
            - 1] != '_' {
            out.push('_');
        }
        if out.len() >= max_len {
            stop = true;
        } else {
            i += 1;
        }
    }
    let ghost scanned = out@;
    assert(scanned == goal) by {
        if !stop {
            assert(v@.skip(i as int).len() == 0);
        }
    }
    while out.len() > 0 && out[out.len() - 1] == '_'
        invariant
            drop_trailing_underscores(scanned) == drop_trailing_underscores(out@),
        decreases out@.len(),
    {
        out.pop();
    }
    if out.len() == 0 {
        owned("line")
    } else {
        string_of(out.as_slice())
    }
}

/// PO escaping of one character.
pub open spec fn po_escape_char(c: char) -> Seq<char> {
    if c == '\\' {
        seq!['\\', '\\']
    } else if c == '"' {
        seq!['\\', '"']
    } else {
        seq![c]
    }
}

/// PO escaping: backslashes and double quotes get a backslash.
pub open spec fn po_escape(s: Seq<char>) -> Seq<char>
    decreases s.len(),
{
    if s.len() == 0 {
        seq![]
    } else {
        po_escape(s.drop_last()) + po_escape_char(s.last())
    }
}

/// Escape a string for a PO `msgid` line.
pub fn escape_po(s: &str) -> (r: String)
    ensures
        r@ == po_escape(s@),
{
    let v = chars_of(s);
    let mut out = String::new();
    let mut i: usize = 0;
    while i < v.len()
        invariant
            0 <= i <= v.len(),
            v@ == s@,
            out@ == po_escape(v@.take(i as int)),
        decreases v.len() - i,
    {
        let c = v[i];
        assert(v@.take(i + 1).drop_last() =~= v@.take(i as int));
        if c == '\\' {
            push_char(&mut out, '\\');
            push_char(&mut out, '\\');
        } else if c == '"' {
            push_char(&mut out, '\\');
            push_char(&mut out, '"');
        } else {
            push_char(&mut out, c);
        }
        assert(out@ =~= po_escape(v@.take(i + 1)));
        i += 1;
    }
    assert(v@.take(v.len() as int) =~= v@);
    out
}

/// Debug name of a kind.
pub open spec fn kind_name(k: LocKind) -> Seq<char> {
    match k {
        LocKind::Dialogue => "Dialogue"@,
        LocKind::Choice => "Choice"@,
    }
}

/// The speaker comment line of a template block, if any.
pub open spec fn speaker_line(speaker: Option<String>) -> Seq<char> {
    match speaker {
        Some(sp) => "# . speaker: "@ + sp@ + "\n"@,
        None => Seq::<char>::empty(),
    }
}

/// The template block of one entry.
pub open spec fn po_block(e: LocEntry) -> Seq<char> {
    "# . "@ + e.scene@ + ": "@ + kind_name(e.kind) + "\n"@ + speaker_line(e.speaker) + "msgctxt \""@ + e.key@ + "\"\n"@ + "msgid \""@ + po_escape(e.source@) + "\"\n"@
        + "msgstr \"\"\n\n"@
}

/// The template blocks of all entries, in order.
pub open spec fn po_blocks(es: Seq<LocEntry>) -> Seq<char>
    decreases es.len(),
{
    if es.len() == 0 {
        seq![]
    } else {
        po_blocks(es.drop_last()) + po_block(es.last())
    }
}

/// Appends the template block of one entry.
#[verifier::rlimit(40)]
fn push_po_block(out: &mut String, e: &LocEntry)
    ensures
        final(out)@ == old(out)@ + po_block(*e),
{
    let ghost start = out@;
    push_str(out, "# . ");
    push_str(out, e.scene.as_str());
    push_str(out, ": ");
    match e.kind {
        LocKind::Dialogue => push_str(out, "Dialogue"),
        LocKind::Choice => push_str(out, "Choice"),
    }
    push_str(out, "\n");
    let ghost head = out@;
    assert(head =~= start + ("# . "@ + e.scene@ + ": "@ + kind_name(e.kind) + "\n"@));
    match &e.speaker {
        Some(sp) => {
            push_str(out, "# . speaker: ");
            push_str(out, sp.as_str());
            push_str(out, "\n");
        },
        None => {},
    }
    let ghost mid = out@;
    let ghost spk = speaker_line(e.speaker);
    assert(mid =~= head + spk);
    push_str(out, "msgctxt \"");
    push_str(out, e.key.as_str());
    push_str(out, "\"\n");
    push_str(out, "msgid \"");
    let esc = escape_po(e.source.as_str());
    push_str(out, esc.as_str());
    push_str(out, "\"\n");
    push_str(out, "msgstr \"\"\n\n");
    let ghost tail = "msgctxt \""@ + e.key@ + "\"\n"@ + "msgid \""@ + po_escape(e.source@) + "\"\n"@
        + "msgstr \"\"\n\n"@;
    assert(out@ =~= mid + tail);
    assert(po_block(*e) =~= ("# . "@ + e.scene@ + ": "@ + kind_name(e.kind) + "\n"@) + spk + tail);
}

/// Export a catalog as a PO-like template (key as `msgctxt`, source as
/// `msgid`, empty `msgstr`).
pub fn catalog_to_po_template(catalog: &LocCatalog) -> (r: String)
    ensures
        r@ == "# Velvet Engine localization template\n\n"@ + po_blocks(catalog.entries@),
{
    let mut out = owned("# Velvet Engine localization template\n\n");
    let ghost head = out@;
    let mut i: usize = 0;
    while i < catalog.entries.len()
        invariant
            0 <= i <= catalog.entries@.len(),
            head == "# Velvet Engine localization template\n\n"@,
            out@ == head + po_blocks(catalog.entries@.take(i as int)),
        decreases catalog.entries@.len() - i,
    {
        let e = &catalog.entries[i];
        push_po_block(&mut out, e);
        assert(catalog.entries@.take(i + 1).drop_last() =~= catalog.entries@.take(i as int));
        i += 1;
    }
    assert(catalog.entries@.take(i as int) =~= catalog.entries@);
    out
}

/// Key to source text of catalog entries, in order (a later entry with the
/// same key replaces the earlier text in place).
pub open spec fn source_pairs(es: Seq<LocEntry>) -> Seq<(Seq<char>, Seq<char>)>
    decreases es.len(),
{
    if es.len() == 0 {
        Seq::empty()
    } else {
        inserted(source_pairs(es.drop_last()), es.last().key@, es.last().source@)
    }
}

impl LocCatalog {
    /// Map key to source text.
    pub fn source_map(&self) -> (m: IndexMap<String, String>)
        ensures
            table_entries(m) == source_pairs(self.entries@),
    {
        let mut m = new_table();
        let mut i: usize = 0;
        while i < self.entries.len()
            invariant
                0 <= i <= self.entries@.len(),
                table_entries(m) == source_pairs(self.entries@.take(i as int)),
            decreases self.entries@.len() - i,
        {
            assert(self.entries@.take(i + 1).drop_last() =~= self.entries@.take(i as int));
            let e = &self.entries[i];
            table_insert(&mut m, owned(e.key.as_str()), owned(e.source.as_str()));
            i += 1;
        }
        assert(self.entries@.take(self.entries@.len() as int) =~= self.entries@);
        m
    }
}

} // verus!
