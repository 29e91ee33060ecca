//! The localizable part of story ops: dialogue lines, choice menus and the
//! bodies nested in them. Lines are extracted into a [`LocCatalog`] under
//! stable keys, and rewritten from a translation table.

use vstd::prelude::*;

use crate::localization::{
    choice_key, choice_key_spec, dialogue_key, dialogue_key_spec, LocCatalog, LocEntry, LocKind,
};
use indexmap::IndexSet;

use crate::po::{
    inserted, lookup, new_table, table_entries, table_get, table_insert, TranslationTable,
};
use crate::strings::{
    ascii_lower, chars_of, opt_view, owned, strs_view, to_ascii_lower, trim, trim_chars,
};

verus! {

/// What localization reads of one story op.
#[derive(Debug)]
pub enum LocOp {
    /// A dialogue line.
    Dialogue {
        /// Speaker character id (`None` for the narrator).
        speaker: Option<String>,
        /// Line text (may contain `{vars}`).
        text: String,
    },
    /// A choice menu.
    Choice {
        /// The arms, in order.
        options: Vec<LocChoice>,
    },
    /// A conditional block.
    If {
        /// Ops run when the condition holds.
        then_ops: Vec<LocOp>,
        /// Ops run otherwise.
        else_ops: Vec<LocOp>,
    },
    /// Any other op; localization leaves it as it is.
    Other,
}

/// One arm of a choice menu.
#[derive(Debug)]
pub struct LocChoice {
    /// Option text.
    pub text: String,
    /// Ops run when the arm is picked.
    pub body: Vec<LocOp>,
}

/// A scene: its name and its ops.
#[derive(Debug)]
pub struct LocScene {
    /// Scene name.
    pub name: String,
    /// Ops in order.
    pub ops: Vec<LocOp>,
}

/// A catalog line as plain values.
pub struct LocLine {
    /// Stable key.
    pub key: Seq<char>,
    /// Scene name.
    pub scene: Seq<char>,
    /// Source text.
    pub source: Seq<char>,
    /// Speaker of a dialogue line.
    pub speaker: Option<Seq<char>>,
    /// Kind of line.
    pub kind: LocKind,
}

/// The plain values of a catalog entry.
pub open spec fn line_of(e: LocEntry) -> LocLine {
    LocLine {
        key: e.key@,
        scene: e.scene@,
        source: e.source@,
        speaker: opt_view(e.speaker),
        kind: e.kind,
    }
}

/// The plain values of catalog entries.
pub open spec fn lines_of(es: Seq<LocEntry>) -> Seq<LocLine> {
    Seq::new(es.len(), |i: int| line_of(es[i]))
}

/// Lines of one op standing at index `n` of its list.
pub open spec fn op_lines(scene: Seq<char>, op: LocOp, n: nat) -> Seq<LocLine>
    decreases op, 0int,
{
    match op {
        LocOp::Dialogue { speaker, text } => seq![
            LocLine {
                key: dialogue_key_spec(scene, n),
                scene,
                source: text@,
                speaker: opt_view(speaker),
                kind: LocKind::Dialogue,
            },
        ],
        LocOp::Choice { options } => arms_lines(scene, options@, n),
        LocOp::If { then_ops, else_ops } => ops_lines(scene, then_ops@) + ops_lines(
            scene,
            else_ops@,
        ),
        LocOp::Other => seq![],
    }
}

/// Lines of the arms of the choice at index `n`: each arm's option line,
/// then the lines of its body.
pub open spec fn arms_lines(scene: Seq<char>, arms: Seq<LocChoice>, n: nat) -> Seq<LocLine>
    decreases arms, 1int,
{
    if arms.len() == 0 {
        seq![]
    } else {
        let a = arms.len() - 1;
        arms_lines(scene, arms.subrange(0, a), n) + seq![
            LocLine {
                key: choice_key_spec(scene, n, a as nat),
                scene,
                source: arms[a].text@,
                speaker: None,
                kind: LocKind::Choice,
            },
        ] + ops_lines(scene, arms[a].body@)
    }
}

/// Lines of a list of ops, in order; the key of each line names the index
/// of its op within the list.
pub open spec fn ops_lines(scene: Seq<char>, ops: Seq<LocOp>) -> Seq<LocLine>
    decreases ops, 1int,
{
    if ops.len() == 0 {
        seq![]
    } else {
        let i = ops.len() - 1;
        ops_lines(scene, ops.subrange(0, i)) + op_lines(scene, ops[i], i as nat)
    }
}

/// The entry for a dialogue line.
fn dialogue_entry(scene: &str, n: usize, speaker: &Option<String>, text: &String) -> (e: LocEntry)
    ensures
        line_of(e) == (LocLine {
            key: dialogue_key_spec(scene@, n as nat),
            scene: scene@,
            source: text@,
            speaker: opt_view(*speaker),
            kind: LocKind::Dialogue,
        }),
{
    LocEntry {
        key: dialogue_key(scene, n),
        scene: owned(scene),
        source: owned(text.as_str()),
        speaker: match speaker {
            Some(s) => Some(owned(s.as_str())),
            None => None,
        },
        kind: LocKind::Dialogue,
    }
}

/// Appending an entry appends its line.
proof fn lemma_lines_push(es: Seq<LocEntry>, e: LocEntry)
    ensures
        lines_of(es.push(e)) == lines_of(es).push(line_of(e)),
{
    assert(lines_of(es.push(e)) =~= lines_of(es).push(line_of(e)));
}

/// The body of an arm of a choice in `ops` is smaller than `ops`.
proof fn lemma_arm_body_smaller(ops: Seq<LocOp>, i: int, options: Vec<LocChoice>, a: int)
    requires
        0 <= i < ops.len(),
        ops[i] == (LocOp::Choice { options }),
        0 <= a < options@.len(),
    ensures
        decreases_to!(ops => options@[a].body@),
{
    assert(decreases_to!(ops => ops[i]));
    assert(decreases_to!(ops[i] => ops[i]->options));
    assert(decreases_to!(options => options@));
    assert(decreases_to!(options@ => options@[a]));
    assert(decreases_to!(options@[a] => options@[a].body));
    assert(decreases_to!(options@[a].body => options@[a].body@));
}

/// Appends the lines of `ops` (of scene `scene`) to the catalog.
pub fn extract_from_ops(scene: &str, ops: &Vec<LocOp>, catalog: &mut LocCatalog)
    ensures
        lines_of(final(catalog).entries@) == lines_of(old(catalog).entries@) + ops_lines(
            scene@,
            ops@,
        ),
    decreases ops@,
{
    let ghost e0 = lines_of(catalog.entries@);
    let mut i: usize = 0;
    assert(ops@.take(0) =~= Seq::<LocOp>::empty());
    while i < ops.len()
        invariant
            0 <= i <= ops.len(),
            lines_of(catalog.entries@) == e0 + ops_lines(scene@, ops@.take(i as int)),
        decreases ops.len() - i,
    {
        let ghost before = lines_of(catalog.entries@);
        assert(ops@.take(i + 1).subrange(0, i as int) =~= ops@.take(i as int));
        assert(ops@.take(i + 1)[i as int] == ops@[i as int]);
        match &ops[i] {
            LocOp::Dialogue { speaker, text } => {
                let e = dialogue_entry(scene, i, speaker, text);
                proof {
                    lemma_lines_push(catalog.entries@, e);
                }
                catalog.entries.push(e);
                assert(lines_of(catalog.entries@) =~= before + op_lines(
                    scene@,
                    ops@[i as int],
                    i as nat,
                ));
            },
            LocOp::Choice { options } => {
                let ghost c0 = lines_of(catalog.entries@);
                let mut a: usize = 0;
                assert(options@.take(0) =~= Seq::<LocChoice>::empty());
                while a < options.len()
                    invariant
                        0 <= a <= options.len(),
                        i < ops.len(),
                        ops@[i as int] == (LocOp::Choice { options: *options }),
                        lines_of(catalog.entries@) == c0 + arms_lines(
                            scene@,
                            options@.take(a as int),
                            i as nat,
                        ),
                    decreases options.len() - a,
                {
                    let arm = &options[a];
                    assert(options@.take(a + 1).subrange(0, a as int) =~= options@.take(a as int));
                    assert(options@.take(a + 1)[a as int] == *arm);
                    let e = LocEntry {
                        key: choice_key(scene, i, a),
                        scene: owned(scene),
                        source: owned(arm.text.as_str()),
                        speaker: None,
                        kind: LocKind::Choice,
                    };
                    proof {
                        lemma_lines_push(catalog.entries@, e);
                    }
                    catalog.entries.push(e);
                    let ghost mid = lines_of(catalog.entries@);
                    proof {
                        lemma_arm_body_smaller(ops@, i as int, *options, a as int);
                    }
                    extract_from_ops(scene, &arm.body, catalog);
                    a += 1;
                    assert(lines_of(catalog.entries@) =~= c0 + arms_lines(
                        scene@,
                        options@.take(a as int),
                        i as nat,
                    ));
                }
                assert(options@.take(options.len() as int) =~= options@);
                assert(lines_of(catalog.entries@) =~= before + op_lines(
                    scene@,
                    ops@[i as int],
                    i as nat,
                ));
            },
            LocOp::If { then_ops, else_ops } => {
                assert(decreases_to!(ops@ => then_ops@));
                extract_from_ops(scene, then_ops, catalog);
                assert(decreases_to!(ops@ => else_ops@));
                extract_from_ops(scene, else_ops, catalog);
                assert(lines_of(catalog.entries@) =~= before + op_lines(
                    scene@,
                    ops@[i as int],
                    i as nat,
                ));
            },
            LocOp::Other => {
                assert(lines_of(catalog.entries@) =~= before + op_lines(
                    scene@,
                    ops@[i as int],
                    i as nat,
                ));
            },
        }
        i += 1;
        assert(lines_of(catalog.entries@) =~= e0 + ops_lines(scene@, ops@.take(i as int)));
    }
    assert(ops@.take(ops.len() as int) =~= ops@);
}

/// A line whose source is replaced by the table's text for its key, when
/// the table has that key.
pub open spec fn translate_line(l: LocLine, t: Seq<(Seq<char>, Seq<char>)>) -> LocLine {
    match lookup(t, l.key) {
        Some(v) => LocLine { source: v, ..l },
        None => l,
    }
}

/// Every line translated by the table.
pub open spec fn translate_lines(ls: Seq<LocLine>, t: Seq<(Seq<char>, Seq<char>)>) -> Seq<
    LocLine,
> {
    Seq::new(ls.len(), |k: int| translate_line(ls[k], t))
}

/// Translating a concatenation translates each part.
pub proof fn lemma_translate_concat(a: Seq<LocLine>, b: Seq<LocLine>, t: Seq<(Seq<char>, Seq<char>)>)
    ensures
        translate_lines(a + b, t) == translate_lines(a, t) + translate_lines(b, t),
{
    assert(translate_lines(a + b, t) =~= translate_lines(a, t) + translate_lines(b, t));
}

/// Two ops have the same shape: the same kind, the same speaker, the same
/// number of arms and ops at every level. Texts may differ.
pub open spec fn same_op_shape(a: LocOp, b: LocOp) -> bool
    decreases a, 0int,
{
    match a {
        LocOp::Dialogue { speaker, .. } => match b {
            LocOp::Dialogue { speaker: s2, .. } => opt_view(speaker) == opt_view(s2),
            _ => false,
        },
        LocOp::Choice { options } => match b {
            LocOp::Choice { options: o2 } => same_arms_shape(options@, o2@),
            _ => false,
        },
        LocOp::If { then_ops, else_ops } => match b {
            LocOp::If { then_ops: t2, else_ops: e2 } => same_ops_shape(then_ops@, t2@)
                && same_ops_shape(else_ops@, e2@),
            _ => false,
        },
        LocOp::Other => b is Other,
    }
}

/// Arm lists of the same shape: as many arms, bodies of the same shape.
pub open spec fn same_arms_shape(a: Seq<LocChoice>, b: Seq<LocChoice>) -> bool
    decreases a, 1int,
{
    a.len() == b.len() && (a.len() == 0 || (same_arms_shape(
        a.subrange(0, a.len() - 1),
        b.subrange(0, b.len() - 1),
    ) && same_ops_shape(a[a.len() - 1].body@, b[b.len() - 1].body@)))
}

/// Op lists of the same shape, op by op.
pub open spec fn same_ops_shape(a: Seq<LocOp>, b: Seq<LocOp>) -> bool
    decreases a, 1int,
{
    a.len() == b.len() && (a.len() == 0 || (same_ops_shape(
        a.subrange(0, a.len() - 1),
        b.subrange(0, b.len() - 1),
    ) && same_op_shape(a[a.len() - 1], b[b.len() - 1])))
}

/// The table's text for `key`, or `fallback`.
fn translated_text(table: &TranslationTable, key: &String, fallback: &String) -> (r: String)
    ensures
        r@ == (match lookup(table_entries(*table), key@) {
            Some(v) => v,
            None => fallback@,
        }),
{
    match table_get(table, key.as_str()) {
        Some(v) => owned(v.as_str()),
        None => owned(fallback.as_str()),
    }
}

/// `ops` with each dialogue and option text replaced by the table's text
/// for its key; texts whose key is missing are kept.
pub fn rewrite_scene_ops(scene: &str, ops: &Vec<LocOp>, table: &TranslationTable) -> (r: Vec<LocOp>)
    ensures
        same_ops_shape(ops@, r@),
        ops_lines(scene@, r@) == translate_lines(ops_lines(scene@, ops@), table_entries(*table)),
    decreases ops@,
{
    let ghost t = table_entries(*table);
    let mut out: Vec<LocOp> = Vec::new();
    let mut i: usize = 0;
    assert(ops@.take(0) =~= Seq::<LocOp>::empty());
    while i < ops.len()
        invariant
            0 <= i <= ops.len(),
            t == table_entries(*table),
            same_ops_shape(ops@.take(i as int), out@),
            ops_lines(scene@, out@) == translate_lines(ops_lines(scene@, ops@.take(i as int)), t),
        decreases ops.len() - i,
    {
        let ghost out0 = out@;
        let ghost pre = ops@.take(i as int);
        assert(ops@.take(i + 1).subrange(0, i as int) =~= pre);
        assert(ops@.take(i + 1)[i as int] == ops@[i as int]);
        let next: LocOp = match &ops[i] {
            LocOp::Dialogue { speaker, text } => {
                let key = dialogue_key(scene, i);
                let nt = translated_text(table, &key, text);
                let sp = match speaker {
                    Some(s) => Some(owned(s.as_str())),
                    None => None,
                };
                let n = LocOp::Dialogue { speaker: sp, text: nt };
                assert(op_lines(scene@, n, i as nat) =~= translate_lines(
                    op_lines(scene@, ops@[i as int], i as nat),
                    t,
                ));
                n
            },
            LocOp::Choice { options } => {
                let mut arms: Vec<LocChoice> = Vec::new();
                let mut a: usize = 0;
                assert(options@.take(0) =~= Seq::<LocChoice>::empty());
                while a < options.len()
                    invariant
                        0 <= a <= options.len(),
                        i < ops.len(),
                        t == table_entries(*table),
                        ops@[i as int] == (LocOp::Choice { options: *options }),
                        same_arms_shape(options@.take(a as int), arms@),
                        arms_lines(scene@, arms@, i as nat) == translate_lines(
                            arms_lines(scene@, options@.take(a as int), i as nat),
                            t,
                        ),
                    decreases options.len() - a,
                {
                    let arm = &options[a];
                    let ghost arms0 = arms@;
                    let ghost opre = options@.take(a as int);
                    assert(options@.take(a + 1).subrange(0, a as int) =~= opre);
                    assert(options@.take(a + 1)[a as int] == *arm);
                    let key = choice_key(scene, i, a);
                    let nt = translated_text(table, &key, &arm.text);
                    proof {
                        lemma_arm_body_smaller(ops@, i as int, *options, a as int);
                    }
                    let body = rewrite_scene_ops(scene, &arm.body, table);
                    let na = LocChoice { text: nt, body };
                    arms.push(na);
                    assert(arms@.subrange(0, a as int) =~= arms0);
                    assert(arms@[a as int] == na);
                    a += 1;
                    let ghost line = LocLine {
                        key: choice_key_spec(scene@, i as nat, (a - 1) as nat),
                        scene: scene@,
                        source: arm.text@,
                        speaker: None,
                        kind: LocKind::Choice,
                    };
                    proof {
                        lemma_translate_concat(
                            arms_lines(scene@, opre, i as nat) + seq![line],
                            ops_lines(scene@, arm.body@),
                            t,
                        );
                        lemma_translate_concat(arms_lines(scene@, opre, i as nat), seq![line], t);
                    }
                    assert(translate_lines(seq![line], t) =~= seq![translate_line(line, t)]);
                }
                assert(options@.take(options.len() as int) =~= options@);
                LocOp::Choice { options: arms }
            },
            LocOp::If { then_ops, else_ops } => {
                assert(decreases_to!(ops@ => then_ops@));
                let th = rewrite_scene_ops(scene, then_ops, table);
                assert(decreases_to!(ops@ => else_ops@));
                let el = rewrite_scene_ops(scene, else_ops, table);
                proof {
                    lemma_translate_concat(ops_lines(scene@, then_ops@), ops_lines(scene@, else_ops@), t);
                }
                LocOp::If { then_ops: th, else_ops: el }
            },
            LocOp::Other => {
                assert(translate_lines(Seq::<LocLine>::empty(), t) =~= Seq::<LocLine>::empty());
                LocOp::Other
            },
        };
        assert(same_op_shape(ops@[i as int], next));
        assert(op_lines(scene@, next, i as nat) == translate_lines(
            op_lines(scene@, ops@[i as int], i as nat),
            t,
        ));
        out.push(next);
        assert(out@.subrange(0, i as int) =~= out0);
        proof {
            lemma_translate_concat(ops_lines(scene@, pre), op_lines(scene@, ops@[i as int], i as nat), t);
        }
        i += 1;
    }
    assert(ops@.take(ops.len() as int) =~= ops@);
    out
}

/// Lines of a whole program: each scene's lines under its name, scenes in
/// order.
pub open spec fn program_lines(scenes: Seq<LocScene>) -> Seq<LocLine>
    decreases scenes.len(),
{
    if scenes.len() == 0 {
        seq![]
    } else {
        let last = scenes[scenes.len() - 1];
        program_lines(scenes.subrange(0, scenes.len() - 1)) + ops_lines(last.name@, last.ops@)
    }
}

/// Catalog of one scene.
pub fn extract_scene_loc_keys(scene: &LocScene) -> (c: LocCatalog)
    ensures
        lines_of(c.entries@) == ops_lines(scene.name@, scene.ops@),
{
    let mut catalog = LocCatalog { entries: Vec::new() };
    assert(lines_of(catalog.entries@) =~= Seq::<LocLine>::empty());
    extract_from_ops(scene.name.as_str(), &scene.ops, &mut catalog);
    assert(lines_of(catalog.entries@) =~= ops_lines(scene.name@, scene.ops@));
    catalog
}

/// Catalog of a whole program (see [`program_lines`]).
pub fn extract_loc_keys(scenes: &Vec<LocScene>) -> (c: LocCatalog)
    ensures
        lines_of(c.entries@) == program_lines(scenes@),
{
    let mut catalog = LocCatalog { entries: Vec::new() };
    let mut i: usize = 0;
    assert(lines_of(catalog.entries@) =~= Seq::<LocLine>::empty());
    assert(scenes@.take(0) =~= Seq::<LocScene>::empty());
    while i < scenes.len()
        invariant
            0 <= i <= scenes.len(),
            lines_of(catalog.entries@) == program_lines(scenes@.take(i as int)),
        decreases scenes.len() - i,
    {
        assert(scenes@.take(i + 1).subrange(0, i as int) =~= scenes@.take(i as int));
        assert(scenes@.take(i + 1)[i as int] == scenes@[i as int]);
        extract_from_ops(scenes[i].name.as_str(), &scenes[i].ops, &mut catalog);
        i += 1;
    }
    assert(scenes@.take(scenes.len() as int) =~= scenes@);
    catalog
}

/// `out` is `scenes` with the table applied: the same scenes by name, ops of
/// the same shape, and lines whose sources are translated.
pub open spec fn applied(
    scenes: Seq<LocScene>,
    out: Seq<LocScene>,
    t: Seq<(Seq<char>, Seq<char>)>,
) -> bool {
    &&& out.len() == scenes.len()
    &&& forall|k: int|
        0 <= k < scenes.len() ==> {
            &&& (#[trigger] out[k]).name@ == scenes[k].name@
            &&& same_ops_shape(scenes[k].ops@, out[k].ops@)
            &&& ops_lines(out[k].name@, out[k].ops@) == translate_lines(
                ops_lines(scenes[k].name@, scenes[k].ops@),
                t,
            )
        }
}

impl LocCatalog {
    /// Applies a translation table to the scenes of a program: dialogue and
    /// option texts whose key the table has are replaced, the others kept.
    pub fn apply_to_program(&self, scenes: &Vec<LocScene>, table: &TranslationTable) -> (r: Vec<
        LocScene,
    >)
        ensures
            applied(scenes@, r@, table_entries(*table)),
    {
        let mut out: Vec<LocScene> = Vec::new();
        let mut i: usize = 0;
        while i < scenes.len()
            invariant
                0 <= i <= scenes.len(),
                applied(scenes@.take(i as int), out@, table_entries(*table)),
            decreases scenes.len() - i,
        {
            let sc = &scenes[i];
            let ops = rewrite_scene_ops(sc.name.as_str(), &sc.ops, table);
            let ghost out0 = out@;
            out.push(LocScene { name: owned(sc.name.as_str()), ops });
            i += 1;
            assert forall|k: int| 0 <= k < i implies {
                &&& (#[trigger] out@[k]).name@ == scenes@.take(i as int)[k].name@
                &&& same_ops_shape(scenes@.take(i as int)[k].ops@, out@[k].ops@)
                &&& ops_lines(out@[k].name@, out@[k].ops@) == translate_lines(
                    ops_lines(scenes@.take(i as int)[k].name@, scenes@.take(i as int)[k].ops@),
                    table_entries(*table),
                )
            } by {
                if k < i - 1 {
                    assert(out@[k] == out0[k]);
                    assert(scenes@.take(i as int)[k] == scenes@.take(i - 1)[k]);
                }
            }
        }
        assert(scenes@.take(scenes.len() as int) =~= scenes@);
        out
    }
}

/// Extracting the lines of a program after a table was applied gives the
/// lines of the original program, in the same order and under the same
/// keys, with each source replaced by the table's text for its key when the
/// table has that key.
pub proof fn lemma_extract_after_apply(
    scenes: Seq<LocScene>,
    out: Seq<LocScene>,
    t: Seq<(Seq<char>, Seq<char>)>,
)
    requires
        applied(scenes, out, t),
    ensures
        program_lines(out) == translate_lines(program_lines(scenes), t),
    decreases scenes.len(),
{
    if scenes.len() > 0 {
        let n = scenes.len() - 1;
        let s0 = scenes.subrange(0, n);
        let o0 = out.subrange(0, n);
        assert forall|k: int| 0 <= k < s0.len() implies {
            &&& (#[trigger] o0[k]).name@ == s0[k].name@
            &&& same_ops_shape(s0[k].ops@, o0[k].ops@)
            &&& ops_lines(o0[k].name@, o0[k].ops@) == translate_lines(
                ops_lines(s0[k].name@, s0[k].ops@),
                t,
            )
        } by {
            assert(o0[k] == out[k]);
            assert(s0[k] == scenes[k]);
        }
        lemma_extract_after_apply(s0, o0, t);
        assert(out[n].name@ == scenes[n].name@);
        lemma_translate_concat(
            program_lines(s0),
            ops_lines(scenes[n].name@, scenes[n].ops@),
            t,
        );
    }
}

/// Applying the same table twice gives the lines that applying it once
/// gives: keys do not change, so the second pass finds the same texts.
pub proof fn lemma_translate_idempotent(ls: Seq<LocLine>, t: Seq<(Seq<char>, Seq<char>)>)
    ensures
        translate_lines(translate_lines(ls, t), t) == translate_lines(ls, t),
{
    assert(translate_lines(translate_lines(ls, t), t) =~= translate_lines(ls, t));
}

/// A table without any of the keys leaves every line as it is.
pub proof fn lemma_translate_missing_keys(ls: Seq<LocLine>, t: Seq<(Seq<char>, Seq<char>)>)
    requires
        forall|k: int| 0 <= k < ls.len() ==> lookup(t, #[trigger] ls[k].key) is None,
    ensures
        translate_lines(ls, t) == ls,
{
    assert(translate_lines(ls, t) =~= ls);
}

/// Pairs of a target-language scaffold: every catalog key, in catalog
/// order, with the translation's text for it, or the source text when the
/// translation has none (a repeated key keeps its first place and takes the
/// later text).
pub open spec fn scaffold_pairs(es: Seq<LocEntry>, t: Seq<(Seq<char>, Seq<char>)>) -> Seq<
    (Seq<char>, Seq<char>),
>
    decreases es.len(),
{
    if es.len() == 0 {
        Seq::empty()
    } else {
        let e = es[es.len() - 1];
        inserted(
            scaffold_pairs(es.subrange(0, es.len() - 1), t),
            e.key@,
            match lookup(t, e.key@) {
                Some(v) => v,
                None => e.source@,
            },
        )
    }
}

/// The table written for a target language: each catalog key with its
/// translation, or its source text where the translation is missing.
pub fn tl_scaffold_table(catalog: &LocCatalog, translations: &TranslationTable) -> (r:
    TranslationTable)
    ensures
        table_entries(r) == scaffold_pairs(catalog.entries@, table_entries(*translations)),
{
    let mut out = new_table();
    let mut i: usize = 0;
    assert(catalog.entries@.take(0) =~= Seq::<LocEntry>::empty());
    while i < catalog.entries.len()
        invariant
            0 <= i <= catalog.entries@.len(),
            table_entries(out) == scaffold_pairs(
                catalog.entries@.take(i as int),
                table_entries(*translations),
            ),
        decreases catalog.entries@.len() - i,
    {
        let e = &catalog.entries[i];
        assert(catalog.entries@.take(i + 1).subrange(0, i as int) =~= catalog.entries@.take(
            i as int,
        ));
        assert(catalog.entries@.take(i + 1)[i as int] == *e);
        let text = translated_text(translations, &e.key, &e.source);
        table_insert(&mut out, owned(e.key.as_str()), text);
        i += 1;
    }
    assert(catalog.entries@.take(catalog.entries@.len() as int) =~= catalog.entries@);
    out
}

/// ASCII case-insensitive equality (`str::eq_ignore_ascii_case`).
pub open spec fn eq_ignore_case(a: Seq<char>, b: Seq<char>) -> bool {
    a.len() == b.len() && forall|k: int| 0 <= k < a.len() ==> ascii_lower(#[trigger] a[k])
        == ascii_lower(b[k])
}

/// Whether two character sequences match ignoring ASCII case.
fn eq_ignore_ascii_case(a: &[char], b: &str) -> (r: bool)
    ensures
        r == eq_ignore_case(a@, b@),
{
    let bv = chars_of(b);
    if a.len() != bv.len() {
        return false;
    }
    let mut k: usize = 0;
    while k < a.len()
        invariant
            a.len() == bv.len(),
            bv@ == b@,
            0 <= k <= a.len(),
            forall|j: int| 0 <= j < k ==> ascii_lower(#[trigger] a@[j]) == ascii_lower(bv@[j]),
        decreases a.len() - k,
    {
        if to_ascii_lower(a[k]) != to_ascii_lower(bv[k]) {
            return false;
        }
        k += 1;
    }
    true
}

/// A language asks for a translation unless it is empty, `en` or `none`
/// (trimmed, ASCII case ignored).
pub open spec fn needs_translation(lang: Seq<char>) -> bool {
    let l = trim(lang);
    !(l.len() == 0 || eq_ignore_case(l, "en"@) || eq_ignore_case(l, "none"@))
}

/// Whether a language pack must be applied for `lang`; the source language
/// (empty, `en`, `none`) is used as it is.
pub fn wants_translation(lang: &str) -> (r: bool)
    ensures
        r == needs_translation(lang@),
{
    let l = trim_chars(chars_of(lang).as_slice());
    !(l.len() == 0 || eq_ignore_ascii_case(l.as_slice(), "en") || eq_ignore_ascii_case(
        l.as_slice(),
        "none",
    ))
}

/// `indexmap::IndexSet`, an insertion-ordered hash set; opaque here, its
/// items are named by [`set_items`].
#[verifier::external_type_specification]
#[verifier::external_body]
#[verifier::reject_recursive_types(T)]
#[verifier::reject_recursive_types(S)]
pub struct ExIndexSet<T, S>(IndexSet<T, S>);

/// The strings a set holds, in insertion order.
pub uninterp spec fn set_items(s: IndexSet<String>) -> Seq<Seq<char>>;

/// `IndexSet::new`: an empty set.
#[verifier::external_body]
fn new_set() -> (s: IndexSet<String>)
    ensures
        set_items(s) == Seq::<Seq<char>>::empty(),
{
    IndexSet::new()
}

/// `IndexSet::insert`: an item equal to one already held leaves the set as
/// it was and gives `false`; a new item goes last and gives `true`.
#[verifier::external_body]
fn set_insert(s: &mut IndexSet<String>, v: String) -> (added: bool)
    ensures
        set_items(*old(s)).contains(v@) ==> set_items(*final(s)) == set_items(*old(s)) && !added,
        !set_items(*old(s)).contains(v@) ==> set_items(*final(s)) == set_items(*old(s)).push(v@)
            && added,
{
    s.insert(v)
}

/// `IndexSet::into_iter`, collected: the items in their order.
#[verifier::external_body]
fn set_into_vec(s: IndexSet<String>) -> (v: Vec<String>)
    ensures
        strs_view(v@) == set_items(s),
{
    s.into_iter().collect()
}

/// The speakers of lines, each once, in order of first appearance.
pub open spec fn speakers_of(ls: Seq<LocLine>) -> Seq<Seq<char>>
    decreases ls.len(),
{
    if ls.len() == 0 {
        seq![]
    } else {
        let u = speakers_of(ls.subrange(0, ls.len() - 1));
        match ls[ls.len() - 1].speaker {
            Some(sp) => if u.contains(sp) {
                u
            } else {
                u.push(sp)
            },
            None => u,
        }
    }
}

/// The characters that speak in a program, each once, in order of their
/// first line.
pub fn speakers_in_program(scenes: &Vec<LocScene>) -> (r: Vec<String>)
    ensures
        strs_view(r@) == speakers_of(program_lines(scenes@)),
{
    let cat = extract_loc_keys(scenes);
    let ghost ls = lines_of(cat.entries@);
    let mut set = new_set();
    let mut i: usize = 0;
    assert(ls.take(0) =~= Seq::<LocLine>::empty());
    while i < cat.entries.len()
        invariant
            0 <= i <= cat.entries@.len(),
            ls == lines_of(cat.entries@),
            set_items(set) == speakers_of(ls.take(i as int)),
        decreases cat.entries@.len() - i,
    {
        assert(ls.take(i + 1).subrange(0, i as int) =~= ls.take(i as int));
        assert(ls.take(i + 1)[i as int] == line_of(cat.entries@[i as int]));
        match &cat.entries[i].speaker {
            Some(sp) => {
                set_insert(&mut set, owned(sp.as_str()));
            },
            None => {},
        }
        i += 1;
    }
    assert(ls.take(ls.len() as int) =~= ls);
    set_into_vec(set)
}

} // verus!
