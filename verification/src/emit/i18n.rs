//! The theme display strings, per locale, derived from the tokens.
//!
//! Label keys are deliberately shared across families, so the same key must
//! always carry the same string. Conflicts are a hard error rather than a
//! last-writer-wins surprise.

use vstd::prelude::*;

use crate::color::hex_digit_char;
use crate::model::{Family, Label, Tokens};
use crate::strmap::StrMap;
use crate::text::{debug_str, seq_lt, spec_debug_str};

verus! {

/// One locale's table: label key to display string.
pub type LabelTable = StrMap<String>;

/// Both locales' tables.
pub struct Locales {
    pub fr: LabelTable,
    pub en: LabelTable,
}

/// A label as the generator reads it: key, French, English.
pub type LabelEntry = (Seq<char>, Seq<char>, Seq<char>);

pub open spec fn label_entry(key: String, label: Label) -> LabelEntry {
    (key@, label.fr@, label.en@)
}

/// A family's label, then its variants' labels in order.
pub open spec fn family_entries(f: Family) -> Seq<LabelEntry> {
    seq![label_entry(f.label_key, f.label)] + f.variants@.map_values(
        |v: crate::model::Variant| label_entry(v.label_key, v.label),
    )
}

pub open spec fn families_entries(fams: Seq<Family>) -> Seq<LabelEntry>
    decreases fams.len(),
{
    if fams.len() == 0 {
        seq![]
    } else {
        families_entries(fams.drop_last()) + family_entries(fams.last())
    }
}

/// Every label in the order the generator visits them: each family and its
/// variants, then the accents.
pub open spec fn label_entries(t: Tokens) -> Seq<LabelEntry> {
    families_entries(t.families@) + t.accents@.map_values(
        |a: crate::model::Accent| label_entry(a.label_key, a.label),
    )
}

/// Which locale a problem is in.
#[derive(Debug, Clone, Copy, PartialEq, Eq, Structural)]
pub enum LabelLocale {
    Fr,
    En,
}

pub open spec fn locale_text(l: LabelLocale) -> Seq<char> {
    match l {
        LabelLocale::Fr => "fr"@,
        LabelLocale::En => "en"@,
    }
}

/// Why the label tables cannot be built.
#[derive(Debug, PartialEq, Eq)]
pub enum LabelError {
    /// A label has an empty string in this locale.
    Empty { key: String, locale: LabelLocale },
    /// A key is used with two different strings in this locale.
    Conflict { key: String, locale: LabelLocale, existing: String, value: String },
}

pub open spec fn pick(e: LabelEntry, l: LabelLocale) -> Seq<char> {
    match l {
        LabelLocale::Fr => e.1,
        LabelLocale::En => e.2,
    }
}

/// The string of entry `a` in locale `l` can be recorded after the entries
/// before it: it is not empty, and any earlier entry with the same key
/// carries the same string.
pub open spec fn step_ok(es: Seq<LabelEntry>, a: int, l: LabelLocale) -> bool {
    &&& pick(es[a], l).len() > 0
    &&& forall|b: int| 0 <= b < a && #[trigger] es[b].0 == es[a].0 ==> pick(es[b], l) == pick(es[a], l)
}

pub open spec fn entry_ok(es: Seq<LabelEntry>, a: int) -> bool {
    step_ok(es, a, LabelLocale::Fr) && step_ok(es, a, LabelLocale::En)
}

/// Every label is usable in both locales.
pub open spec fn labels_consistent(es: Seq<LabelEntry>) -> bool {
    forall|a: int| 0 <= a < es.len() ==> #[trigger] entry_ok(es, a)
}

/// The table of locale `l` that the first `n` entries build: each key, the
/// string of the first entry that has it.
pub open spec fn table_of(es: Seq<LabelEntry>, n: int, l: LabelLocale) -> Map<Seq<char>, Seq<char>>
    decreases n,
{
    if n <= 0 {
        Map::empty()
    } else {
        let t = table_of(es, n - 1, l);
        if t.dom().contains(es[n - 1].0) {
            t
        } else {
            t.insert(es[n - 1].0, pick(es[n - 1], l))
        }
    }
}

/// The text of every value of a table.
pub open spec fn table_view(m: Map<Seq<char>, String>) -> Map<Seq<char>, Seq<char>> {
    m.map_values(|s: String| s@)
}

/// `e` reports the first failing step: entries are visited in order, the
/// French string before the English one.
pub open spec fn label_reported(es: Seq<LabelEntry>, e: LabelError) -> bool {
    exists|a: int, l: LabelLocale|
        0 <= a < es.len() && (forall|b: int| 0 <= b < a ==> #[trigger] entry_ok(es, b)) && (l
            == LabelLocale::En ==> step_ok(es, a, LabelLocale::Fr)) && !#[trigger] step_ok(es, a, l)
            && match e {
            LabelError::Empty { key, locale } => locale == l && key@ == es[a].0 && pick(es[a], l).len()
                == 0,
            LabelError::Conflict { key, locale, existing, value } => locale == l && key@ == es[a].0
                && pick(es[a], l).len() > 0 && value@ == pick(es[a], l) && existing@ != value@
                && exists|b: int|
                0 <= b < a && #[trigger] es[b].0 == es[a].0 && existing@ == pick(es[b], l),
        }
}

} // verus!

verus! {

/// The text of each `(key, label)` pair.
pub open spec fn ref_entries_view(s: Seq<(&String, &Label)>) -> Seq<LabelEntry> {
    s.map_values(|e: (&String, &Label)| label_entry(*e.0, *e.1))
}

proof fn lemma_families_entries_step(fams: Seq<Family>, i: int)
    requires
        0 <= i < fams.len(),
    ensures
        families_entries(fams.take(i + 1)) == families_entries(fams.take(i)) + family_entries(fams[i]),
{
    assert(fams.take(i + 1).drop_last() =~= fams.take(i));
}

/// The labels in visiting order.
fn collect_entries(t: &Tokens) -> (res: Vec<(&String, &Label)>)
    ensures
        ref_entries_view(res@) == label_entries(*t),
{
    let mut out: Vec<(&String, &Label)> = Vec::new();
    let mut i: usize = 0;
    assert(ref_entries_view(out@) =~= families_entries(t.families@.take(0)));
    while i < t.families.len()
        invariant
            i <= t.families@.len(),
            ref_entries_view(out@) == families_entries(t.families@.take(i as int)),
        decreases t.families@.len() - i,
    {
        let f = &t.families[i];
        proof {
            lemma_families_entries_step(t.families@, i as int);
        }
        let ghost base = ref_entries_view(out@);
        out.push((&f.label_key, &f.label));
        assert(ref_entries_view(out@) =~= base + seq![label_entry(f.label_key, f.label)]);
        let ghost vs = f.variants@.map_values(|v: crate::model::Variant| label_entry(v.label_key, v.label));
        let mut j: usize = 0;
        while j < f.variants.len()
            invariant
                j <= f.variants@.len(),
                vs == f.variants@.map_values(|v: crate::model::Variant| label_entry(v.label_key, v.label)),
                ref_entries_view(out@) == base + seq![label_entry(f.label_key, f.label)] + vs.take(j as int),
            decreases f.variants@.len() - j,
        {
            let v = &f.variants[j];
            let ghost prev = ref_entries_view(out@);
            out.push((&v.label_key, &v.label));
            assert(vs.take(j + 1) =~= vs.take(j as int).push(vs[j as int]));
            assert(ref_entries_view(out@) =~= prev.push(label_entry(v.label_key, v.label)));
            assert(ref_entries_view(out@) =~= base + seq![label_entry(f.label_key, f.label)] + vs.take(j + 1));
            j = j + 1;
        }
        assert(vs.take(vs.len() as int) =~= vs);
        assert(family_entries(*f) =~= seq![label_entry(f.label_key, f.label)] + vs);
        assert(ref_entries_view(out@) =~= base + family_entries(*f));
        i = i + 1;
    }
    assert(t.families@.take(t.families@.len() as int) =~= t.families@);
    let ghost fam_part = ref_entries_view(out@);
    let ghost acc = t.accents@.map_values(|a: crate::model::Accent| label_entry(a.label_key, a.label));
    let mut k: usize = 0;
    assert(ref_entries_view(out@) =~= fam_part + acc.take(0));
    while k < t.accents.len()
        invariant
            k <= t.accents@.len(),
            acc == t.accents@.map_values(|a: crate::model::Accent| label_entry(a.label_key, a.label)),
            ref_entries_view(out@) == fam_part + acc.take(k as int),
        decreases t.accents@.len() - k,
    {
        let a = &t.accents[k];
        let ghost prev = ref_entries_view(out@);
        out.push((&a.label_key, &a.label));
        assert(acc.take(k + 1) =~= acc.take(k as int).push(acc[k as int]));
        assert(ref_entries_view(out@) =~= prev.push(label_entry(a.label_key, a.label)));
        k = k + 1;
    }
    assert(acc.take(acc.len() as int) =~= acc);
    out
}

/// Once the first `n` entries are all usable, the table holds, for each of
/// their keys, the string every entry with that key carries.
proof fn lemma_table_of(es: Seq<LabelEntry>, n: int, l: LabelLocale)
    requires
        0 <= n <= es.len(),
        forall|b: int| 0 <= b < n ==> #[trigger] step_ok(es, b, l),
    ensures
        forall|k: Seq<char>|
            #[trigger] table_of(es, n, l).dom().contains(k) <==> exists|b: int| 0 <= b < n && es[b].0 == k,
        forall|b: int| 0 <= b < n ==> #[trigger] table_of(es, n, l)[es[b].0] == pick(es[b], l),
    decreases n,
{
    if n > 0 {
        lemma_table_of(es, n - 1, l);
        let t = table_of(es, n - 1, l);
        assert(step_ok(es, n - 1, l));
        assert forall|k: Seq<char>|
            #[trigger] table_of(es, n, l).dom().contains(k) <==> exists|b: int| 0 <= b < n && es[b].0 == k by {
            if exists|b: int| 0 <= b < n && es[b].0 == k {
                let b = choose|b: int| 0 <= b < n && es[b].0 == k;
                if b < n - 1 {
                    assert(t.dom().contains(k));
                }
            }
        }
        assert forall|b: int| 0 <= b < n implies #[trigger] table_of(es, n, l)[es[b].0] == pick(es[b], l) by {
            if b < n - 1 {
                if es[b].0 == es[n - 1].0 {
                    assert(pick(es[b], l) == pick(es[n - 1], l));
                }
            } else if t.dom().contains(es[n - 1].0) {
                let c = choose|c: int| 0 <= c < n - 1 && #[trigger] es[c].0 == es[n - 1].0;
                assert(t[es[c].0] == pick(es[c], l));
            }
        }
    }
}

/// The domain of a table does not depend on the locale.
proof fn lemma_table_dom(es: Seq<LabelEntry>, n: int)
    ensures
        table_of(es, n, LabelLocale::Fr).dom() == table_of(es, n, LabelLocale::En).dom(),
    decreases n,
{
    if n > 0 {
        lemma_table_dom(es, n - 1);
    }
}

/// Records `value` under `key`, refusing an empty string or a second,
/// different string for the same key.
fn insert_label(
    map: &mut LabelTable,
    key: &String,
    value: &String,
    locale: LabelLocale,
) -> (res: Result<(), LabelError>)
    ensures
        res is Ok ==> table_view(final(map).as_map()) == if table_view(old(map).as_map()).dom().contains(key@) {
            table_view(old(map).as_map())
        } else {
            table_view(old(map).as_map()).insert(key@, value@)
        },
        res is Ok <==> value@.len() > 0 && (table_view(old(map).as_map()).dom().contains(key@)
            ==> table_view(old(map).as_map())[key@] == value@),
        res matches Err(e) ==> match e {
            LabelError::Empty { key: k, locale: l } => k@ == key@ && l == locale && value@.len() == 0,
            LabelError::Conflict { key: k, locale: l, existing, value: v } => k@ == key@ && l == locale
                && value@.len() > 0 && v@ == value@ && table_view(old(map).as_map()).dom().contains(key@)
                && existing@ == table_view(old(map).as_map())[key@] && existing@ != value@,
        },
{
    if value.as_str().unicode_len() == 0 {
        return Err(LabelError::Empty { key: key.clone(), locale });
    }
    match map.get(key.as_str()) {
        Some(existing) => {
            if *existing != *value {
                return Err(LabelError::Conflict {
                    key: key.clone(),
                    locale,
                    existing: existing.clone(),
                    value: value.clone(),
                });
            }
            Ok(())
        },
        None => {
            let ghost before = map.as_map();
            map.insert(key.clone(), value.clone());
            assert(table_view(map.as_map()) =~= table_view(before).insert(key@, value@));
            Ok(())
        },
    }
}

/// `l` holds the tables the tokens' labels give: each key with the string of
/// its first label, in both locales, over the same keys.
pub open spec fn rendered(t: Tokens, l: Locales) -> bool {
    let es = label_entries(t);
    &&& table_view(l.fr.as_map()) == table_of(es, es.len() as int, LabelLocale::Fr)
    &&& table_view(l.en.as_map()) == table_of(es, es.len() as int, LabelLocale::En)
    &&& l.fr.as_map().dom() == l.en.as_map().dom()
    &&& l.fr.well_formed()
    &&& l.en.well_formed()
}

/// Builds the French and English label tables from the tokens.
pub fn render(tokens: &Tokens) -> (res: Result<Locales, LabelError>)
    ensures
        res is Ok <==> labels_consistent(label_entries(*tokens)),
        res matches Ok(l) ==> {
            let es = label_entries(*tokens);
            &&& table_view(l.fr.as_map()) == table_of(es, es.len() as int, LabelLocale::Fr)
            &&& table_view(l.en.as_map()) == table_of(es, es.len() as int, LabelLocale::En)
            &&& l.fr.as_map().dom() == l.en.as_map().dom()
            &&& l.fr.well_formed()
            &&& l.en.well_formed()
        },
        res matches Err(e) ==> label_reported(label_entries(*tokens), e),
{
    let entries = collect_entries(tokens);
    let ghost es = label_entries(*tokens);
    let mut fr: LabelTable = StrMap::new();
    let mut en: LabelTable = StrMap::new();
    assert(table_view(fr.as_map()) =~= table_of(es, 0, LabelLocale::Fr));
    assert(table_view(en.as_map()) =~= table_of(es, 0, LabelLocale::En));
    let mut a: usize = 0;
    while a < entries.len()
        invariant
            a <= entries@.len(),
            ref_entries_view(entries@) == es,
            es == label_entries(*tokens),
            forall|b: int| 0 <= b < a ==> #[trigger] entry_ok(es, b),
            table_view(fr.as_map()) == table_of(es, a as int, LabelLocale::Fr),
            table_view(en.as_map()) == table_of(es, a as int, LabelLocale::En),
        decreases entries@.len() - a,
    {
        let (key, label) = entries[a];
        assert(es[a as int] == label_entry(*key, *label));
        proof {
            assert forall|b: int| 0 <= b < a implies #[trigger] step_ok(es, b, LabelLocale::Fr) by {
                assert(entry_ok(es, b));
            }
            assert forall|b: int| 0 <= b < a implies #[trigger] step_ok(es, b, LabelLocale::En) by {
                assert(entry_ok(es, b));
            }
            lemma_table_of(es, a as int, LabelLocale::Fr);
            lemma_table_of(es, a as int, LabelLocale::En);
        }
        let r = insert_label(&mut fr, key, &label.fr, LabelLocale::Fr);
        if let Err(e) = r {
            proof {
                let l = LabelLocale::Fr;
                if e is Conflict {
                    let b = choose|b: int| 0 <= b < a && #[trigger] es[b].0 == key@;
                    assert(table_of(es, a as int, l)[es[b].0] == pick(es[b], l));
                }
                assert(!step_ok(es, a as int, l));
                assert(!entry_ok(es, a as int));
                assert(label_reported(es, e));
            }
            return Err(e);
        }
        assert(step_ok(es, a as int, LabelLocale::Fr)) by {
            assert forall|b: int| 0 <= b < a && #[trigger] es[b].0 == es[a as int].0 implies pick(es[b], LabelLocale::Fr)
                == pick(es[a as int], LabelLocale::Fr) by {
                assert(table_of(es, a as int, LabelLocale::Fr)[es[b].0] == pick(es[b], LabelLocale::Fr));
            }
        }
        let r = insert_label(&mut en, key, &label.en, LabelLocale::En);
        if let Err(e) = r {
            proof {
                let l = LabelLocale::En;
                if e is Conflict {
                    let b = choose|b: int| 0 <= b < a && #[trigger] es[b].0 == key@;
                    assert(table_of(es, a as int, l)[es[b].0] == pick(es[b], l));
                }
                assert(!step_ok(es, a as int, l));
                assert(!entry_ok(es, a as int));
                assert(label_reported(es, e));
            }
            return Err(e);
        }
        assert(step_ok(es, a as int, LabelLocale::En)) by {
            assert forall|b: int| 0 <= b < a && #[trigger] es[b].0 == es[a as int].0 implies pick(es[b], LabelLocale::En)
                == pick(es[a as int], LabelLocale::En) by {
                assert(table_of(es, a as int, LabelLocale::En)[es[b].0] == pick(es[b], LabelLocale::En));
            }
        }
        assert(entry_ok(es, a as int));
        a = a + 1;
    }
    proof {
        lemma_table_dom(es, es.len() as int);
        assert(fr.as_map().dom() =~= table_view(fr.as_map()).dom());
        assert(en.as_map().dom() =~= table_view(en.as_map()).dom());
    }
    let _ = fr.is_empty();
    let _ = en.is_empty();
    Ok(Locales { fr, en })
}

} // verus!

verus! {

/// One character as a JSON string holds it: `"` and `\\` behind a
/// backslash, the control characters with a short escape as `\b`, `\t`,
/// `\n`, `\f`, `\r`, the other control characters below 0x20 as `\u00`
/// and two lowercase hex digits, every other character as itself.
pub open spec fn json_escape_char(c: char) -> Seq<char> {
    if c == '"' {
        seq!['\\', '"']
    } else if c == '\\' {
        seq!['\\', '\\']
    } else if c == '\u{8}' {
        seq!['\\', 'b']
    } else if c == '\t' {
        seq!['\\', 't']
    } else if c == '\n' {
        seq!['\\', 'n']
    } else if c == '\u{c}' {
        seq!['\\', 'f']
    } else if c == '\r' {
        seq!['\\', 'r']
    } else if (c as u32) < 0x20 {
        seq![
            '\\',
            'u',
            '0',
            '0',
            hex_digit_char(((c as u32) / 16) as nat),
            hex_digit_char(((c as u32) % 16) as nat),
        ]
    } else {
        seq![c]
    }
}

/// Each character escaped, in order.
pub open spec fn json_escape(s: Seq<char>) -> Seq<char>
    decreases s.len(),
{
    if s.len() == 0 {
        seq![]
    } else {
        json_escape(s.drop_last()) + json_escape_char(s.last())
    }
}

/// The JSON string literal of `s`: the escaped text in double quotes.
pub open spec fn spec_json_string(s: Seq<char>) -> Seq<char> {
    seq!['"'] + json_escape(s) + seq!['"']
}

/// The text of a label as it sits in a rendered table, `Value::String(s)`
/// displayed.
///
/// Trusted: serde_json's `Display` for `Value` writes a string through its
/// compact serializer, which escapes by the table in `ser.rs`: `"` and `\\`
/// behind a backslash, the short escapes for backspace, tab, line feed, form
/// feed and carriage return, `\u00XX` with lowercase hex for the other
/// bytes below 0x20, and every other byte as it is, all in double quotes.
#[verifier::external_body]
fn json_string(s: &str) -> (res: String)
    ensures
        res@ == spec_json_string(s@),
{
    serde_json::Value::String(s.to_string()).to_string()
}

/// One member line of a pretty-printed object: two spaces of indent, the key,
/// `: `, the value, both as JSON string literals.
pub open spec fn json_member(e: (Seq<char>, Seq<char>)) -> Seq<char> {
    "  "@ + spec_json_string(e.0) + ": "@ + spec_json_string(e.1)
}

/// The member lines, separated by `,` and a line break.
pub open spec fn json_members(es: Seq<(Seq<char>, Seq<char>)>) -> Seq<char>
    decreases es.len(),
{
    if es.len() == 0 {
        seq![]
    } else if es.len() == 1 {
        json_member(es[0])
    } else {
        json_members(es.drop_last()) + ",\n"@ + json_member(es.last())
    }
}

/// A string-to-string object as serde_json pretty-prints it: `{}` when
/// empty, else `{`, the member lines, and `}` on a line of its own.
pub open spec fn json_object_text(es: Seq<(Seq<char>, Seq<char>)>) -> Seq<char> {
    if es.len() == 0 {
        "{}"@
    } else {
        "{\n"@ + json_members(es) + "\n}"@
    }
}

/// The text of each member.
pub open spec fn member_views(ms: Seq<(String, String)>) -> Seq<(Seq<char>, Seq<char>)> {
    ms.map_values(|m: (String, String)| (m.0@, m.1@))
}

/// `serde_json::to_string_pretty` of the object with these members, each
/// value a JSON string.
///
/// Trusted: serde_json keeps an object's members in key order (its map is a
/// `BTreeMap` here, as no feature asks for insertion order), and its pretty
/// formatter writes `{}` for an empty object and otherwise one member per
/// line, indented by two spaces, `,` between members; keys and values are
/// escaped by the same routine that `Value::String`'s display uses, as
/// `spec_json_string` states it. Serialising a `Value` with string keys cannot fail.
/// The keys are given strictly increasing, which is the order `String`'s
/// `Ord` puts them in.
#[verifier::external_body]
fn json_object_pretty(members: &Vec<(String, String)>) -> (res: String)
    requires
        forall|i: int, j: int|
            0 <= i < j < members@.len() ==> seq_lt(#[trigger] members@[i].0@, #[trigger] members@[j].0@),
    ensures
        res@ == json_object_text(member_views(members@)),
{
    let map: serde_json::Map<String, serde_json::Value> =
        members.iter().map(|(k, v)| (k.clone(), serde_json::Value::String(v.clone()))).collect();
    serde_json::to_string_pretty(&serde_json::Value::Object(map)).unwrap_or_default()
}

/// A table's members, in key order.
pub open spec fn table_members(t: LabelTable) -> Seq<(Seq<char>, Seq<char>)> {
    Seq::new(t.keys().len(), |i: int| (t.keys()[i], t.values()[i]@))
}

/// A table as a file holds it: the pretty JSON object and a final line break.
pub open spec fn table_file_text(t: LabelTable) -> Seq<char> {
    json_object_text(table_members(t)) + "\n"@
}

/// Two well-formed tables with the same keys and texts are written as the
/// same file.
pub proof fn lemma_same_table_text(a: LabelTable, b: LabelTable)
    requires
        a.well_formed(),
        b.well_formed(),
        table_view(a.as_map()) == table_view(b.as_map()),
    ensures
        table_file_text(a) == table_file_text(b),
{
    assert(a.as_map().dom() =~= table_view(a.as_map()).dom());
    assert(b.as_map().dom() =~= table_view(b.as_map()).dom());
    a.lemma_keys_determined(b);
    a.lemma_well_formed();
    b.lemma_well_formed();
    assert forall|i: int| 0 <= i < a.keys().len() implies #[trigger] a.values()[i]@ == b.values()[i]@ by {
        let k = a.keys()[i];
        assert(a.as_map()[a.keys()[i]] == a.values()[i]);
        assert(b.as_map()[b.keys()[i]] == b.values()[i]);
        assert(a.keys().to_set().contains(k));
        assert(table_view(a.as_map())[k] == a.as_map()[k]@);
        assert(table_view(b.as_map())[k] == b.as_map()[k]@);
    }
    assert(table_members(a) =~= table_members(b));
}

/// The text of a label table file.
pub fn table_json(t: &LabelTable) -> (res: String)
    ensures
        res@ == table_file_text(*t),
{
    let mut members: Vec<(String, String)> = Vec::new();
    let n = t.len();
    let mut i: usize = 0;
    while i < n
        invariant
            i <= n,
            n == t.keys().len(),
            n == t.values().len(),
            members@.len() == i,
            forall|m: int| 0 <= m < i ==> #[trigger] members@[m].0@ == t.keys()[m] && members@[m].1@ == t.values()[m]@,
            forall|a: int, b: int| 0 <= a < b < i ==> seq_lt(#[trigger] members@[a].0@, #[trigger] members@[b].0@),
        decreases n - i,
    {
        let (k, v) = t.entry_at(i);
        proof {
            assert forall|a: int| 0 <= a < i implies seq_lt(#[trigger] members@[a].0@, k@) by {
                assert(seq_lt(t.keys()[a], k@));
            }
        }
        members.push((k.clone(), v.clone()));
        i = i + 1;
    }
    assert(member_views(members@) =~= table_members(*t));
    let mut res = json_object_pretty(&members);
    res.append("\n");
    res
}

/// The message each problem is reported with.
pub open spec fn label_error_message(e: LabelError) -> Seq<char> {
    match e {
        LabelError::Empty { key, locale } => "label key "@ + spec_debug_str(key@) + " has an empty "@
            + locale_text(locale) + " string"@,
        LabelError::Conflict { key, locale, existing, value } => "label key "@ + spec_debug_str(key@)
            + " is used with two different "@ + locale_text(locale) + " strings: "@
            + spec_json_string(existing@) + " and "@ + spec_debug_str(value@),
    }
}

impl LabelLocale {
    pub fn as_str(self) -> (res: &'static str)
        ensures
            res@ == locale_text(self),
    {
        match self {
            LabelLocale::Fr => "fr",
            LabelLocale::En => "en",
        }
    }
}

impl LabelError {
    /// The message the problem is reported with.
    pub fn message(&self) -> (m: String)
        ensures
            m@ == label_error_message(*self),
    {
        match self {
            LabelError::Empty { key, locale } => {
                let mut m = String::from_str("label key ");
                m.append(debug_str(key.as_str()).as_str());
                m.append(" has an empty ");
                m.append(locale.as_str());
                m.append(" string");
                m
            },
            LabelError::Conflict { key, locale, existing, value } => {
                let mut m = String::from_str("label key ");
                m.append(debug_str(key.as_str()).as_str());
                m.append(" is used with two different ");
                m.append(locale.as_str());
                m.append(" strings: ");
                m.append(json_string(existing.as_str()).as_str());
                m.append(" and ");
                m.append(debug_str(value.as_str()).as_str());
                m
            },
        }
    }
}

} // verus!
