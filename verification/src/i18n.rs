//! Display strings for the shared design objects — theme families, theme
//! variants and accents — in both shipped locales.
//!
//! English is the base language; French is the other UI locale. A lookup
//! falls back to English, then to the key itself: a missing key renders as
//! the key, visible in the UI rather than silently blank.

use vstd::prelude::*;

use crate::emit::i18n::{member_views, table_view, LabelTable, Locales};
use crate::strmap::StrMap;
use crate::text::{lower_char, seq_lt};

verus! {

/// A UI locale.
#[derive(Debug, Clone, Copy, PartialEq, Eq, Structural)]
pub enum Locale {
    En,
    Fr,
}

impl Default for Locale {
    fn default() -> (res: Locale)
        ensures
            res == Locale::En,
    {
        Locale::En
    }
}

/// `-`, `_` or `.`, the separators of a language tag.
pub open spec fn is_tag_sep(c: char) -> bool {
    c == '-' || c == '_' || c == '.'
}

/// The language part of a tag: everything before the first separator.
pub open spec fn tag_language(s: Seq<char>) -> Seq<char>
    decreases s.len(),
{
    if s.len() == 0 || is_tag_sep(s[0]) {
        seq![]
    } else {
        seq![s[0]] + tag_language(s.drop_first())
    }
}

/// `fr` in any ASCII case.
pub open spec fn is_french(lang: Seq<char>) -> bool {
    lang.len() == 2 && lower_char(lang[0]) == 'f' && lower_char(lang[1]) == 'r'
}

pub open spec fn locale_tag(l: Locale) -> Seq<char> {
    match l {
        Locale::En => "en"@,
        Locale::Fr => "fr"@,
    }
}

proof fn lemma_tag_language(s: Seq<char>, i: int)
    requires
        0 <= i <= s.len(),
        forall|k: int| 0 <= k < i ==> !is_tag_sep(#[trigger] s[k]),
        i == s.len() || is_tag_sep(s[i]),
    ensures
        tag_language(s) == s.take(i),
    decreases i,
{
    if i == 0 {
        assert(s.take(0) =~= Seq::<char>::empty());
    } else {
        let t = s.drop_first();
        assert forall|k: int| 0 <= k < i - 1 implies !is_tag_sep(#[trigger] t[k]) by {
            assert(t[k] == s[k + 1]);
        }
        assert(!is_tag_sep(s[0]));
        lemma_tag_language(t, i - 1);
        assert(seq![s[0]] + t.take(i - 1) =~= s.take(i));
    }
}

fn is_separator(c: char) -> (res: bool)
    ensures
        res == is_tag_sep(c),
{
    c == '-' || c == '_' || c == '.'
}

impl Locale {
    /// Parse a language tag: `"fr"`, `"fr-FR"`, `"fr_FR"` → French, anything
    /// else → English. Unknown tags fall back to the base language rather
    /// than failing.
    pub fn from_tag(tag: &str) -> (res: Locale)
        ensures
            res == if is_french(tag_language(tag@)) {
                Locale::Fr
            } else {
                Locale::En
            },
    {
        let n = tag.unicode_len();
        let mut i: usize = 0;
        while i < n && !is_separator(tag.get_char(i))
            invariant
                i <= n,
                n == tag@.len(),
                forall|k: int| 0 <= k < i ==> !is_tag_sep(#[trigger] tag@[k]),
            decreases n - i,
        {
            i = i + 1;
        }
        proof {
            lemma_tag_language(tag@, i as int);
        }
        if i == 2 && crate::text::to_lower(tag.get_char(0)) == 'f' && crate::text::to_lower(
            tag.get_char(1),
        ) == 'r' {
            Locale::Fr
        } else {
            Locale::En
        }
    }

    pub fn as_str(self) -> (res: &'static str)
        ensures
            res@ == locale_tag(self),
    {
        match self {
            Locale::En => "en",
            Locale::Fr => "fr",
        }
    }
}

/// The label tables and the active locale.
pub struct Labels {
    active: Locale,
    en: LabelTable,
    fr: LabelTable,
}

/// The string a lookup gives: the locale's own, else the English one, else
/// the key itself.
pub open spec fn lookup_spec(
    own: Map<Seq<char>, Seq<char>>,
    en: Map<Seq<char>, Seq<char>>,
    key: Seq<char>,
) -> Seq<char> {
    if own.dom().contains(key) {
        own[key]
    } else if en.dom().contains(key) {
        en[key]
    } else {
        key
    }
}

/// What serde_json reads from `text` as an object whose values are all
/// strings: its members in the order serde_json hands them out, or `None`
/// when the text is not such an object.
pub uninterp spec fn spec_string_object(text: Seq<char>) -> Option<Seq<(Seq<char>, Seq<char>)>>;

/// `serde_json::from_str` into a map of strings, its members handed out.
///
/// Trusted: the members are a function of the text alone, named
/// `spec_string_object`; `None` exactly when serde_json refuses the text.
/// What serde_json accepts as JSON is not restated.
#[verifier::external_body]
fn parse_string_object(text: &str) -> (res: Option<Vec<(String, String)>>)
    ensures
        res is None <==> spec_string_object(text@) is None,
        res matches Some(v) ==> spec_string_object(text@) == Some(member_views(v@)),
{
    serde_json::from_str::<std::collections::BTreeMap<String, String>>(text).ok().map(|m| m.into_iter().collect())
}

/// The table the members give: each key with the string of its last member.
pub open spec fn members_map(es: Seq<(Seq<char>, Seq<char>)>) -> Map<Seq<char>, Seq<char>>
    decreases es.len(),
{
    if es.len() == 0 {
        Map::empty()
    } else {
        members_map(es.drop_last()).insert(es.last().0, es.last().1)
    }
}

/// A label table holding the members, a later member winning over an earlier
/// one with the same key.
pub fn table_from_members(ms: &Vec<(String, String)>) -> (res: LabelTable)
    ensures
        table_view(res.as_map()) == members_map(member_views(ms@)),
{
    let ghost es = member_views(ms@);
    let mut t: LabelTable = StrMap::new();
    assert(table_view(t.as_map()) =~= members_map(es.take(0)));
    let mut i: usize = 0;
    while i < ms.len()
        invariant
            i <= ms@.len(),
            es == member_views(ms@),
            table_view(t.as_map()) == members_map(es.take(i as int)),
        decreases ms@.len() - i,
    {
        let ghost before = t.as_map();
        let (k, v) = &ms[i];
        t.insert(k.clone(), v.clone());
        assert(es.take(i + 1).drop_last() =~= es.take(i as int));
        assert(es[i as int] == (k@, v@));
        assert(table_view(t.as_map()) =~= table_view(before).insert(k@, v@));
        i = i + 1;
    }
    assert(es.take(ms@.len() as int) =~= es);
    t
}

impl Labels {
    pub closed spec fn active(self) -> Locale {
        self.active
    }

    /// The table of a locale, as a map from key to text.
    pub closed spec fn table(self, l: Locale) -> Map<Seq<char>, Seq<char>> {
        match l {
            Locale::En => table_view(self.en.as_map()),
            Locale::Fr => table_view(self.fr.as_map()),
        }
    }

    /// Tables for both locales, English active.
    pub fn new(en: LabelTable, fr: LabelTable) -> (res: Labels)
        ensures
            res.active() == Locale::En,
            res.table(Locale::En) == table_view(en.as_map()),
            res.table(Locale::Fr) == table_view(fr.as_map()),
    {
        Labels { active: Locale::En, en, fr }
    }

    /// The tables the generator renders, English active.
    pub fn from_locales(l: Locales) -> (res: Labels)
        ensures
            res.active() == Locale::En,
            res.table(Locale::En) == table_view(l.en.as_map()),
            res.table(Locale::Fr) == table_view(l.fr.as_map()),
    {
        Labels { active: Locale::En, en: l.en, fr: l.fr }
    }

    /// The tables of two JSON texts, English active; `None` when either text
    /// is not an object of strings.
    pub fn from_json(en: &str, fr: &str) -> (res: Option<Labels>)
        ensures
            res is Some <==> (spec_string_object(en@) is Some && spec_string_object(fr@) is Some),
            res matches Some(l) ==> l.active() == Locale::En
                && l.table(Locale::En) == members_map(spec_string_object(en@)->0)
                && l.table(Locale::Fr) == members_map(spec_string_object(fr@)->0),
    {
        let en_members = match parse_string_object(en) {
            Some(m) => m,
            None => return None,
        };
        let fr_members = match parse_string_object(fr) {
            Some(m) => m,
            None => return None,
        };
        Some(Labels::new(table_from_members(&en_members), table_from_members(&fr_members)))
    }

    pub fn set_locale(&mut self, locale: Locale)
        ensures
            final(self).active() == locale,
            forall|l: Locale| #[trigger] final(self).table(l) == old(self).table(l),
    {
        self.active = locale;
    }

    pub fn locale(&self) -> (res: Locale)
        ensures
            res == self.active(),
    {
        self.active
    }

    /// Look up a label in the active locale, falling back to English, then
    /// to the key itself.
    pub fn t<'a>(&'a self, key: &'a str) -> (res: &'a str)
        ensures
            res@ == lookup_spec(self.table(self.active()), self.table(Locale::En), key@),
    {
        self.t_in(self.active, key)
    }

    /// Look up a label in a specific locale, ignoring the active one.
    pub fn t_in<'a>(&'a self, locale: Locale, key: &'a str) -> (res: &'a str)
        ensures
            res@ == lookup_spec(self.table(locale), self.table(Locale::En), key@),
    {
        let own = match locale {
            Locale::En => &self.en,
            Locale::Fr => &self.fr,
        };
        match own.get(key) {
            Some(s) => s.as_str(),
            None => match self.en.get(key) {
                Some(s) => s.as_str(),
                None => key,
            },
        }
    }

    /// Every key of a locale with its text, in key order.
    pub fn all(&self, locale: Locale) -> (res: Vec<(&str, &str)>)
        ensures
            forall|i: int|
                0 <= i < res@.len() ==> self.table(locale).dom().contains(#[trigger] res@[i].0@)
                    && self.table(locale)[res@[i].0@] == res@[i].1@,
            forall|k: Seq<char>|
                #[trigger] self.table(locale).dom().contains(k) ==> exists|i: int|
                    0 <= i < res@.len() && res@[i].0@ == k,
            forall|i: int, j: int| 0 <= i < j < res@.len() ==> seq_lt(#[trigger] res@[i].0@, #[trigger] res@[j].0@),
    {
        let own = match locale {
            Locale::En => &self.en,
            Locale::Fr => &self.fr,
        };
        let ghost tab = self.table(locale);
        assert(tab == table_view(own.as_map()));
        let mut out: Vec<(&str, &str)> = Vec::new();
        let mut i: usize = 0;
        while i < own.len()
            invariant
                i <= own.keys().len(),
                tab == table_view(own.as_map()),
                out@.len() == i,
                forall|m: int|
                    0 <= m < i ==> tab.dom().contains(#[trigger] out@[m].0@) && tab[out@[m].0@]
                        == out@[m].1@ && out@[m].0@ == own.keys()[m],
                forall|a: int, b: int| 0 <= a < b < i ==> seq_lt(#[trigger] out@[a].0@, #[trigger] out@[b].0@),
            decreases own.keys().len() - i,
        {
            let (k, v) = own.entry_at(i);
            proof {
                assert forall|a: int| 0 <= a < i implies seq_lt(#[trigger] out@[a].0@, k@) by {
                    assert(seq_lt(own.keys()[a], k@));
                }
            }
            out.push((k.as_str(), v.as_str()));
            i = i + 1;
        }
        proof {
            assert forall|k: Seq<char>| #[trigger] tab.dom().contains(k) implies exists|m: int|
                0 <= m < out@.len() && out@[m].0@ == k by {
                assert(own.keys().contains(k));
                let m = choose|m: int| 0 <= m < own.keys().len() && own.keys()[m] == k;
                assert(out@[m].0@ == k);
            }
        }
        out
    }
}

} // verus!
