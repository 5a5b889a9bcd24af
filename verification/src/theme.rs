//! The theme catalog a picker renders from, the `(family, variant)`
//! resolver, the accent overrides, and the active-theme state.
//!
//! The catalog is derived from the tokens, so adding a theme family touches
//! no code. Colours here are `0xRRGGBB`; turning them into a toolkit's
//! floating-point colour, and the high-contrast adjustment made in that
//! space, belong to the program.

use vstd::prelude::*;
use vstd::utf8::encode_utf8;

use crate::color::Color;
use crate::model::{hex_u32, mode_text, Family, Palette, Tokens, Variant};
use crate::text::str_eq;

verus! {

/// A palette-independent accent the user can pick.
#[derive(Debug, Clone)]
pub struct AccentOverride {
    pub key: String,
    pub label_key: String,
    /// `0xRRGGBB`.
    pub color: u32,
}

/// One variant as the picker shows it.
#[derive(Debug, Clone)]
pub struct ThemeVariantMeta {
    pub key: String,
    pub label_key: String,
    /// `"light"` or `"dark"`.
    pub mode: String,
    /// The picker card's background, `0xRRGGBB`.
    pub swatch_bg: u32,
    /// The picker card's accent bar, `0xRRGGBB`.
    pub swatch_accent: u32,
    pub palette: Palette,
}

/// One family as the picker shows it.
#[derive(Debug, Clone)]
pub struct ThemeFamilyMeta {
    pub key: String,
    pub label_key: String,
    /// The family's glyph, or empty for none.
    pub icon: String,
    pub variants: Vec<ThemeVariantMeta>,
}

/// Every family in picker order, the accent overrides in their fixed order,
/// and the palette an unknown theme falls back to.
pub struct ThemeCatalog {
    pub families: Vec<ThemeFamilyMeta>,
    pub accents: Vec<AccentOverride>,
    pub fallback: Palette,
}

impl ThemeVariantMeta {
    /// Whether this variant is a light theme, from its declared mode.
    pub fn is_light(&self) -> (res: bool)
        ensures
            res == (self.mode@ == "light"@),
    {
        str_eq(self.mode.as_str(), "light")
    }
}

impl ThemeFamilyMeta {
    /// This family's first variant with the given key.
    pub fn variant(&self, key: &str) -> (res: Option<&ThemeVariantMeta>)
        ensures
            res is None <==> variant_index(*self, key@) is None,
            res matches Some(v) ==> *v == self.variants@[variant_index(*self, key@)->0],
    {
        let mut j: usize = 0;
        while j < self.variants.len()
            invariant
                j <= self.variants@.len(),
                forall|m: int| 0 <= m < j ==> #[trigger] self.variants@[m].key@ != key@,
            decreases self.variants@.len() - j,
        {
            if str_eq(self.variants[j].key.as_str(), key) {
                proof {
                    assert(self.variants@[j as int].key@ == key@);
                    let k = variant_index(*self, key@)->0;
                    if k < j {
                        assert(self.variants@[k].key@ != key@);
                    }
                    if j < k {
                        assert(self.variants@[j as int].key@ != key@);
                    }
                }
                return Some(&self.variants[j]);
            }
            j = j + 1;
        }
        None
    }
}

/// The index of the first variant of `f` with the given key.
pub open spec fn variant_index(f: ThemeFamilyMeta, key: Seq<char>) -> Option<int> {
    if exists|j: int|
        0 <= j < f.variants@.len() && #[trigger] f.variants@[j].key@ == key && (forall|m: int|
            0 <= m < j ==> #[trigger] f.variants@[m].key@ != key) {
        Some(
            choose|j: int|
                0 <= j < f.variants@.len() && f.variants@[j].key@ == key && (forall|m: int|
                    0 <= m < j ==> #[trigger] f.variants@[m].key@ != key),
        )
    } else {
        None
    }
}

/// The index of the first family of the catalog with the given key.
pub open spec fn family_index(c: ThemeCatalog, key: Seq<char>) -> Option<int> {
    if exists|i: int|
        0 <= i < c.families@.len() && #[trigger] c.families@[i].key@ == key && (forall|m: int|
            0 <= m < i ==> #[trigger] c.families@[m].key@ != key) {
        Some(
            choose|i: int|
                0 <= i < c.families@.len() && c.families@[i].key@ == key && (forall|m: int|
                    0 <= m < i ==> #[trigger] c.families@[m].key@ != key),
        )
    } else {
        None
    }
}

/// The palette the resolver gives for `(family, variant)`: the first family
/// with that key, its first variant with that key, else the fallback.
pub open spec fn resolve_spec(c: ThemeCatalog, family: Seq<char>, variant: Seq<char>) -> Palette {
    match family_index(c, family) {
        Some(i) => match variant_index(c.families@[i], variant) {
            Some(j) => c.families@[i].variants@[j].palette,
            None => c.fallback,
        },
        None => c.fallback,
    }
}

/// `2^64`.
pub open spec fn two64() -> int {
    0x1_0000_0000_0000_0000
}

/// The identity-tint hash `h = byte + h * 31`, wrapping, of the name's bytes,
/// as the 64 bits of the signed result read unsigned.
pub open spec fn tint_hash(bytes: Seq<u8>) -> int
    decreases bytes.len(),
{
    if bytes.len() == 0 {
        0
    } else {
        (31 * tint_hash(bytes.drop_last()) + bytes.last()) % two64()
    }
}

/// `unsigned_abs` of the signed 64-bit number with these bits.
pub open spec fn abs_of_bits(u: int) -> int {
    if u >= 0x8000_0000_0000_0000 {
        two64() - u
    } else {
        u
    }
}

/// The accent bucket a program name falls in.
pub open spec fn tint_index(name: Seq<char>, n: int) -> int {
    abs_of_bits(tint_hash(encode_utf8(name))) % n
}

/// `w` is the picker entry of variant `v`.
pub open spec fn variant_meta_of(w: ThemeVariantMeta, v: Variant) -> bool {
    &&& w.key@ == v.key@
    &&& w.label_key@ == v.label_key@
    &&& w.mode@ == mode_text(v.mode)
    &&& w.swatch_bg == v.swatch.bg.0
    &&& w.swatch_accent == v.swatch.accent.0
    &&& w.palette == v.palette
}

/// The glyph a family's icon names: none for an empty icon, else the one
/// character whose code the hex gives.
pub open spec fn icon_glyph_ok(glyph: Seq<char>, icon: Seq<char>) -> bool {
    if icon.len() == 0 {
        glyph.len() == 0
    } else {
        glyph.len() == 1 && hex_u32(icon) == Some(glyph[0] as u32)
    }
}

/// `m` is the picker row of family `f`: its keys, its glyph, and its
/// variants in order.
pub open spec fn family_meta_of(m: ThemeFamilyMeta, f: Family) -> bool {
    &&& m.key@ == f.key@
    &&& m.label_key@ == f.label_key@
    &&& icon_glyph_ok(m.icon@, f.icon@)
    &&& m.variants@.len() == f.variants@.len()
    &&& forall|j: int| 0 <= j < m.variants@.len() ==> #[trigger] variant_meta_of(m.variants@[j], f.variants@[j])
}

/// A family holding a variant with the key has a first such variant.
proof fn lemma_first_variant(f: ThemeFamilyMeta, vk: Seq<char>, j: int)
    requires
        0 <= j < f.variants@.len(),
        f.variants@[j].key@ == vk,
    ensures
        variant_index(f, vk) is Some,
    decreases j,
{
    if exists|m: int| 0 <= m < j && #[trigger] f.variants@[m].key@ == vk {
        let m = choose|m: int| 0 <= m < j && #[trigger] f.variants@[m].key@ == vk;
        lemma_first_variant(f, vk, m);
    } else {
        assert(forall|m: int| 0 <= m < j ==> #[trigger] f.variants@[m].key@ != vk);
    }
}

/// An entry the tokens hold is one the catalog of the tokens finds.
proof fn lemma_entry_in_catalog(t: Tokens, c: ThemeCatalog, fk: Seq<char>, vk: Seq<char>)
    requires
        catalog_of(c, t),
        has_entry(t, fk, vk),
    ensures
        family_index(c, fk) is Some,
        variant_index(c.families@[family_index(c, fk)->0], vk) is Some,
{
    let (i, j) = choose|i: int, j: int|
        0 <= i < t.families@.len() && #[trigger] t.families@[i].key@ == fk && (forall|m: int|
            0 <= m < i ==> #[trigger] t.families@[m].key@ != fk) && 0 <= j < t.families@[i].variants@.len()
            && #[trigger] t.families@[i].variants@[j].key@ == vk;
    assert(family_meta_of(c.families@[i], t.families@[i]));
    assert forall|m: int| 0 <= m < i implies #[trigger] c.families@[m].key@ != fk by {
        assert(family_meta_of(c.families@[m], t.families@[m]));
        assert(t.families@[m].key@ != fk);
    }
    assert(c.families@[i].key@ == fk);
    let fi = family_index(c, fk)->0;
    if fi != i {
        if fi < i {
            assert(c.families@[fi].key@ != fk);
        } else {
            assert(c.families@[i].key@ != fk);
        }
    }
    assert(variant_meta_of(c.families@[i].variants@[j], t.families@[i].variants@[j]));
    lemma_first_variant(c.families@[i], vk, j);
}

/// An entry the catalog of the tokens finds is one the tokens hold.
proof fn lemma_entry_in_tokens(t: Tokens, c: ThemeCatalog, fk: Seq<char>, vk: Seq<char>)
    requires
        catalog_of(c, t),
        family_index(c, fk) is Some,
        variant_index(c.families@[family_index(c, fk)->0], vk) is Some,
    ensures
        has_entry(t, fk, vk),
{
    let fi = family_index(c, fk)->0;
    let vj = variant_index(c.families@[fi], vk)->0;
    assert(family_meta_of(c.families@[fi], t.families@[fi]));
    assert forall|m: int| 0 <= m < fi implies #[trigger] t.families@[m].key@ != fk by {
        assert(family_meta_of(c.families@[m], t.families@[m]));
        assert(c.families@[m].key@ != fk);
    }
    assert(variant_meta_of(c.families@[fi].variants@[vj], t.families@[fi].variants@[vj]));
    assert(t.families@[fi].key@ == fk);
    assert(t.families@[fi].variants@[vj].key@ == vk);
}

/// The theme an unknown `(family, variant)` pair falls back to.
pub const FALLBACK_FAMILY: &'static str = "gruvbox";

pub const FALLBACK_VARIANT: &'static str = "dark";

/// The tokens hold a variant `variant` in their first family `family`.
pub open spec fn has_entry(t: Tokens, family: Seq<char>, variant: Seq<char>) -> bool {
    exists|i: int, j: int|
        0 <= i < t.families@.len() && #[trigger] t.families@[i].key@ == family && (forall|m: int|
            0 <= m < i ==> #[trigger] t.families@[m].key@ != family) && 0 <= j
            < t.families@[i].variants@.len() && #[trigger] t.families@[i].variants@[j].key@ == variant
}

fn blank_palette() -> Palette {
    Palette {
        bg_primary: Color(0),
        bg_sidebar: Color(0),
        bg_card: Color(0),
        bg_card_hover: Color(0),
        bg_card_pressed: Color(0),
        bg_selected: Color(0),
        bg_input: Color(0),
        bg_progress: Color(0),
        text_primary: Color(0),
        text_secondary: Color(0),
        text_muted: Color(0),
        text_dim: Color(0),
        text_dimmer: Color(0),
        text_dimmest: Color(0),
        text_placeholder: Color(0),
        accent_blue: Color(0),
        accent_icon: Color(0),
        accent_progress: Color(0),
        btn_default: Color(0),
        btn_hover: Color(0),
        btn_pressed: Color(0),
        success: Color(0),
        success_bg: Color(0),
        btn_success: Color(0),
        btn_success_hover: Color(0),
        btn_success_pressed: Color(0),
        warning: Color(0),
        warning_bg: Color(0),
        error: Color(0),
        error_light: Color(0),
        error_bg: Color(0),
        btn_danger_bg: Color(0),
        btn_danger_hover: Color(0),
        btn_trash_hover: Color(0),
        btn_trash_pressed: Color(0),
        bg_modal_section: Color(0),
        border_subtle: Color(0),
        divider: Color(0),
    }
}

impl ThemeCatalog {
    /// The catalog of the tokens: families in picker order with their
    /// variants, the accents in file order, and the given fallback palette.
    pub fn from_tokens(tokens: &Tokens, fallback: Palette) -> (res: ThemeCatalog)
        requires
            forall|i: int| 0 <= i < tokens.families@.len() ==> crate::model::icon_ok(
                #[trigger] tokens.families@[i].icon@,
            ),
        ensures
            res.fallback == fallback,
            res.families@.len() == tokens.families@.len(),
            forall|i: int|
                0 <= i < res.families@.len() ==> #[trigger] family_meta_of(res.families@[i], tokens.families@[i]),
            res.accents@.len() == tokens.accents@.len(),
            forall|a: int|
                0 <= a < res.accents@.len() ==> #[trigger] res.accents@[a].key@ == tokens.accents@[a].key@
                    && res.accents@[a].label_key@ == tokens.accents@[a].label_key@
                    && res.accents@[a].color == tokens.accents@[a].color.0,
    {
        let mut families: Vec<ThemeFamilyMeta> = Vec::new();
        let mut i: usize = 0;
        while i < tokens.families.len()
            invariant
                i <= tokens.families@.len(),
                families@.len() == i,
                forall|k: int| 0 <= k < tokens.families@.len() ==> crate::model::icon_ok(
                    #[trigger] tokens.families@[k].icon@,
                ),
                forall|k: int| 0 <= k < i ==> #[trigger] family_meta_of(families@[k], tokens.families@[k]),
            decreases tokens.families@.len() - i,
        {
            let f = &tokens.families[i];
            let mut variants: Vec<ThemeVariantMeta> = Vec::new();
            let mut j: usize = 0;
            while j < f.variants.len()
                invariant
                    j <= f.variants@.len(),
                    variants@.len() == j,
                    forall|m: int| 0 <= m < j ==> #[trigger] variant_meta_of(variants@[m], f.variants@[m]),
                decreases f.variants@.len() - j,
            {
                let v = &f.variants[j];
                variants.push(ThemeVariantMeta {
                    key: v.key.clone(),
                    label_key: v.label_key.clone(),
                    mode: String::from_str(v.mode.as_str()),
                    swatch_bg: v.swatch.bg.0,
                    swatch_accent: v.swatch.accent.0,
                    palette: v.palette,
                });
                j = j + 1;
            }
            assert(crate::model::icon_ok(tokens.families@[i as int].icon@));
            let icon = match f.icon_char() {
                Ok(Some(c)) => {
                    let mut s = String::new();
                    crate::text::push_char(&mut s, c);
                    assert(s@ =~= seq![c]);
                    s
                },
                _ => String::new(),
            };
            proof {
                if f.icon@.len() == 0 {
                    assert(icon@.len() == 0);
                }
            }
            families.push(ThemeFamilyMeta {
                key: f.key.clone(),
                label_key: f.label_key.clone(),
                icon,
                variants,
            });
            i = i + 1;
        }
        let mut accents: Vec<AccentOverride> = Vec::new();
        let mut a: usize = 0;
        while a < tokens.accents.len()
            invariant
                a <= tokens.accents@.len(),
                accents@.len() == a,
                forall|b: int|
                    0 <= b < a ==> #[trigger] accents@[b].key@ == tokens.accents@[b].key@
                        && accents@[b].label_key@ == tokens.accents@[b].label_key@ && accents@[b].color
                        == tokens.accents@[b].color.0,
            decreases tokens.accents@.len() - a,
        {
            let acc = &tokens.accents[a];
            accents.push(AccentOverride {
                key: acc.key.clone(),
                label_key: acc.label_key.clone(),
                color: acc.color.0,
            });
            a = a + 1;
        }
        ThemeCatalog { families, accents, fallback }
    }

    /// The first family in the catalog with the given key.
    /// The catalog of the tokens with the gruvbox dark palette as the
    /// fallback, or `None` when the tokens have no such variant.
    pub fn from_tokens_with_default(tokens: &Tokens) -> (res: Option<ThemeCatalog>)
        requires
            forall|i: int| 0 <= i < tokens.families@.len() ==> crate::model::icon_ok(
                #[trigger] tokens.families@[i].icon@,
            ),
        ensures
            res is Some <==> has_entry(*tokens, FALLBACK_FAMILY@, FALLBACK_VARIANT@),
            res matches Some(c) ==> {
                &&& catalog_of(c, *tokens)
                &&& family_index(c, FALLBACK_FAMILY@) is Some
                &&& variant_index(c.families@[family_index(c, FALLBACK_FAMILY@)->0], FALLBACK_VARIANT@) is Some
                &&& c.fallback == resolve_spec(c, FALLBACK_FAMILY@, FALLBACK_VARIANT@)
                &&& c.accents@.len() == tokens.accents@.len()
                &&& forall|a: int|
                    0 <= a < c.accents@.len() ==> #[trigger] c.accents@[a].key@ == tokens.accents@[a].key@
                        && c.accents@[a].label_key@ == tokens.accents@[a].label_key@
                        && c.accents@[a].color == tokens.accents@[a].color.0
            },
    {
        let c = ThemeCatalog::from_tokens(tokens, blank_palette());
        let found = match c.family(FALLBACK_FAMILY) {
            None => None,
            Some(f) => match f.variant(FALLBACK_VARIANT) {
                None => None,
                Some(v) => Some(v.palette),
            },
        };
        proof {
            if has_entry(*tokens, FALLBACK_FAMILY@, FALLBACK_VARIANT@) {
                lemma_entry_in_catalog(*tokens, c, FALLBACK_FAMILY@, FALLBACK_VARIANT@);
            }
            if family_index(c, FALLBACK_FAMILY@) is Some && variant_index(
                c.families@[family_index(c, FALLBACK_FAMILY@)->0],
                FALLBACK_VARIANT@,
            ) is Some {
                lemma_entry_in_tokens(*tokens, c, FALLBACK_FAMILY@, FALLBACK_VARIANT@);
            }
        }
        match found {
            None => None,
            Some(p) => Some(ThemeCatalog { families: c.families, accents: c.accents, fallback: p }),
        }
    }

    pub fn family(&self, key: &str) -> (res: Option<&ThemeFamilyMeta>)
        ensures
            res is None <==> family_index(*self, key@) is None,
            res matches Some(f) ==> *f == self.families@[family_index(*self, key@)->0],
    {
        let mut i: usize = 0;
        while i < self.families.len()
            invariant
                i <= self.families@.len(),
                forall|m: int| 0 <= m < i ==> #[trigger] self.families@[m].key@ != key@,
            decreases self.families@.len() - i,
        {
            if str_eq(self.families[i].key.as_str(), key) {
                proof {
                    assert(self.families@[i as int].key@ == key@);
                    let k = family_index(*self, key@)->0;
                    if k < i {
                        assert(self.families@[k].key@ != key@);
                    }
                    if i < k {
                        assert(self.families@[i as int].key@ != key@);
                    }
                }
                return Some(&self.families[i]);
            }
            i = i + 1;
        }
        None
    }

    /// The palette for the `(family, variant)` keys stored in a config. An
    /// unknown pair resolves to the fallback rather than failing, so an old
    /// config or a removed family degrades instead of breaking startup.
    pub fn resolve(&self, family: &str, variant: &str) -> (res: Palette)
        ensures
            res == resolve_spec(*self, family@, variant@),
    {
        match self.family(family) {
            None => self.fallback,
            Some(f) => match f.variant(variant) {
                None => self.fallback,
                Some(v) => v.palette,
            },
        }
    }
}

} // verus!

verus! {

/// The index of the first accent with the given key.
pub open spec fn accent_index(c: ThemeCatalog, key: Seq<char>) -> Option<int> {
    if exists|a: int|
        0 <= a < c.accents@.len() && #[trigger] c.accents@[a].key@ == key && (forall|m: int|
            0 <= m < a ==> #[trigger] c.accents@[m].key@ != key) {
        Some(
            choose|a: int|
                0 <= a < c.accents@.len() && c.accents@[a].key@ == key && (forall|m: int|
                    0 <= m < a ==> #[trigger] c.accents@[m].key@ != key),
        )
    } else {
        None
    }
}

proof fn lemma_tint_hash_step(bytes: Seq<u8>, i: int)
    requires
        0 <= i < bytes.len(),
    ensures
        tint_hash(bytes.take(i + 1)) == (31 * tint_hash(bytes.take(i)) + bytes[i]) % two64(),
{
    assert(bytes.take(i + 1).drop_last() =~= bytes.take(i));
}

impl ThemeCatalog {
    /// The colour of the first accent with the given key.
    pub fn accent_key_to_color(&self, key: &str) -> (res: Option<u32>)
        ensures
            res is None <==> accent_index(*self, key@) is None,
            res matches Some(c) ==> c == self.accents@[accent_index(*self, key@)->0].color,
    {
        let mut a: usize = 0;
        while a < self.accents.len()
            invariant
                a <= self.accents@.len(),
                forall|m: int| 0 <= m < a ==> #[trigger] self.accents@[m].key@ != key@,
            decreases self.accents@.len() - a,
        {
            if str_eq(self.accents[a].key.as_str(), key) {
                proof {
                    assert(self.accents@[a as int].key@ == key@);
                    let k = accent_index(*self, key@)->0;
                    if k < a {
                        assert(self.accents@[k].key@ != key@);
                    }
                    if a < k {
                        assert(self.accents@[a as int].key@ != key@);
                    }
                }
                return Some(self.accents[a].color);
            }
            a = a + 1;
        }
        None
    }

    /// Deterministic identity tint for a program, derived from its name only:
    /// the name's bytes hashed with `h = byte + h * 31` (wrapping, signed 64
    /// bits), the hash's absolute value taken modulo the number of accents,
    /// and that accent's colour. The accent list is append-only for this
    /// reason: reordering it re-colours every installed program.
    pub fn app_tint(&self, name: &str) -> (res: u32)
        requires
            self.accents@.len() > 0,
        ensures
            res == self.accents@[tint_index(name@, self.accents@.len() as int)].color,
            ({
                let bits = tint_hash(encode_utf8(name@));
                let signed = if bits < 0x8000_0000_0000_0000 { bits } else { bits - 0x1_0000_0000_0000_0000 };
                let magnitude = if signed < 0 { -signed } else { signed };
                res == self.accents@[magnitude % (self.accents@.len() as int)].color
            }),
    {
        proof {
            law_tint_bucket_is_signed_magnitude(name@, self.accents@.len() as int);
        }
        let bytes = name.as_bytes();
        let mut h: u64 = 0;
        let mut i: usize = 0;
        assert(bytes@.take(0) =~= Seq::<u8>::empty());
        while i < bytes.len()
            invariant
                i <= bytes@.len(),
                bytes@ == encode_utf8(name@),
                h == tint_hash(bytes@.take(i as int)),
            decreases bytes@.len() - i,
        {
            proof {
                lemma_tint_hash_step(bytes@, i as int);
            }
            let t: u128 = 31 * (h as u128) + bytes[i] as u128;
            h = (t % 0x1_0000_0000_0000_0000u128) as u64;
            i = i + 1;
        }
        assert(bytes@.take(bytes@.len() as int) =~= bytes@);
        let abs: u64 = if h >= 0x8000_0000_0000_0000 { (0xffff_ffff_ffff_ffffu64 - h) + 1 } else { h };
        let idx = (abs % (self.accents.len() as u64)) as usize;
        self.accents[idx].color
    }
}

/// The active theme: the base palette, the user's accent override (`None`
/// is "auto", the theme's own accent) and whether high contrast is on.
pub struct ThemeState {
    palette: Palette,
    accent: Option<u32>,
    high_contrast: bool,
}

impl ThemeState {
    pub closed spec fn palette(self) -> Palette {
        self.palette
    }

    pub closed spec fn accent(self) -> Option<u32> {
        self.accent
    }

    pub closed spec fn high_contrast(self) -> bool {
        self.high_contrast
    }

    /// The state at startup: the catalog's fallback palette, auto accent,
    /// high contrast off.
    pub fn new(catalog: &ThemeCatalog) -> (res: ThemeState)
        ensures
            res.palette() == catalog.fallback,
            res.accent() is None,
            !res.high_contrast(),
    {
        ThemeState { palette: catalog.fallback, accent: None, high_contrast: false }
    }

    /// Set the active palette from the `(family, variant)` keys stored in
    /// config; an unknown pair gives the fallback.
    pub fn set_active_theme(&mut self, catalog: &ThemeCatalog, family: &str, variant: &str)
        ensures
            final(self).palette() == resolve_spec(*catalog, family@, variant@),
            final(self).accent() == old(self).accent(),
            final(self).high_contrast() == old(self).high_contrast(),
    {
        self.palette = catalog.resolve(family, variant);
    }

    /// The palette before any high-contrast adjustment.
    pub fn base_palette(&self) -> (res: Palette)
        ensures
            res == self.palette(),
    {
        self.palette
    }

    /// Set the user accent override. `None` restores "auto".
    pub fn set_active_accent(&mut self, color: Option<u32>)
        ensures
            final(self).accent() == color,
            final(self).palette() == old(self).palette(),
            final(self).high_contrast() == old(self).high_contrast(),
    {
        self.accent = color;
    }

    /// The accent override currently set, if any.
    pub fn active_accent(&self) -> (res: Option<u32>)
        ensures
            res == self.accent(),
    {
        self.accent
    }

    /// The effective accent: the user's override, or the theme's own. (The
    /// high-contrast adjustment leaves the accent alone, so the theme's own
    /// is the base palette's.)
    pub fn effective_accent(&self) -> (res: u32)
        ensures
            res == match self.accent() {
                Some(c) => c,
                None => self.palette().accent_blue.0,
            },
    {
        match self.accent {
            Some(c) => c,
            None => self.palette.accent_blue.0,
        }
    }

    pub fn set_high_contrast(&mut self, enabled: bool)
        ensures
            final(self).high_contrast() == enabled,
            final(self).palette() == old(self).palette(),
            final(self).accent() == old(self).accent(),
    {
        self.high_contrast = enabled;
    }

    pub fn is_high_contrast(&self) -> (res: bool)
        ensures
            res == self.high_contrast(),
    {
        self.high_contrast
    }
}

} // verus!

verus! {

/// Resolving the keys of a catalogued variant gives that variant's palette,
/// when family keys are unique and variant keys are unique within a family.
pub proof fn law_resolve_catalogued(c: ThemeCatalog, i: int, j: int)
    requires
        0 <= i < c.families@.len(),
        0 <= j < c.families@[i].variants@.len(),
        forall|a: int, b: int|
            0 <= a < b < c.families@.len() ==> #[trigger] c.families@[a].key@ != #[trigger] c.families@[b].key@,
        forall|a: int, b: int|
            0 <= a < b < c.families@[i].variants@.len() ==> #[trigger] c.families@[i].variants@[a].key@
                != #[trigger] c.families@[i].variants@[b].key@,
    ensures
        resolve_spec(c, c.families@[i].key@, c.families@[i].variants@[j].key@) == c.families@[i].variants@[j].palette,
{
    let fk = c.families@[i].key@;
    let vk = c.families@[i].variants@[j].key@;
    assert(c.families@[i].key@ == fk);
    let fi = family_index(c, fk)->0;
    if fi != i {
        if fi < i {
            assert(c.families@[fi].key@ != c.families@[i].key@);
        } else {
            assert(c.families@[i].key@ != c.families@[fi].key@);
        }
    }
    let f = c.families@[i];
    assert(f.variants@[j].key@ == vk);
    let vj = variant_index(f, vk)->0;
    if vj != j {
        if vj < j {
            assert(f.variants@[vj].key@ != f.variants@[j].key@);
        } else {
            assert(f.variants@[j].key@ != f.variants@[vj].key@);
        }
    }
}

/// `c` is the catalog of `t`: a picker row for each family, in order.
pub open spec fn catalog_of(c: ThemeCatalog, t: Tokens) -> bool {
    &&& c.families@.len() == t.families@.len()
    &&& forall|i: int| 0 <= i < c.families@.len() ==> #[trigger] family_meta_of(c.families@[i], t.families@[i])
}

/// In the catalog of tokens that pass validation, every variant's keys
/// resolve to that variant's own palette: validation leaves no family key,
/// and no variant key within a family, twice.
pub proof fn law_valid_tokens_resolve(t: Tokens, light: Seq<Vec<bool>>, c: ThemeCatalog, i: int, j: int)
    requires
        t.valid(light),
        catalog_of(c, t),
        0 <= i < t.families@.len(),
        0 <= j < t.families@[i].variants@.len(),
    ensures
        resolve_spec(c, t.families@[i].key@, t.families@[i].variants@[j].key@) == t.families@[i].variants@[j].palette,
{
    assert forall|a: int, b: int| 0 <= a < b < c.families@.len() implies #[trigger] c.families@[a].key@
        != #[trigger] c.families@[b].key@ by {
        assert(t.family_ok(light, b));
        assert(t.fam(a).key@ != t.fam(b).key@);
        assert(family_meta_of(c.families@[a], t.families@[a]));
        assert(family_meta_of(c.families@[b], t.families@[b]));
    }
    let m = c.families@[i];
    assert(family_meta_of(m, t.families@[i]));
    assert(t.family_ok(light, i));
    assert forall|a: int, b: int| 0 <= a < b < m.variants@.len() implies #[trigger] m.variants@[a].key@
        != #[trigger] m.variants@[b].key@ by {
        assert(t.variant_ok(light, i, b));
        assert(t.var(i, a).key@ != t.var(i, b).key@);
        assert(variant_meta_of(m.variants@[a], t.families@[i].variants@[a]));
        assert(variant_meta_of(m.variants@[b], t.families@[i].variants@[b]));
    }
    law_resolve_catalogued(c, i, j);
    assert(variant_meta_of(m.variants@[j], t.families@[i].variants@[j]));
}

/// In the catalog of tokens that pass validation, looking a family up by its
/// key finds that family: validation leaves no family key twice.
pub proof fn law_valid_tokens_family(t: Tokens, light: Seq<Vec<bool>>, c: ThemeCatalog, i: int)
    requires
        t.valid(light),
        catalog_of(c, t),
        0 <= i < t.families@.len(),
    ensures
        family_index(c, t.families@[i].key@) == Some(i),
        c.families@[i].key@ == t.families@[i].key@,
{
    let k = t.families@[i].key@;
    assert(family_meta_of(c.families@[i], t.families@[i]));
    assert(t.family_ok(light, i));
    assert forall|m: int| 0 <= m < i implies #[trigger] c.families@[m].key@ != k by {
        assert(family_meta_of(c.families@[m], t.families@[m]));
        assert(t.fam(m).key@ != t.fam(i).key@);
    }
    assert(c.families@[i].key@ == k);
    let fi = family_index(c, k)->0;
    if fi != i {
        if fi < i {
            assert(c.families@[fi].key@ != k);
        } else {
            assert(c.families@[i].key@ != c.families@[fi].key@);
        }
    }
}

/// A family key or variant key the catalog does not hold resolves to the
/// fallback palette.
pub proof fn law_resolve_unknown(c: ThemeCatalog, family: Seq<char>, variant: Seq<char>)
    requires
        forall|i: int, j: int|
            0 <= i < c.families@.len() && 0 <= j < c.families@[i].variants@.len() ==> !(
            #[trigger] c.families@[i].key@ == family && #[trigger] c.families@[i].variants@[j].key@ == variant),
    ensures
        resolve_spec(c, family, variant) == c.fallback,
{
    if let Some(i) = family_index(c, family) {
        if let Some(j) = variant_index(c.families@[i], variant) {
            assert(c.families@[i].key@ == family);
            assert(c.families@[i].variants@[j].key@ == variant);
        }
    }
}

/// The identity-tint hash is a 64-bit pattern.
proof fn lemma_tint_hash_bits(bytes: Seq<u8>)
    ensures
        0 <= tint_hash(bytes) < two64(),
    decreases bytes.len(),
{
    if bytes.len() > 0 {
        lemma_tint_hash_bits(bytes.drop_last());
    }
}

/// The bucket a name falls in is the magnitude of its hash read as a signed
/// 64-bit number, modulo the number of accents: a pattern at or above 2^63
/// stands for the negative number `bits - 2^64`, whose magnitude is
/// `2^64 - bits`, not `bits`.
pub proof fn law_tint_bucket_is_signed_magnitude(name: Seq<char>, n: int)
    requires
        n > 0,
    ensures
        ({
            let bits = tint_hash(encode_utf8(name));
            let signed = if bits < 0x8000_0000_0000_0000 { bits } else { bits - 0x1_0000_0000_0000_0000 };
            let magnitude = if signed < 0 { -signed } else { signed };
            &&& 0 <= bits < 0x1_0000_0000_0000_0000
            &&& tint_index(name, n) == magnitude % n
        }),
{
    lemma_tint_hash_bits(encode_utf8(name));
}

/// The identity tint is always one of the shipped accents.
pub proof fn law_tint_is_an_accent(name: Seq<char>, n: int)
    requires
        n > 0,
    ensures
        0 <= tint_index(name, n) < n,
{
}

} // verus!
