//! The token model: what a theme family, a variant and a palette are, and
//! every rule a loaded set of tokens must keep.

use vstd::prelude::*;
use vstd::utf8::is_scalar;

use crate::color::{hex_value, Color};
use crate::text::{
    debug_str, decimal, decimal_string, is_ascii_digit, is_ascii_upper, is_digit_char, is_hex_char,
    is_hex_digit, is_upper_char, push_char, spec_debug_str, str_eq, upper_hex, upper_hex_string,
};

verus! {

/// One palette field: its name and the role group it belongs to.
#[derive(Debug, Clone, Copy, PartialEq, Eq)]
pub struct Field {
    pub name: &'static str,
    pub group: &'static str,
}

/// The name and group of each field.
pub open spec fn field_views(s: Seq<Field>) -> Seq<(Seq<char>, Seq<char>)> {
    s.map_values(|f: Field| (f.name@, f.group@))
}

/// `_` replaced by `-`.
pub open spec fn dashed(s: Seq<char>) -> Seq<char> {
    s.map_values(|c: char| if c == '_' { '-' } else { c })
}

/// `s` with every `_` replaced by `-`.
pub fn dashed_string(s: &str) -> (res: String)
    ensures
        res@ == dashed(s@),
{
    let n = s.unicode_len();
    let mut res = String::new();
    let mut i: usize = 0;
    while i < n
        invariant
            i <= n,
            n == s@.len(),
            res@ == dashed(s@.take(i as int)),
        decreases n - i,
    {
        let c = s.get_char(i);
        push_char(&mut res, if c == '_' { '-' } else { c });
        assert(dashed(s@.take(i + 1)) =~= dashed(s@.take(i as int)).push(
            if c == '_' { '-' } else { c },
        ));
        i = i + 1;
    }
    assert(s@.take(n as int) =~= s@);
    res
}

impl Field {
    /// `bg_primary` -> `--colony-bg-primary`.
    pub fn css_var(&self) -> (res: String)
        ensures
            res@ == "--colony-"@ + dashed(self.name@),
    {
        let mut res = String::from_str("--colony-");
        res.append(dashed_string(self.name).as_str());
        res
    }
}

/// A full Colony palette: 38 colours in eight role groups. Every field is
/// required; the field order here is the order emitted everywhere downstream.
#[derive(Debug, Clone, Copy, PartialEq, Eq, Structural)]
pub struct Palette {
    pub bg_primary: Color,
    pub bg_sidebar: Color,
    pub bg_card: Color,
    pub bg_card_hover: Color,
    pub bg_card_pressed: Color,
    pub bg_selected: Color,
    pub bg_input: Color,
    pub bg_progress: Color,
    pub text_primary: Color,
    pub text_secondary: Color,
    pub text_muted: Color,
    pub text_dim: Color,
    pub text_dimmer: Color,
    pub text_dimmest: Color,
    pub text_placeholder: Color,
    pub accent_blue: Color,
    pub accent_icon: Color,
    pub accent_progress: Color,
    pub btn_default: Color,
    pub btn_hover: Color,
    pub btn_pressed: Color,
    pub success: Color,
    pub success_bg: Color,
    pub btn_success: Color,
    pub btn_success_hover: Color,
    pub btn_success_pressed: Color,
    pub warning: Color,
    pub warning_bg: Color,
    pub error: Color,
    pub error_light: Color,
    pub error_bg: Color,
    pub btn_danger_bg: Color,
    pub btn_danger_hover: Color,
    pub btn_trash_hover: Color,
    pub btn_trash_pressed: Color,
    pub bg_modal_section: Color,
    pub border_subtle: Color,
    pub divider: Color,
}

/// The canonical field order, with role groups.
pub open spec fn palette_fields() -> Seq<(Seq<char>, Seq<char>)> {
    seq![
        ("bg_primary"@, "backgrounds"@),
        ("bg_sidebar"@, "backgrounds"@),
        ("bg_card"@, "backgrounds"@),
        ("bg_card_hover"@, "backgrounds"@),
        ("bg_card_pressed"@, "backgrounds"@),
        ("bg_selected"@, "backgrounds"@),
        ("bg_input"@, "backgrounds"@),
        ("bg_progress"@, "backgrounds"@),
        ("text_primary"@, "text"@),
        ("text_secondary"@, "text"@),
        ("text_muted"@, "text"@),
        ("text_dim"@, "text"@),
        ("text_dimmer"@, "text"@),
        ("text_dimmest"@, "text"@),
        ("text_placeholder"@, "text"@),
        ("accent_blue"@, "accent"@),
        ("accent_icon"@, "accent"@),
        ("accent_progress"@, "accent"@),
        ("btn_default"@, "buttons"@),
        ("btn_hover"@, "buttons"@),
        ("btn_pressed"@, "buttons"@),
        ("success"@, "success"@),
        ("success_bg"@, "success"@),
        ("btn_success"@, "success"@),
        ("btn_success_hover"@, "success"@),
        ("btn_success_pressed"@, "success"@),
        ("warning"@, "warning"@),
        ("warning_bg"@, "warning"@),
        ("error"@, "error"@),
        ("error_light"@, "error"@),
        ("error_bg"@, "error"@),
        ("btn_danger_bg"@, "error"@),
        ("btn_danger_hover"@, "error"@),
        ("btn_trash_hover"@, "error"@),
        ("btn_trash_pressed"@, "error"@),
        ("bg_modal_section"@, "modal"@),
        ("border_subtle"@, "modal"@),
        ("divider"@, "modal"@),
    ]
}

/// The palette's colours in field order.
pub open spec fn palette_values(p: Palette) -> Seq<Color> {
    seq![
        p.bg_primary,
        p.bg_sidebar,
        p.bg_card,
        p.bg_card_hover,
        p.bg_card_pressed,
        p.bg_selected,
        p.bg_input,
        p.bg_progress,
        p.text_primary,
        p.text_secondary,
        p.text_muted,
        p.text_dim,
        p.text_dimmer,
        p.text_dimmest,
        p.text_placeholder,
        p.accent_blue,
        p.accent_icon,
        p.accent_progress,
        p.btn_default,
        p.btn_hover,
        p.btn_pressed,
        p.success,
        p.success_bg,
        p.btn_success,
        p.btn_success_hover,
        p.btn_success_pressed,
        p.warning,
        p.warning_bg,
        p.error,
        p.error_light,
        p.error_bg,
        p.btn_danger_bg,
        p.btn_danger_hover,
        p.btn_trash_hover,
        p.btn_trash_pressed,
        p.bg_modal_section,
        p.border_subtle,
        p.divider,
    ]
}

impl Palette {
    /// Canonical field order, with role groups.
    pub fn fields() -> (res: Vec<Field>)
        ensures
            field_views(res@) == palette_fields(),
    {
        let mut v = Vec::new();
        v.push(Field { name: "bg_primary", group: "backgrounds" });
        v.push(Field { name: "bg_sidebar", group: "backgrounds" });
        v.push(Field { name: "bg_card", group: "backgrounds" });
        v.push(Field { name: "bg_card_hover", group: "backgrounds" });
        v.push(Field { name: "bg_card_pressed", group: "backgrounds" });
        v.push(Field { name: "bg_selected", group: "backgrounds" });
        v.push(Field { name: "bg_input", group: "backgrounds" });
        v.push(Field { name: "bg_progress", group: "backgrounds" });
        v.push(Field { name: "text_primary", group: "text" });
        v.push(Field { name: "text_secondary", group: "text" });
        v.push(Field { name: "text_muted", group: "text" });
        v.push(Field { name: "text_dim", group: "text" });
        v.push(Field { name: "text_dimmer", group: "text" });
        v.push(Field { name: "text_dimmest", group: "text" });
        v.push(Field { name: "text_placeholder", group: "text" });
        v.push(Field { name: "accent_blue", group: "accent" });
        v.push(Field { name: "accent_icon", group: "accent" });
        v.push(Field { name: "accent_progress", group: "accent" });
        v.push(Field { name: "btn_default", group: "buttons" });
        v.push(Field { name: "btn_hover", group: "buttons" });
        v.push(Field { name: "btn_pressed", group: "buttons" });
        v.push(Field { name: "success", group: "success" });
        v.push(Field { name: "success_bg", group: "success" });
        v.push(Field { name: "btn_success", group: "success" });
        v.push(Field { name: "btn_success_hover", group: "success" });
        v.push(Field { name: "btn_success_pressed", group: "success" });
        v.push(Field { name: "warning", group: "warning" });
        v.push(Field { name: "warning_bg", group: "warning" });
        v.push(Field { name: "error", group: "error" });
        v.push(Field { name: "error_light", group: "error" });
        v.push(Field { name: "error_bg", group: "error" });
        v.push(Field { name: "btn_danger_bg", group: "error" });
        v.push(Field { name: "btn_danger_hover", group: "error" });
        v.push(Field { name: "btn_trash_hover", group: "error" });
        v.push(Field { name: "btn_trash_pressed", group: "error" });
        v.push(Field { name: "bg_modal_section", group: "modal" });
        v.push(Field { name: "border_subtle", group: "modal" });
        v.push(Field { name: "divider", group: "modal" });
        assert(field_views(v@) =~= palette_fields());
        v
    }

    /// Values in `fields()` order.
    pub fn values(&self) -> (res: Vec<Color>)
        ensures
            res@ == palette_values(*self),
    {
        let mut v = Vec::new();
        v.push(self.bg_primary);
        v.push(self.bg_sidebar);
        v.push(self.bg_card);
        v.push(self.bg_card_hover);
        v.push(self.bg_card_pressed);
        v.push(self.bg_selected);
        v.push(self.bg_input);
        v.push(self.bg_progress);
        v.push(self.text_primary);
        v.push(self.text_secondary);
        v.push(self.text_muted);
        v.push(self.text_dim);
        v.push(self.text_dimmer);
        v.push(self.text_dimmest);
        v.push(self.text_placeholder);
        v.push(self.accent_blue);
        v.push(self.accent_icon);
        v.push(self.accent_progress);
        v.push(self.btn_default);
        v.push(self.btn_hover);
        v.push(self.btn_pressed);
        v.push(self.success);
        v.push(self.success_bg);
        v.push(self.btn_success);
        v.push(self.btn_success_hover);
        v.push(self.btn_success_pressed);
        v.push(self.warning);
        v.push(self.warning_bg);
        v.push(self.error);
        v.push(self.error_light);
        v.push(self.error_bg);
        v.push(self.btn_danger_bg);
        v.push(self.btn_danger_hover);
        v.push(self.btn_trash_hover);
        v.push(self.btn_trash_pressed);
        v.push(self.bg_modal_section);
        v.push(self.border_subtle);
        v.push(self.divider);
        assert(v@ =~= palette_values(*self));
        v
    }
}

impl Palette {
    /// `(field, value)` pairs in canonical order. Fields and values come from
    /// the same list, so they line up one for one.
    pub fn entries(&self) -> (res: Vec<(Field, Color)>)
        ensures
            res@.len() == 38,
            forall|i: int|
                0 <= i < 38 ==> (#[trigger] res@[i].0.name@, res@[i].0.group@) == palette_fields()[i]
                    && res@[i].1 == palette_values(*self)[i],
    {
        let fields = Palette::fields();
        let values = self.values();
        assert(field_views(fields@).len() == fields@.len());
        let mut out: Vec<(Field, Color)> = Vec::new();
        let mut i: usize = 0;
        while i < fields.len()
            invariant
                i <= fields@.len(),
                fields@.len() == 38,
                values@ == palette_values(*self),
                field_views(fields@) == palette_fields(),
                out@.len() == i,
                forall|k: int|
                    0 <= k < i ==> (#[trigger] out@[k].0.name@, out@[k].0.group@)
                        == palette_fields()[k] && out@[k].1 == palette_values(*self)[k],
            decreases fields@.len() - i,
        {
            assert(field_views(fields@)[i as int] == (fields@[i as int].name@, fields@[i as int].group@));
            out.push((fields[i], values[i]));
            i = i + 1;
        }
        out
    }
}

/// A localized display string, in both locales.
#[derive(Debug, Clone, PartialEq, Eq)]
pub struct Label {
    pub fr: String,
    pub en: String,
}

/// The two colours drawn on a variant's card in the theme picker.
#[derive(Debug, Clone, Copy, PartialEq, Eq, Structural)]
pub struct Swatch {
    pub bg: Color,
    pub accent: Color,
}

/// Whether a variant is a light or a dark theme.
#[derive(Debug, Clone, Copy, PartialEq, Eq, Structural)]
pub enum Mode {
    Light,
    Dark,
}

pub open spec fn mode_text(m: Mode) -> Seq<char> {
    match m {
        Mode::Light => "light"@,
        Mode::Dark => "dark"@,
    }
}

impl Mode {
    pub fn as_str(self) -> (res: &'static str)
        ensures
            res@ == mode_text(self),
    {
        match self {
            Mode::Light => "light",
            Mode::Dark => "dark",
        }
    }
}

/// One variant of a theme family.
#[derive(Debug, Clone)]
pub struct Variant {
    pub key: String,
    /// Rust const name of the palette. Stable identifier.
    pub const_name: String,
    pub label_key: String,
    pub mode: Mode,
    pub label: Label,
    pub swatch: Swatch,
    /// Why this palette looks the way it does.
    pub notes: Option<String>,
    pub palette: Palette,
}

impl Variant {
    /// `gruvbox-dark` — the slug used for CSS filenames and selectors.
    pub fn slug(&self, family: &Family) -> (res: String)
        ensures
            res@ == dashed(family.key@) + "-"@ + dashed(self.key@),
    {
        let mut res = dashed_string(family.key.as_str());
        res.append("-");
        res.append(dashed_string(self.key.as_str()).as_str());
        res
    }

    /// Human-readable English name, e.g. `Gruvbox · Dark mode`.
    pub fn display_name(&self, family: &Family) -> (res: String)
        ensures
            res@ == family.label.en@ + " \u{b7} "@ + self.label.en@,
    {
        let mut res = family.label.en.clone();
        res.append(" \u{b7} ");
        res.append(self.label.en.as_str());
        res
    }
}

/// A theme family: a picker row and its variants.
#[derive(Debug, Clone)]
pub struct Family {
    pub key: String,
    /// Position in the theme picker. Unique across families.
    pub order: u32,
    pub label_key: String,
    /// Nerd Font codepoint as bare hex (`f0f4`), or empty for none.
    pub icon: String,
    pub label: Label,
    /// Provenance and licensing context for the family.
    pub notes: Option<String>,
    pub variants: Vec<Variant>,
}

/// A palette-independent accent the user can pick to override the active
/// theme's own accent.
#[derive(Debug, Clone)]
pub struct Accent {
    pub key: String,
    pub label_key: String,
    pub label: Label,
    pub color: Color,
}

/// Every family, in picker order, plus the shared accent overrides in file
/// order.
#[derive(Debug, Clone)]
pub struct Tokens {
    pub families: Vec<Family>,
    pub accents: Vec<Accent>,
}

/// What `u32::from_str_radix(s, 16)` accepts: an optional `+`, then at least
/// one hex digit of either case, and a value that fits in 32 bits.
pub open spec fn hex_u32(s: Seq<char>) -> Option<u32> {
    hex_digits_u32(strip_plus(s))
}

/// `s` without a leading `+`.
pub open spec fn strip_plus(s: Seq<char>) -> Seq<char> {
    if s.len() > 0 && s[0] == '+' {
        s.drop_first()
    } else {
        s
    }
}

/// The value of a non-empty run of hex digits, when it fits in 32 bits.
pub open spec fn hex_digits_u32(d: Seq<char>) -> Option<u32> {
    if d.len() > 0 && (forall|i: int| 0 <= i < d.len() ==> is_hex_char(#[trigger] d[i]))
        && hex_value(d) < 0x1_0000_0000 {
        Some(hex_value(d) as u32)
    } else {
        None
    }
}

/// A family's icon is fine: empty, or the hex code of a character.
pub open spec fn icon_ok(icon: Seq<char>) -> bool {
    icon.len() == 0 || (hex_u32(icon) is Some && is_scalar(hex_u32(icon)->0))
}

/// `char::from_u32`.
///
/// Trusted: the standard library documents that it returns `None` exactly
/// when the value is not a valid `char`, i.e. not a Unicode scalar value.
#[verifier::external_body]
fn char_from_u32(v: u32) -> (res: Option<char>)
    ensures
        res is Some <==> is_scalar(v),
        res matches Some(c) ==> c as u32 == v,
{
    char::from_u32(v)
}

proof fn lemma_hex_prefix_le(s: Seq<char>, i: int)
    requires
        0 <= i <= s.len(),
    ensures
        hex_value(s.take(i)) <= hex_value(s),
    decreases s.len() - i,
{
    if i < s.len() {
        lemma_hex_prefix_le(s.drop_last(), i);
        assert(s.drop_last().take(i) =~= s.take(i));
        if i == s.len() - 1 {
            assert(s.take(i) =~= s.drop_last());
        }
    } else {
        assert(s.take(i) =~= s);
    }
}

/// Parses the digits of `s` from `start` on as a hex `u32`.
fn parse_hex_u32_from(s: &str, start: usize) -> (res: Option<u32>)
    requires
        start <= s@.len(),
    ensures
        res == hex_digits_u32(s@.skip(start as int)),
{
    let n = s.unicode_len();
    let ghost d = s@.skip(start as int);
    if start >= n {
        return None;
    }
    let mut i = start;
    while i < n
        invariant
            start <= i <= n,
            n == s@.len(),
            d == s@.skip(start as int),
            forall|k: int| 0 <= k < i - start ==> is_hex_char(#[trigger] d[k]),
        decreases n - i,
    {
        if !is_hex_digit(s.get_char(i)) {
            assert(!is_hex_char(d[i - start]));
            return None;
        }
        i = i + 1;
    }
    let mut v: u64 = 0;
    let mut k = start;
    while k < n
        invariant
            start <= k <= n,
            n == s@.len(),
            d == s@.skip(start as int),
            forall|m: int| 0 <= m < d.len() ==> is_hex_char(#[trigger] d[m]),
            v == hex_value(d.take(k - start)),
            v < 0x1_0000_0000,
        decreases n - k,
    {
        let c = s.get_char(k);
        assert(d[k - start] == c);
        let dv: u64 = crate::color::hex_digit_value_exec(c) as u64;
        proof {
            let p = d.take(k - start + 1);
            assert(p.drop_last() =~= d.take(k - start));
            assert(p.last() == c);
        }
        let nv = v * 16 + dv;
        if nv >= 0x1_0000_0000 {
            proof {
                lemma_hex_prefix_le(d, k - start + 1);
            }
            return None;
        }
        v = nv;
        k = k + 1;
    }
    assert(d.take(n - start) =~= d);
    Some(v as u32)
}

impl Family {
    /// The icon as a `char`, or `None` when the family has no glyph.
    pub fn icon_char(&self) -> (res: Result<Option<char>, TokensError>)
        ensures
            self.icon@.len() == 0 ==> res == Ok::<Option<char>, TokensError>(None),
            self.icon@.len() > 0 ==> match res {
                Ok(Some(c)) => hex_u32(self.icon@) == Some(c as u32),
                Ok(None) => false,
                Err(TokensError::IconNotHex { family, icon }) => family@ == self.key@ && icon@
                    == self.icon@ && hex_u32(self.icon@) is None,
                Err(TokensError::IconNotChar { family, codepoint }) => family@ == self.key@
                    && hex_u32(self.icon@) == Some(codepoint) && !is_scalar(codepoint),
                Err(_) => false,
            },
            res is Ok <==> icon_ok(self.icon@),
    {
        let icon = self.icon.as_str();
        let n = icon.unicode_len();
        if n == 0 {
            return Ok(None);
        }
        let start: usize = if icon.get_char(0) == '+' { 1 } else { 0 };
        proof {
            if start == 1 {
                assert(icon@.skip(1) =~= icon@.drop_first());
            } else {
                assert(icon@.skip(0) =~= icon@);
            }
        }
        let parsed = parse_hex_u32_from(icon, start);
        assert(parsed == hex_u32(self.icon@));
        match parsed {
            None => Err(TokensError::IconNotHex { family: self.key.clone(), icon: self.icon.clone() }),
            Some(cp) => match char_from_u32(cp) {
                Some(c) => Ok(Some(c)),
                None => Err(TokensError::IconNotChar { family: self.key.clone(), codepoint: cp }),
            },
        }
    }

    /// `\u{f0f4}` for Rust source, or an empty string.
    pub fn icon_rust_escape(&self) -> (res: String)
        ensures
            res@ == if self.icon@.len() == 0 {
                Seq::<char>::empty()
            } else {
                "\\u{"@ + self.icon@ + "}"@
            },
    {
        if self.icon.as_str().unicode_len() == 0 {
            String::new()
        } else {
            let mut res = String::from_str("\\u{");
            res.append(self.icon.as_str());
            res.append("}");
            res
        }
    }
}

/// Why a set of tokens is refused.
#[derive(Debug, PartialEq, Eq)]
pub enum TokensError {
    /// No family file was found.
    NoFamilies { dir: String },
    /// A family file's `key` differs from its file name.
    KeyMismatch { path: String, key: String, stem: String },
    DuplicateFamilyKey { key: String },
    SharedOrder { other: String, key: String, order: u32 },
    IconNotHex { family: String, icon: String },
    IconNotChar { family: String, codepoint: u32 },
    NoVariants { family: String },
    DuplicateVariant { family: String, variant: String },
    ConstClaimed { const_name: String, other: String, id: String },
    ConstNotScreaming { id: String, const_name: String },
    ModeMismatch { id: String, declared: Mode, actual: Mode, bg: Color },
    NoAccents,
    DuplicateAccent { key: String },
    AccentMissingLabel { key: String },
}

} // verus!

verus! {

/// `family/variant`, the identifier used in reports.
pub open spec fn variant_id(f: Family, v: Variant) -> Seq<char> {
    f.key@ + "/"@ + v.key@
}

/// Every variant with its family, families in order, variants in order.
pub open spec fn family_variants(fams: Seq<Family>) -> Seq<(Family, Variant)>
    decreases fams.len(),
{
    if fams.len() == 0 {
        seq![]
    } else {
        family_variants(fams.drop_last()) + pair_with(fams.last(), fams.last().variants@)
    }
}

pub open spec fn pair_with(f: Family, vs: Seq<Variant>) -> Seq<(Family, Variant)> {
    vs.map_values(|v: Variant| (f, v))
}

/// The number of variants over all families.
pub open spec fn total_variants(fams: Seq<Family>) -> nat
    decreases fams.len(),
{
    if fams.len() == 0 {
        0
    } else {
        total_variants(fams.drop_last()) + fams.last().variants@.len()
    }
}

/// `SCREAMING_SNAKE_CASE`: ASCII uppercase, digits and `_` only.
pub open spec fn screaming(s: Seq<char>) -> bool {
    forall|i: int| 0 <= i < s.len() ==> is_upper_char(#[trigger] s[i]) || is_digit_char(s[i]) || s[i] == '_'
}

/// The mode that the variant's background reads as.
pub open spec fn actual_mode(light: bool) -> Mode {
    if light {
        Mode::Light
    } else {
        Mode::Dark
    }
}

impl Tokens {
    pub open spec fn fam(self, i: int) -> Family {
        self.families@[i]
    }

    pub open spec fn var(self, i: int, j: int) -> Variant {
        self.families@[i].variants@[j]
    }

    pub open spec fn nvars(self, i: int) -> int {
        self.families@[i].variants@.len() as int
    }

    /// `light` has one entry per variant, family by family.
    pub open spec fn light_shape(self, light: Seq<Vec<bool>>) -> bool {
        &&& light.len() == self.families@.len()
        &&& forall|i: int| 0 <= i < light.len() ==> #[trigger] light[i]@.len() == self.nvars(i)
    }

    /// The family-level checks of family `i`: a key and an order no earlier
    /// family has, a usable icon, at least one variant.
    pub open spec fn head_ok(self, i: int) -> bool {
        &&& forall|k: int| 0 <= k < i ==> #[trigger] self.fam(k).key@ != self.fam(i).key@
        &&& forall|k: int| 0 <= k < i ==> #[trigger] self.fam(k).order != self.fam(i).order
        &&& icon_ok(self.fam(i).icon@)
        &&& self.nvars(i) > 0
    }

    /// No variant before `(i, j)`, in this family or an earlier one, claims
    /// the same const name.
    pub open spec fn const_fresh(self, i: int, j: int) -> bool {
        &&& forall|k: int, l: int|
            0 <= k < i && 0 <= l < self.nvars(k) ==> #[trigger] self.var(k, l).const_name@
                != self.var(i, j).const_name@
        &&& forall|l: int| 0 <= l < j ==> #[trigger] self.var(i, l).const_name@ != self.var(i, j).const_name@
    }

    /// The checks of variant `j` of family `i`.
    pub open spec fn variant_ok(self, light: Seq<Vec<bool>>, i: int, j: int) -> bool {
        &&& forall|l: int| 0 <= l < j ==> #[trigger] self.var(i, l).key@ != self.var(i, j).key@
        &&& self.const_fresh(i, j)
        &&& screaming(self.var(i, j).const_name@)
        &&& self.var(i, j).mode == actual_mode(light[i]@[j])
    }

    pub open spec fn variants_ok_before(self, light: Seq<Vec<bool>>, i: int, j: int) -> bool {
        forall|l: int| 0 <= l < j ==> #[trigger] self.variant_ok(light, i, l)
    }

    pub open spec fn family_ok(self, light: Seq<Vec<bool>>, i: int) -> bool {
        self.head_ok(i) && self.variants_ok_before(light, i, self.nvars(i))
    }

    pub open spec fn families_ok_before(self, light: Seq<Vec<bool>>, i: int) -> bool {
        forall|k: int| 0 <= k < i ==> #[trigger] self.family_ok(light, k)
    }

    pub open spec fn accent_ok(self, a: int) -> bool {
        &&& forall|b: int| 0 <= b < a ==> #[trigger] self.accents@[b].key@ != self.accents@[a].key@
        &&& self.accents@[a].label.fr@.len() > 0
        &&& self.accents@[a].label.en@.len() > 0
    }

    /// Every invariant a consumer of the tokens may rely on.
    pub open spec fn valid(self, light: Seq<Vec<bool>>) -> bool {
        &&& self.families_ok_before(light, self.families@.len() as int)
        &&& self.accents@.len() > 0
        &&& forall|a: int| 0 <= a < self.accents@.len() ==> #[trigger] self.accent_ok(a)
    }

    /// `e` reports the first failing family-level check of family `i`.
    pub open spec fn head_report(self, i: int, e: TokensError) -> bool {
        let f = self.fam(i);
        let keys_ok = forall|k: int| 0 <= k < i ==> #[trigger] self.fam(k).key@ != f.key@;
        let orders_ok = forall|k: int| 0 <= k < i ==> #[trigger] self.fam(k).order != f.order;
        match e {
            TokensError::DuplicateFamilyKey { key } => !keys_ok && key@ == f.key@,
            TokensError::SharedOrder { other, key, order } => keys_ok && !orders_ok && key@
                == f.key@ && order == f.order && exists|k: int|
                0 <= k < i && self.fam(k).order == f.order && #[trigger] self.fam(k).key@ == other@,
            TokensError::IconNotHex { family, icon } => keys_ok && orders_ok && family@ == f.key@
                && icon@ == f.icon@ && f.icon@.len() > 0 && hex_u32(f.icon@) is None,
            TokensError::IconNotChar { family, codepoint } => keys_ok && orders_ok && family@
                == f.key@ && f.icon@.len() > 0 && hex_u32(f.icon@) == Some(codepoint)
                && !is_scalar(codepoint),
            TokensError::NoVariants { family } => keys_ok && orders_ok && icon_ok(f.icon@)
                && self.nvars(i) == 0 && family@ == f.key@,
            _ => false,
        }
    }

    /// `e` reports the first failing check of variant `j` of family `i`.
    pub open spec fn variant_report(self, light: Seq<Vec<bool>>, i: int, j: int, e: TokensError) -> bool {
        let f = self.fam(i);
        let v = self.var(i, j);
        let keys_ok = forall|l: int| 0 <= l < j ==> #[trigger] self.var(i, l).key@ != v.key@;
        match e {
            TokensError::DuplicateVariant { family, variant } => !keys_ok && family@ == f.key@
                && variant@ == v.key@,
            TokensError::ConstClaimed { const_name, other, id } => keys_ok && !self.const_fresh(i, j)
                && const_name@ == v.const_name@ && id@ == variant_id(f, v) && exists|k: int, l: int|
                0 <= k <= i && 0 <= l < self.nvars(k) && (k < i || l < j)
                    && #[trigger] self.var(k, l).const_name@ == v.const_name@ && other@ == variant_id(
                    self.fam(k),
                    self.var(k, l),
                ),
            TokensError::ConstNotScreaming { id, const_name } => keys_ok && self.const_fresh(i, j)
                && !screaming(v.const_name@) && id@ == variant_id(f, v) && const_name@
                == v.const_name@,
            TokensError::ModeMismatch { id, declared, actual, bg } => keys_ok && self.const_fresh(
                i,
                j,
            ) && screaming(v.const_name@) && actual == actual_mode(light[i]@[j]) && declared
                == v.mode && declared != actual && id@ == variant_id(f, v) && bg
                == v.palette.bg_primary,
            _ => false,
        }
    }

    /// `e` reports the first failing accent check, all families being fine.
    pub open spec fn accent_report(self, e: TokensError) -> bool {
        match e {
            TokensError::NoAccents => self.accents@.len() == 0,
            TokensError::DuplicateAccent { key } => exists|a: int|
                0 <= a < self.accents@.len() && (forall|b: int| 0 <= b < a ==> #[trigger] self.accent_ok(b))
                    && !(forall|b: int| 0 <= b < a ==> #[trigger] self.accents@[b].key@ != self.accents@[a].key@)
                    && key@ == self.accents@[a].key@,
            TokensError::AccentMissingLabel { key } => exists|a: int|
                0 <= a < self.accents@.len() && (forall|b: int| 0 <= b < a ==> #[trigger] self.accent_ok(b))
                    && (forall|b: int| 0 <= b < a ==> #[trigger] self.accents@[b].key@ != self.accents@[a].key@)
                    && (self.accents@[a].label.fr@.len() == 0 || self.accents@[a].label.en@.len() == 0)
                    && key@ == self.accents@[a].key@,
            _ => false,
        }
    }

    /// `e` is what the checks report: they run family by family (the family's
    /// own checks, then each variant's), then over the accents, and the first
    /// failing check is reported.
    pub open spec fn reported(self, light: Seq<Vec<bool>>, e: TokensError) -> bool {
        ||| exists|i: int|
            0 <= i < self.families@.len() && self.families_ok_before(light, i) && #[trigger] self.head_report(i, e)
        ||| exists|i: int, j: int|
            0 <= i < self.families@.len() && 0 <= j < self.nvars(i) && self.families_ok_before(light, i)
                && self.head_ok(i) && self.variants_ok_before(light, i, j)
                && #[trigger] self.variant_report(light, i, j, e)
        ||| self.families_ok_before(light, self.families@.len() as int) && self.accent_report(e)
    }
}

} // verus!

verus! {

fn is_screaming(s: &str) -> (res: bool)
    ensures
        res == screaming(s@),
{
    let n = s.unicode_len();
    let mut i: usize = 0;
    while i < n
        invariant
            i <= n,
            n == s@.len(),
            forall|k: int| 0 <= k < i ==> is_upper_char(#[trigger] s@[k]) || is_digit_char(s@[k]) || s@[k] == '_',
        decreases n - i,
    {
        let c = s.get_char(i);
        if !(is_ascii_upper(c) || is_ascii_digit(c) || c == '_') {
            return false;
        }
        i = i + 1;
    }
    true
}

fn id_string(f: &Family, v: &Variant) -> (res: String)
    ensures
        res@ == variant_id(*f, *v),
{
    let mut s = f.key.clone();
    s.append("/");
    s.append(v.key.as_str());
    s
}

impl Tokens {
    /// The family-level checks of family `i`.
    fn head_check(&self, i: usize) -> (res: Option<TokensError>)
        requires
            i < self.families@.len(),
        ensures
            res is None <==> self.head_ok(i as int),
            res matches Some(e) ==> self.head_report(i as int, e),
    {
        let f = &self.families[i];
        let mut k: usize = 0;
        while k < i
            invariant
                k <= i,
                i < self.families@.len(),
                *f == self.fam(i as int),
                forall|m: int| 0 <= m < k ==> #[trigger] self.fam(m).key@ != f.key@,
            decreases i - k,
        {
            if self.families[k].key == f.key {
                assert(self.fam(k as int).key@ == f.key@);
                return Some(TokensError::DuplicateFamilyKey { key: f.key.clone() });
            }
            k = k + 1;
        }
        let mut k: usize = 0;
        while k < i
            invariant
                k <= i,
                i < self.families@.len(),
                *f == self.fam(i as int),
                forall|m: int| 0 <= m < i ==> #[trigger] self.fam(m).key@ != f.key@,
                forall|m: int| 0 <= m < k ==> #[trigger] self.fam(m).order != f.order,
            decreases i - k,
        {
            if self.families[k].order == f.order {
                let other = self.families[k].key.clone();
                assert(self.fam(k as int).key@ == other@);
                assert(self.fam(k as int).order == f.order);
                return Some(TokensError::SharedOrder { other, key: f.key.clone(), order: f.order });
            }
            k = k + 1;
        }
        if let Err(e) = f.icon_char() {
            return Some(e);
        }
        if f.variants.len() == 0 {
            return Some(TokensError::NoVariants { family: f.key.clone() });
        }
        None
    }

    /// The checks of variant `j` of family `i`.
    fn variant_check(&self, light: bool, i: usize, j: usize, Ghost(ls): Ghost<Seq<Vec<bool>>>) -> (res: Option<TokensError>)
        requires
            i < self.families@.len(),
            j < self.nvars(i as int),
            self.light_shape(ls),
            ls[i as int]@[j as int] == light,
        ensures
            res is None <==> self.variant_ok(ls, i as int, j as int),
            res matches Some(e) ==> self.variant_report(ls, i as int, j as int, e),
    {
        assert(i < self.families.len());
        let f = &self.families[i];
        let v = &f.variants[j];
        let mut l: usize = 0;
        while l < j
            invariant
                l <= j,
                i < self.families@.len(),
                j < self.nvars(i as int),
                *f == self.fam(i as int),
                *v == self.var(i as int, j as int),
                forall|m: int| 0 <= m < l ==> #[trigger] self.var(i as int, m).key@ != v.key@,
            decreases j - l,
        {
            if f.variants[l].key == v.key {
                assert(self.var(i as int, l as int).key@ == v.key@);
                return Some(TokensError::DuplicateVariant { family: f.key.clone(), variant: v.key.clone() });
            }
            l = l + 1;
        }
        let mut k: usize = 0;
        while k <= i
            invariant
                k <= i + 1,
                i < self.families@.len(),
                i < usize::MAX,
                forall|m: int| 0 <= m < j ==> #[trigger] self.var(i as int, m).key@ != v.key@,
                j < self.nvars(i as int),
                *f == self.fam(i as int),
                *v == self.var(i as int, j as int),
                forall|a: int, b: int|
                    0 <= a < k && a < i && 0 <= b < self.nvars(a) ==> #[trigger] self.var(a, b).const_name@
                        != v.const_name@,
                k > i ==> forall|b: int| 0 <= b < j ==> #[trigger] self.var(i as int, b).const_name@ != v.const_name@,
            decreases i + 1 - k,
        {
            let g = &self.families[k];
            let stop = if k < i { g.variants.len() } else { j };
            let mut l: usize = 0;
            while l < stop
                invariant
                    l <= stop,
                    k <= i,
                    forall|m: int| 0 <= m < j ==> #[trigger] self.var(i as int, m).key@ != v.key@,
                    i < self.families@.len(),
                    j < self.nvars(i as int),
                    *g == self.fam(k as int),
                    *f == self.fam(i as int),
                    *v == self.var(i as int, j as int),
                    stop == if k < i { self.nvars(k as int) } else { j as int },
                    forall|b: int| 0 <= b < l ==> #[trigger] self.var(k as int, b).const_name@ != v.const_name@,
                decreases stop - l,
            {
                if g.variants[l].const_name == v.const_name {
                    let other = id_string(g, &g.variants[l]);
                    let ghost other_v = other@;
                    assert(self.var(k as int, l as int).const_name@ == v.const_name@);
                    let e = TokensError::ConstClaimed {
                        const_name: v.const_name.clone(),
                        other,
                        id: id_string(f, v),
                    };
                    proof {
                        assert(!self.const_fresh(i as int, j as int));
                        let kk = k as int;
                        let ll = l as int;
                        assert(0 <= ll < self.nvars(kk));
                        assert(kk < i || ll < j);
                        assert(other_v == variant_id(self.fam(kk), self.var(kk, ll)));
                        let keys_ok = forall|m: int| 0 <= m < j ==> #[trigger] self.var(i as int, m).key@ != v.key@;
                        assert(keys_ok);
                        assert(e->ConstClaimed_id@ == variant_id(self.fam(i as int), self.var(i as int, j as int)));
                        assert(e->ConstClaimed_const_name@ == v.const_name@);
                        assert(e->ConstClaimed_other@ == other_v);
                    }
                    return Some(e);
                }
                l = l + 1;
            }
            k = k + 1;
        }
        assert(self.const_fresh(i as int, j as int));
        if !is_screaming(v.const_name.as_str()) {
            return Some(TokensError::ConstNotScreaming { id: id_string(f, v), const_name: v.const_name.clone() });
        }
        let actual = if light { Mode::Light } else { Mode::Dark };
        if actual != v.mode {
            return Some(TokensError::ModeMismatch {
                id: id_string(f, v),
                declared: v.mode,
                actual,
                bg: v.palette.bg_primary,
            });
        }
        None
    }

    /// The accent checks, run once every family is fine.
    fn accents_check(&self) -> (res: Option<TokensError>)
        ensures
            res is None <==> (self.accents@.len() > 0 && forall|a: int|
                0 <= a < self.accents@.len() ==> #[trigger] self.accent_ok(a)),
            res matches Some(e) ==> self.accent_report(e),
    {
        if self.accents.len() == 0 {
            return Some(TokensError::NoAccents);
        }
        let mut a: usize = 0;
        while a < self.accents.len()
            invariant
                a <= self.accents@.len(),
                self.accents@.len() > 0,
                forall|b: int| 0 <= b < a ==> #[trigger] self.accent_ok(b),
            decreases self.accents@.len() - a,
        {
            let acc = &self.accents[a];
            let mut b: usize = 0;
            while b < a
                invariant
                    b <= a,
                    a < self.accents@.len(),
                    forall|m: int| 0 <= m < a ==> #[trigger] self.accent_ok(m),
                    *acc == self.accents@[a as int],
                    forall|m: int| 0 <= m < b ==> #[trigger] self.accents@[m].key@ != acc.key@,
                decreases a - b,
            {
                if self.accents[b].key == acc.key {
                    assert(self.accents@[b as int].key@ == acc.key@);
                    assert(!self.accent_ok(a as int));
                    return Some(TokensError::DuplicateAccent { key: acc.key.clone() });
                }
                b = b + 1;
            }
            if acc.label.fr.as_str().unicode_len() == 0 || acc.label.en.as_str().unicode_len() == 0 {
                assert(!self.accent_ok(a as int));
                return Some(TokensError::AccentMissingLabel { key: acc.key.clone() });
            }
            assert(self.accent_ok(a as int));
            a = a + 1;
        }
        None
    }

    /// Checks every invariant a consumer is allowed to rely on. `bg_light`
    /// says, per family and per variant, whether the variant's `bg_primary`
    /// reads as a light surface (its luminance is above one half).
    pub fn validate(&self, bg_light: &Vec<Vec<bool>>) -> (res: Result<(), TokensError>)
        requires
            self.light_shape(bg_light@),
        ensures
            res is Ok <==> self.valid(bg_light@),
            res matches Err(e) ==> self.reported(bg_light@, e),
            res is Ok ==> forall|a: int|
                0 <= a < self.accents@.len() ==> #[trigger] self.accents@[a].label.fr@.len() > 0
                    && self.accents@[a].label.en@.len() > 0,
    {
        proof {
            if self.valid(bg_light@) {
                law_valid_accents_are_labelled(*self, bg_light@);
            }
        }
        let ghost ls = bg_light@;
        let mut i: usize = 0;
        while i < self.families.len()
            invariant
                i <= self.families@.len(),
                self.light_shape(ls),
                ls == bg_light@,
                self.families_ok_before(ls, i as int),
            decreases self.families@.len() - i,
        {
            if let Some(e) = self.head_check(i) {
                assert(self.head_report(i as int, e));
                assert(!self.family_ok(ls, i as int));
                return Err(e);
            }
            let n = self.families[i].variants.len();
            let mut j: usize = 0;
            while j < n
                invariant
                    j <= n,
                    i < self.families@.len(),
                    n == self.nvars(i as int),
                    self.light_shape(ls),
                    ls == bg_light@,
                    self.families_ok_before(ls, i as int),
                    self.head_ok(i as int),
                    self.variants_ok_before(ls, i as int, j as int),
                decreases n - j,
            {
                assert(ls[i as int]@.len() == self.nvars(i as int));
                let flag = bg_light[i][j];
                let r = self.variant_check(flag, i, j, Ghost(ls));
                if let Some(e) = r {
                    assert(self.variant_report(ls, i as int, j as int, e));
                    proof {
                        assert(!self.family_ok(ls, i as int));
                    }
                    return Err(e);
                }
                assert(self.variant_ok(ls, i as int, j as int));
                j = j + 1;
            }
            assert(self.family_ok(ls, i as int));
            i = i + 1;
        }
        if let Some(e) = self.accents_check() {
            return Err(e);
        }
        Ok(())
    }

    /// Every variant with its family, in picker order.
    pub fn variants(&self) -> (res: Vec<(&Family, &Variant)>)
        ensures
            res@.len() == family_variants(self.families@).len(),
            forall|g: int|
                0 <= g < res@.len() ==> (*res@[g].0, *res@[g].1) == #[trigger] family_variants(self.families@)[g],
    {
        let mut out: Vec<(&Family, &Variant)> = Vec::new();
        let mut i: usize = 0;
        while i < self.families.len()
            invariant
                i <= self.families@.len(),
                out@.len() == family_variants(self.families@.take(i as int)).len(),
                forall|g: int|
                    0 <= g < out@.len() ==> (*out@[g].0, *out@[g].1) == #[trigger] family_variants(
                        self.families@.take(i as int),
                    )[g],
            decreases self.families@.len() - i,
        {
            let f = &self.families[i];
            let ghost prev = family_variants(self.families@.take(i as int));
            let ghost next = family_variants(self.families@.take(i + 1));
            proof {
                assert(self.families@.take(i + 1).drop_last() =~= self.families@.take(i as int));
                assert(next == prev + pair_with(*f, f.variants@));
            }
            let mut j: usize = 0;
            while j < f.variants.len()
                invariant
                    j <= f.variants@.len(),
                    out@.len() == prev.len() + j,
                    next == prev + pair_with(*f, f.variants@),
                    forall|g: int| 0 <= g < out@.len() ==> (*out@[g].0, *out@[g].1) == #[trigger] next[g],
                decreases f.variants@.len() - j,
            {
                out.push((f, &f.variants[j]));
                assert(next[prev.len() + j] == (*f, f.variants@[j as int]));
                j = j + 1;
            }
            i = i + 1;
        }
        assert(self.families@.take(self.families@.len() as int) =~= self.families@);
        out
    }

    /// The number of variants over all families.
    pub fn variant_count(&self) -> (n: usize)
        requires
            total_variants(self.families@) <= usize::MAX,
        ensures
            n == total_variants(self.families@),
    {
        let mut n: usize = 0;
        let mut i: usize = 0;
        while i < self.families.len()
            invariant
                i <= self.families@.len(),
                total_variants(self.families@) <= usize::MAX,
                n == total_variants(self.families@.take(i as int)),
            decreases self.families@.len() - i,
        {
            proof {
                assert(self.families@.take(i + 1).drop_last() =~= self.families@.take(i as int));
                lemma_total_variants_prefix(self.families@, i + 1);
            }
            n = n + self.families[i].variants.len();
            i = i + 1;
        }
        assert(self.families@.take(self.families@.len() as int) =~= self.families@);
        n
    }
}

proof fn lemma_total_variants_prefix(fams: Seq<Family>, i: int)
    requires
        0 <= i <= fams.len(),
    ensures
        total_variants(fams.take(i)) <= total_variants(fams),
    decreases fams.len() - i,
{
    if i < fams.len() {
        lemma_total_variants_prefix(fams.drop_last(), i);
        assert(fams.drop_last().take(i) =~= fams.take(i));
    } else {
        assert(fams.take(i) =~= fams);
    }
}

} // verus!

verus! {

/// The families of `s` whose `order` is `o`, in their order in `s`.
pub open spec fn with_order(s: Seq<Family>, o: u32) -> Seq<Family>
    decreases s.len(),
{
    if s.len() == 0 {
        seq![]
    } else if s.last().order == o {
        with_order(s.drop_last(), o).push(s.last())
    } else {
        with_order(s.drop_last(), o)
    }
}

/// Families in nondecreasing `order`.
pub open spec fn sorted_by_order(s: Seq<Family>) -> bool {
    forall|a: int, b: int| 0 <= a < b < s.len() ==> #[trigger] s[a].order <= #[trigger] s[b].order
}

proof fn lemma_with_order_add(a: Seq<Family>, b: Seq<Family>, o: u32)
    ensures
        with_order(a + b, o) == with_order(a, o) + with_order(b, o),
    decreases b.len(),
{
    if b.len() == 0 {
        assert(a + b =~= a);
        assert(with_order(a, o) + with_order(b, o) =~= with_order(a, o));
    } else {
        lemma_with_order_add(a, b.drop_last(), o);
        assert((a + b).drop_last() =~= a + b.drop_last());
        assert((a + b).last() == b.last());
        if b.last().order == o {
            assert(with_order(a, o) + with_order(b, o) =~= (with_order(a, o) + with_order(
                b.drop_last(),
                o,
            )).push(b.last()));
        }
    }
}

proof fn lemma_with_order_none(s: Seq<Family>, o: u32)
    requires
        forall|k: int| 0 <= k < s.len() ==> #[trigger] s[k].order != o,
    ensures
        with_order(s, o) == Seq::<Family>::empty(),
    decreases s.len(),
{
    if s.len() > 0 {
        assert(s.last().order != o);
        lemma_with_order_none(s.drop_last(), o);
    }
}

proof fn lemma_with_order_single(x: Family, o: u32)
    ensures
        with_order(seq![x], o) == if x.order == o { seq![x] } else { Seq::<Family>::empty() },
{
    assert(seq![x].drop_last() =~= Seq::<Family>::empty());
    assert(seq![x].last() == x);
    assert(with_order(Seq::<Family>::empty(), o) == Seq::<Family>::empty());
    if x.order == o {
        assert(Seq::<Family>::empty().push(x) =~= seq![x]);
    }
}

/// Sorts families by `order`, keeping families of equal order in the order
/// given (a stable sort).
pub fn sort_by_order(families: Vec<Family>) -> (res: Vec<Family>)
    ensures
        sorted_by_order(res@),
        forall|o: u32| #[trigger] with_order(res@, o) == with_order(families@, o),
        res@.len() == families@.len(),
{
    let ghost orig = families@;
    let mut input = families;
    let mut out: Vec<Family> = Vec::new();
    let mut i: usize = 0;
    let n = input.len();
    assert(orig.skip(0) =~= orig);
    while i < n
        invariant
            i <= n,
            n == orig.len(),
            input@ == orig.skip(i as int),
            out@.len() == i,
            sorted_by_order(out@),
            forall|o: u32| #[trigger] with_order(out@, o) == with_order(orig.take(i as int), o),
        decreases n - i,
    {
        let x = input.remove(0);
        assert(x == orig[i as int]);
        assert(input@ =~= orig.skip(i + 1));
        let mut p: usize = 0;
        while p < out.len() && out[p].order <= x.order
            invariant
                p <= out@.len(),
                forall|k: int| 0 <= k < p ==> #[trigger] out@[k].order <= x.order,
            decreases out@.len() - p,
        {
            p = p + 1;
        }
        let ghost before = out@;
        proof {
            if p < before.len() {
                assert(before[p as int].order > x.order);
            }
        }
        out.insert(p, x);
        proof {
            assert(out@ =~= before.take(p as int) + seq![x] + before.skip(p as int));
            assert(before =~= before.take(p as int) + before.skip(p as int));
            assert forall|a: int, b: int| 0 <= a < b < out@.len() implies #[trigger] out@[a].order
                <= #[trigger] out@[b].order by {
                if b < p {
                    assert(out@[a] == before[a] && out@[b] == before[b]);
                } else if b == p {
                    assert(out@[a] == before[a]);
                } else if a == p {
                    assert(out@[b] == before[b - 1]);
                    assert(before[p as int].order <= before[b - 1].order || b - 1 == p);
                } else if a < p {
                    assert(out@[a] == before[a] && out@[b] == before[b - 1]);
                } else {
                    assert(out@[a] == before[a - 1] && out@[b] == before[b - 1]);
                }
            }
            assert(orig.take(i + 1) =~= orig.take(i as int) + seq![x]);
            assert forall|o: u32| #[trigger] with_order(out@, o) == with_order(orig.take(i + 1), o) by {
                let t = before.take(p as int);
                let r = before.skip(p as int);
                lemma_with_order_add(t + seq![x], r, o);
                lemma_with_order_add(t, seq![x], o);
                lemma_with_order_add(t, r, o);
                lemma_with_order_add(orig.take(i as int), seq![x], o);
                lemma_with_order_single(x, o);
                if o == x.order {
                    assert forall|k: int| 0 <= k < r.len() implies #[trigger] r[k].order != o by {
                        assert(r[k] == before[p + k]);
                        assert(before[p as int].order <= before[p + k].order || k == 0);
                    }
                    lemma_with_order_none(r, o);
                    assert(with_order(t, o) + seq![x] + Seq::<Family>::empty() =~= with_order(t, o)
                        + seq![x]);
                    assert(with_order(t, o) + Seq::<Family>::empty() =~= with_order(t, o));
                } else {
                    assert(with_order(t, o) + Seq::<Family>::empty() =~= with_order(t, o));
                    assert(with_order(orig.take(i as int), o) + Seq::<Family>::empty() =~= with_order(
                        orig.take(i as int),
                        o,
                    ));
                }
            }
        }
        i = i + 1;
    }
    assert(orig.take(n as int) =~= orig);
    out
}

impl Tokens {
    /// The tokens from families read from their files, put in picker order
    /// (by `order`, ties kept in file order), and the accents in file order.
    /// Nothing is checked here: that is `validate`.
    pub fn from_families(families: Vec<Family>, accents: Vec<Accent>) -> (res: Tokens)
        ensures
            sorted_by_order(res.families@),
            forall|o: u32| #[trigger] with_order(res.families@, o) == with_order(families@, o),
            res.families@.len() == families@.len(),
            res.accents@ == accents@,
    {
        Tokens { families: sort_by_order(families), accents }
    }
}

impl Family {
    /// A family file's `key` must equal the file's name without extension.
    pub fn check_file_key(&self, path: &str, stem: &str) -> (res: Result<(), TokensError>)
        ensures
            res is Ok <==> self.key@ == stem@,
            res matches Err(e) ==> e matches TokensError::KeyMismatch { path: p, key: k, stem: s }
                && p@ == path@ && k@ == self.key@ && s@ == stem@,
    {
        if str_eq(self.key.as_str(), stem) {
            Ok(())
        } else {
            Err(TokensError::KeyMismatch { path: path.to_owned(), key: self.key.clone(), stem: stem.to_owned() })
        }
    }
}

} // verus!

verus! {

/// The message each refusal is reported with.
pub open spec fn tokens_error_message(e: TokensError) -> Seq<char> {
    match e {
        TokensError::NoFamilies { dir } => "no theme families found in "@ + dir@,
        TokensError::KeyMismatch { path, key, stem } => path@ + ": key "@ + spec_debug_str(key@)
            + " must match the file name "@ + spec_debug_str(stem@),
        TokensError::DuplicateFamilyKey { key } => "duplicate family key "@ + spec_debug_str(key@),
        TokensError::SharedOrder { other, key, order } => "families "@ + spec_debug_str(other@)
            + " and "@ + spec_debug_str(key@) + " share order "@ + decimal(order as nat),
        TokensError::IconNotHex { family, icon } => "family "@ + spec_debug_str(family@) + ": icon "@
            + spec_debug_str(icon@) + " is not hex"@,
        TokensError::IconNotChar { family, codepoint } => "family "@ + spec_debug_str(family@)
            + ": U+"@ + upper_hex(codepoint as nat) + " is not a character"@,
        TokensError::NoVariants { family } => "family "@ + spec_debug_str(family@) + " has no variants"@,
        TokensError::DuplicateVariant { family, variant } => "family "@ + spec_debug_str(family@)
            + " has duplicate variant "@ + spec_debug_str(variant@),
        TokensError::ConstClaimed { const_name, other, id } => "const "@ + spec_debug_str(
            const_name@,
        ) + " is claimed by both "@ + other@ + " and "@ + id@,
        TokensError::ConstNotScreaming { id, const_name } => id@ + ": const "@ + spec_debug_str(
            const_name@,
        ) + " must be SCREAMING_SNAKE_CASE"@,
        TokensError::ModeMismatch { id, declared, actual, bg } => id@ + ": declared mode "@
            + spec_debug_str(mode_text(declared)) + " but bg_primary "@ + crate::color::css_hex(bg)
            + " reads as "@ + spec_debug_str(mode_text(actual)),
        TokensError::NoAccents => "tokens/accents.toml declares no accents"@,
        TokensError::DuplicateAccent { key } => "duplicate accent key "@ + spec_debug_str(key@),
        TokensError::AccentMissingLabel { key } => "accent "@ + spec_debug_str(key@)
            + " is missing a label"@,
    }
}

fn quoted(s: &str) -> (res: String)
    ensures
        res@ == spec_debug_str(s@),
{
    debug_str(s)
}

impl TokensError {
    /// The message the refusal is reported with.
    pub fn message(&self) -> (m: String)
        ensures
            m@ == tokens_error_message(*self),
    {
        match self {
            TokensError::NoFamilies { dir } => {
                let mut m = String::from_str("no theme families found in ");
                m.append(dir.as_str());
                m
            },
            TokensError::KeyMismatch { path, key, stem } => {
                let mut m = path.clone();
                m.append(": key ");
                m.append(quoted(key.as_str()).as_str());
                m.append(" must match the file name ");
                m.append(quoted(stem.as_str()).as_str());
                m
            },
            TokensError::DuplicateFamilyKey { key } => {
                let mut m = String::from_str("duplicate family key ");
                m.append(quoted(key.as_str()).as_str());
                m
            },
            TokensError::SharedOrder { other, key, order } => {
                let mut m = String::from_str("families ");
                m.append(quoted(other.as_str()).as_str());
                m.append(" and ");
                m.append(quoted(key.as_str()).as_str());
                m.append(" share order ");
                m.append(decimal_string(*order).as_str());
                m
            },
            TokensError::IconNotHex { family, icon } => {
                let mut m = String::from_str("family ");
                m.append(quoted(family.as_str()).as_str());
                m.append(": icon ");
                m.append(quoted(icon.as_str()).as_str());
                m.append(" is not hex");
                m
            },
            TokensError::IconNotChar { family, codepoint } => {
                let mut m = String::from_str("family ");
                m.append(quoted(family.as_str()).as_str());
                m.append(": U+");
                m.append(upper_hex_string(*codepoint).as_str());
                m.append(" is not a character");
                m
            },
            TokensError::NoVariants { family } => {
                let mut m = String::from_str("family ");
                m.append(quoted(family.as_str()).as_str());
                m.append(" has no variants");
                m
            },
            TokensError::DuplicateVariant { family, variant } => {
                let mut m = String::from_str("family ");
                m.append(quoted(family.as_str()).as_str());
                m.append(" has duplicate variant ");
                m.append(quoted(variant.as_str()).as_str());
                m
            },
            TokensError::ConstClaimed { const_name, other, id } => {
                let mut m = String::from_str("const ");
                m.append(quoted(const_name.as_str()).as_str());
                m.append(" is claimed by both ");
                m.append(other.as_str());
                m.append(" and ");
                m.append(id.as_str());
                m
            },
            TokensError::ConstNotScreaming { id, const_name } => {
                let mut m = id.clone();
                m.append(": const ");
                m.append(quoted(const_name.as_str()).as_str());
                m.append(" must be SCREAMING_SNAKE_CASE");
                m
            },
            TokensError::ModeMismatch { id, declared, actual, bg } => {
                let mut m = id.clone();
                m.append(": declared mode ");
                m.append(quoted(declared.as_str()).as_str());
                m.append(" but bg_primary ");
                m.append(bg.to_css_hex().as_str());
                m.append(" reads as ");
                m.append(quoted(actual.as_str()).as_str());
                m
            },
            TokensError::NoAccents => String::from_str("tokens/accents.toml declares no accents"),
            TokensError::DuplicateAccent { key } => {
                let mut m = String::from_str("duplicate accent key ");
                m.append(quoted(key.as_str()).as_str());
                m
            },
            TokensError::AccentMissingLabel { key } => {
                let mut m = String::from_str("accent ");
                m.append(quoted(key.as_str()).as_str());
                m.append(" is missing a label");
                m
            },
        }
    }
}

} // verus!

verus! {

/// Tokens that pass validation name every accent in both locales: no accent
/// has an empty French or an empty English label.
pub proof fn law_valid_accents_are_labelled(t: Tokens, light: Seq<Vec<bool>>)
    requires
        t.valid(light),
    ensures
        forall|a: int|
            0 <= a < t.accents@.len() ==> #[trigger] t.accents@[a].label.fr@.len() > 0
                && t.accents@[a].label.en@.len() > 0,
{
    assert forall|a: int| 0 <= a < t.accents@.len() implies #[trigger] t.accents@[a].label.fr@.len() > 0
        && t.accents@[a].label.en@.len() > 0 by {
        assert(t.accent_ok(a));
    }
}

} // verus!
