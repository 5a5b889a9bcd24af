use colony::color::Color;
use colony::emit::i18n::render;
use colony::i18n::{Labels, Locale};
use colony::model::{Accent, Family, Label, Mode, Palette, Swatch, Tokens, Variant};
use colony::theme::{ThemeCatalog, ThemeState};

// A test catalog in the shape of the shipped one: 25 families, 57 variants,
// the eight accent overrides in their fixed order.
fn palette(bg: u32, seed: u32) -> Palette {
    Palette {
        bg_primary: Color(bg),
        bg_sidebar: Color((seed * 38 + 1) & 0xffffff),
        bg_card: Color((seed * 38 + 2) & 0xffffff),
        bg_card_hover: Color((seed * 38 + 3) & 0xffffff),
        bg_card_pressed: Color((seed * 38 + 4) & 0xffffff),
        bg_selected: Color((seed * 38 + 5) & 0xffffff),
        bg_input: Color((seed * 38 + 6) & 0xffffff),
        bg_progress: Color((seed * 38 + 7) & 0xffffff),
        text_primary: Color((seed * 38 + 8) & 0xffffff),
        text_secondary: Color((seed * 38 + 9) & 0xffffff),
        text_muted: Color((seed * 38 + 10) & 0xffffff),
        text_dim: Color((seed * 38 + 11) & 0xffffff),
        text_dimmer: Color((seed * 38 + 12) & 0xffffff),
        text_dimmest: Color((seed * 38 + 13) & 0xffffff),
        text_placeholder: Color((seed * 38 + 14) & 0xffffff),
        accent_blue: Color(0x100000 + seed),
        accent_icon: Color((seed * 38 + 16) & 0xffffff),
        accent_progress: Color((seed * 38 + 17) & 0xffffff),
        btn_default: Color((seed * 38 + 18) & 0xffffff),
        btn_hover: Color((seed * 38 + 19) & 0xffffff),
        btn_pressed: Color((seed * 38 + 20) & 0xffffff),
        success: Color((seed * 38 + 21) & 0xffffff),
        success_bg: Color((seed * 38 + 22) & 0xffffff),
        btn_success: Color((seed * 38 + 23) & 0xffffff),
        btn_success_hover: Color((seed * 38 + 24) & 0xffffff),
        btn_success_pressed: Color((seed * 38 + 25) & 0xffffff),
        warning: Color((seed * 38 + 26) & 0xffffff),
        warning_bg: Color((seed * 38 + 27) & 0xffffff),
        error: Color((seed * 38 + 28) & 0xffffff),
        error_light: Color((seed * 38 + 29) & 0xffffff),
        error_bg: Color((seed * 38 + 30) & 0xffffff),
        btn_danger_bg: Color((seed * 38 + 31) & 0xffffff),
        btn_danger_hover: Color((seed * 38 + 32) & 0xffffff),
        btn_trash_hover: Color((seed * 38 + 33) & 0xffffff),
        btn_trash_pressed: Color((seed * 38 + 34) & 0xffffff),
        bg_modal_section: Color((seed * 38 + 35) & 0xffffff),
        border_subtle: Color((seed * 38 + 36) & 0xffffff),
        divider: Color((seed * 38 + 37) & 0xffffff),
    }
}

fn label(en: &str, fr: &str) -> Label {
    Label { en: en.to_string(), fr: fr.to_string() }
}

fn variant(family: &str, key: &str, seed: u32) -> Variant {
    let is_light = LIGHT.contains(&key);
    let (label_key, lab) = if key == "dark" {
        ("settings_theme_dark_mode".to_string(), label("Dark mode", "Mode sombre"))
    } else if key == "light" {
        ("settings_theme_light_mode".to_string(), label("Light mode", "Mode clair"))
    } else if key == "eve" {
        (format!("settings_theme_{family}_{key}"), label("EVE", "EVE"))
    } else {
        let mut name = key.to_string();
        name[..1].make_ascii_uppercase();
        (format!("settings_theme_{family}_{key}"), label(&name, &name))
    };
    let bg = if is_light { 0xeff1f5 } else { 0x1e1e2e };
    Variant {
        key: key.to_string(),
        const_name: format!("{}_{}", family.to_ascii_uppercase(), key.to_ascii_uppercase()),
        label_key,
        mode: if is_light { Mode::Light } else { Mode::Dark },
        label: lab,
        swatch: Swatch { bg: Color(bg), accent: Color(0x100000 + seed) },
        notes: None,
        palette: palette(bg, seed),
    }
}

const LIGHT: &[&str] = &["dawn", "day", "dayfox", "eve", "latte", "light", "lotus", "operandi"];

const FAMILIES: &[(&str, &str, &[&str])] = &[
    ("catppuccin", "Catppuccin", &["latte", "frappe", "macchiato", "mocha"]),
    ("gruvbox", "Gruvbox", &["dark", "light"]),
    ("everblush", "Everblush", &["dark", "light"]),
    ("kanagawa", "Kanagawa", &["wave", "dragon", "lotus"]),
    ("nord", "Nord", &["dark", "light"]),
    ("dracula", "Dracula", &["dark", "light"]),
    ("solarized", "Solarized", &["dark", "light"]),
    ("tokyo_night", "Tokyo Night", &["night", "storm", "day"]),
    ("rose_pine", "Rosé Pine", &["main", "moon", "dawn"]),
    ("one_dark", "One Dark", &["dark", "light"]),
    ("monokai", "Monokai", &["dark", "light"]),
    ("ayu", "Ayu", &["dark", "mirage", "light"]),
    ("everforest", "Everforest", &["dark", "light"]),
    ("material", "Material", &["dark", "light"]),
    ("flexoki", "Flexoki", &["dark", "light"]),
    ("nightfox", "Nightfox", &["nightfox", "dayfox"]),
    ("sonokai", "Sonokai", &["dark", "light"]),
    ("oxocarbon", "Oxocarbon", &["dark", "light"]),
    ("night_owl", "Night Owl", &["dark", "light"]),
    ("iceberg", "Iceberg", &["dark", "light"]),
    ("horizon", "Horizon", &["dark", "light"]),
    ("melange", "Melange", &["dark", "light"]),
    ("synthwave_84", "Synthwave '84", &["dark", "light"]),
    ("modus", "Modus", &["vivendi", "operandi"]),
    ("stellar_blade", "Stellar Blade", &["eve", "tachy", "kaya"]),
];

const ACCENTS: &[(&str, u32, &str, &str)] = &[
    ("red", 0xE05555, "Red", "Rouge"),
    ("orange", 0xE0855A, "Orange", "Orange"),
    ("yellow", 0xC8A832, "Yellow", "Jaune"),
    ("green", 0x55B87A, "Green", "Vert"),
    ("blue", 0x6B8BD6, "Blue", "Bleu"),
    ("indigo", 0x7B6BD6, "Indigo", "Indigo"),
    ("violet", 0xB06BD6, "Violet", "Violet"),
    ("amber", 0xD4A030, "Amber", "Ambre"),
];

fn fixture() -> Tokens {
    let mut seed = 0;
    let mut families = Vec::new();
    for (order, (key, name, variants)) in FAMILIES.iter().enumerate() {
        let mut vs = Vec::new();
        for v in variants.iter() {
            seed += 1;
            vs.push(variant(key, v, seed));
        }
        families.push(Family {
            key: key.to_string(),
            order: order as u32 * 10,
            label_key: format!("settings_theme_{key}"),
            icon: if *key == "gruvbox" { "f0f4".to_string() } else { String::new() },
            label: label(name, name),
            notes: None,
            variants: vs,
        });
    }
    let accents = ACCENTS
        .iter()
        .map(|(k, c, en, fr)| Accent {
            key: k.to_string(),
            label_key: format!("settings_accent_{k}"),
            label: label(en, fr),
            color: Color(*c),
        })
        .collect();
    Tokens { families, accents }
}

/// Light flags in the shape `validate` takes, from the declared modes.
fn light_flags(t: &Tokens) -> Vec<Vec<bool>> {
    t.families
        .iter()
        .map(|f| f.variants.iter().map(|v| v.mode == Mode::Light).collect())
        .collect()
}

fn catalog() -> ThemeCatalog {
    ThemeCatalog::from_tokens_with_default(&fixture()).expect("the fixture has gruvbox dark")
}

fn labels() -> Labels {
    Labels::from_locales(render(&fixture()).expect("the fixture's labels agree"))
}

/// WCAG relative luminance, computed here independently of the library.
fn luminance(c: u32) -> f64 {
    fn channel(v: u32) -> f64 {
        let c = v as f64 / 255.0;
        if c <= 0.04045 {
            c / 12.92
        } else {
            ((c + 0.055) / 1.055).powf(2.4)
        }
    }
    0.2126 * channel((c >> 16) & 0xff) + 0.7152 * channel((c >> 8) & 0xff) + 0.0722 * channel(c & 0xff)
}

// ── labels ──

#[test]
fn translates_a_known_key() {
    let l = labels();
    assert_eq!(l.t_in(Locale::En, "settings_theme_dark_mode"), "Dark mode");
    assert_eq!(l.t_in(Locale::Fr, "settings_theme_dark_mode"), "Mode sombre");
}

#[test]
fn proper_nouns_are_identical_in_both_locales() {
    let l = labels();
    for key in [
        "settings_theme_catppuccin",
        "settings_theme_gruvbox",
        "settings_theme_stellar_blade_eve",
    ] {
        assert_eq!(
            l.t_in(Locale::En, key),
            l.t_in(Locale::Fr, key),
            "{key} is a proper noun and must not be translated"
        );
    }
}

#[test]
fn an_unknown_key_renders_as_itself() {
    let l = labels();
    let key = "no_such_key";
    assert_eq!(l.t_in(Locale::Fr, key), "no_such_key");
    // The fallback is the key itself, not a copy of it.
    assert_eq!(l.t_in(Locale::Fr, key).as_ptr(), l.t_in(Locale::En, key).as_ptr());
}

#[test]
fn parses_language_tags() {
    assert_eq!(Locale::from_tag("fr"), Locale::Fr);
    assert_eq!(Locale::from_tag("fr_FR.UTF-8"), Locale::Fr);
    assert_eq!(Locale::from_tag("FR-be"), Locale::Fr);
    assert_eq!(Locale::from_tag("en_GB"), Locale::En);
    assert_eq!(Locale::from_tag("nonsense"), Locale::En);
}

#[test]
fn language_tags_need_the_whole_language_part() {
    assert_eq!(Locale::from_tag(""), Locale::En);
    assert_eq!(Locale::from_tag("f"), Locale::En);
    assert_eq!(Locale::from_tag("fra"), Locale::En);
    assert_eq!(Locale::from_tag("fR.utf8"), Locale::Fr);
    assert_eq!(Locale::from_tag("-fr"), Locale::En);
}

#[test]
fn labels_follow_the_active_locale() {
    let mut l = labels();
    l.set_locale(Locale::Fr);
    assert_eq!(l.t("settings_theme_dark_mode"), "Mode sombre");
    l.set_locale(Locale::En);
    assert_eq!(l.t("settings_theme_dark_mode"), "Dark mode");
}

#[test]
fn both_tables_list_the_same_keys_in_key_order() {
    let l = labels();
    let en: Vec<&str> = l.all(Locale::En).into_iter().map(|(k, _)| k).collect();
    let fr: Vec<&str> = l.all(Locale::Fr).into_iter().map(|(k, _)| k).collect();
    assert_eq!(en, fr);
    assert!(!en.is_empty());
    let mut sorted = en.clone();
    sorted.sort_unstable();
    assert_eq!(en, sorted);
}

#[test]
fn the_default_locale_is_english() {
    assert_eq!(Locale::default(), Locale::En);
    assert_eq!(labels().locale(), Locale::En);
    assert_eq!(Locale::Fr.as_str(), "fr");
    assert_eq!(Locale::En.as_str(), "en");
}

// ── theme catalog ──

#[test]
fn resolves_every_catalogued_theme() {
    let c = catalog();
    for family in &c.families {
        for variant in &family.variants {
            assert_eq!(
                c.resolve(&family.key, &variant.key),
                variant.palette,
                "{}/{} resolves to a different palette than its catalog entry",
                family.key,
                variant.key
            );
        }
    }
}

#[test]
fn an_unknown_theme_falls_back_instead_of_failing() {
    let c = catalog();
    assert_eq!(c.resolve("no_such_family", "dark"), c.fallback);
    assert_eq!(c.resolve("gruvbox", "no_such_variant"), c.fallback);
}

#[test]
fn the_catalog_covers_every_family_exactly_once() {
    let c = catalog();
    let mut keys: Vec<&str> = c.families.iter().map(|f| f.key.as_str()).collect();
    let count = keys.len();
    keys.sort_unstable();
    keys.dedup();
    assert_eq!(keys.len(), count, "a family key is listed twice");
    assert!(count >= 25, "expected the imported catalog, got {count} families");
}

#[test]
fn declared_mode_matches_the_actual_surface() {
    let c = catalog();
    for family in &c.families {
        for variant in &family.variants {
            let actual = if luminance(variant.palette.bg_primary.0) > 0.5 { "light" } else { "dark" };
            assert_eq!(
                variant.mode, actual,
                "{}/{} claims {} but its bg_primary reads {}",
                family.key, variant.key, variant.mode, actual
            );
            assert_eq!(variant.is_light(), actual == "light");
        }
    }
}

#[test]
fn the_catalog_is_enough_to_build_a_picker_without_touching_the_crate() {
    let c = catalog();
    let l = labels();
    let mut families = 0;
    let mut variants = 0;
    for family in &c.families {
        families += 1;
        assert!(!l.t(&family.label_key).is_empty());
        for variant in &family.variants {
            variants += 1;
            assert!(!l.t(&variant.label_key).is_empty());
            assert!(variant.mode == "light" || variant.mode == "dark");
            assert_eq!(c.resolve(&family.key, &variant.key), variant.palette);
        }
    }
    assert!(families >= 25, "families were removed from the catalog");
    assert!(variants >= 57, "variants were removed from the catalog");
}

#[test]
fn the_catalog_keeps_the_picker_order_and_the_icons() {
    let c = catalog();
    assert_eq!(c.families[0].key, "catppuccin");
    assert_eq!(c.families[24].key, "stellar_blade");
    let gruvbox = c.family("gruvbox").expect("gruvbox is catalogued");
    assert_eq!(gruvbox.icon, "\u{f0f4}");
    assert_eq!(c.family("nord").unwrap().icon, "");
    assert!(c.family("no_such_family").is_none());
    let latte = c.family("catppuccin").unwrap().variant("latte").unwrap();
    assert_eq!(latte.mode, "light");
    assert_eq!(latte.swatch_bg, 0xeff1f5);
    assert!(gruvbox.variant("no_such_variant").is_none());
}

#[test]
fn a_program_can_restore_its_theme_from_config_strings() {
    let c = catalog();
    let mut state = ThemeState::new(&c);
    state.set_active_theme(&c, "catppuccin", "mocha");
    let mocha = c.family("catppuccin").unwrap().variant("mocha").unwrap().palette;
    assert_eq!(state.base_palette().bg_primary, mocha.bg_primary);

    state.set_active_theme(&c, "a_theme_from_the_future", "shiny");
    assert_eq!(state.base_palette().bg_primary, c.fallback.bg_primary);

    state.set_active_theme(&c, "gruvbox", "dark");
}

#[test]
fn the_accent_override_wins_over_the_theme_and_none_restores_auto() {
    let c = catalog();
    let gruvbox_dark = c.resolve("gruvbox", "dark");
    let mut state = ThemeState::new(&c);
    state.set_active_theme(&c, "gruvbox", "dark");
    state.set_active_accent(None);
    assert_eq!(
        state.effective_accent(),
        gruvbox_dark.accent_blue.0,
        "auto should fall back to the theme's own accent"
    );

    let violet = c.accent_key_to_color("violet").expect("violet is a shipped accent");
    state.set_active_accent(Some(violet));
    assert_eq!(state.effective_accent(), violet);
    assert_eq!(state.active_accent(), Some(violet));

    state.set_active_accent(None);
    assert_eq!(state.effective_accent(), gruvbox_dark.accent_blue.0);
}

#[test]
fn high_contrast_is_a_flag_that_leaves_the_base_palette_alone() {
    let c = catalog();
    let mut state = ThemeState::new(&c);
    assert!(!state.is_high_contrast());
    state.set_active_theme(&c, "nord", "dark");
    let before = state.base_palette();
    state.set_high_contrast(true);
    assert!(state.is_high_contrast());
    assert_eq!(state.base_palette(), before);
    state.set_high_contrast(false);
    assert!(!state.is_high_contrast());
}

/// Buckets worked out by hand from the hash (`h = byte + h*31`, wrapping,
/// then `|h| % 8`), not by running the library.
const KNOWN_TINTS: &[(&str, &str)] = &[
    ("Colony", "yellow"),
    ("Eidos", "blue"),
    ("Grape", "green"),
    ("Digger", "yellow"),
    ("SphereCord", "green"),
    ("", "red"),
];

#[test]
fn app_tint_buckets_names_the_way_colony_does() {
    let c = catalog();
    for (name, expected_key) in KNOWN_TINTS {
        let expected = c.accent_key_to_color(expected_key).expect("shipped accent");
        assert_eq!(c.app_tint(name), expected, "{name:?} should tint {expected_key}");
    }
}

#[test]
fn app_tint_is_stable_and_always_a_shipped_accent() {
    let c = catalog();
    for name in ["Colony", "Eidos", "a", "a much longer program name"] {
        let first = c.app_tint(name);
        assert_eq!(first, c.app_tint(name), "{name}: not deterministic");
        assert!(
            c.accents.iter().any(|a| a.color == first),
            "{name}: tinted with a colour that is not a shipped accent"
        );
    }
}

#[test]
fn a_program_gets_a_stable_identity_tint_without_shipping_an_icon() {
    let c = catalog();
    let colony = c.app_tint("Colony");
    assert_eq!(colony, c.app_tint("Colony"));
    assert_ne!(colony, c.app_tint("Eidos"));
}

#[test]
fn accent_keys_map_to_their_colours_in_order() {
    let c = catalog();
    assert_eq!(c.accent_key_to_color("red"), Some(0xE05555));
    assert_eq!(c.accent_key_to_color("amber"), Some(0xD4A030));
    assert_eq!(c.accent_key_to_color("no_such_accent"), None);
    let keys: Vec<&str> = c.accents.iter().map(|a| a.key.as_str()).collect();
    assert_eq!(keys, ["red", "orange", "yellow", "green", "blue", "indigo", "violet", "amber"]);
}

#[test]
fn label_tables_are_read_from_json() {
    let en = "{\"a\": \"Alpha\", \"b\": \"B\\u00e9ta\"}";
    let fr = "{\"a\": \"Alpha FR\"}";
    let l = Labels::from_json(en, fr).expect("both texts are objects of strings");
    assert_eq!(l.t_in(Locale::En, "b"), "Béta");
    assert_eq!(l.t_in(Locale::Fr, "a"), "Alpha FR");
    assert_eq!(l.t_in(Locale::Fr, "b"), "Béta");
    assert_eq!(l.locale(), Locale::En);
    assert!(Labels::from_json("not json", fr).is_none());
    assert!(Labels::from_json(en, "{\"a\": 1}").is_none());
}

#[test]
fn what_the_generator_writes_the_ui_reads_back() {
    let locales = render(&fixture()).unwrap();
    let en = colony::emit::i18n::table_json(&locales.en);
    let fr = colony::emit::i18n::table_json(&locales.fr);
    let from_files = Labels::from_json(&en, &fr).unwrap();
    let direct = labels();
    for locale in [Locale::En, Locale::Fr] {
        assert_eq!(from_files.all(locale), direct.all(locale));
    }
}

#[test]
fn both_tables_parse_and_agree_on_keys() {
    let locales = render(&fixture()).unwrap();
    let l = Labels::from_json(
        &colony::emit::i18n::table_json(&locales.en),
        &colony::emit::i18n::table_json(&locales.fr),
    )
    .expect("the generated tables parse");
    let mut en: Vec<&str> = l.all(Locale::En).into_iter().map(|(k, _)| k).collect();
    en.sort_unstable();
    let mut fr: Vec<&str> = l.all(Locale::Fr).into_iter().map(|(k, _)| k).collect();
    fr.sort_unstable();
    assert_eq!(en, fr, "the two locales ship different key sets");
    assert!(!en.is_empty());
}

#[test]
fn setting_a_theme_changes_what_the_facade_reads() {
    let c = catalog();
    let mut state = ThemeState::new(&c);
    state.set_active_theme(&c, "gruvbox", "dark");
    let gruvbox_dark = c.family("gruvbox").unwrap().variant("dark").unwrap().palette;
    assert_eq!(state.base_palette().bg_primary, gruvbox_dark.bg_primary);

    state.set_active_theme(&c, "catppuccin", "latte");
    let latte = c.family("catppuccin").unwrap().variant("latte").unwrap().palette;
    assert_eq!(state.base_palette().bg_primary, latte.bg_primary);
}

#[test]
fn an_unknown_theme_falls_back_to_gruvbox_dark() {
    let c = catalog();
    let gruvbox_dark = c.family("gruvbox").unwrap().variant("dark").unwrap().palette;
    assert_eq!(c.fallback, gruvbox_dark);
    assert_eq!(c.resolve("a_theme_from_the_future", "shiny"), gruvbox_dark);
    assert_eq!(c.resolve("no_such_family", "dark"), gruvbox_dark);

    let mut t = fixture();
    t.families.retain(|f| f.key != "gruvbox");
    assert!(ThemeCatalog::from_tokens_with_default(&t).is_none());
    let explicit = ThemeCatalog::from_tokens(&t, palette(0x123456, 999));
    assert_eq!(explicit.fallback, palette(0x123456, 999));
}

#[test]
fn every_family_is_found_by_its_key() {
    let c = catalog();
    for f in &c.families {
        assert_eq!(c.family(&f.key).unwrap().key, f.key);
    }
}
