use colony::color::Color;
use colony::emit::i18n::{render, LabelError, LabelLocale};
use colony::generate::{check_problems, stale_files, Artifact, Report};
use colony::model::{
    dashed_string, sort_by_order, Accent, Family, Label, Mode, Palette, Swatch, Tokens, TokensError,
    Variant,
};
use colony::strmap::StrMap;

// A test catalog in the shape of the shipped one: 25 families, 57 variants,
// the eight accent overrides in their fixed order.
fn palette(bg: u32, seed: u32) -> Palette {
    Palette {
        bg_primary: Color(bg),
        bg_sidebar: Color((seed * 38 + 1) & 0xffffff),
        bg_card: Color((seed * 38 + 2) & 0xffffff),
        bg_card_hover: Color((seed * 38 + 3) & 0xffffff),
        bg_card_pressed: Color((seed * 38 + 4) & 0xffffff),
        bg_selected: Color((seed * 38 + 5) & 0xffffff),
        bg_input: Color((seed * 38 + 6) & 0xffffff),
        bg_progress: Color((seed * 38 + 7) & 0xffffff),
        text_primary: Color((seed * 38 + 8) & 0xffffff),
        text_secondary: Color((seed * 38 + 9) & 0xffffff),
        text_muted: Color((seed * 38 + 10) & 0xffffff),
        text_dim: Color((seed * 38 + 11) & 0xffffff),
        text_dimmer: Color((seed * 38 + 12) & 0xffffff),
        text_dimmest: Color((seed * 38 + 13) & 0xffffff),
        text_placeholder: Color((seed * 38 + 14) & 0xffffff),
        accent_blue: Color(0x100000 + seed),
        accent_icon: Color((seed * 38 + 16) & 0xffffff),
        accent_progress: Color((seed * 38 + 17) & 0xffffff),
        btn_default: Color((seed * 38 + 18) & 0xffffff),
        btn_hover: Color((seed * 38 + 19) & 0xffffff),
        btn_pressed: Color((seed * 38 + 20) & 0xffffff),
        success: Color((seed * 38 + 21) & 0xffffff),
        success_bg: Color((seed * 38 + 22) & 0xffffff),
        btn_success: Color((seed * 38 + 23) & 0xffffff),
        btn_success_hover: Color((seed * 38 + 24) & 0xffffff),
        btn_success_pressed: Color((seed * 38 + 25) & 0xffffff),
        warning: Color((seed * 38 + 26) & 0xffffff),
        warning_bg: Color((seed * 38 + 27) & 0xffffff),
        error: Color((seed * 38 + 28) & 0xffffff),
        error_light: Color((seed * 38 + 29) & 0xffffff),
        error_bg: Color((seed * 38 + 30) & 0xffffff),
        btn_danger_bg: Color((seed * 38 + 31) & 0xffffff),
        btn_danger_hover: Color((seed * 38 + 32) & 0xffffff),
        btn_trash_hover: Color((seed * 38 + 33) & 0xffffff),
        btn_trash_pressed: Color((seed * 38 + 34) & 0xffffff),
        bg_modal_section: Color((seed * 38 + 35) & 0xffffff),
        border_subtle: Color((seed * 38 + 36) & 0xffffff),
        divider: Color((seed * 38 + 37) & 0xffffff),
    }
}

fn label(en: &str, fr: &str) -> Label {
    Label { en: en.to_string(), fr: fr.to_string() }
}

fn variant(family: &str, key: &str, seed: u32) -> Variant {
    let is_light = LIGHT.contains(&key);
    let (label_key, lab) = if key == "dark" {
        ("settings_theme_dark_mode".to_string(), label("Dark mode", "Mode sombre"))
    } else if key == "light" {
        ("settings_theme_light_mode".to_string(), label("Light mode", "Mode clair"))
    } else if key == "eve" {
        (format!("settings_theme_{family}_{key}"), label("EVE", "EVE"))
    } else {
        let mut name = key.to_string();
        name[..1].make_ascii_uppercase();
        (format!("settings_theme_{family}_{key}"), label(&name, &name))
    };
    let bg = if is_light { 0xeff1f5 } else { 0x1e1e2e };
    Variant {
        key: key.to_string(),
        const_name: format!("{}_{}", family.to_ascii_uppercase(), key.to_ascii_uppercase()),
        label_key,
        mode: if is_light { Mode::Light } else { Mode::Dark },
        label: lab,
        swatch: Swatch { bg: Color(bg), accent: Color(0x100000 + seed) },
        notes: None,
        palette: palette(bg, seed),
    }
}

const LIGHT: &[&str] = &["dawn", "day", "dayfox", "eve", "latte", "light", "lotus", "operandi"];

const FAMILIES: &[(&str, &str, &[&str])] = &[
    ("catppuccin", "Catppuccin", &["latte", "frappe", "macchiato", "mocha"]),
    ("gruvbox", "Gruvbox", &["dark", "light"]),
    ("everblush", "Everblush", &["dark", "light"]),
    ("kanagawa", "Kanagawa", &["wave", "dragon", "lotus"]),
    ("nord", "Nord", &["dark", "light"]),
    ("dracula", "Dracula", &["dark", "light"]),
    ("solarized", "Solarized", &["dark", "light"]),
    ("tokyo_night", "Tokyo Night", &["night", "storm", "day"]),
    ("rose_pine", "Rosé Pine", &["main", "moon", "dawn"]),
    ("one_dark", "One Dark", &["dark", "light"]),
    ("monokai", "Monokai", &["dark", "light"]),
    ("ayu", "Ayu", &["dark", "mirage", "light"]),
    ("everforest", "Everforest", &["dark", "light"]),
    ("material", "Material", &["dark", "light"]),
    ("flexoki", "Flexoki", &["dark", "light"]),
    ("nightfox", "Nightfox", &["nightfox", "dayfox"]),
    ("sonokai", "Sonokai", &["dark", "light"]),
    ("oxocarbon", "Oxocarbon", &["dark", "light"]),
    ("night_owl", "Night Owl", &["dark", "light"]),
    ("iceberg", "Iceberg", &["dark", "light"]),
    ("horizon", "Horizon", &["dark", "light"]),
    ("melange", "Melange", &["dark", "light"]),
    ("synthwave_84", "Synthwave '84", &["dark", "light"]),
    ("modus", "Modus", &["vivendi", "operandi"]),
    ("stellar_blade", "Stellar Blade", &["eve", "tachy", "kaya"]),
];

const ACCENTS: &[(&str, u32, &str, &str)] = &[
    ("red", 0xE05555, "Red", "Rouge"),
    ("orange", 0xE0855A, "Orange", "Orange"),
    ("yellow", 0xC8A832, "Yellow", "Jaune"),
    ("green", 0x55B87A, "Green", "Vert"),
    ("blue", 0x6B8BD6, "Blue", "Bleu"),
    ("indigo", 0x7B6BD6, "Indigo", "Indigo"),
    ("violet", 0xB06BD6, "Violet", "Violet"),
    ("amber", 0xD4A030, "Amber", "Ambre"),
];

fn fixture() -> Tokens {
    let mut seed = 0;
    let mut families = Vec::new();
    for (order, (key, name, variants)) in FAMILIES.iter().enumerate() {
        let mut vs = Vec::new();
        for v in variants.iter() {
            seed += 1;
            vs.push(variant(key, v, seed));
        }
        families.push(Family {
            key: key.to_string(),
            order: order as u32 * 10,
            label_key: format!("settings_theme_{key}"),
            icon: if *key == "gruvbox" { "f0f4".to_string() } else { String::new() },
            label: label(name, name),
            notes: None,
            variants: vs,
        });
    }
    let accents = ACCENTS
        .iter()
        .map(|(k, c, en, fr)| Accent {
            key: k.to_string(),
            label_key: format!("settings_accent_{k}"),
            label: label(en, fr),
            color: Color(*c),
        })
        .collect();
    Tokens { families, accents }
}

/// Light flags in the shape `validate` takes, from the declared modes.
fn light_flags(t: &Tokens) -> Vec<Vec<bool>> {
    t.families
        .iter()
        .map(|f| f.variants.iter().map(|v| v.mode == Mode::Light).collect())
        .collect()
}

fn err(t: &Tokens) -> TokensError {
    t.validate(&light_flags(t)).unwrap_err()
}

// ── validation ──

#[test]
fn the_fixture_is_valid() {
    let t = fixture();
    t.validate(&light_flags(&t)).unwrap();
    assert_eq!(t.variant_count(), 57);
    assert_eq!(t.variants().len(), 57);
}

#[test]
fn a_family_key_used_twice_is_refused() {
    let mut t = fixture();
    t.families[3].key = "catppuccin".to_string();
    assert_eq!(err(&t), TokensError::DuplicateFamilyKey { key: "catppuccin".to_string() });
}

#[test]
fn two_families_cannot_share_an_order() {
    let mut t = fixture();
    t.families[2].order = 0;
    assert_eq!(
        err(&t),
        TokensError::SharedOrder {
            other: "catppuccin".to_string(),
            key: "everblush".to_string(),
            order: 0
        }
    );
}

#[test]
fn an_icon_must_be_hex_and_a_character() {
    let mut t = fixture();
    t.families[0].icon = "zz".to_string();
    assert_eq!(
        err(&t),
        TokensError::IconNotHex { family: "catppuccin".to_string(), icon: "zz".to_string() }
    );
    t.families[0].icon = "d800".to_string();
    assert_eq!(
        err(&t),
        TokensError::IconNotChar { family: "catppuccin".to_string(), codepoint: 0xd800 }
    );
    t.families[0].icon = "+F0F4".to_string();
    assert_eq!(t.families[0].icon_char(), Ok(Some('\u{f0f4}')));
    t.validate(&light_flags(&t)).unwrap();
}

#[test]
fn a_family_needs_a_variant() {
    let mut t = fixture();
    t.families[1].variants.clear();
    assert_eq!(err(&t), TokensError::NoVariants { family: "gruvbox".to_string() });
}

#[test]
fn a_variant_key_is_unique_within_its_family() {
    let mut t = fixture();
    t.families[0].variants[2].key = "latte".to_string();
    assert_eq!(
        err(&t),
        TokensError::DuplicateVariant {
            family: "catppuccin".to_string(),
            variant: "latte".to_string()
        }
    );
}

#[test]
fn a_const_name_is_claimed_once() {
    let mut t = fixture();
    t.families[1].variants[0].const_name = "CATPPUCCIN_MOCHA".to_string();
    assert_eq!(
        err(&t),
        TokensError::ConstClaimed {
            const_name: "CATPPUCCIN_MOCHA".to_string(),
            other: "catppuccin/mocha".to_string(),
            id: "gruvbox/dark".to_string()
        }
    );
}

#[test]
fn a_const_name_is_screaming_snake_case() {
    let mut t = fixture();
    t.families[1].variants[1].const_name = "Gruvbox_light".to_string();
    assert_eq!(
        err(&t),
        TokensError::ConstNotScreaming {
            id: "gruvbox/light".to_string(),
            const_name: "Gruvbox_light".to_string()
        }
    );
}

#[test]
fn the_declared_mode_must_match_the_background() {
    let t = fixture();
    let mut light = light_flags(&t);
    light[1][0] = true;
    assert_eq!(
        t.validate(&light).unwrap_err(),
        TokensError::ModeMismatch {
            id: "gruvbox/dark".to_string(),
            declared: Mode::Dark,
            actual: Mode::Light,
            bg: Color(0x1e1e2e)
        }
    );
}

#[test]
fn accents_are_required_unique_and_labelled() {
    let mut t = fixture();
    t.accents[3].key = "red".to_string();
    assert_eq!(err(&t), TokensError::DuplicateAccent { key: "red".to_string() });

    let mut t = fixture();
    t.accents[5].label.fr = String::new();
    assert_eq!(err(&t), TokensError::AccentMissingLabel { key: "indigo".to_string() });

    let mut t = fixture();
    t.accents.clear();
    assert_eq!(err(&t), TokensError::NoAccents);
}

#[test]
fn family_checks_run_before_accent_checks() {
    let mut t = fixture();
    t.accents.clear();
    t.families[24].variants.clear();
    assert_eq!(err(&t), TokensError::NoVariants { family: "stellar_blade".to_string() });
}

#[test]
fn a_family_file_is_named_after_its_key() {
    let t = fixture();
    t.families[0].check_file_key("tokens/themes/catppuccin.toml", "catppuccin").unwrap();
    assert_eq!(
        t.families[0].check_file_key("tokens/themes/latte.toml", "latte").unwrap_err(),
        TokensError::KeyMismatch {
            path: "tokens/themes/latte.toml".to_string(),
            key: "catppuccin".to_string(),
            stem: "latte".to_string()
        }
    );
}

#[test]
fn error_messages_read_as_the_generator_prints_them() {
    assert_eq!(
        TokensError::SharedOrder { other: "a".into(), key: "b".into(), order: 40 }.message(),
        "families \"a\" and \"b\" share order 40"
    );
    assert_eq!(
        TokensError::IconNotChar { family: "x".into(), codepoint: 0xd800 }.message(),
        "family \"x\": U+D800 is not a character"
    );
    assert_eq!(
        TokensError::ModeMismatch {
            id: "gruvbox/dark".into(),
            declared: Mode::Dark,
            actual: Mode::Light,
            bg: Color(0xfbf1c7)
        }
        .message(),
        "gruvbox/dark: declared mode \"dark\" but bg_primary #fbf1c7 reads as \"light\""
    );
    assert_eq!(TokensError::NoAccents.message(), "tokens/accents.toml declares no accents");
    assert_eq!(
        TokensError::NoFamilies { dir: "tokens/themes".into() }.message(),
        "no theme families found in tokens/themes"
    );
}

// ── ordering ──

#[test]
fn families_are_sorted_by_order_keeping_ties_in_place() {
    let t = fixture();
    let mut fams = t.families.clone();
    fams.reverse();
    fams[0].order = 5;
    fams[1].order = 5;
    let first = fams[0].key.clone();
    let second = fams[1].key.clone();
    let sorted = sort_by_order(fams);
    let orders: Vec<u32> = sorted.iter().map(|f| f.order).collect();
    let mut expected = orders.clone();
    expected.sort();
    assert_eq!(orders, expected);
    let pos = |k: &str| sorted.iter().position(|f| f.key == k).unwrap();
    assert!(pos(&first) < pos(&second));
    assert_eq!(sorted.len(), 25);

    let t2 = Tokens::from_families(sorted, t.accents.clone());
    assert_eq!(t2.families[0].key, "catppuccin");
}

// ── names ──

#[test]
fn names_derived_from_keys() {
    let t = fixture();
    let f = &t.families[7];
    let v = &f.variants[2];
    assert_eq!(v.slug(f), "tokyo-night-day");
    assert_eq!(v.display_name(f), "Tokyo Night \u{b7} Day");
    assert_eq!(dashed_string("a_b_c"), "a-b-c");
    assert_eq!(Palette::fields()[0].css_var(), "--colony-bg-primary");
    assert_eq!(Mode::Light.as_str(), "light");
    assert_eq!(Mode::Dark.as_str(), "dark");
}

#[test]
fn icons_render_as_escapes() {
    let t = fixture();
    assert_eq!(t.families[1].icon_rust_escape(), "\\u{f0f4}");
    assert_eq!(t.families[0].icon_rust_escape(), "");
    assert_eq!(t.families[0].icon_char(), Ok(None));
    assert_eq!(t.families[1].icon_char(), Ok(Some('\u{f0f4}')));
}

#[test]
fn a_palette_lists_its_fields_in_declaration_order() {
    let p = palette(0x123456, 2);
    let fields = Palette::fields();
    let values = p.values();
    let entries = p.entries();
    assert_eq!(fields.len(), 38);
    assert_eq!(values.len(), 38);
    assert_eq!(entries.len(), 38);
    assert_eq!(fields[0].name, "bg_primary");
    assert_eq!(fields[0].group, "backgrounds");
    assert_eq!(fields[37].name, "divider");
    assert_eq!(values[0], Color(0x123456));
    assert_eq!(values[15], p.accent_blue);
    assert_eq!(entries[37], (fields[37], p.divider));
}

// ── label tables ──

#[test]
fn label_tables_share_their_keys() {
    let l = render(&fixture()).unwrap();
    assert_eq!(l.en.len(), l.fr.len());
    for i in 0..l.en.len() {
        let (k, _) = l.en.entry_at(i);
        assert!(l.fr.contains_key(k));
    }
    assert_eq!(l.fr.get("settings_theme_dark_mode").unwrap(), "Mode sombre");
    assert_eq!(l.en.get("settings_accent_amber").unwrap(), "Amber");
}

#[test]
fn a_shared_label_key_must_carry_one_string() {
    let mut t = fixture();
    t.families[1].variants[1].label.fr = "Mode lumineux".to_string();
    assert_eq!(
        render_err(&t),
        LabelError::Conflict {
            key: "settings_theme_light_mode".to_string(),
            locale: LabelLocale::Fr,
            existing: "Mode lumineux".to_string(),
            value: "Mode clair".to_string()
        }
    );
}

#[test]
fn an_empty_label_is_refused() {
    let mut t = fixture();
    t.families[2].label.en = String::new();
    assert_eq!(
        render_err(&t),
        LabelError::Empty { key: "settings_theme_everblush".to_string(), locale: LabelLocale::En }
    );
}

fn render_err(t: &Tokens) -> LabelError {
    match render(t) {
        Ok(_) => panic!("the labels should be refused"),
        Err(e) => e,
    }
}

// ── generated/ bookkeeping ──

fn art(path: &str, contents: &str) -> Artifact {
    Artifact { path: path.to_string(), contents: contents.to_string() }
}

#[test]
fn generate_writes_only_what_changed() {
    let t = fixture();
    let mut report = Report::new(&t);
    assert_eq!(report.families, 25);
    assert_eq!(report.variants, 57);
    let arts = vec![art("generated/a.css", "a"), art("generated/b.css", "b"), art("generated/c.css", "c")];
    let disk = vec![Some("a".to_string()), Some("old".to_string()), None];
    let write = report.record_artifacts(&arts, &disk);
    assert_eq!(write, vec![false, true, true]);
    assert_eq!(report.written, vec!["generated/b.css".to_string(), "generated/c.css".to_string()]);
    assert_eq!(report.unchanged, 1);
}

#[test]
fn check_reports_missing_drifted_and_stale_files() {
    let arts = vec![art("generated/a.css", "a"), art("generated/b.css", "b"), art("generated/c.css", "c")];
    let disk = vec![Some("a".to_string()), Some("old".to_string()), None];
    let existing = vec![
        "generated/a.css".to_string(),
        "generated/gone.css".to_string(),
        "generated/b.css".to_string(),
    ];
    assert_eq!(stale_files(&arts, &existing), vec!["generated/gone.css".to_string()]);
    assert_eq!(
        check_problems(&arts, &disk, &existing),
        vec![
            "out of date: generated/b.css".to_string(),
            "missing: generated/c.css".to_string(),
            "stale, not produced by tokens/: generated/gone.css".to_string(),
        ]
    );
    let all_there = vec![Some("a".to_string()), Some("b".to_string()), Some("c".to_string())];
    let listed = vec!["generated/a.css".to_string(), "generated/b.css".to_string(), "generated/c.css".to_string()];
    assert!(check_problems(&arts, &all_there, &listed).is_empty());
}

// ── the sorted map ──

#[test]
fn a_read_gives_back_the_last_write() {
    let mut m: StrMap<u32> = StrMap::new();
    assert!(m.is_empty());
    assert_eq!(m.insert("b".to_string(), 1), None);
    assert_eq!(m.insert("a".to_string(), 2), None);
    assert_eq!(m.insert("b".to_string(), 3), Some(1));
    assert_eq!(m.get("b"), Some(&3));
    assert_eq!(m.get("a"), Some(&2));
    assert_eq!(m.get("c"), None);
    assert_eq!(m.len(), 2);
    assert_eq!(m.entry_at(0), (&"a".to_string(), &2));
    assert!(m.contains_key("a"));
}

#[test]
fn label_errors_quote_the_strings_involved() {
    assert_eq!(
        LabelError::Empty { key: "k".to_string(), locale: LabelLocale::En }.message(),
        "label key \"k\" has an empty en string"
    );
    assert_eq!(
        LabelError::Conflict {
            key: "k".to_string(),
            locale: LabelLocale::Fr,
            existing: "say \"hi\"".to_string(),
            value: "b".to_string()
        }
        .message(),
        "label key \"k\" is used with two different fr strings: \"say \\\"hi\\\"\" and \"b\""
    );
    assert_eq!(LabelLocale::Fr.as_str(), "fr");
}

#[test]
fn label_tables_are_written_as_pretty_json() {
    let mut t: colony::emit::i18n::LabelTable = StrMap::new();
    assert_eq!(colony::emit::i18n::table_json(&t), "{}\n");
    t.insert("b".to_string(), "Bé \"2\"".to_string());
    t.insert("a".to_string(), "A".to_string());
    assert_eq!(
        colony::emit::i18n::table_json(&t),
        "{\n  \"a\": \"A\",\n  \"b\": \"Bé \\\"2\\\"\"\n}\n"
    );
}

#[test]
fn the_plan_writes_both_label_tables() {
    let arts = colony::generate::plan(&fixture()).unwrap();
    assert_eq!(arts.len(), 2);
    assert_eq!(arts[0].path, "generated/i18n/labels.fr.json");
    assert_eq!(arts[1].path, "generated/i18n/labels.en.json");
    assert!(arts[0].contents.starts_with("{\n  \"settings_accent_amber\": \"Ambre\",\n"));
    assert!(arts[1].contents.contains("\n  \"settings_theme_dark_mode\": \"Dark mode\",\n"));
    assert!(arts[1].contents.ends_with("\"\n}\n"));

    let mut bad = fixture();
    bad.accents[0].label.en = String::new();
    assert!(colony::generate::plan(&bad).is_err());
}

#[test]
fn a_file_the_plan_does_not_produce_is_reported_and_removed() {
    let arts = colony::generate::plan(&fixture()).unwrap();
    let disk: Vec<Option<String>> = arts.iter().map(|a| Some(a.contents.clone())).collect();
    let existing = vec![
        "generated/i18n/labels.en.json".to_string(),
        "generated/i18n/labels.fr.json".to_string(),
        "generated/rust/palettes.rs".to_string(),
    ];
    assert_eq!(stale_files(&arts, &existing), vec!["generated/rust/palettes.rs".to_string()]);
    assert_eq!(
        check_problems(&arts, &disk, &existing),
        vec!["stale, not produced by tokens/: generated/rust/palettes.rs".to_string()]
    );
}

#[test]
fn a_map_filled_by_insert_lists_each_key_once_in_order() {
    let mut m: StrMap<u32> = StrMap::new();
    m.insert("windows".to_string(), 1);
    m.insert("linux".to_string(), 2);
    m.insert("windows".to_string(), 3);
    assert_eq!(m.len(), 2);
    assert_eq!(m.entry_at(0), (&"linux".to_string(), &2));
    assert_eq!(m.entry_at(1), (&"windows".to_string(), &3));
}

#[test]
fn json_strings_escape_quotes_backslashes_and_control_characters() {
    let m = LabelError::Conflict {
        key: "k".to_string(),
        locale: LabelLocale::En,
        existing: "a\t\\b\u{1}é\u{7f}".to_string(),
        value: "v".to_string(),
    }
    .message();
    assert_eq!(m, "label key \"k\" is used with two different en strings: \"a\\t\\\\b\\u0001é\u{7f}\" and \"v\"");
}
