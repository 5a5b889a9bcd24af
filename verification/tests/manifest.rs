use colony::manifest::{
    Category, ColonyManifest, EntryProblem, ManifestError, ReleaseFileEntry, ReleaseFiles,
};

#[test]
fn resolves_categories_the_way_colony_does() {
    assert_eq!(Category::resolve("System").unwrap().canonical, "system");
    assert_eq!(Category::resolve("  Games ").unwrap().canonical, "game");
    assert_eq!(Category::resolve("Utilities").unwrap().canonical, "utility");
    assert!(Category::resolve("Nonsense").is_none());
}

#[test]
fn builds_conventional_asset_names() {
    assert_eq!(
        ColonyManifest::conventional_asset("D1Gg2r", "windows").unwrap(),
        "d1gg2r-windows.exe"
    );
    assert_eq!(
        ColonyManifest::conventional_asset("Eidos", "macos-x86").unwrap(),
        "eidos-macos-x86"
    );
    assert!(ColonyManifest::conventional_asset("Eidos", "haiku").is_none());
}

fn minimal() -> ColonyManifest {
    ColonyManifest {
        schema: None,
        name: "Eidos".into(),
        category: "system".into(),
        platforms: Vec::new(),
        release_files: ReleaseFiles::new(),
        icon: None,
        signed: false,
    }
}

fn entry(tag: &str, file: Option<&str>, pattern: Option<&str>, sha: Option<&str>) -> ReleaseFileEntry {
    ReleaseFileEntry {
        tag: tag.into(),
        file: file.map(str::to_string),
        file_pattern: pattern.map(str::to_string),
        binary: None,
        sha256: sha.map(str::to_string),
    }
}

#[test]
fn accepts_a_minimal_manifest() {
    minimal().validate().unwrap();
}

#[test]
fn rejects_an_unknown_category() {
    let mut m = minimal();
    m.category = "Productivity".into();
    assert!(m
        .validate()
        .unwrap_err()
        .message()
        .contains("unknown category"));
}

#[test]
fn rejects_a_platform_with_no_release_entry() {
    let mut m = minimal();
    m.platforms = vec!["linux".into(), "windows".into()];
    m.release_files.insert(
        "linux".into(),
        ReleaseFileEntry {
            tag: "latest".into(),
            file: Some("eidos-linux".into()),
            file_pattern: None,
            binary: None,
            sha256: None,
        },
    );
    assert!(m.validate().unwrap_err().message().contains("windows"));
}

#[test]
fn rejects_file_and_pattern_together() {
    let mut m = minimal();
    m.release_files.insert(
        "linux".into(),
        ReleaseFileEntry {
            tag: "latest".into(),
            file: Some("eidos-linux".into()),
            file_pattern: Some("*-linux".into()),
            binary: None,
            sha256: None,
        },
    );
    assert!(m
        .validate()
        .unwrap_err()
        .message()
        .contains("mutually exclusive"));
}

#[test]
fn rejects_a_malformed_checksum() {
    let mut m = minimal();
    m.release_files.insert(
        "linux".into(),
        ReleaseFileEntry {
            tag: "v1.0.0".into(),
            file: Some("eidos-linux".into()),
            file_pattern: None,
            binary: None,
            sha256: Some("ABC123".into()),
        },
    );
    assert!(m.validate().unwrap_err().message().contains("64 hex"));
}

#[test]
fn every_check_reports_its_own_error() {
    let mut m = minimal();
    m.name = "   ".into();
    assert_eq!(m.validate(), Err(ManifestError::EmptyName));

    let mut m = minimal();
    m.platforms = vec!["linux".into(), "haiku".into(), "beos".into()];
    assert_eq!(
        m.validate(),
        Err(ManifestError::UnknownPlatform { platform: "haiku".into() })
    );

    let mut m = minimal();
    m.release_files.insert("haiku".into(), entry("latest", Some("a"), None, None));
    assert_eq!(
        m.validate(),
        Err(ManifestError::UnknownReleasePlatform { platform: "haiku".into() })
    );

    let mut m = minimal();
    m.release_files.insert("linux".into(), entry(" ", Some("a"), None, None));
    assert_eq!(
        m.validate(),
        Err(ManifestError::Entry { platform: "linux".into(), problem: EntryProblem::EmptyTag })
    );

    let mut m = minimal();
    m.release_files.insert("linux".into(), entry("latest", None, None, None));
    assert_eq!(
        m.validate(),
        Err(ManifestError::Entry {
            platform: "linux".into(),
            problem: EntryProblem::NeedsFileOrPattern
        })
    );

    let upper = "A".repeat(64);
    let mut m = minimal();
    m.release_files.insert("linux".into(), entry("latest", Some("a"), None, Some(&upper)));
    assert_eq!(
        m.validate(),
        Err(ManifestError::Entry {
            platform: "linux".into(),
            problem: EntryProblem::UppercaseSha256
        })
    );

    let lower = "a".repeat(64);
    let mut m = minimal();
    m.release_files.insert("linux".into(), entry("latest", Some("a"), None, Some(&lower)));
    m.validate().unwrap();

    let mut m = minimal();
    m.icon = Some("icon.svg".into());
    assert_eq!(m.validate(), Err(ManifestError::IconNotPng { icon: "icon.svg".into() }));

    let mut m = minimal();
    m.icon = Some("ICON.PNG".into());
    m.validate().unwrap();

    let mut m = minimal();
    m.icon = Some("../icon.png".into());
    assert_eq!(
        m.validate(),
        Err(ManifestError::IconNotRelative { icon: "../icon.png".into() })
    );

    let mut m = minimal();
    m.icon = Some("/icon.png".into());
    assert!(m.validate().is_err());
}

#[test]
fn release_entries_are_checked_in_key_order() {
    // Inserted out of order; "linux" sorts before "windows", so its problem is
    // the one reported, as a map keyed by platform iterates.
    let mut m = minimal();
    m.release_files.insert("windows".into(), entry("latest", None, None, None));
    m.release_files.insert("linux".into(), entry("", Some("a"), None, None));
    assert_eq!(
        m.validate(),
        Err(ManifestError::Entry { platform: "linux".into(), problem: EntryProblem::EmptyTag })
    );
}

#[test]
fn release_files_read_back_what_was_written() {
    let mut files = ReleaseFiles::new();
    assert!(files.is_empty());
    assert!(files.insert("macos".into(), entry("v1", Some("a"), None, None)).is_none());
    assert!(files.insert("linux".into(), entry("v2", Some("b"), None, None)).is_none());
    let old = files.insert("macos".into(), entry("v3", Some("c"), None, None));
    assert_eq!(old.unwrap().tag, "v1");
    assert_eq!(files.len(), 2);
    assert_eq!(files.get("macos").unwrap().tag, "v3");
    assert_eq!(files.get("linux").unwrap().tag, "v2");
    assert!(files.get("windows").is_none());
    assert!(files.contains_key("linux"));
    assert_eq!(files.entry_at(0).0, "linux");
    assert_eq!(files.entry_at(1).0, "macos");
}

#[test]
fn error_messages_read_as_the_launcher_reports_them() {
    assert_eq!(ManifestError::EmptyName.message(), "`name` must not be empty");
    assert_eq!(
        ManifestError::UnknownPlatform { platform: "haiku".into() }.message(),
        "unknown platform \"haiku\" \u{2014} valid: linux, windows, macos, macos-x86"
    );
    assert_eq!(
        ManifestError::UnknownCategory { category: "x".into() }.message(),
        "unknown category \"x\" \u{2014} Colony ignores it and the program is filed nowhere. \
         Valid: development, graphics, network, office, multimedia, system, utility, security, game, other"
    );
    assert_eq!(
        ManifestError::Entry { platform: "linux".into(), problem: EntryProblem::BadSha256 }.message(),
        "linux: `sha256` must be 64 hex characters"
    );
}

#[test]
fn all_spellings_lists_canonical_names_first() {
    assert_eq!(
        Category::all_spellings(),
        vec![
            "development", "graphics", "network", "office", "multimedia", "system", "utility",
            "utilities", "security", "game", "games", "other"
        ]
    );
}
