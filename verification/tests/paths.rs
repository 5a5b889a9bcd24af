use colony::paths::locate;
use colony::paths::{
    app_location, apps_location, cache_location, component, config_location, data_location, PathError, Root,
    APPS, VENDOR,
};
use std::path::PathBuf;

#[test]
fn every_root_nests_under_the_vendor_then_the_program() {
    for path in [
        locate::config_dir("Digger").unwrap(),
        locate::data_dir("Digger").unwrap(),
        locate::cache_dir("Digger").unwrap(),
    ] {
        let tail: Vec<_> = path
            .components()
            .rev()
            .take(2)
            .map(|c| c.as_os_str().to_string_lossy().into_owned())
            .collect();
        assert_eq!(tail, vec!["Digger".to_string(), "Colony".to_string()], "{path:?}");
    }
}

#[test]
fn installed_programs_are_a_sibling_of_the_per_program_dirs() {
    let apps = locate::apps_dir().unwrap();
    assert!(apps.ends_with("Colony/apps") || apps.ends_with("Colony\\apps"), "{apps:?}");
    assert_eq!(locate::app_dir("Grape").unwrap(), apps.join("Grape"));
}

#[test]
fn a_program_name_cannot_escape_the_colony_tree() {
    for bad in ["..", ".", "", "../../etc", "a/b", "a\\b", "with\0nul"] {
        assert!(locate::config_dir(bad).is_err(), "{bad:?} should be rejected as a program name");
        assert!(locate::app_dir(bad).is_err(), "{bad:?} should be rejected as a repo name");
    }
}

#[test]
fn ordinary_program_names_are_accepted() {
    for good in ["Colony", "Digger", "Grape", "Eidos", "SAM - Colony Edition"] {
        assert!(locate::config_dir(good).is_ok(), "{good:?} should be accepted");
    }
}

/// Where the platform's local config and data roots are one folder (Windows,
/// macOS), the two directories coincide; where they differ (Linux), each is
/// still its own root's `Colony/<program>`.
#[test]
fn config_and_data_may_share_a_root_off_linux() {
    let config = locate::config_dir("Colony").unwrap();
    let data = locate::data_dir("Colony").unwrap();
    let config_root = dirs::config_local_dir().unwrap();
    let data_root = dirs::data_local_dir().unwrap();
    assert_eq!(config, config_root.join("Colony").join("Colony"));
    assert_eq!(data, data_root.join("Colony").join("Colony"));
    if config_root == data_root {
        assert_eq!(config, data);
    }
}

#[test]
fn each_root_is_its_platform_directory_joined_with_the_names() {
    let cache = locate::cache_dir("Eidos").unwrap();
    assert_eq!(cache, dirs::cache_dir().unwrap().join(VENDOR).join("Eidos"));
    assert_eq!(
        locate::apps_dir().unwrap(),
        dirs::data_local_dir().unwrap().join(VENDOR).join(APPS)
    );
}

#[test]
fn the_rejection_names_the_offending_name() {
    assert_eq!(
        component("../x").unwrap_err(),
        PathError::InvalidName { name: "../x".to_string() }
    );
    assert_eq!(component("Grape").unwrap(), "Grape");
    match locate::app_dir("a/b") {
        Err(PathError::InvalidName { name }) => assert_eq!(name, "a/b"),
        other => panic!("expected an invalid name, got {other:?}"),
    }
}

#[test]
fn error_messages_say_what_went_wrong() {
    assert_eq!(
        PathError::InvalidName { name: "a/b".to_string() }.message(),
        "\"a/b\" is not a safe single path component"
    );
    assert_eq!(
        PathError::NotFound { what: "cache" }.message(),
        "cannot determine the platform cache directory"
    );
}

#[test]
fn locations_follow_the_layout() {
    let c = config_location("Digger").unwrap();
    assert_eq!(c.root, Root::Config);
    assert_eq!(c.parts, vec!["Colony".to_string(), "Digger".to_string()]);
    let d = data_location("Digger").unwrap();
    assert_eq!(d.root, Root::Data);
    assert_eq!(d.parts, vec!["Colony".to_string(), "Digger".to_string()]);
    let own = cache_location("Digger", false).unwrap();
    assert_eq!(own.root, Root::Cache);
    assert_eq!(own.parts, vec!["Colony".to_string(), "Digger".to_string()]);
    let shared = cache_location("Digger", true).unwrap();
    assert_eq!(shared.parts, vec!["Colony".to_string(), "Digger".to_string(), "cache".to_string()]);
    let apps = apps_location();
    assert_eq!(apps.root, Root::Data);
    assert_eq!(apps.parts, vec!["Colony".to_string(), "apps".to_string()]);
    let grape = app_location("Grape").unwrap();
    assert_eq!(grape.parts, vec!["Colony".to_string(), "apps".to_string(), "Grape".to_string()]);
    assert!(app_location("a/b").is_err());
}

#[test]
fn no_program_may_be_named_apps() {
    assert_eq!(
        data_location("apps").err(),
        Some(PathError::InvalidName { name: "apps".to_string() })
    );
    assert!(locate::config_dir("apps").is_err());
    assert!(locate::data_dir("apps").is_err());
    assert!(locate::cache_dir("apps").is_err());
    // An installed program may be called anything safe, `apps` included.
    assert!(locate::app_dir("apps").is_ok());
}

#[test]
fn a_missing_root_is_reported_before_the_name() {
    assert_eq!(
        locate::dir_at(None, config_location(".."), "config").err(),
        Some(PathError::NotFound { what: "config" })
    );
    assert_eq!(
        locate::dir_at(Some(PathBuf::from("/r")), config_location(".."), "config").err(),
        Some(PathError::InvalidName { name: "..".to_string() })
    );
    assert_eq!(
        locate::dir_at(Some(PathBuf::from("/r")), config_location("Digger"), "config").unwrap(),
        PathBuf::from("/r").join("Colony").join("Digger")
    );
}

#[test]
fn the_cache_never_is_the_config_or_data_directory() {
    let cache = locate::cache_dir("Colony").unwrap();
    assert_ne!(cache, locate::config_dir("Colony").unwrap());
    assert_ne!(cache, locate::data_dir("Colony").unwrap());
    assert!(!locate::config_dir("Colony").unwrap().starts_with(&cache));
}
