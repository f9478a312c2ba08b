use ashell::config::{ConfigFile, ConfigStore};
use ashell::load::{
    backup_history_is_newer, config_backup_path, config_path, decode_failure, get_hardware_uuid,
    platform_uuid, preferences_to_save, recover, Rewrite,
};

fn history(revision: u64, commands: &[&str]) -> ConfigFile {
    let mut config = ConfigFile::default();
    config.command_history_revision = revision;
    if !commands.is_empty() {
        config.command_history.insert(
            "session".to_string(),
            commands.iter().map(|command| command.to_string()).collect(),
        );
    }
    config
}

#[test]
fn a_machine_always_has_an_identifier() {
    let uuid = get_hardware_uuid(&None, &[]);
    assert!(!uuid.is_empty());
}

#[test]
fn an_identifier_stays() {
    let first = get_hardware_uuid(&None, &[Some("abc\n".to_string())]);
    assert_eq!(first, "abc");
    let later = get_hardware_uuid(&Some(first.clone()), &[Some("def".to_string())]);
    assert_eq!(later, first);
    assert_eq!(get_hardware_uuid(&Some(first), &[]), "abc");
}

#[test]
fn the_first_identifier_counts() {
    let candidates =
        vec![None, Some("  ".to_string()), Some(" abc\n".to_string()), Some("def".to_string())];

    assert_eq!(get_hardware_uuid(&None, &candidates), "abc");
    assert_eq!(get_hardware_uuid(&None, &[None]), "ashell-default-hardware-uuid-fallback");
}

#[test]
fn the_device_registry_names_the_platform() {
    let listing = "  \"IOPlatformSerialNumber\" = \"X\"\n  \"IOPlatformUUID\" = \"12-34\"\n";

    assert_eq!(platform_uuid(listing), Some("12-34".to_string()));
    assert_eq!(platform_uuid("\"IOPlatformUUID\" = \"\"\n"), None);
    assert_eq!(platform_uuid("nothing\n"), None);
}

#[test]
fn backup_paths_are_those_of_the_standard_library() {
    for path in [
        "/home/u/.config/ashell/sessions.json",
        "sessions",
        "/a.b/c",
        "/a/.hidden",
        "/a/b.tar.gz",
        "/a/b.json/",
        "/",
        "..",
        "",
    ] {
        let expected = std::path::Path::new(path).with_extension("json.bak");
        assert_eq!(config_backup_path(path, false), expected.to_string_lossy());
    }
}

#[test]
fn the_configuration_lies_below_the_home_directory() {
    assert_eq!(config_path("/home/u", false), "/home/u/.config/ashell/sessions.json");
    assert_eq!(config_path("/", false), "/.config/ashell/sessions.json");
    assert_eq!(config_path("", false), ".config/ashell/sessions.json");
    assert_eq!(config_path("C:\\Users\\u", true), "C:\\Users\\u\\.config\\ashell\\sessions.json");
    assert_eq!(config_path("C:\\", true), "C:\\.config\\ashell\\sessions.json");
    assert_eq!(config_path("C:", true), "C:.config\\ashell\\sessions.json");
    assert_eq!(
        config_path("\\\\?\\C:\\u\\", true),
        "\\\\?\\C:\\u\\.config\\ashell\\sessions.json"
    );
    for home in ["/home/u", "/home/u/", "/", "", "u"] {
        let expected =
            std::path::Path::new(home).join(".config").join("ashell").join("sessions.json");
        assert_eq!(config_path(home, false), expected.to_string_lossy());
    }
}

#[test]
fn backup_paths_know_the_separators_of_windows() {
    assert_eq!(config_backup_path("a.b\\c", true), "a.b\\c.json.bak");
    assert_eq!(config_backup_path("C:\\x\\s.json", true), "C:\\x\\s.json.bak");
    assert_eq!(config_backup_path("C:s.json", true), "C:s.json.bak");
    assert_eq!(config_backup_path("C:", true), "C:");
    assert_eq!(config_backup_path("C:\\", true), "C:\\");
    assert_eq!(config_backup_path("\\\\h\\s.d", true), "\\\\h\\s.d");
    assert_eq!(config_backup_path("a.b\\c", false), "a.json.bak");
}

#[test]
fn an_unreadable_file_is_not_written_over() {
    let refused = preferences_to_save(
        "/c.json",
        Some(Err("bad".to_string())),
        ConfigFile::default(),
        ConfigFile::default(),
    );
    assert_eq!(
        refused.unwrap_err(),
        "refusing to overwrite unreadable config /c.json: bad"
    );
    let stored = history(5, &["stored"]);
    let kept = preferences_to_save("/c.json", Some(Ok(stored)), history(9, &[]), history(1, &["new"]));
    assert_eq!(kept.unwrap().command_history_revision, 5);
    let fresh = preferences_to_save("/c.json", None, history(0, &[]), history(1, &["new"]));
    assert_eq!(fresh.unwrap().command_history_revision, 1);
}

#[test]
fn unreadable_bytes_have_two_reasons() {
    assert_eq!(
        decode_failure("no key", "no value"),
        "decrypt failed: no key; plain JSON parsing failed: no value"
    );
}

#[test]
fn a_newer_copy_lends_its_history() {
    let (config, rewrite) =
        recover("p", Ok(history(1, &["ls"])), Ok(history(2, &["pwd"]))).unwrap();

    assert_eq!(rewrite, Rewrite::Configuration);
    assert_eq!(config.command_history_revision, 2);
    assert_eq!(config.command_history.get("session"), Some(&vec!["pwd".to_string()]));
}

#[test]
fn an_unnumbered_copy_fills_an_empty_history() {
    assert!(backup_history_is_newer(&history(0, &[]), &history(0, &["pwd"])));
    assert!(!backup_history_is_newer(&history(0, &["ls"]), &history(0, &["pwd"])));
    let (config, rewrite) = recover("p", Ok(history(0, &[])), Ok(history(0, &["pwd"]))).unwrap();

    assert_eq!(rewrite, Rewrite::Configuration);
    assert_eq!(config.command_history_revision, 1);
}

#[test]
fn a_readable_configuration_is_used() {
    let (config, rewrite) =
        recover("p", Ok(history(3, &["ls"])), Ok(history(2, &["pwd"]))).unwrap();
    assert_eq!(rewrite, Rewrite::Nothing);
    assert_eq!(config.command_history_revision, 3);

    let (config, rewrite) = recover("p", Ok(history(3, &[])), Err("gone".to_string())).unwrap();
    assert_eq!(rewrite, Rewrite::Nothing);
    assert_eq!(config.command_history_revision, 3);
}

#[test]
fn the_copy_stands_in_for_an_unreadable_configuration() {
    let (config, rewrite) = recover("p", Err("bad".to_string()), Ok(history(2, &[]))).unwrap();

    assert_eq!(rewrite, Rewrite::BackupBytes);
    assert_eq!(config.command_history_revision, 2);
    let error = recover("p", Err("bad".to_string()), Err("gone".to_string())).unwrap_err();
    assert_eq!(error, "failed to load config p: bad; backup recovery failed: gone");
}

#[test]
fn loading_gives_the_device_an_identifier() {
    let store = ConfigStore::load(ConfigFile::default());
    assert_eq!(store.sync_device_id().len(), 36);

    let mut config = history(4, &["ls", "pwd", "ls"]);
    config.sync_device_id = "device".to_string();
    let store = ConfigStore::load(config);
    assert_eq!(store.sync_device_id(), "device");
    assert_eq!(
        store.cache.command_history.get("session"),
        Some(&vec!["pwd".to_string(), "ls".to_string()])
    );
    assert_eq!(store.cache.command_history_revision, 5);
}
