use ashell::config::{merge_preferences, ConfigFile, ConfigStore};
use ashell::history::MAX_COMMAND_HISTORY;
use ashell::number::Float32;
use ashell::preferences::{
    change_terminal_font_size, change_ui_font_size, reset_layout, toggle_sftp_minimized,
};
use ashell::saved::{
    CursorStyle, SavedPaneLayout, SavedTabGroup, SavedTabsState, SavedTerminalTab, TitleBarStyle,
};
use ashell::session::{AuthMethod, Session, TextEncoding};

fn number(value: f32) -> Float32 {
    Float32 { bits: value.to_bits() }
}

fn value(number: Float32) -> f32 {
    f32::from_bits(number.bits)
}

fn session(id: &str, name: &str) -> Session {
    Session {
        id: id.to_string(),
        name: name.to_string(),
        host: "1.2.3.4".to_string(),
        port: 22,
        user: "root".to_string(),
        auth: AuthMethod::Password,
        password: "pwd".to_string(),
        private_key_path: String::new(),
        private_key_inline: String::new(),
        passphrase: String::new(),
        last_used: None,
        proxy_type: String::new(),
        proxy_host: String::new(),
        proxy_port: None,
        proxy_user: String::new(),
        proxy_password: String::new(),
        protocol: "ssh".to_string(),
        baud_rate: 115200,
        terminal_encoding: TextEncoding::Utf8,
    }
}

#[test]
fn tabs_are_not_remembered_by_default() {
    let config = ConfigFile::default();

    assert!(!config.remember_tabs);
    assert!(config.saved_tabs.is_none());
    assert!(config.sftp_tree_panels.is_none());
    assert!(config.sftp_file_columns.is_none());
    assert!(!config.sftp_file_columns_customized);
}

#[test]
fn command_history_keeps_only_the_latest_duplicate() {
    let mut store = ConfigStore::in_memory();

    assert!(store.add_command_history("session-1", "first".to_string()));
    assert!(store.add_command_history("session-1", "second".to_string()));
    assert!(store.add_command_history("session-1", "first".to_string()));
    assert!(!store.add_command_history("session-1", "first".to_string()));

    assert_eq!(
        store.cache.command_history.get("session-1"),
        Some(&vec!["second".to_string(), "first".to_string()])
    );
    assert_eq!(store.cache.command_history_revision, 3);
}

#[test]
fn merged_preferences_keep_the_saved_tabs() {
    let config = ConfigFile {
        remember_tabs: true,
        saved_tabs: Some(SavedTabsState {
            groups: vec![SavedTabGroup {
                id: "group-1".to_string(),
                title: "~".to_string(),
                pane_root: SavedPaneLayout::Single { tab_id: "tab-1".to_string() },
                tabs: vec![SavedTerminalTab::Local {
                    id: "tab-1".to_string(),
                    cwd: Some("/tmp".to_string()),
                    terminal_encoding: TextEncoding::Utf8,
                }],
            }],
            active_group: Some("group-1".to_string()),
            active_tab: Some("tab-1".to_string()),
        }),
        ..Default::default()
    };

    let restored = merge_preferences(ConfigFile::default(), config);

    assert!(restored.remember_tabs);
    let restored_tabs = restored.saved_tabs.unwrap();
    assert_eq!(restored_tabs.groups.len(), 1);
    assert_eq!(restored_tabs.active_tab.as_deref(), Some("tab-1"));
}

#[test]
fn test_save_merged_preferences() {
    let mut store = ConfigStore { cache: ConfigFile::default() };
    store.cache.sessions.push(session("test-session-id", "Test Session"));

    let mut local_config = ConfigFile {
        ui_font_size: number(18.0),
        terminal_font_size: number(20.0),
        show_hidden_files: true,
        sftp_file_columns_customized: true,
        remember_tabs: true,
        use_proxy: true,
        read_env_proxy: false,
        global_proxy_type: "http".to_string(),
        global_proxy_host: "proxy.example.com".to_string(),
        global_proxy_port: Some(8080),
        global_proxy_user: "proxy-user".to_string(),
        global_proxy_password: "proxy-password".to_string(),
        command_history_revision: 2,
        saved_tabs: Some(SavedTabsState {
            groups: Vec::new(),
            active_group: None,
            active_tab: None,
        }),
        ..Default::default()
    };
    local_config.key_bindings.insert("QuitApplication".to_string(), "cmd-q".to_string());
    local_config.command_history.insert(
        "test-session-id".to_string(),
        vec!["pwd".to_string(), "ls -la".to_string()],
    );

    let mut stale_config = local_config.clone();
    stale_config.command_history.clear();
    stale_config.command_history_revision = 1;
    let on_disk = merge_preferences(store.cache.clone(), local_config);
    let decrypted = merge_preferences(on_disk, stale_config);

    assert_eq!(value(decrypted.ui_font_size), 18.0);
    assert_eq!(value(decrypted.terminal_font_size), 20.0);
    assert!(decrypted.show_hidden_files);
    assert!(decrypted.sftp_file_columns_customized);
    assert!(decrypted.remember_tabs);
    assert!(decrypted.saved_tabs.is_some());
    assert_eq!(
        decrypted.key_bindings.get("QuitApplication").map(String::as_str),
        Some("cmd-q")
    );
    assert!(decrypted.use_proxy);
    assert!(!decrypted.read_env_proxy);
    assert_eq!(decrypted.global_proxy_type, "http");
    assert_eq!(decrypted.global_proxy_host, "proxy.example.com");
    assert_eq!(decrypted.global_proxy_port, Some(8080));
    assert_eq!(decrypted.global_proxy_user, "proxy-user");
    assert_eq!(decrypted.global_proxy_password, "proxy-password");
    assert_eq!(
        decrypted.command_history.get("test-session-id"),
        Some(&vec!["pwd".to_string(), "ls -la".to_string()])
    );
    assert_eq!(decrypted.command_history_revision, 2);

    assert_eq!(decrypted.sessions.len(), 1);
    assert_eq!(decrypted.sessions[0].name, "Test Session");
    assert_eq!(decrypted.sessions[0].host, "1.2.3.4");
}

#[test]
fn test_key_binding_unbinding_none() {
    let mut store = ConfigStore::in_memory();
    store.set_key_binding("OpenSettings", "none");
    assert_eq!(store.key_bindings().get("OpenSettings").unwrap(), "none");
}

#[test]
fn the_configuration_on_disk_keeps_its_sessions() {
    let mut disk = ConfigFile::default();
    disk.sessions.push(session("a", "A"));
    disk.sync_endpoint = "https://sync".to_string();
    let mut local = ConfigFile::default();
    local.sessions.push(session("b", "B"));
    local.theme_mode = "dark".to_string();
    let merged = merge_preferences(disk, local);

    assert_eq!(merged.sessions[0].id, "a");
    assert_eq!(merged.sync_endpoint, "https://sync");
    assert_eq!(merged.theme_mode, "dark");
}

#[test]
fn a_history_is_bounded() {
    let mut store = ConfigStore::in_memory();
    for index in 0..MAX_COMMAND_HISTORY + 3 {
        store.add_command_history("s", format!("command {index}"));
    }
    let history = store.cache.command_history.get("s").unwrap();

    assert_eq!(history.len(), MAX_COMMAND_HISTORY);
    assert_eq!(history[0], "command 3");
}

#[test]
fn blank_commands_are_not_noted() {
    let mut store = ConfigStore::in_memory();

    assert!(!store.add_command_history("s", "  ".to_string()));
    assert_eq!(store.cache.command_history_revision, 0);
}

#[test]
fn noted_commands_are_listed_and_forgotten() {
    let mut store = ConfigStore::in_memory();
    store.add_command_history("s", "one".to_string());
    store.add_command_history("s", "two".to_string());
    let listing = store.all_command_history();

    assert_eq!(listing.len(), 2);
    assert_eq!(listing[0], ("s".to_string(), 1, "two".to_string()));
    assert!(store.remove_command_history("s", 1));
    assert!(!store.remove_command_history("s", 1));
    assert!(!store.remove_command_history("t", 0));
    assert_eq!(store.cache.command_history.get("s"), Some(&vec!["one".to_string()]));
}

#[test]
fn sessions_are_put_found_and_removed() {
    let mut store = ConfigStore::in_memory();
    store.upsert(session("a", "A"));
    store.upsert(session("b", "B"));
    store.upsert(session("a", "Another"));

    assert_eq!(store.sessions().len(), 2);
    assert_eq!(store.get("a").unwrap().name, "Another");
    store.remove("a");
    assert!(store.get("a").is_none());
    assert_eq!(store.sessions().len(), 1);
}

#[test]
fn new_sessions_have_identifiers_of_their_own() {
    let first =
        Session::password("host".to_string(), 22, "root".to_string(), "pwd".to_string());
    let second = Session::key(
        "host".to_string(),
        22,
        "root".to_string(),
        "id".to_string(),
        String::new(),
        String::new(),
    );
    let third = Session::serial("/dev/ttyUSB0".to_string(), 9600);

    assert_eq!(first.name, "root@host");
    assert_eq!(first.id.len(), 36);
    assert_ne!(first.id, second.id);
    assert_eq!(second.auth, AuthMethod::Key);
    assert_eq!(third.protocol, "serial");
    assert_eq!(third.baud_rate, 9600);
}

#[test]
fn unset_texts_fall_back() {
    let mut store = ConfigStore::in_memory();
    store.set_sync_s3_connection(
        "https://s3".to_string(),
        String::new(),
        "bucket".to_string(),
        String::new(),
    );

    assert_eq!(store.sync_s3_region(), "us-east-1");
    assert_eq!(store.sync_s3_endpoint(), "https://s3");
    assert_eq!(store.sync_s3_bucket(), "bucket");
    assert_eq!(store.sync_backend(), "webdav");
    store.set_sync_backend("s3");
    assert_eq!(store.sync_backend(), "s3");
    store.set_monitoring_position("");
    assert_eq!(store.monitoring_position(), "Sidebar");
    assert_eq!(store.sync_s3_object_key(), "ashell-sync.json");
}

#[test]
fn a_mark_counts_for_its_own_service() {
    let mut store = ConfigStore::in_memory();
    store.set_sync_etag(Some("tag".to_string()));
    assert_eq!(store.sync_etag(), Some("tag"));
    store.set_sync_backend("s3");
    assert_eq!(store.sync_etag(), None);
}

#[test]
fn sizes_that_are_not_above_zero_are_unset() {
    let mut store = ConfigStore::in_memory();
    store.cache.terminal_font_size = number(0.0);
    store.cache.ui_font_size = number(-1.0);

    assert_eq!(value(store.terminal_font_size()), 18.0);
    assert_eq!(value(store.ui_font_size()), 14.0);
}

#[test]
fn sizes_are_kept_in_range() {
    let mut store = ConfigStore::in_memory();

    assert_eq!(value(change_terminal_font_size(&mut store, number(99.0))), 24.0);
    assert_eq!(value(change_terminal_font_size(&mut store, number(1.0))), 10.0);
    assert_eq!(value(change_ui_font_size(&mut store, number(1.0))), 8.0);
    assert_eq!(value(store.ui_font_size()), 8.0);
}

#[test]
fn forgetting_tabs_drops_the_saved_ones() {
    let mut store = ConfigStore::in_memory();
    store.set_remember_tabs(true);
    store.set_saved_tabs(Some(SavedTabsState {
        groups: Vec::new(),
        active_group: None,
        active_tab: None,
    }));
    assert!(store.saved_tabs().is_some());
    store.set_remember_tabs(false);
    assert!(store.saved_tabs().is_none());
}

#[test]
fn a_reset_layout_has_no_measures() {
    let mut store = ConfigStore::in_memory();
    store.set_sftp_tree_panels(Some(vec![number(1.0)]));
    store.set_sftp_file_columns(Some(vec![number(1.0)]));
    store.set_sftp_file_columns_customized(true);
    reset_layout(&mut store);

    assert!(store.sftp_tree_panels().is_none());
    assert!(store.sftp_file_columns().is_none());
    assert!(!store.sftp_file_columns_customized());
}

#[test]
fn styles_have_defaults() {
    let store = ConfigStore::in_memory();

    assert_eq!(store.title_bar_style(), TitleBarStyle::Integrated);
    assert_eq!(store.cursor_style(), CursorStyle::Default);
    assert_eq!(store.locale(), "system");
    assert!(store.follow_system_theme());
}

#[test]
fn minimising_the_files_remembers_their_height() {
    let mut store = ConfigStore::in_memory();

    let change = toggle_sftp_minimized(&mut store, false, Some(number(200.0)), None);
    assert!(change.minimized);
    assert_eq!(change.previous.map(value), Some(200.0));
    assert!(store.sftp_panel_minimized());
    let change = toggle_sftp_minimized(&mut store, true, None, change.previous);
    assert!(!change.minimized);
    assert_eq!(change.restore.map(value), Some(200.0));
    let usual = toggle_sftp_minimized(&mut store, true, None, None);
    assert_eq!(usual.restore.map(value), Some(328.0));
}

#[test]
fn settings_are_kept_as_they_are_set() {
    let mut store = ConfigStore::in_memory();
    store.set_theme_preferences(
        false,
        "dark".to_string(),
        "Light".to_string(),
        "Dark".to_string(),
    );
    store.set_locale("de");
    store.set_ui_font_family("Sans");
    store.set_terminal_font_family("Mono");
    store.set_right_click_copy_paste(true);
    store.set_keyword_highlight(true);
    store.set_title_bar_style(TitleBarStyle::Native);
    store.set_cursor_style(CursorStyle::Beam);
    store.set_use_proxy(true);
    store.set_read_env_proxy(false);
    store.set_global_proxy_type("http".to_string());
    store.set_global_proxy_host("proxy".to_string());
    store.set_global_proxy_port(Some(1));
    store.set_global_proxy_user("user".to_string());
    store.set_global_proxy_password("word".to_string());
    store.set_show_hidden_files(true);
    store.set_lock_layout(true);
    store.set_sidebar_collapsed(true);
    store.set_transfers(vec!["t".to_string()]);
    store.set_sync_connection("https://dav".to_string(), "me".to_string());
    store.replace_sessions(vec![session("a", "A")]);

    assert!(!store.follow_system_theme());
    assert_eq!(store.theme_mode(), "dark");
    assert_eq!(store.light_theme_name(), "Light");
    assert_eq!(store.dark_theme_name(), "Dark");
    assert_eq!(store.locale(), "de");
    assert_eq!(store.ui_font_family(), "Sans");
    assert_eq!(store.terminal_font_family(), "Mono");
    assert!(store.right_click_copy_paste() && store.keyword_highlight());
    assert_eq!(store.title_bar_style(), TitleBarStyle::Native);
    assert_eq!(store.cursor_style(), CursorStyle::Beam);
    assert!(store.use_proxy() && !store.read_env_proxy());
    assert_eq!(store.global_proxy_type(), "http");
    assert_eq!(store.global_proxy_host(), "proxy");
    assert_eq!(store.global_proxy_port(), Some(1));
    assert_eq!(store.global_proxy_user(), "user");
    assert_eq!(store.global_proxy_password(), "word");
    assert!(store.show_hidden_files() && store.lock_layout() && store.sidebar_collapsed());
    assert_eq!(store.transfers(), vec!["t".to_string()]);
    assert_eq!(store.sync_endpoint(), "https://dav");
    assert_eq!(store.sync_username(), "me");
    assert_eq!(store.sessions().len(), 1);
}
