use ashell::config::ConfigStore;
use ashell::number::Float32;
use ashell::panes::PaneLayout;
use ashell::selection::HistorySelection;
use ashell::session::{Session, TextEncoding};
use ashell::sftp::RemoteEntry;
use ashell::text_map::TextSet;
use ashell::workspace::clicking::{on_terminal_click, ClickAction};
use ashell::workspace::files::SavedConnection;
use ashell::workspace::restoring::TabStart;
use ashell::workspace::retrying::RetrySource;
use ashell::workspace::splitting::SplitSource;
use ashell::workspace::transferring::PickerAnswer;
use ashell::workspace::{
    Dialog, Effect, LocalPlace, Monitor, Search, TabKind, Words, Workspace,
};

fn text(value: &str) -> String {
    value.to_string()
}

fn session(id: &str) -> Session {
    let mut session = Session::password(text("host"), 22, text("me"), text("pwd"));
    session.id = text(id);
    session.name = format!("session {id}");
    session
}

fn monitor() -> Monitor {
    Monitor {
        system_tab_id: None,
        snapshot: None,
        system_status: None,
        cpu_history: Vec::new(),
        net_rx_history: Vec::new(),
        net_tx_history: Vec::new(),
        processes: Vec::new(),
        ports: Vec::new(),
        terminating: Vec::new(),
        process_status: None,
        ports_status: None,
        sample_in_flight: false,
        processes_in_flight: false,
        ports_in_flight: false,
        expanded_process_pid: None,
    }
}

fn empty() -> Workspace {
    Workspace {
        tabs: Vec::new(),
        tab_groups: Vec::new(),
        pane_root: PaneLayout::Single(String::new()),
        focused_pane_path: Vec::new(),
        active_tab: None,
        active_group: None,
        sftp_workers: TextSet::new(),
        monitor: monitor(),
        search: Search {
            active: false,
            query: String::new(),
            matches: Vec::new(),
            current: 0,
            target_tab: None,
        },
        show_command_history: false,
        selected_command_history: HistorySelection::new(),
        connection_progress: None,
        pending_sftp_path_sync: None,
        sftp_menu_open: false,
        status: String::new(),
        config: ConfigStore::in_memory(),
        dialog: Dialog::Closed,
        place: LocalPlace { home: Some(text("/home/me")), home_is_directory: true, windows: false },
        words: Words {
            connecting: text("Connecting"),
            starting_connection: text("Starting"),
            sftp_connecting: text("Files"),
            reconnect_pending: text("Later"),
            idle: text("Idle"),
        },
        effects: Vec::new(),
    }
}

fn open_shell(workspace: &mut Workspace, id: &str) {
    workspace.open_local(text(id), format!("group {id}"), Ok(()));
}

fn open_remote(workspace: &mut Workspace, id: &str) {
    workspace.open_ssh_session(text(id), format!("group {id}"), session(&format!("s-{id}")));
    let last = workspace.tabs.len() - 1;
    workspace.tabs[last].connected = true;
}

fn asks(workspace: &Workspace, wanted: &dyn Fn(&Effect) -> bool) -> bool {
    workspace.effects.iter().any(|effect| wanted(effect))
}

#[test]
fn an_opened_shell_is_in_front() {
    let mut workspace = empty();
    assert_eq!(workspace.active_title(), "Idle");
    open_shell(&mut workspace, "a");

    assert_eq!(workspace.active_tab, Some(text("a")));
    assert_eq!(workspace.active_group, Some(text("group a")));
    assert_eq!(workspace.active_kind(), Some(TabKind::Local));
    assert_eq!(workspace.active_title(), "~");
    assert_eq!(workspace.tabs[0].local_cwd, Some(text("/home/me")));
    assert_eq!(workspace.pane_root.tab_ids(), vec!["a"]);
    assert!(asks(&workspace, &|effect| matches!(effect, Effect::ScrollTabs { index: 0 })));
}

#[test]
fn a_shell_that_does_not_start_is_told() {
    let mut workspace = empty();
    workspace.open_local(text("a"), text("g"), Err(text("no shell")));

    assert!(workspace.tabs.is_empty());
    assert_eq!(workspace.status, "failed to open local terminal: no shell");
}

#[test]
fn an_opened_connection_brings_its_files() {
    let mut workspace = empty();
    open_remote(&mut workspace, "a");

    assert_eq!(workspace.active_kind(), Some(TabKind::Ssh));
    assert_eq!(workspace.tab_groups[0].sftp_tab_id, Some(text("a")));
    assert_eq!(workspace.tab_groups[0].sftp.as_ref().unwrap().status, "Files");
    let progress = workspace.connection_progress.as_ref().unwrap();
    assert_eq!(progress.title, "Connecting");
    assert_eq!(progress.lines, vec!["Starting"]);
    assert_eq!(workspace.active_ssh_session().unwrap().1.id, "s-a");
    assert_eq!(workspace.active_session_id(), Some(text("s-a")));
}

#[test]
fn a_serial_connection_has_no_files() {
    let mut workspace = empty();
    workspace.open_serial_session(text("a"), text("g"), Session::serial(text("/dev/ttyS0"), 9600));

    assert_eq!(workspace.active_kind(), Some(TabKind::Serial));
    assert!(workspace.tab_groups[0].sftp.is_none());
}

#[test]
fn choosing_a_tab_brings_its_group() {
    let mut workspace = empty();
    open_shell(&mut workspace, "a");
    open_shell(&mut workspace, "b");
    workspace.activate_tab("a");
    assert_eq!(workspace.active_group, Some(text("group a")));
    assert!(asks(&workspace, &|effect| matches!(effect, Effect::PromptReconnect)));
    workspace.activate_group("group b");
    assert_eq!(workspace.active_tab, Some(text("b")));
    workspace.activate_group("nowhere");
    assert_eq!(workspace.active_tab, Some(text("b")));
}

#[test]
fn a_split_pane_is_in_front() {
    let mut workspace = empty();
    open_shell(&mut workspace, "a");
    assert!(matches!(
        workspace.split_plan(),
        SplitSource::Local { cwd: Some(cwd) } if cwd == "/home/me"
    ));
    workspace.split_current_pane("right", text("b"), None);

    assert_eq!(workspace.pane_root.tab_ids(), vec!["a", "b"]);
    assert_eq!(workspace.tab_groups[0].pane_root.tab_ids(), vec!["a", "b"]);
    assert_eq!(workspace.active_tab, Some(text("b")));
    assert_eq!(workspace.focused_pane_path, vec![1]);
    assert_eq!(workspace.status, "pane split");
    workspace.focus_adjacent_pane("left");
    assert_eq!(workspace.active_tab, Some(text("a")));
    workspace.focus_adjacent_pane("up");
    assert_eq!(workspace.active_tab, Some(text("a")));
}

#[test]
fn the_pane_in_front_can_always_be_left() {
    let ways = |workspace: &Workspace| {
        ["left", "right", "up", "down"].iter().all(|way| {
            workspace.pane_root.can_find_adjacent_pane(&workspace.focused_pane_path, way)
        })
    };
    let mut workspace = empty();
    assert!(ways(&workspace));
    open_shell(&mut workspace, "a");
    workspace.split_current_pane("right", text("b"), None);
    workspace.split_current_pane("down", text("c"), None);
    assert!(ways(&workspace));
    workspace.handle_tab_close("b");
    assert_eq!(workspace.active_tab, Some(text("c")));
    assert_eq!(workspace.focused_pane_path, vec![1]);
    assert!(ways(&workspace));
    open_shell(&mut workspace, "d");
    workspace.activate_tab("a");
    assert_eq!(workspace.focused_pane_path, vec![0]);
    workspace.handle_tab_close("a");
    assert_eq!(workspace.active_tab, Some(text("c")));
    assert!(ways(&workspace));
}

#[test]
fn a_split_is_resized() {
    let mut workspace = empty();
    open_shell(&mut workspace, "a");
    workspace.split_current_pane("down", text("b"), None);
    workspace.resize_split(&[], Float32 { bits: 0.25f32.to_bits() });

    let ratio = workspace.tab_groups[0].pane_root.split_ratio_at(&[]).unwrap();
    assert_eq!(f32::from_bits(ratio.bits), 0.25);
}

#[test]
fn nothing_is_split_where_nothing_is_open() {
    assert!(matches!(empty().split_plan(), SplitSource::Nothing));
}

#[test]
fn closing_a_pane_shows_the_one_next_to_it() {
    let mut workspace = empty();
    open_shell(&mut workspace, "a");
    workspace.split_current_pane("right", text("b"), None);
    workspace.handle_tab_close("b");

    assert_eq!(workspace.active_tab, Some(text("a")));
    assert_eq!(workspace.pane_root.tab_ids(), vec!["a"]);
    assert_eq!(workspace.tabs.len(), 1);
    assert!(asks(
        &workspace,
        &|effect| matches!(effect, Effect::CloseBackend { tab_id } if tab_id == "b")
    ));
}

#[test]
fn closing_the_last_tab_leaves_nothing() {
    let mut workspace = empty();
    open_shell(&mut workspace, "a");
    workspace.handle_tab_close("a");

    assert!(workspace.tabs.is_empty());
    assert!(workspace.tab_groups.is_empty());
    assert_eq!(workspace.active_tab, None);
    assert_eq!(workspace.active_group, None);
    assert!(asks(&workspace, &|effect| matches!(effect, Effect::CloseAllSftp)));
}

#[test]
fn closing_a_group_shows_the_one_before_it() {
    let mut workspace = empty();
    open_shell(&mut workspace, "a");
    open_shell(&mut workspace, "b");
    open_shell(&mut workspace, "c");
    workspace.activate_tab("b");
    workspace.handle_tab_close("b");

    assert_eq!(workspace.active_tab, Some(text("a")));
    assert_eq!(workspace.tab_groups.len(), 2);
}

#[test]
fn files_follow_the_tab_in_front() {
    let mut workspace = empty();
    open_remote(&mut workspace, "a");
    workspace.restart_active_sftp();
    assert!(workspace.sftp_workers.contains("group a"));
    assert!(asks(
        &workspace,
        &|effect| matches!(effect, Effect::StartSftp { tab_id, .. } if tab_id == "a")
    ));
    workspace.effects.clear();
    workspace.sync_sftp_to_active_tab();
    assert!(workspace.effects.is_empty());
    workspace.tabs[0].connected = false;
    workspace.tab_groups[0].sftp_tab_id = Some(text("other"));
    workspace.sync_sftp_to_active_tab();
    assert!(workspace.tab_groups[0].sftp.is_none());
    assert!(!workspace.sftp_workers.contains("group a"));
}

#[test]
fn the_watched_machine_follows_the_tab_in_front() {
    let mut workspace = empty();
    open_remote(&mut workspace, "a");
    workspace.sync_system_tab_to_active_group();
    assert_eq!(workspace.monitor.system_tab_id, Some(text("a")));
    assert!(asks(&workspace, &|effect| matches!(effect, Effect::RequestSystem)));
    workspace.effects.clear();
    workspace.sync_system_tab_to_active_group();
    assert!(workspace.effects.is_empty());
}

#[test]
fn a_directory_that_a_shell_reports_titles_its_tab() {
    let mut workspace = empty();
    open_shell(&mut workspace, "a");
    workspace.apply_local_directory_change("a", text("/home/me/src"));

    assert_eq!(workspace.tabs[0].local_cwd, Some(text("/home/me/src")));
    assert_eq!(workspace.tabs[0].title, "~/src");
    assert_eq!(workspace.tab_groups[0].title, "~/src");
}

#[test]
fn a_lost_connection_is_made_again() {
    let mut workspace = empty();
    open_remote(&mut workspace, "a");
    assert!(matches!(workspace.retry_plan("a"), RetrySource::Nothing));
    workspace.tabs[0].connected = false;
    workspace.tabs[0].disconnected_reason = Some(text("gone"));
    assert!(matches!(
        workspace.retry_plan("a"),
        RetrySource::Session { kind: TabKind::Ssh, .. }
    ));
    workspace.effects.clear();
    assert!(matches!(
        workspace.begin_retry("a"),
        RetrySource::Session { kind: TabKind::Ssh, .. }
    ));
    assert_eq!(workspace.effects.len(), 1);
    assert!(matches!(&workspace.effects[0], Effect::CloseBackend { tab_id } if tab_id == "a"));
    workspace.effects.clear();
    workspace.retry_disconnected_tab("a", None);
    assert!(!workspace
        .effects
        .iter()
        .any(|effect| matches!(effect, Effect::CloseBackend { .. })));
    workspace.effects.clear();
    assert!(matches!(workspace.begin_retry("a"), RetrySource::Nothing));
    assert!(workspace.effects.is_empty());

    assert_eq!(workspace.tabs[0].status, "connecting");
    assert_eq!(workspace.tabs[0].disconnected_reason, None);
    assert_eq!(workspace.status, "ssh tab retrying");
}

#[test]
fn a_closed_shell_is_opened_again() {
    let mut workspace = empty();
    open_shell(&mut workspace, "a");
    workspace.tabs[0].connected = false;
    workspace.tabs[0].disconnected_reason = Some(text("exited"));
    workspace.retry_disconnected_tab("a", Some(text("no shell")));
    assert_eq!(workspace.status, "failed to reopen local terminal: no shell");
    workspace.retry_disconnected_tab("a", None);
    assert!(workspace.tabs[0].connected);
    assert_eq!(workspace.status, "local tab reopened");
}

#[test]
fn noted_tabs_come_back() {
    let mut workspace = empty();
    workspace.config.set_remember_tabs(true);
    open_shell(&mut workspace, "a");
    workspace.split_current_pane("right", text("b"), None);
    open_remote(&mut workspace, "c");
    workspace.capture_tabs_state();
    let noted = workspace.config.saved_tabs().unwrap().clone();
    assert_eq!(noted.groups.len(), 2);

    let mut again = empty();
    again.config.set_remember_tabs(true);
    again.config.set_saved_tabs(Some(noted));
    let runs = TabStart { spawned: true, directory_there: true };
    again.restore_saved_tabs(&vec![vec![runs, runs], vec![runs]]);

    assert_eq!(again.tabs.len(), 3);
    assert_eq!(again.tab_groups.len(), 2);
    assert_eq!(again.tab_groups[0].pane_root.tab_ids(), vec!["a", "b"]);
    assert_eq!(again.active_tab, Some(text("c")));
    assert_eq!(again.tabs[2].status, "Later");
}

#[test]
fn a_shell_that_does_not_come_back_is_left_out() {
    let mut workspace = empty();
    workspace.config.set_remember_tabs(true);
    open_shell(&mut workspace, "a");
    workspace.split_current_pane("right", text("b"), None);
    workspace.capture_tabs_state();
    let noted = workspace.config.saved_tabs().unwrap().clone();
    let mut again = empty();
    again.config.set_remember_tabs(true);
    again.config.set_saved_tabs(Some(noted));
    let runs = TabStart { spawned: true, directory_there: true };
    let fails = TabStart { spawned: false, directory_there: true };
    again.restore_saved_tabs(&vec![vec![fails, runs]]);

    assert_eq!(again.tabs.len(), 1);
    assert_eq!(again.tab_groups[0].pane_root.tab_ids(), vec!["b"]);
}

#[test]
fn tabs_are_noted_only_where_they_are_remembered() {
    let mut workspace = empty();
    open_shell(&mut workspace, "a");
    workspace.save_tabs_state_background();
    assert!(workspace.config.saved_tabs().is_none());
    workspace.config.set_remember_tabs(true);
    workspace.save_tabs_state_background();
    assert!(workspace.config.saved_tabs().is_some());
    assert!(asks(&workspace, &|effect| matches!(effect, Effect::SavePreferences)));
}

fn with_files() -> Workspace {
    let mut workspace = empty();
    open_remote(&mut workspace, "a");
    workspace.restart_active_sftp();
    workspace.effects.clear();
    let files = workspace.tab_groups[0].sftp.as_mut().unwrap();
    files.current_path = text("/home");
    files.directory_cache.insert(
        text("/home"),
        vec![RemoteEntry {
            name: text("a"),
            full_path: text("/home/a"),
            is_dir: false,
            size: 1,
            modified: String::new(),
        }],
    );
    workspace
}

fn files_of(workspace: &Workspace) -> &ashell::sftp::SftpUiState {
    workspace.tab_groups[0].sftp.as_ref().unwrap()
}

#[test]
fn remote_directories_are_asked_for() {
    let mut workspace = with_files();
    workspace.navigate_sftp("/etc", &vec![text("/"), text("/etc")]);

    assert_eq!(files_of(&workspace).current_path, "/etc");
    let listed: Vec<&Effect> = workspace
        .effects
        .iter()
        .filter(|effect| matches!(effect, Effect::ListDirectory { .. }))
        .collect();
    assert_eq!(listed.len(), 2);
    workspace.toggle_sftp_tree_directory("/var");
    assert!(files_of(&workspace).expanded_directories.contains("/var"));
    workspace.reveal_current_sftp_directory(&vec![text("/"), text("/etc")]);
    assert!(files_of(&workspace).expanded_directories.contains("/etc"));
}

#[test]
fn chosen_files_are_downloaded() {
    let mut workspace = with_files();
    assert_eq!(workspace.selected_downloads(), None);
    workspace.toggle_sftp_entry(text("/home/a"), true);
    assert_eq!(workspace.selected_downloads(), Some(vec![text("/home/a")]));
    workspace.toggle_all_sftp_entries(false);
    assert_eq!(workspace.selected_downloads(), None);
    workspace.select_sftp_entry("/home/a", false, &vec![text("/")]);
    assert_eq!(files_of(&workspace).selected_path, Some(text("/home/a")));
}

#[test]
fn files_are_brought_to_the_current_directory() {
    let mut workspace = with_files();

    assert!(workspace.upload_sftp_files_batch(vec![text("x")]));
    assert!(asks(
        &workspace,
        &|effect| matches!(effect, Effect::Upload { directory, .. } if directory == "/home")
    ));
    assert!(!empty().upload_sftp_files_batch(vec![text("x")]));
}

#[test]
fn saved_connections_are_found_again() {
    let mut workspace = empty();
    workspace.config.upsert(session("one"));
    let mut serial = Session::serial(text("/dev/ttyS0"), 9600);
    serial.id = text("two");
    workspace.config.upsert(serial);

    assert!(matches!(
        workspace.connect_saved_session("one"),
        SavedConnection::Ssh { session } if session.id == "one"
    ));
    assert!(matches!(
        workspace.connect_saved_session("two"),
        SavedConnection::Serial { session } if session.id == "two"
    ));
    assert!(matches!(workspace.connect_saved_session("three"), SavedConnection::Missing));
}

fn gbk() -> TextEncoding {
    TextEncoding::Named(text("gbk"))
}

fn is_gbk(encoding: &TextEncoding) -> bool {
    matches!(encoding, TextEncoding::Named(name) if name == "gbk")
}

#[test]
fn an_encoding_is_kept_with_the_session() {
    let mut workspace = empty();
    workspace.config.upsert(session("s-a"));
    open_remote(&mut workspace, "a");
    let changed = workspace.set_terminal_encoding("a", gbk(), text("GBK"));

    assert!(changed);
    assert!(is_gbk(&workspace.tabs[0].encoding));
    assert_eq!(workspace.status, "GBK");
    assert!(is_gbk(&workspace.config.get("s-a").unwrap().terminal_encoding));
    assert!(!workspace.set_terminal_encoding("b", gbk(), text("GBK")));
}

#[test]
fn commands_are_listed_for_connections_alone() {
    let mut workspace = empty();
    open_shell(&mut workspace, "a");
    assert!(!workspace.set_command_history_open(true));
    assert!(!workspace.show_command_history);
    open_remote(&mut workspace, "b");
    assert!(workspace.set_command_history_open(true));
    assert!(workspace.show_command_history);
    workspace.activate_tab("a");
    assert!(!workspace.show_command_history);
}

#[test]
fn going_to_another_pane_drops_the_search() {
    let mut workspace = empty();
    open_shell(&mut workspace, "a");
    workspace.split_current_pane("right", text("b"), None);
    workspace.search.active = true;
    workspace.search.query = text("x");
    workspace.focus_pane_with_id("a");

    assert_eq!(workspace.active_tab, Some(text("a")));
    assert!(workspace.search.active);
    assert_eq!(workspace.search.query, "");
}

#[test]
fn a_refresh_asks_for_the_current_directory() {
    let mut workspace = with_files();
    workspace.mark_sftp_entry_selected("/home/a");
    assert_eq!(files_of(&workspace).selected_path, Some(text("/home/a")));
    workspace.refresh_sftp(&vec![text("/home")]);
    assert_eq!(files_of(&workspace).selected_path, None);
    assert!(asks(
        &workspace,
        &|effect| matches!(effect, Effect::ListDirectory { path, .. } if path == "/home")
    ));
}

#[test]
fn picked_paths_are_transferred() {
    let mut workspace = with_files();
    let place = workspace.transfer_place().unwrap();
    assert_eq!(place.group_id, "group a");
    assert_eq!(place.directory, "/home");
    assert!(workspace.upload_sftp_files(place, PickerAnswer::Chosen(vec![text("x"), text("y")])));
    assert!(asks(
        &workspace,
        &|effect| matches!(effect, Effect::Upload { paths, .. } if paths == &vec![text("y")])
    ));
    let place = workspace.transfer_place().unwrap();
    assert!(!workspace.upload_sftp_folder(place, PickerAnswer::Failed(text("no dialog"))));
    assert_eq!(workspace.status, "upload picker failed: no dialog");
    assert!(workspace.download_sftp_entry(
        "group a",
        "/home/a",
        PickerAnswer::Chosen(vec![text("/tmp")])
    ));
    assert!(asks(
        &workspace,
        &|effect| matches!(effect, Effect::Download { remote, directory, .. }
            if remote == "/home/a" && directory == "/tmp")
    ));
    assert!(!workspace.download_sftp_entry("group a", "/home/a", PickerAnswer::Cancelled));
    assert!(empty().transfer_place().is_none());
}

#[test]
fn a_batch_is_downloaded_in_order() {
    let mut workspace = with_files();
    workspace.toggle_sftp_entry(text("/home/a"), true);
    let remotes = vec![text("/home/a"), text("/home/b")];
    let answer = PickerAnswer::Chosen(vec![text("/tmp")]);
    assert!(workspace.download_selected_sftp_entries("group a", &remotes, answer));

    let asked: Vec<&str> = workspace
        .effects
        .iter()
        .filter_map(|effect| match effect {
            Effect::Download { remote, .. } => Some(remote.as_str()),
            _ => None,
        })
        .collect();
    assert_eq!(asked, vec!["/home/a", "/home/b"]);
    assert!(files_of(&workspace).selected_entries.is_empty());
}

#[test]
fn a_click_brings_its_pane_forward() {
    let mut workspace = empty();
    open_shell(&mut workspace, "a");
    workspace.split_current_pane("right", text("b"), None);
    workspace.search.active = true;
    assert!(!workspace.focus_terminal(true, &Some(text("a"))));
    assert_eq!(workspace.active_tab, Some(text("b")));
    assert!(workspace.focus_terminal(false, &Some(text("a"))));
    assert_eq!(workspace.active_tab, Some(text("a")));
    assert!(workspace.focus_terminal(false, &None));
}

#[test]
fn a_click_opens_copies_or_selects() {
    let link = Some(text("https://example.com"));
    assert!(matches!(
        on_terminal_click(true, true, link.clone(), true, None),
        ClickAction::OpenUrl(url) if url == "https://example.com"
    ));
    assert!(matches!(
        on_terminal_click(true, false, link, true, Some(text("word"))),
        ClickAction::Select { copied: Some(copied) } if copied == "word"
    ));
    assert!(matches!(
        on_terminal_click(true, true, None, false, Some(text("word"))),
        ClickAction::Select { copied: None }
    ));
    assert!(matches!(on_terminal_click(false, true, None, true, None), ClickAction::Nothing));
}
