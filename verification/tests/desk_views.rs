use ashell::config::ConfigStore;
use ashell::panes::PaneLayout;
use ashell::saved::TitleBarStyle;
use ashell::selection::HistorySelection;
use ashell::session::{Session, TextEncoding};
use ashell::text_map::TextSet;
use ashell::number::Float32;
use ashell::views::monitoring::{
    render_monitoring_panel, render_sidebar_monitoring_panel, MonitorState,
};
use ashell::views::pane_plan::{render_pane_tree, PaneDrawing, Share};
use ashell::views::tab_bar::{tab_group_display_name, EntrySign};
use ashell::workspace::{
    Dialog, LocalPlace, Monitor, Search, Tab, TabGroup, TabKind, Words, Workspace,
};

fn text(value: &str) -> String {
    value.to_string()
}

fn session(id: &str) -> Session {
    let mut session = Session::password(text("host"), 22, text("me"), text("pwd"));
    session.id = text(id);
    session.name = text("Server");
    session
}

fn empty() -> Workspace {
    Workspace {
        tabs: Vec::new(),
        tab_groups: Vec::new(),
        pane_root: PaneLayout::Single(String::new()),
        focused_pane_path: Vec::new(),
        active_tab: None,
        active_group: None,
        sftp_workers: TextSet::new(),
        monitor: Monitor {
            system_tab_id: None,
            snapshot: None,
            system_status: None,
            cpu_history: Vec::new(),
            net_rx_history: Vec::new(),
            net_tx_history: Vec::new(),
            processes: Vec::new(),
            ports: Vec::new(),
            terminating: Vec::new(),
            process_status: None,
            ports_status: None,
            sample_in_flight: false,
            processes_in_flight: false,
            ports_in_flight: false,
            expanded_process_pid: None,
        },
        search: Search {
            active: false,
            query: String::new(),
            matches: Vec::new(),
            current: 0,
            target_tab: None,
        },
        show_command_history: false,
        selected_command_history: HistorySelection::new(),
        connection_progress: None,
        pending_sftp_path_sync: None,
        sftp_menu_open: false,
        status: String::new(),
        config: ConfigStore::in_memory(),
        dialog: Dialog::Closed,
        place: LocalPlace { home: None, home_is_directory: false, windows: false },
        words: Words {
            connecting: text("Connecting"),
            starting_connection: text("Starting"),
            sftp_connecting: text("Files"),
            reconnect_pending: text("Later"),
            idle: text("Idle"),
        },
        effects: Vec::new(),
    }
}

/// A shell, and a connection in front.
fn two_tabs() -> Workspace {
    let mut workspace = empty();
    workspace.open_local(text("a"), text("ga"), Ok(()));
    workspace.open_ssh_session(text("b"), text("gb"), session("s"));
    workspace.tabs[1].connected = true;
    workspace
}

#[test]
fn the_tab_bar_has_an_entry_for_each_group() {
    let workspace = two_tabs();
    let mut unread = TextSet::new();
    let busy = TextSet::new();
    let entries = workspace.render_tab_bar(&unread, &busy, "Local");

    assert_eq!(entries.len(), 2);
    assert_eq!(workspace.selected_tab_entry(), 1);
    assert!(!entries[0].selected && entries[1].selected);
    assert_eq!(entries[1].group_id, "gb");
    assert_eq!(entries[1].sign, EntrySign::Dot { connected: true });
    assert_eq!(entries[1].close_tab, Some(text("b")));
    unread.insert(text("a"));
    let marked = workspace.render_tab_bar(&unread, &busy, "Local");
    assert_eq!(marked[0].sign, EntrySign::Unread);
    let mut writing = TextSet::new();
    writing.insert(text("a"));
    writing.insert(text("b"));
    let moving = workspace.render_tab_bar(&TextSet::new(), &writing, "Local");
    assert_eq!(moving[0].sign, EntrySign::Busy);
    assert_eq!(moving[1].sign, EntrySign::Dot { connected: true });
}

#[test]
fn a_group_is_named_by_its_first_tab() {
    let workspace = two_tabs();

    assert_eq!(
        tab_group_display_name(&workspace, &workspace.tab_groups[1], "Local"),
        "Server"
    );
}

#[test]
fn the_window_follows_the_tab_in_front() {
    let mut workspace = two_tabs();
    let plan = workspace.render("Bottom", false, TitleBarStyle::Integrated);
    assert!(plan.shows_files && plan.ssh_connected && plan.interactive);
    assert!(plan.monitor_below && plan.shows_sidebar && plan.tabs_in_title_bar);
    workspace.active_tab = Some(text("gone"));
    let repaired = workspace.render("Sidebar", true, TitleBarStyle::Native);
    assert_eq!(workspace.active_tab, Some(text("a")));
    assert!(!repaired.shows_files && !repaired.monitor_below);
    assert!(!repaired.shows_sidebar && !repaired.tabs_in_title_bar);
}

#[test]
fn the_monitor_tells_the_state_of_the_connection() {
    let mut workspace = two_tabs();
    let head = render_sidebar_monitoring_panel(&workspace, true);
    assert_eq!(head.connection, Some((text("Server"), text("me@host:22"))));
    assert_eq!(head.state, MonitorState::Live);
    assert_eq!(render_sidebar_monitoring_panel(&workspace, false).state, MonitorState::Lost);
    workspace.activate_tab("a");
    assert_eq!(render_sidebar_monitoring_panel(&workspace, false).state, MonitorState::Idle);
}

#[test]
fn panes_are_drawn_with_their_shares() {
    let mut workspace = two_tabs();
    workspace.split_current_pane("right", text("c"), None);
    let root = workspace.pane_root.clone();
    let drawing = render_pane_tree(&workspace, &root, &Vec::new());
    let parts = match drawing {
        PaneDrawing::Split { beside: true, path, parts } => {
            assert!(path.is_empty());
            parts
        }
        _ => panic!("the panes stand beside each other"),
    };
    assert_eq!(parts.len(), 2);
    assert!(matches!(parts[0].0, Share::First(_)));
    assert!(matches!(parts[1].0, Share::Rest(_)));
    assert!(matches!(
        &parts[0].1,
        PaneDrawing::Terminal { tab_id, focused: false, framed: true, .. } if tab_id == "b"
    ));
    assert!(matches!(
        &parts[1].1,
        PaneDrawing::Terminal { tab_id, focused: true, .. } if tab_id == "c"
    ));
}

#[test]
fn no_tab_means_the_home_page() {
    let workspace = empty();
    let drawing = render_pane_tree(&workspace, &PaneLayout::Single(String::new()), &Vec::new());

    assert!(matches!(drawing, PaneDrawing::Home));
}

#[test]
fn commands_of_the_connection_in_front_come_first() {
    let mut workspace = two_tabs();
    workspace.config.add_command_history("other", text("ls"));
    workspace.config.add_command_history("s", text("pwd"));
    let popover = workspace.render_command_history_popover_content("").unwrap();

    assert_eq!(popover.rows[0].2, "pwd");
    assert_eq!(popover.rows[1].2, "ls");
    assert_eq!(popover.total, 2);
    workspace.activate_tab("a");
    assert!(workspace.render_command_history_popover_content("").is_none());
}

#[test]
fn tabs_can_be_built_by_hand() {
    let local = Tab::new_local(text("x"), text("Title"), None, TextEncoding::Utf8);
    assert!(local.connected);
    assert_eq!(local.status, "local shell");
    let remote = Tab::new_remote(TabKind::Ssh, text("y"), &session("s"));
    assert!(!remote.connected);
    assert_eq!(remote.title, "Server");
    let group = TabGroup {
        id: text("g"),
        title: text("Title"),
        pane_root: PaneLayout::Single(text("x")),
        sftp: None,
        sftp_tab_id: None,
    };
    assert!(group.pane_root.contains("x"));
}

#[test]
fn remote_files_are_shown_for_connections() {
    let mut workspace = two_tabs();
    let panel = workspace.render_sftp_panel(false, true);
    assert!(panel.shows_tools && panel.shows_menu && !panel.minimized);
    assert!(panel.files.unwrap().rows.is_empty());
    workspace.activate_tab("a");
    let none = workspace.render_sftp_panel(true, true);
    assert!(!none.shows_tools && !none.shows_menu && none.minimized);
    assert!(none.files.is_none());
}

#[test]
fn lines_need_two_samples() {
    let mut workspace = two_tabs();
    let width = Float32 { bits: 1000f32.to_bits() };
    let first = render_monitoring_panel(&workspace.monitor, width);
    assert!(!first.draws_load && !first.draws_traffic && !first.shows_swap);
    workspace.monitor.cpu_history = vec![width, width];
    workspace.monitor.net_rx_history = vec![1, 2];
    assert!(render_monitoring_panel(&workspace.monitor, width).draws_load);
    assert!(!render_monitoring_panel(&workspace.monitor, width).draws_traffic);
}

#[test]
fn the_terminal_panel_shows_the_search_bar() {
    let mut workspace = two_tabs();
    workspace.search.active = true;
    let panel = workspace.render_terminal_panel();
    assert!(panel.search_bar);
    assert!(matches!(panel.drawing, PaneDrawing::Terminal { framed: false, .. }));
    assert!(matches!(empty().render_terminal_panel().drawing, PaneDrawing::Home));
}

#[test]
fn the_encoding_of_a_connection_can_be_chosen() {
    let mut workspace = two_tabs();
    let (id, encoding) = workspace.render_terminal_encoding_button().unwrap();
    assert_eq!(id, "b");
    assert!(matches!(encoding, TextEncoding::Utf8));
    workspace.activate_tab("a");
    assert!(workspace.render_terminal_encoding_button().is_none());
}
