use ashell::config::ConfigStore;
use ashell::number::Float32;
use ashell::selection::HistorySelection;
use ashell::session::Session;
use ashell::sftp::{connecting_sftp_state, ListState, RemoteEntry};
use ashell::snapshot::DiskSample;
use ashell::system::{RemotePort, RemoteProcess};
use ashell::text_map::TextSet;
use ashell::views::connections::{
    connection_group_sections, connection_matches_filter, render_connection_group_section,
    render_connection_row, ConnectionGroupSection, SelectionState,
};
use ashell::views::history_list::{command_history_popover, NoCommands};
use ashell::views::monitoring::{
    disk_totals, load_band, monitoring_cards, on_card_click, Card, CardAction, LoadBand,
};
use ashell::views::ports::{port_matches_filter, render_remote_port_list};
use ashell::views::processes::{
    process_copy_text, process_matches_filter, render_remote_process_list,
    toggle_process_expanded, CpuText, EmptyList, ProcessWords, ServerMonitorView,
};
use ashell::views::sftp_panel::{
    file_columns, list_files, render_tree_row, sftp_context_menu, tree_panel_width,
    tree_toggle_hint, FileAction, ToggleHint,
};
use ashell::views::sidebar::{connections_sidebar, sidebar, NoConnections};
use ashell::views::tab_bar::compact_menu_width;
use ashell::views::window::{
    ensure_tab_visible_after_layout, files_panel_height, next_tab_scroll, render_window_controls,
    scroll_step, sidebar_width, ScrollStep, SidebarKeeper, TabScroll,
};
use ashell::views::{filter_of, line_passes};

fn text(value: &str) -> String {
    value.to_string()
}

fn texts(values: &[&str]) -> Vec<String> {
    values.iter().map(|value| value.to_string()).collect()
}

fn number(value: f32) -> Float32 {
    Float32 { bits: value.to_bits() }
}

fn session(id: &str, name: &str) -> Session {
    let mut session = Session::password(text("host"), 22, text("me"), text("pwd"));
    session.id = text(id);
    session.name = text(name);
    session
}

fn process(pid: u32, user: &str, command: &str) -> RemoteProcess {
    RemoteProcess {
        pid,
        user: text(user),
        cpu_percent: number(1.5),
        memory_bytes: 2048,
        command: text(command),
    }
}

fn cpu() -> CpuText {
    CpuText { short: text("1.5"), long: text("1.50") }
}

#[test]
fn filters_disregard_case_and_blanks() {
    assert_eq!(filter_of("  \u{c4}b "), "\u{e4}b");
    assert!(line_passes("some line", "me li"));
    assert!(line_passes("some line", ""));
    assert!(!line_passes("some line", "other"));
}

#[test]
fn processes_pass_by_any_of_their_fields() {
    let worker = process(42, "Alice", "worker --queue");

    assert!(process_matches_filter(&worker, "1.5", "alice"));
    assert!(process_matches_filter(&worker, "1.5", "42"));
    assert!(process_matches_filter(&worker, "1.5", "queue"));
    assert!(process_matches_filter(&worker, "1.5", ""));
    assert!(!process_matches_filter(&worker, "1.5", "bob"));
}

#[test]
fn processes_are_listed() {
    let processes = vec![process(1, "root", "init"), process(42, "alice", "worker")];
    let list = render_remote_process_list(
        &processes,
        &vec![cpu(), cpu()],
        "",
        ServerMonitorView::Cpu,
        Some(42),
        &vec![42],
        false,
    );

    assert_eq!(list.rows.len(), 2);
    assert_eq!(list.message, None);
    assert!(!list.rows[0].can_terminate);
    assert!(!list.rows[1].can_terminate);
    assert!(list.rows[1].expanded);
    assert_eq!(list.rows[0].metric, "1.5%");
    let memory = render_remote_process_list(
        &processes,
        &vec![cpu(), cpu()],
        "worker",
        ServerMonitorView::Memory,
        None,
        &Vec::new(),
        false,
    );
    assert_eq!(memory.rows.len(), 1);
    assert_eq!(memory.rows[0].pid, 42);
    assert_eq!(memory.rows[0].metric, "2.0 KB");
    assert!(memory.rows[0].can_terminate);
}

#[test]
fn an_empty_list_of_processes_says_why() {
    let none = render_remote_process_list(
        &Vec::new(),
        &Vec::new(),
        "",
        ServerMonitorView::Cpu,
        None,
        &Vec::new(),
        false,
    );
    assert_eq!(none.message, Some(EmptyList::Nothing));
    let unmatched = render_remote_process_list(
        &vec![process(1, "root", "init")],
        &vec![cpu()],
        "bob",
        ServerMonitorView::Cpu,
        None,
        &Vec::new(),
        false,
    );
    assert_eq!(unmatched.message, Some(EmptyList::NothingMatches));
}

#[test]
fn a_process_is_copied_with_its_labels() {
    let words = ProcessWords {
        pid: text("PID"),
        user: text("User"),
        cpu: text("CPU"),
        memory: text("Memory"),
        command: text("Command"),
    };

    assert_eq!(
        process_copy_text(&words, &process(42, "alice", "worker"), &cpu()),
        "PID: 42\nUser: alice\nCPU: 1.50%\nMemory: 2.0 KB\nCommand: worker"
    );
    assert_eq!(toggle_process_expanded(None, 7), Some(7));
    assert_eq!(toggle_process_expanded(Some(7), 7), None);
    assert_eq!(toggle_process_expanded(Some(8), 7), Some(7));
}

#[test]
fn ports_are_listed() {
    let ssh = RemotePort {
        protocol: text("tcp"),
        address: text("0.0.0.0"),
        port: 22,
        state: text("LISTEN"),
        pid: Some(123),
        process: text("sshd"),
    };
    assert!(port_matches_filter(&ssh, "sshd"));
    assert!(port_matches_filter(&ssh, "listen"));
    assert!(!port_matches_filter(&ssh, "nginx"));
    let ports = vec![ssh];
    let list = render_remote_port_list(&ports, " SSHD ", false);
    assert_eq!(list.rows.len(), 1);
    assert_eq!(list.rows[0].place, 0);
    let unmatched = render_remote_port_list(&ports, "nginx", false);
    assert_eq!(unmatched.message, Some(EmptyList::NothingMatches));
}

#[test]
fn connections_are_grouped() {
    let sessions = vec![session("a", "Alpha"), session("b", "Beta"), session("c", "Gamma")];
    let groups = texts(&["work", "", "work"]);
    let sections =
        connection_group_sections(&sessions, &groups, &texts(&["work", "home"]), "", "Ungrouped");
    let listed: Vec<usize> =
        sections.iter().flat_map(|section| section.members.iter().copied()).collect();

    assert_eq!(listed.len(), 3);
    let work = sections.iter().find(|section| section.name == "work").unwrap();
    assert_eq!(work.members, vec![0, 2]);
    let found =
        connection_group_sections(&sessions, &groups, &texts(&["work", "home"]), "beta", "Ungrouped");
    assert_eq!(found.len(), 1);
    assert_eq!(found[0].members, vec![1]);
    assert!(connection_matches_filter(&sessions[0], "work", "alpha"));
    assert!(connection_matches_filter(&sessions[0], "work", "work"));
    assert!(!connection_matches_filter(&sessions[0], "work", "beta"));
}

#[test]
fn a_section_tells_how_much_of_it_is_chosen() {
    let sessions = vec![session("a", "Alpha"), session("b", "Beta")];
    let section = ConnectionGroupSection { name: text("work"), members: vec![0, 1] };
    let mut chosen = TextSet::new();
    chosen.insert(text("a"));
    let head = render_connection_group_section(
        &section, &sessions, &chosen, true, false, true, "Ungrouped",
    );

    assert_eq!(head.title, "work");
    assert_eq!(head.count, 2);
    assert_eq!(head.selection, SelectionState::Partly);
    assert!(head.collapsed);
    assert_eq!(SelectionState::from_counts(0, 2), SelectionState::Nothing);
    assert_eq!(SelectionState::from_counts(2, 2), SelectionState::All);
    let row = render_connection_row(&sessions[0], &Some(text("a")), true, &chosen);
    assert!(row.active && row.selected);
    assert_eq!(row.detail, "me@host:22");
}

#[test]
fn the_sidebar_counts_connections() {
    let sessions = vec![session("a", "Alpha"), session("b", "Beta")];
    let sections = vec![ConnectionGroupSection { name: text("work"), members: vec![1, 0] }];
    let mut chosen = TextSet::new();
    chosen.insert(text("a"));
    let plan = sidebar(&sessions, &sections, &chosen, true, "", "Sidebar");
    assert_eq!(plan.visible, vec![1, 0]);
    assert_eq!(plan.selected, 1);
    assert_eq!(plan.total, 2);
    assert!(!plan.all_selected);
    let none = sidebar(&[], &Vec::new(), &TextSet::new(), false, "", "Sidebar");
    assert_eq!(none.message, Some(NoConnections::Saved));
    let unmatched = sidebar(&sessions, &Vec::new(), &chosen, false, "x", "Sidebar");
    assert_eq!(unmatched.message, Some(NoConnections::Matching));
}

#[test]
fn the_filter_field_decides_what_the_sidebar_lists() {
    let sessions = vec![session("a", "Alpha"), session("b", "Beta"), session("c", "Gamma")];
    let groups = texts(&["work", "", "work"]);
    let mut chosen = TextSet::new();
    chosen.insert(text("b"));
    let (sections, plan) = connections_sidebar(
        &sessions,
        &groups,
        &texts(&["work", "home"]),
        "  BETA ",
        "Ungrouped",
        &chosen,
        true,
        "Sidebar",
    );
    assert_eq!(sections.len(), 1);
    assert_eq!(plan.visible, vec![1]);
    assert!(plan.all_selected && plan.force_expanded && plan.shows_monitor);
    assert_eq!((plan.selected, plan.total, plan.message), (1, 3, None));
    let (sections, plan) = connections_sidebar(
        &sessions,
        &groups,
        &texts(&["work"]),
        "nothing like it",
        "Ungrouped",
        &chosen,
        false,
        "Top",
    );
    assert!(sections.is_empty());
    assert_eq!(plan.message, Some(NoConnections::Matching));
    assert!(!plan.shows_monitor);
}

#[test]
fn loads_have_bands() {
    assert_eq!(load_band(number(29.9)), LoadBand::Low);
    assert_eq!(load_band(number(30.0)), LoadBand::Middle);
    assert_eq!(load_band(number(80.0)), LoadBand::High);
}

#[test]
fn wide_panels_have_more_cards() {
    assert_eq!(monitoring_cards(number(600.0)), vec![Card::Cpu, Card::Memory]);
    assert_eq!(monitoring_cards(number(601.0)), vec![Card::Cpu, Card::Memory, Card::Disk]);
    assert_eq!(monitoring_cards(number(751.0)).len(), 4);
    assert_eq!(
        on_card_click(Card::Memory, true),
        CardAction::Processes(ServerMonitorView::Memory)
    );
    assert_eq!(on_card_click(Card::Network, true), CardAction::Ports);
    assert_eq!(on_card_click(Card::Network, false), CardAction::Nothing);
}

#[test]
fn disks_are_added_up() {
    let disks = vec![
        DiskSample { mount: text("/"), available_bytes: 4, total_bytes: 10 },
        DiskSample { mount: text("/home"), available_bytes: 1, total_bytes: 5 },
    ];

    assert_eq!(disk_totals(&disks), (10, 15));
}

#[test]
fn a_command_is_listed_once() {
    let rows = vec![
        (text("b"), 0usize, text("ls")),
        (text("a"), 1usize, text("pwd")),
        (text("a"), 0usize, text("ls")),
    ];
    let mut chosen = HistorySelection::new();
    chosen.insert(text("a"), 1);
    let popover = command_history_popover(&rows, "a", &chosen, "");

    assert_eq!(popover.rows.len(), 2);
    assert_eq!(popover.rows[0].0, "a");
    assert_eq!(popover.selected, 1);
    assert!(!popover.all_selected);
    let unmatched = command_history_popover(&rows, "a", &chosen, "zzz");
    assert_eq!(unmatched.message, Some(NoCommands::Matching));
    let none = command_history_popover(&Vec::new(), "a", &chosen, "");
    assert_eq!(none.message, Some(NoCommands::Run));
}

#[test]
fn remote_files_are_listed() {
    let mut files = connecting_sftp_state(text("connecting"));
    files.current_path = text("/home");
    files.directory_cache.insert(
        text("/home"),
        vec![
            RemoteEntry {
                name: text("a"),
                full_path: text("/home/a"),
                is_dir: false,
                size: 1024,
                modified: text("2024-05-01 10:00"),
            },
            RemoteEntry {
                name: text("d"),
                full_path: text("/home/d"),
                is_dir: true,
                size: 0,
                modified: String::new(),
            },
        ],
    );
    files.toggle_entry(text("/home/a"), true);
    let panel = list_files(&files, false);

    assert_eq!(panel.rows.len(), 2);
    assert_eq!(panel.rows[0].modified, "2024-05-01 10:00");
    assert!(panel.rows[0].checked && panel.rows[0].marked);
    assert_eq!(panel.rows[0].size, "1.0 KB");
    assert_eq!(panel.selected, 1);
    assert_eq!(panel.parent, "/");
    assert!(matches!(panel.state, ListState::Empty));
}

#[test]
fn files_and_directories_have_menus() {
    assert_eq!(sftp_context_menu(true)[0], FileAction::DownloadFolder);
    assert!(sftp_context_menu(false).contains(&FileAction::Edit));
    assert!(matches!(
        tree_toggle_hint(true, &Some(text("denied"))),
        ToggleHint::Retry(reason) if reason == "denied"
    ));
    assert!(matches!(tree_toggle_hint(true, &None), ToggleHint::Collapse));
    assert!(matches!(tree_toggle_hint(false, &None), ToggleHint::Expand));
}

#[test]
fn the_window_scrolls_towards_what_is_wanted() {
    assert_eq!(scroll_step(5, 3), ScrollStep::Up(2));
    assert_eq!(scroll_step(3, 5), ScrollStep::Down(2));
    assert_eq!(scroll_step(3, 3), ScrollStep::Stay);
    assert!(render_window_controls(false, false).drawn);
    assert_eq!(next_tab_scroll(u64::MAX), 0);
    assert_eq!(next_tab_scroll(1), 2);
    assert_eq!(ensure_tab_visible_after_layout(2, 1, true, 3), TabScroll::Superseded);
    assert_eq!(ensure_tab_visible_after_layout(1, 1, true, 3), TabScroll::Animate);
    assert_eq!(
        ensure_tab_visible_after_layout(1, 1, false, 3),
        TabScroll::Retry { retries: 2 }
    );
    assert_eq!(ensure_tab_visible_after_layout(1, 1, false, 0), TabScroll::GiveUp);
}

#[test]
fn menus_are_as_wide_as_their_longest_label() {
    assert!(compact_menu_width(&texts(&["a"])) <= compact_menu_width(&texts(&["a", "long label"])));
}

#[test]
fn columns_are_as_wide_as_chosen() {
    let mut store = ConfigStore::in_memory();
    let usual = file_columns(&store, &Vec::new(), number(300.0));
    assert_eq!(f32::from_bits(usual.name.bits), 300.0);
    assert_eq!(f32::from_bits(usual.size.bits), 64.0);
    assert_eq!(f32::from_bits(usual.modified.bits), 128.0);
    store.set_sftp_file_columns(Some(vec![number(10.0), number(70.0)]));
    assert_eq!(file_columns(&store, &Vec::new(), number(300.0)), usual);
    store.set_sftp_file_columns_customized(true);
    let chosen = file_columns(&store, &Vec::new(), number(300.0));
    assert_eq!(f32::from_bits(chosen.name.bits), 96.0);
    assert_eq!(f32::from_bits(chosen.size.bits), 70.0);
    let drawn = file_columns(&store, &vec![number(200.0)], number(300.0));
    assert_eq!(f32::from_bits(drawn.name.bits), 200.0);
}

#[test]
fn directories_of_the_tree_are_marked() {
    let row = render_tree_row("/home", true, &None, "/home");
    assert!(row.open && row.marked);
    assert!(matches!(row.hint, ToggleHint::Collapse));
    assert!(!render_tree_row("/etc", false, &None, "/home").marked);
    let width = |stored: Option<Vec<Float32>>| f32::from_bits(tree_panel_width(&stored).bits);
    assert_eq!(width(None), 220.0);
    assert_eq!(width(Some(vec![number(10.0)])), 160.0);
    assert_eq!(width(Some(vec![number(900.0)])), 720.0);
}

#[test]
fn panels_have_stored_sizes() {
    let height = |minimized: bool, stored: Option<Vec<Float32>>| {
        f32::from_bits(files_panel_height(minimized, &stored).height.bits)
    };
    assert_eq!(height(true, None), 24.0);
    assert_eq!(height(false, None), 248.0);
    assert_eq!(height(false, Some(vec![number(1.0), number(300.0)])), 300.0);
    assert_eq!(sidebar_width(&None, number(250.0)), number(250.0));
    assert_eq!(sidebar_width(&Some(vec![number(260.0)]), number(250.0)), number(260.0));
}

#[test]
fn a_resized_window_keeps_its_sidebar() {
    let mut keeper = SidebarKeeper { last_window: None, last_width: None };
    let small = (number(800.0), number(600.0));
    let large = (number(900.0), number(600.0));
    assert_eq!(keeper.drawn(small, Some(number(200.0))), None);
    assert_eq!(keeper.drawn(small, Some(number(210.0))), None);
    assert_eq!(keeper.drawn(large, Some(number(240.0))), Some(number(210.0)));
    assert_eq!(keeper.drawn(large, Some(number(210.0))), None);
}
