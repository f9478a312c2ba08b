//! The open terminals: their tabs, the groups in which the tab bar shows them,
//! the panes of the group in front, and what follows from opening, focusing and
//! closing them.
pub mod clicking;
pub mod closing;
pub mod encoding;
pub mod files;
pub mod focusing;
pub mod following;
pub mod laws;
pub mod moving;
pub mod opening;
pub mod outcomes;
pub mod restoring;
pub mod retrying;
pub mod saving;
pub mod splitting;
pub mod standing;
pub mod switching;
pub mod transferring;

use vstd::prelude::*;

use crate::config::{ConfigFile, ConfigStore};
use crate::number::Float32;
use crate::panes::{pane_tabs, PaneLayout};
use crate::saved::{PaneTree, SavedTabGroup, SavedTabsState, SavedTerminalTab};
use crate::selection::{HistorySelection, Pick};
use crate::session::{Session, TextEncoding};
use crate::sftp::{SftpUiState, SftpView};
use crate::snapshot::SystemSnapshot;
use crate::system::{RemotePort, RemoteProcess};
use crate::text::{option_text, same_text, texts};
use crate::text_map::TextSet;

verus! {

/// Where the program of a terminal runs.
#[derive(Clone, Copy, PartialEq, Eq, Structural, Debug)]
pub enum TabKind {
    Local,
    Ssh,
    Serial,
}

/// One terminal.
#[derive(Debug)]
pub struct Tab {
    pub id: String,
    pub title: String,
    pub dynamic_title: String,
    pub kind: TabKind,
    pub connected: bool,
    pub status: String,
    pub disconnected_reason: Option<String>,
    pub session: Option<Session>,
    pub local_cwd: Option<String>,
    pub encoding: TextEncoding,
    pub terminal_title_received: bool,
}

pub struct TabView {
    pub id: Seq<char>,
    pub title: Seq<char>,
    pub dynamic_title: Seq<char>,
    pub kind: TabKind,
    pub connected: bool,
    pub status: Seq<char>,
    pub disconnected_reason: Option<Seq<char>>,
    pub session: Option<Session>,
    pub local_cwd: Option<Seq<char>>,
    pub encoding: TextEncoding,
    pub terminal_title_received: bool,
}

impl View for Tab {
    type V = TabView;

    open spec fn view(&self) -> TabView {
        TabView {
            id: self.id@,
            title: self.title@,
            dynamic_title: self.dynamic_title@,
            kind: self.kind,
            connected: self.connected,
            status: self.status@,
            disconnected_reason: option_text(self.disconnected_reason),
            session: self.session,
            local_cwd: option_text(self.local_cwd),
            encoding: self.encoding,
            terminal_title_received: self.terminal_title_received,
        }
    }
}

/// An entry of the tab bar: the panes that it shows together, and the remote files
/// of one of them.
#[derive(Debug)]
pub struct TabGroup {
    pub id: String,
    pub title: String,
    pub pane_root: PaneLayout,
    pub sftp: Option<SftpUiState>,
    pub sftp_tab_id: Option<String>,
}

pub struct GroupView {
    pub id: Seq<char>,
    pub title: Seq<char>,
    pub root: PaneTree,
    pub sftp: Option<SftpView>,
    pub sftp_tab: Option<Seq<char>>,
}

pub open spec fn option_sftp(sftp: Option<SftpUiState>) -> Option<SftpView> {
    match sftp {
        Some(s) => Some(s@),
        None => None,
    }
}

impl View for TabGroup {
    type V = GroupView;

    open spec fn view(&self) -> GroupView {
        GroupView {
            id: self.id@,
            title: self.title@,
            root: self.pane_root.tree(),
            sftp: option_sftp(self.sftp),
            sftp_tab: option_text(self.sftp_tab_id),
        }
    }
}

/// What is shown of the machine behind the active tab.
#[derive(Debug)]
pub struct Monitor {
    pub system_tab_id: Option<String>,
    pub snapshot: Option<SystemSnapshot>,
    pub system_status: Option<String>,
    pub cpu_history: Vec<Float32>,
    pub net_rx_history: Vec<u64>,
    pub net_tx_history: Vec<u64>,
    pub processes: Vec<RemoteProcess>,
    pub ports: Vec<RemotePort>,
    pub terminating: Vec<u32>,
    pub process_status: Option<String>,
    pub ports_status: Option<String>,
    pub sample_in_flight: bool,
    pub processes_in_flight: bool,
    pub ports_in_flight: bool,
    pub expanded_process_pid: Option<u32>,
}

pub struct MonitorView {
    pub tab: Option<Seq<char>>,
    pub snapshot: Option<SystemSnapshot>,
    pub status: Option<Seq<char>>,
    pub cpu: Seq<Float32>,
    pub rx: Seq<u64>,
    pub tx: Seq<u64>,
    pub processes: Seq<RemoteProcess>,
    pub ports: Seq<RemotePort>,
    pub terminating: Seq<u32>,
    pub process_status: Option<Seq<char>>,
    pub ports_status: Option<Seq<char>>,
    pub sample_in_flight: bool,
    pub processes_in_flight: bool,
    pub ports_in_flight: bool,
    pub expanded_pid: Option<u32>,
}

impl View for Monitor {
    type V = MonitorView;

    open spec fn view(&self) -> MonitorView {
        MonitorView {
            tab: option_text(self.system_tab_id),
            snapshot: self.snapshot,
            status: option_text(self.system_status),
            cpu: self.cpu_history@,
            rx: self.net_rx_history@,
            tx: self.net_tx_history@,
            processes: self.processes@,
            ports: self.ports@,
            terminating: self.terminating@,
            process_status: option_text(self.process_status),
            ports_status: option_text(self.ports_status),
            sample_in_flight: self.sample_in_flight,
            processes_in_flight: self.processes_in_flight,
            ports_in_flight: self.ports_in_flight,
            expanded_pid: self.expanded_process_pid,
        }
    }
}

/// The search in a terminal.
#[derive(Debug)]
pub struct Search {
    pub active: bool,
    pub query: String,
    pub matches: Vec<(usize, usize)>,
    pub current: usize,
    pub target_tab: Option<String>,
}

pub struct SearchView {
    pub active: bool,
    pub query: Seq<char>,
    pub matches: Seq<(usize, usize)>,
    pub current: usize,
    pub target_tab: Option<Seq<char>>,
}

impl View for Search {
    type V = SearchView;

    open spec fn view(&self) -> SearchView {
        SearchView {
            active: self.active,
            query: self.query@,
            matches: self.matches@,
            current: self.current,
            target_tab: option_text(self.target_tab),
        }
    }
}

/// What is shown while a connection is made.
#[derive(Debug)]
pub struct ConnectionProgress {
    pub tab_id: String,
    pub title: String,
    pub lines: Vec<String>,
    pub failed: bool,
}

pub struct ProgressView {
    pub tab: Seq<char>,
    pub title: Seq<char>,
    pub lines: Seq<Seq<char>>,
    pub failed: bool,
}

impl View for ConnectionProgress {
    type V = ProgressView;

    open spec fn view(&self) -> ProgressView {
        ProgressView {
            tab: self.tab_id@,
            title: self.title@,
            lines: texts(self.lines@),
            failed: self.failed,
        }
    }
}

pub open spec fn option_progress(progress: Option<ConnectionProgress>) -> Option<ProgressView> {
    match progress {
        Some(p) => Some(p@),
        None => None,
    }
}

/// The dialog in front.
#[derive(Clone, Copy, PartialEq, Eq, Structural, Debug)]
pub enum Dialog {
    Closed,
    Processes,
    Ports,
    Other,
}

/// What is known of this machine: the home directory, whether it is there, and
/// the system.
#[derive(Debug)]
pub struct LocalPlace {
    pub home: Option<String>,
    pub home_is_directory: bool,
    pub windows: bool,
}

/// Texts in the user's language.
#[derive(Debug)]
pub struct Words {
    pub connecting: String,
    pub starting_connection: String,
    pub sftp_connecting: String,
    pub reconnect_pending: String,
    pub idle: String,
}

/// Something to be done outside.
#[derive(Debug)]
pub enum Effect {
    /// End what runs in a tab.
    CloseBackend { tab_id: String },
    /// End the worker for the remote files of a group.
    CloseSftp { group_id: String },
    /// End the workers for the remote files of all groups.
    CloseAllSftp,
    /// Start a worker for the remote files of a group.
    StartSftp { group_id: String, tab_id: String, session: Session },
    /// Ask the worker of a group for the entries of a directory.
    ListDirectory { group_id: String, path: String },
    /// Have the worker of a group bring files to the remote directory.
    Upload { group_id: String, paths: Vec<String>, directory: String },
    /// Have the worker of a group bring a remote file to a local directory.
    Download { group_id: String, remote: String, directory: String },
    RequestSystem,
    RequestProcesses,
    RequestPorts,
    /// Write the preferences.
    SavePreferences,
    /// Show the tab bar's entry at an index.
    ScrollTabs { index: usize },
    /// Show the saved connection at an index.
    ScrollSaved { index: usize },
    /// Ask whether the active tab is to be connected again, where it is not.
    PromptReconnect,
    /// Ask whether a tab is to be connected again.
    AskReconnect { tab_id: String },
}

pub enum EffectView {
    CloseBackend { tab: Seq<char> },
    CloseSftp { group: Seq<char> },
    CloseAllSftp,
    StartSftp { group: Seq<char>, tab: Seq<char>, session: Session },
    ListDirectory { group: Seq<char>, path: Seq<char> },
    Upload { group: Seq<char>, paths: Seq<Seq<char>>, directory: Seq<char> },
    Download { group: Seq<char>, remote: Seq<char>, directory: Seq<char> },
    RequestSystem,
    RequestProcesses,
    RequestPorts,
    SavePreferences,
    ScrollTabs { index: usize },
    ScrollSaved { index: usize },
    PromptReconnect,
    AskReconnect { tab: Seq<char> },
}

impl View for Effect {
    type V = EffectView;

    open spec fn view(&self) -> EffectView {
        match self {
            Effect::CloseBackend { tab_id } => EffectView::CloseBackend { tab: tab_id@ },
            Effect::CloseSftp { group_id } => EffectView::CloseSftp { group: group_id@ },
            Effect::CloseAllSftp => EffectView::CloseAllSftp,
            Effect::StartSftp { group_id, tab_id, session } => EffectView::StartSftp {
                group: group_id@,
                tab: tab_id@,
                session: *session,
            },
            Effect::ListDirectory { group_id, path } => EffectView::ListDirectory {
                group: group_id@,
                path: path@,
            },
            Effect::Upload { group_id, paths, directory } => EffectView::Upload {
                group: group_id@,
                paths: texts(paths@),
                directory: directory@,
            },
            Effect::Download { group_id, remote, directory } => EffectView::Download {
                group: group_id@,
                remote: remote@,
                directory: directory@,
            },
            Effect::RequestSystem => EffectView::RequestSystem,
            Effect::RequestProcesses => EffectView::RequestProcesses,
            Effect::RequestPorts => EffectView::RequestPorts,
            Effect::SavePreferences => EffectView::SavePreferences,
            Effect::ScrollTabs { index } => EffectView::ScrollTabs { index: *index },
            Effect::ScrollSaved { index } => EffectView::ScrollSaved { index: *index },
            Effect::PromptReconnect => EffectView::PromptReconnect,
            Effect::AskReconnect { tab_id } => EffectView::AskReconnect { tab: tab_id@ },
        }
    }
}

/// The state of the open terminals.
#[derive(Debug)]
pub struct Workspace {
    pub tabs: Vec<Tab>,
    pub tab_groups: Vec<TabGroup>,
    pub pane_root: PaneLayout,
    pub focused_pane_path: Vec<usize>,
    pub active_tab: Option<String>,
    pub active_group: Option<String>,
    /// The groups for whose remote files a worker runs.
    pub sftp_workers: TextSet,
    pub monitor: Monitor,
    pub search: Search,
    pub show_command_history: bool,
    pub selected_command_history: HistorySelection,
    pub connection_progress: Option<ConnectionProgress>,
    pub pending_sftp_path_sync: Option<String>,
    pub sftp_menu_open: bool,
    pub status: String,
    pub config: ConfigStore,
    pub dialog: Dialog,
    pub place: LocalPlace,
    pub words: Words,
    /// What is still to be done outside, in order.
    pub effects: Vec<Effect>,
}

/// A saved tab, with its texts as characters.
pub enum SavedTabView {
    Local { id: Seq<char>, cwd: Option<Seq<char>>, encoding: TextEncoding },
    Ssh { id: Seq<char>, session: Session },
    Serial { id: Seq<char>, session: Session },
}

pub open spec fn saved_tab_view(tab: SavedTerminalTab) -> SavedTabView {
    match tab {
        SavedTerminalTab::Local { id, cwd, terminal_encoding } => SavedTabView::Local {
            id: id@,
            cwd: option_text(cwd),
            encoding: terminal_encoding,
        },
        SavedTerminalTab::Ssh { id, session } => SavedTabView::Ssh { id: id@, session },
        SavedTerminalTab::Serial { id, session } => SavedTabView::Serial { id: id@, session },
    }
}

pub open spec fn saved_tab_views(tabs: Seq<SavedTerminalTab>) -> Seq<SavedTabView> {
    tabs.map_values(|t: SavedTerminalTab| saved_tab_view(t))
}

pub struct SavedGroupView {
    pub id: Seq<char>,
    pub title: Seq<char>,
    pub root: PaneTree,
    pub tabs: Seq<SavedTabView>,
}

pub open spec fn saved_group_view(group: SavedTabGroup) -> SavedGroupView {
    SavedGroupView {
        id: group.id@,
        title: group.title@,
        root: group.pane_root.tree(),
        tabs: saved_tab_views(group.tabs@),
    }
}

pub open spec fn saved_group_views(groups: Seq<SavedTabGroup>) -> Seq<SavedGroupView> {
    groups.map_values(|g: SavedTabGroup| saved_group_view(g))
}

pub struct SavedView {
    pub groups: Seq<SavedGroupView>,
    pub active_group: Option<Seq<char>>,
    pub active_tab: Option<Seq<char>>,
}

pub open spec fn saved_view(saved: Option<SavedTabsState>) -> Option<SavedView> {
    match saved {
        Some(state) => Some(
            SavedView {
                groups: saved_group_views(state.groups@),
                active_group: option_text(state.active_group),
                active_tab: option_text(state.active_tab),
            },
        ),
        None => None,
    }
}

/// The settings but for the saved tabs.
#[verifier::opaque]
pub open spec fn settings_of(file: ConfigFile) -> ConfigFile {
    ConfigFile { saved_tabs: None, ..file }
}

/// The state of the open terminals, with its texts as characters. The saved tabs
/// stand beside the other settings.
pub struct Desk {
    pub tabs: Seq<TabView>,
    pub groups: Seq<GroupView>,
    pub root: PaneTree,
    pub path: Seq<usize>,
    pub active_tab: Option<Seq<char>>,
    pub active_group: Option<Seq<char>>,
    pub workers: Set<Seq<char>>,
    pub monitor: MonitorView,
    pub search: SearchView,
    pub show_history: bool,
    pub picks: Set<Pick>,
    pub progress: Option<ProgressView>,
    pub path_sync: Option<Seq<char>>,
    pub menu_open: bool,
    pub status: Seq<char>,
    pub settings: ConfigFile,
    pub saved: Option<SavedView>,
    pub dialog: Dialog,
    pub place: LocalPlace,
    pub words: Words,
    pub effects: Seq<EffectView>,
}

pub open spec fn tab_views(tabs: Seq<Tab>) -> Seq<TabView> {
    tabs.map_values(|t: Tab| t@)
}

pub open spec fn group_views(groups: Seq<TabGroup>) -> Seq<GroupView> {
    groups.map_values(|g: TabGroup| g@)
}

pub open spec fn effect_views(effects: Seq<Effect>) -> Seq<EffectView> {
    effects.map_values(|e: Effect| e@)
}

impl View for Workspace {
    type V = Desk;

    open spec fn view(&self) -> Desk {
        Desk {
            tabs: tab_views(self.tabs@),
            groups: group_views(self.tab_groups@),
            root: self.pane_root.tree(),
            path: self.focused_pane_path@,
            active_tab: option_text(self.active_tab),
            active_group: option_text(self.active_group),
            workers: self.sftp_workers@,
            monitor: self.monitor@,
            search: self.search@,
            show_history: self.show_command_history,
            picks: self.selected_command_history@,
            progress: option_progress(self.connection_progress),
            path_sync: option_text(self.pending_sftp_path_sync),
            menu_open: self.sftp_menu_open,
            status: self.status@,
            settings: settings_of(self.config.cache),
            saved: saved_view(self.config.cache.saved_tabs),
            dialog: self.dialog,
            place: self.place,
            words: self.words,
            effects: effect_views(self.effects@),
        }
    }
}

/// The place of the first member with a property.
pub open spec fn first_where<A>(s: Seq<A>, wanted: spec_fn(A) -> bool) -> Option<int>
    decreases s.len(),
{
    if s.len() == 0 {
        None
    } else if wanted(s[0]) {
        Some(0)
    } else {
        match first_where(s.skip(1), wanted) {
            Some(i) => Some(i + 1),
            None => None,
        }
    }
}

/// What `first_where` finds is the first member with the property.
pub proof fn lemma_first_where<A>(s: Seq<A>, wanted: spec_fn(A) -> bool)
    ensures
        match first_where(s, wanted) {
            Some(i) => 0 <= i < s.len() && wanted(s[i]) && forall|j: int|
                0 <= j < i ==> !wanted(#[trigger] s[j]),
            None => forall|j: int| 0 <= j < s.len() ==> !wanted(#[trigger] s[j]),
        },
    decreases s.len(),
{
    if s.len() > 0 && !wanted(s[0]) {
        lemma_first_where(s.skip(1), wanted);
        match first_where(s.skip(1), wanted) {
            Some(i) => {
                assert forall|j: int| 0 <= j < i + 1 implies !wanted(#[trigger] s[j]) by {
                    if j > 0 {
                        assert(s.skip(1)[j - 1] == s[j]);
                    }
                }
            },
            None => {
                assert forall|j: int| 0 <= j < s.len() implies !wanted(#[trigger] s[j]) by {
                    if j > 0 {
                        assert(s.skip(1)[j - 1] == s[j]);
                    }
                }
            },
        }
    }
}

pub proof fn lemma_is_first<A>(s: Seq<A>, wanted: spec_fn(A) -> bool, i: int)
    requires
        0 <= i < s.len(),
        wanted(s[i]),
        forall|j: int| 0 <= j < i ==> !wanted(#[trigger] s[j]),
    ensures
        first_where(s, wanted) == Some(i),
{
    lemma_first_where(s, wanted);
}

pub proof fn lemma_is_none<A>(s: Seq<A>, wanted: spec_fn(A) -> bool)
    requires
        forall|j: int| 0 <= j < s.len() ==> !wanted(#[trigger] s[j]),
    ensures
        first_where(s, wanted) is None,
{
    lemma_first_where(s, wanted);
}

pub open spec fn is_tab(id: Seq<char>) -> spec_fn(TabView) -> bool {
    |tab: TabView| tab.id == id
}

pub open spec fn is_group(id: Seq<char>) -> spec_fn(GroupView) -> bool {
    |group: GroupView| group.id == id
}

pub open spec fn shows_tab(id: Seq<char>) -> spec_fn(GroupView) -> bool {
    |group: GroupView| pane_tabs(group.root).contains(id)
}

/// The tab with the identifier, the first where there are several.
pub open spec fn tab_with(tabs: Seq<TabView>, id: Seq<char>) -> Option<TabView> {
    match first_where(tabs, is_tab(id)) {
        Some(i) => Some(tabs[i]),
        None => None,
    }
}

/// The tab that is in front.
pub open spec fn front_tab(desk: Desk) -> Option<TabView> {
    match desk.active_tab {
        Some(id) => tab_with(desk.tabs, id),
        None => None,
    }
}

pub(crate) fn find_tab(tabs: &Vec<Tab>, id: &str) -> (r: Option<usize>)
    ensures
        match r {
            Some(i) => i < tabs@.len() && first_where(tab_views(tabs@), is_tab(id@)) == Some(
                i as int,
            ) && tabs@[i as int].id@ == id@,
            None => first_where(tab_views(tabs@), is_tab(id@)) is None,
        },
{
    let ghost views = tab_views(tabs@);
    let mut i: usize = 0;
    while i < tabs.len()
        invariant
            i <= tabs@.len(),
            views == tab_views(tabs@),
            forall|j: int| 0 <= j < i ==> !is_tab(id@)(#[trigger] views[j]),
        decreases tabs.len() - i,
    {
        if same_text(tabs[i].id.as_str(), id) {
            proof {
                lemma_is_first(views, is_tab(id@), i as int);
            }
            return Some(i);
        }
        i += 1;
    }
    proof {
        lemma_is_none(views, is_tab(id@));
    }
    None
}

pub(crate) fn find_group(groups: &Vec<TabGroup>, id: &str) -> (r: Option<usize>)
    ensures
        match r {
            Some(i) => i < groups@.len() && first_where(group_views(groups@), is_group(id@))
                == Some(i as int),
            None => first_where(group_views(groups@), is_group(id@)) is None,
        },
{
    let ghost views = group_views(groups@);
    let mut i: usize = 0;
    while i < groups.len()
        invariant
            i <= groups@.len(),
            views == group_views(groups@),
            forall|j: int| 0 <= j < i ==> !is_group(id@)(#[trigger] views[j]),
        decreases groups.len() - i,
    {
        if same_text(groups[i].id.as_str(), id) {
            proof {
                lemma_is_first(views, is_group(id@), i as int);
            }
            return Some(i);
        }
        i += 1;
    }
    proof {
        lemma_is_none(views, is_group(id@));
    }
    None
}

pub(crate) fn find_group_of_tab(groups: &Vec<TabGroup>, tab_id: &str) -> (r: Option<usize>)
    ensures
        match r {
            Some(i) => i < groups@.len() && first_where(group_views(groups@), shows_tab(tab_id@))
                == Some(i as int),
            None => first_where(group_views(groups@), shows_tab(tab_id@)) is None,
        },
{
    let ghost views = group_views(groups@);
    let mut i: usize = 0;
    while i < groups.len()
        invariant
            i <= groups@.len(),
            views == group_views(groups@),
            forall|j: int| 0 <= j < i ==> !shows_tab(tab_id@)(#[trigger] views[j]),
        decreases groups.len() - i,
    {
        if groups[i].pane_root.contains(tab_id) {
            proof {
                lemma_is_first(views, shows_tab(tab_id@), i as int);
            }
            return Some(i);
        }
        i += 1;
    }
    proof {
        lemma_is_none(views, shows_tab(tab_id@));
    }
    None
}

} // verus!
