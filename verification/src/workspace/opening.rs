//! New terminals.
use vstd::prelude::*;

use crate::config::{find_session, session_index};
use crate::panes::PaneLayout;
use crate::paths::{first_title, initial_local_title};
use crate::saved::PaneTree;
use crate::session::{Session, TextEncoding};
use crate::sftp::{connecting_sftp_state, SftpUiState, SftpView};
use crate::text::{chars_of, option_text, push_all, text_of, texts};
use crate::workspace::{
    ConnectionProgress, Desk, Effect, EffectView, GroupView, ProgressView, Tab, TabGroup, TabKind,
    TabView, Workspace,
};
use crate::workspace::following::session_of;
use crate::workspace::saving::{default_local_directory, home_directory, lemma_settings};

verus! {

/// A new terminal on this machine.
pub open spec fn local_tab(
    id: Seq<char>,
    title: Seq<char>,
    cwd: Option<Seq<char>>,
    encoding: TextEncoding,
) -> TabView {
    TabView {
        id,
        title,
        dynamic_title: title,
        kind: TabKind::Local,
        connected: true,
        status: "local shell"@,
        disconnected_reason: None,
        session: None,
        local_cwd: cwd,
        encoding,
        terminal_title_received: false,
    }
}

/// A new terminal of a session, which is not yet connected.
pub open spec fn remote_tab(kind: TabKind, id: Seq<char>, session: Session) -> TabView {
    TabView {
        id,
        title: session.name@,
        dynamic_title: session.name@,
        kind,
        connected: false,
        status: "connecting"@,
        disconnected_reason: None,
        session: Some(session),
        local_cwd: None,
        encoding: session.terminal_encoding,
        terminal_title_received: false,
    }
}

impl Tab {
    /// A new terminal on this machine.
    pub fn new_local(
        id: String,
        title: String,
        cwd: Option<String>,
        encoding: TextEncoding,
    ) -> (r: Tab)
        ensures
            r@ == local_tab(id@, title@, option_text(cwd), encoding),
    {
        Tab {
            id,
            dynamic_title: title.clone(),
            title,
            kind: TabKind::Local,
            connected: true,
            status: "local shell".to_string(),
            disconnected_reason: None,
            session: None,
            local_cwd: cwd,
            encoding,
            terminal_title_received: false,
        }
    }

    /// A new terminal of a session.
    pub fn new_remote(kind: TabKind, id: String, session: &Session) -> (r: Tab)
        ensures
            r@ == remote_tab(kind, id@, *session),
    {
        Tab {
            id,
            title: session.name.clone(),
            dynamic_title: session.name.clone(),
            kind,
            connected: false,
            status: "connecting".to_string(),
            disconnected_reason: None,
            session: Some(session.clone()),
            local_cwd: None,
            encoding: session.terminal_encoding.clone(),
            terminal_title_received: false,
        }
    }
}

impl Desk {
    /// A new tab is in front, in a group of its own.
    pub open spec fn opened(
        self,
        tab: TabView,
        group_id: Seq<char>,
        title: Seq<char>,
        with_files: bool,
    ) -> Desk {
        Desk {
            tabs: self.tabs.push(tab),
            groups: self.groups.push(
                GroupView {
                    id: group_id,
                    title,
                    root: PaneTree::Pane { tab: tab.id },
                    sftp: if with_files {
                        Some(SftpView::connecting(self.words.sftp_connecting@))
                    } else {
                        None
                    },
                    sftp_tab: if with_files {
                        Some(tab.id)
                    } else {
                        None
                    },
                },
            ),
            root: PaneTree::Pane { tab: tab.id },
            path: Seq::empty(),
            active_tab: Some(tab.id),
            active_group: Some(group_id),
            ..self
        }.asks(EffectView::ScrollTabs { index: self.tabs.len() as usize })
    }

    /// The progress of the connection of a tab is shown.
    pub open spec fn shows_progress(self, tab: Seq<char>) -> Desk {
        Desk {
            progress: Some(
                ProgressView {
                    tab,
                    title: self.words.connecting@,
                    lines: seq![self.words.starting_connection@],
                    failed: false,
                },
            ),
            ..self
        }
    }

    /// The saved connection of the tab in front is scrolled to, where there is one.
    pub open spec fn scrolls_to_saved(self) -> Desk {
        match session_of(self.tabs, self.active_tab) {
            Some(id) => {
                let index = session_index(self.settings.sessions@, id);
                if index < self.settings.sessions@.len() {
                    self.asks(EffectView::ScrollSaved { index: index as usize })
                } else {
                    self
                }
            },
            None => self,
        }
    }

    pub open spec fn says(self, status: Seq<char>) -> Desk {
        Desk { status, ..self }
    }

    /// A local terminal was opened.
    pub open spec fn local_opened(self, id: Seq<char>, group_id: Seq<char>) -> Desk {
        let home = home_directory(self.place);
        let title = first_title(
            home,
            option_text(self.place.home),
            self.place.windows,
        );
        self.opened(
            local_tab(id, title, home, TextEncoding::Utf8),
            group_id,
            title,
            false,
        ).system_watched().says("local terminal opened"@).saved_in_background()
    }

    /// A terminal of a session over SSH was opened.
    pub open spec fn ssh_opened(self, id: Seq<char>, group_id: Seq<char>, session: Session) -> Desk {
        let shown = self.opened(
            remote_tab(TabKind::Ssh, id, session),
            group_id,
            session.name@,
            true,
        ).shows_progress(id).scrolls_to_saved();
        Desk {
            workers: shown.workers.insert(group_id),
            path_sync: Some("/"@),
            ..shown
        }.asks(EffectView::StartSftp { group: group_id, tab: id, session }).says(
            "ssh tab opened"@,
        ).system_watched().saved_in_background()
    }

    /// A terminal of a session over a serial line was opened.
    pub open spec fn serial_opened(
        self,
        id: Seq<char>,
        group_id: Seq<char>,
        session: Session,
    ) -> Desk {
        self.opened(
            remote_tab(TabKind::Serial, id, session),
            group_id,
            session.name@,
            false,
        ).shows_progress(id).system_watched().scrolls_to_saved().says(
            "serial tab opened"@,
        ).saved_in_background()
    }
}

impl Workspace {
    pub(crate) fn open_tab(&mut self, tab: Tab, group_id: &str, title: String, with_files: bool)
        ensures
            final(self)@ == old(self)@.opened(tab@, group_id@, title@, with_files),
    {
        let ghost before = self@;
        let index: usize = self.tabs.len();
        let id = tab.id.clone();
        self.tabs.push(tab);
        assert(self@.tabs =~= before.tabs.push(tab@));
        self.active_tab = Some(id.clone());
        self.pane_root = PaneLayout::Single(id.clone());
        self.focused_pane_path = Vec::new();
        let (sftp, sftp_tab_id): (Option<SftpUiState>, Option<String>) = if with_files {
            (
                Some(connecting_sftp_state(self.words.sftp_connecting.clone())),
                Some(id.clone()),
            )
        } else {
            (None, None)
        };
        let group = TabGroup {
            id: group_id.to_string(),
            title,
            pane_root: PaneLayout::Single(id),
            sftp,
            sftp_tab_id,
        };
        self.tab_groups.push(group);
        assert(self@.groups =~= before.groups.push(group@));
        self.active_group = Some(group_id.to_string());
        assert(self@.path =~= Seq::empty());
        self.ask(Effect::ScrollTabs { index });
    }

    pub(crate) fn show_progress(&mut self, tab_id: &str)
        ensures
            final(self)@ == old(self)@.shows_progress(tab_id@),
    {
        let mut lines: Vec<String> = Vec::new();
        lines.push(self.words.starting_connection.clone());
        assert(texts(lines@) =~= seq![self.words.starting_connection@]);
        self.connection_progress = Some(
            ConnectionProgress {
                tab_id: tab_id.to_string(),
                title: self.words.connecting.clone(),
                lines,
                failed: false,
            },
        );
    }

    pub(crate) fn scroll_to_saved(&mut self)
        ensures
            final(self)@ == old(self)@.scrolls_to_saved(),
    {
        proof {
            lemma_settings(self.config.cache, None);
        }
        if let Some(id) = self.active_session_id() {
            let index: usize = find_session(self.config.sessions(), id.as_str());
            if index < self.config.sessions().len() {
                self.ask(Effect::ScrollSaved { index });
            }
        }
    }

    /// Shows a local terminal that was started as `id`, or says why none was.
    pub fn open_local(&mut self, id: String, group_id: String, started: Result<(), String>)
        ensures
            final(self)@ == match started {
                Ok(()) => old(self)@.local_opened(id@, group_id@),
                Err(reason) => old(self)@.says(
                    "failed to open local terminal: "@ + reason@,
                ).saved_in_background(),
            },
    {
        match started {
            Ok(()) => {
                let home = default_local_directory(&self.place);
                let title = initial_local_title(
                    &home,
                    &self.place.home,
                    self.place.windows,
                );
                let tab = Tab::new_local(id, title.clone(), home, TextEncoding::Utf8);
                self.open_tab(tab, group_id.as_str(), title, false);
                self.sync_system_tab_to_active_group();
                self.status = "local terminal opened".to_string();
            },
            Err(reason) => {
                self.status = joined("failed to open local terminal: ", reason.as_str());
            },
        }
        self.save_tabs_state_background();
    }

    /// Shows a terminal of a session over SSH that was started as `id`.
    pub fn open_ssh_session(&mut self, id: String, group_id: String, session: Session)
        ensures
            final(self)@ == old(self)@.ssh_opened(id@, group_id@, session),
    {
        let tab = Tab::new_remote(TabKind::Ssh, id.clone(), &session);
        self.open_tab(tab, group_id.as_str(), session.name.clone(), true);
        self.show_progress(id.as_str());
        self.scroll_to_saved();
        self.sftp_workers.insert(group_id.clone());
        self.pending_sftp_path_sync = Some("/".to_string());
        self.ask(Effect::StartSftp { group_id, tab_id: id, session });
        self.status = "ssh tab opened".to_string();
        self.sync_system_tab_to_active_group();
        self.save_tabs_state_background();
    }

    /// Shows a terminal of a session over a serial line that was started as `id`.
    pub fn open_serial_session(&mut self, id: String, group_id: String, session: Session)
        ensures
            final(self)@ == old(self)@.serial_opened(id@, group_id@, session),
    {
        let tab = Tab::new_remote(TabKind::Serial, id.clone(), &session);
        self.open_tab(tab, group_id.as_str(), session.name.clone(), false);
        self.show_progress(id.as_str());
        self.sync_system_tab_to_active_group();
        self.scroll_to_saved();
        self.status = "serial tab opened".to_string();
        self.save_tabs_state_background();
    }
}

pub(crate) fn joined(front: &str, back: &str) -> (r: String)
    ensures
        r@ == front@ + back@,
{
    let mut chars = chars_of(front);
    let rest = chars_of(back);
    push_all(&mut chars, rest.as_slice());
    text_of(chars.as_slice())
}

} // verus!
