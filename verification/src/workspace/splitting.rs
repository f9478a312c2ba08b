//! Splitting a pane.
use vstd::prelude::*;

use crate::number::Float32;
use crate::panes::{kept_share, with_ratio};
use crate::panes::{direction_named, new_place, pane_at, parse_direction, replaced, split_of};
use crate::paths::{compact_local_path, compacted, first_title, initial_local_title};
use crate::session::{Session, TextEncoding};
use crate::text::option_text;
use crate::workspace::{find_tab, tab_with, Desk, LocalPlace, Tab, TabKind, TabView, Workspace};
use crate::workspace::opening::{joined, local_tab, remote_tab};
use crate::workspace::saving::{default_local_directory, home_directory};

verus! {

/// What a split of the pane in front needs.
#[derive(Debug)]
pub enum SplitSource {
    /// There is no pane with an open tab.
    Nothing,
    /// The connection has no session.
    NoSession,
    /// A shell, started in a directory.
    Local { cwd: Option<String> },
    Ssh { session: Session },
    Serial { session: Session },
}

pub enum SplitView {
    Nothing,
    NoSession,
    Local { cwd: Option<Seq<char>> },
    Ssh { session: Session },
    Serial { session: Session },
}

impl View for SplitSource {
    type V = SplitView;

    open spec fn view(&self) -> SplitView {
        match self {
            SplitSource::Nothing => SplitView::Nothing,
            SplitSource::NoSession => SplitView::NoSession,
            SplitSource::Local { cwd } => SplitView::Local { cwd: option_text(*cwd) },
            SplitSource::Ssh { session } => SplitView::Ssh { session: *session },
            SplitSource::Serial { session } => SplitView::Serial { session: *session },
        }
    }
}

/// How a local terminal in a directory is titled.
pub open spec fn title_at(place: LocalPlace, cwd: Option<Seq<char>>) -> Seq<char> {
    match cwd {
        Some(path) => compacted(path, option_text(place.home), place.windows),
        None => first_title(
            home_directory(place),
            option_text(place.home),
            place.windows,
        ),
    }
}

impl Desk {
    /// The tab of the pane in front, where it is open.
    pub open spec fn pane_in_front(self) -> Option<TabView> {
        match pane_at(self.root, self.path) {
            Some(id) => if id.len() > 0 {
                tab_with(self.tabs, id)
            } else {
                None
            },
            None => None,
        }
    }

    /// What a split of the pane in front starts.
    pub open spec fn split_source(self) -> SplitView {
        match self.pane_in_front() {
            None => SplitView::Nothing,
            Some(tab) => match tab.kind {
                TabKind::Local => SplitView::Local {
                    cwd: match tab.local_cwd {
                        Some(cwd) => Some(cwd),
                        None => home_directory(self.place),
                    },
                },
                TabKind::Ssh => match tab.session {
                    Some(session) => SplitView::Ssh { session },
                    None => SplitView::NoSession,
                },
                TabKind::Serial => match tab.session {
                    Some(session) => SplitView::Serial { session },
                    None => SplitView::NoSession,
                },
            },
        }
    }

    /// A new pane stands next to the one in front, in the direction with the name,
    /// and is in front. Without such a direction the tab is in no pane.
    pub open spec fn split_with(self, tab: TabView, direction: Seq<char>) -> Desk {
        let more = Desk { tabs: self.tabs.push(tab), ..self };
        match direction_named(direction) {
            Some(d) => {
                let current = pane_at(self.root, self.path)->0;
                let stored = Desk {
                    root: replaced(
                        self.root,
                        self.path,
                        split_of(current, tab.id, d),
                    ),
                    ..more
                }.panes_stored();
                Desk {
                    path: self.path.push(new_place(d)),
                    active_tab: Some(tab.id),
                    ..stored
                }.files_bound(false).system_watched().says("pane split"@).saved_in_background()
            },
            None => more,
        }
    }

    /// The pane in front was split.
    pub open spec fn split(
        self,
        direction: Seq<char>,
        new_id: Seq<char>,
        failure: Option<Seq<char>>,
    ) -> Desk {
        match self.split_source() {
            SplitView::Nothing => self,
            SplitView::NoSession => self.says("cannot split: no session info"@),
            SplitView::Local { cwd } => match failure {
                Some(reason) => self.says("failed to split: "@ + reason),
                None => self.split_with(
                    local_tab(new_id, title_at(self.place, cwd), cwd, TextEncoding::Utf8),
                    direction,
                ),
            },
            SplitView::Ssh { session } => self.split_with(
                remote_tab(TabKind::Ssh, new_id, session),
                direction,
            ),
            SplitView::Serial { session } => self.split_with(
                remote_tab(TabKind::Serial, new_id, session),
                direction,
            ),
        }
    }
}

pub(crate) fn title_in(place: &LocalPlace, cwd: &Option<String>) -> (r: String)
    ensures
        r@ == title_at(*place, option_text(*cwd)),
{
    match cwd {
        Some(path) => compact_local_path(
            path.as_str(),
            &place.home,
            place.windows,
        ),
        None => {
            let home = default_local_directory(place);
            initial_local_title(&home, &place.home, place.windows)
        },
    }
}

impl Workspace {
    /// What a split of the pane in front is to start.
    pub fn split_plan(&self) -> (r: SplitSource)
        ensures
            r@ == self@.split_source(),
    {
        let id = match self.pane_root.focused_tab_id(self.focused_pane_path.as_slice()) {
            Some(id) => id,
            None => {
                return SplitSource::Nothing;
            },
        };
        if id.as_str().is_empty() {
            return SplitSource::Nothing;
        }
        let tab = match find_tab(&self.tabs, id.as_str()) {
            Some(i) => {
                assert(self@.tabs[i as int] == self.tabs@[i as int]@);
                &self.tabs[i]
            },
            None => {
                return SplitSource::Nothing;
            },
        };
        match tab.kind {
            TabKind::Local => SplitSource::Local {
                cwd: match &tab.local_cwd {
                    Some(cwd) => Some(cwd.clone()),
                    None => default_local_directory(&self.place),
                },
            },
            TabKind::Ssh => match &tab.session {
                Some(session) => SplitSource::Ssh { session: session.clone() },
                None => SplitSource::NoSession,
            },
            TabKind::Serial => match &tab.session {
                Some(session) => SplitSource::Serial { session: session.clone() },
                None => SplitSource::NoSession,
            },
        }
    }

    pub(crate) fn split_front(&mut self, tab: Tab, direction: &str)
        requires
            pane_at(old(self)@.root, old(self)@.path) is Some,
        ensures
            final(self)@ == old(self)@.split_with(tab@, direction@),
    {
        let ghost before = self@;
        let current = match self.pane_root.focused_tab_id(self.focused_pane_path.as_slice()) {
            Some(id) => id,
            None => {
                return ;
            },
        };
        let new_id = tab.id.clone();
        self.tabs.push(tab);
        assert(self@.tabs =~= before.tabs.push(tab@));
        let d = match parse_direction(direction) {
            Some(d) => d,
            None => {
                return ;
            },
        };
        let path = self.pane_root.split_pane(
            self.focused_pane_path.as_slice(),
            current.as_str(),
            new_id.as_str(),
            d,
        );
        self.sync_pane_root_to_group();
        self.focused_pane_path = path;
        self.active_tab = Some(new_id);
        self.sync_sftp_to_active_tab();
        self.sync_system_tab_to_active_group();
        self.status = "pane split".to_string();
        self.save_tabs_state_background();
    }

    /// Splits the pane in front, in the direction with the name, for a terminal
    /// that was started as `new_id`; `failure` says why a local one was not.
    pub fn split_current_pane(
        &mut self,
        direction: &str,
        new_id: String,
        failure: Option<String>,
    )
        ensures
            final(self)@ == old(self)@.split(direction@, new_id@, option_text(failure)),
    {
        match self.split_plan() {
            SplitSource::Nothing => {},
            SplitSource::NoSession => {
                self.status = "cannot split: no session info".to_string();
            },
            SplitSource::Local { cwd } => match failure {
                Some(reason) => {
                    self.status = joined("failed to split: ", reason.as_str());
                },
                None => {
                    let title = title_in(&self.place, &cwd);
                    let tab = Tab::new_local(new_id, title, cwd, TextEncoding::Utf8);
                    self.split_front(tab, direction);
                },
            },
            SplitSource::Ssh { session } => {
                let tab = Tab::new_remote(TabKind::Ssh, new_id, &session);
                self.split_front(tab, direction);
            },
            SplitSource::Serial { session } => {
                let tab = Tab::new_remote(TabKind::Serial, new_id, &session);
                self.split_front(tab, direction);
            },
        }
    }
}

impl Desk {
    /// The split at the end of a path has another share, which its group keeps.
    pub open spec fn split_resized(self, path: Seq<usize>, share: Float32) -> Desk {
        Desk { root: with_ratio(self.root, path, kept_share(share)), ..self }.panes_stored()
    }
}

impl Workspace {
    /// Gives the split at the end of a path another share.
    pub fn resize_split(&mut self, path: &[usize], share: Float32)
        ensures
            final(self)@ == old(self)@.split_resized(path@, share),
    {
        self.pane_root.adjust_split_ratio(path, share);
        self.sync_pane_root_to_group();
    }
}

} // verus!
