//! Connecting a tab again.
use vstd::prelude::*;

use crate::session::Session;
use crate::text::option_text;
use crate::workspace::{
    find_tab, first_where, is_tab, tab_with, Desk, Effect, EffectView, TabKind, TabView, Workspace,
};
use crate::workspace::following::is_option;
use crate::workspace::opening::joined;
use crate::workspace::saving::{default_local_directory, home_directory};

verus! {

/// What is started when a tab is connected again.
#[derive(Debug)]
pub enum RetrySource {
    /// The tab is not there, is connected, or was never disconnected.
    Nothing,
    /// A session, by the kind of the tab.
    Session { kind: TabKind, session: Session },
    /// A shell, started in a directory.
    Local { cwd: Option<String> },
}

pub enum RetryView {
    Nothing,
    Session { kind: TabKind, session: Session },
    Local { cwd: Option<Seq<char>> },
}

impl View for RetrySource {
    type V = RetryView;

    open spec fn view(&self) -> RetryView {
        match self {
            RetrySource::Nothing => RetryView::Nothing,
            RetrySource::Session { kind, session } => RetryView::Session {
                kind: *kind,
                session: *session,
            },
            RetrySource::Local { cwd } => RetryView::Local { cwd: option_text(*cwd) },
        }
    }
}

impl Desk {
    /// What is started when a tab is connected again.
    pub open spec fn retry_source(self, tab_id: Seq<char>) -> RetryView {
        match tab_with(self.tabs, tab_id) {
            Some(tab) => if tab.connected || tab.disconnected_reason is None {
                RetryView::Nothing
            } else {
                match tab.session {
                    Some(session) => RetryView::Session { kind: tab.kind, session },
                    None => RetryView::Local {
                        cwd: match tab.local_cwd {
                            Some(cwd) => Some(cwd),
                            None => home_directory(self.place),
                        },
                    },
                }
            },
            None => RetryView::Nothing,
        }
    }

    /// With another tab in place of the one with the identifier.
    pub open spec fn with_tab(self, tab_id: Seq<char>, tab: TabView) -> Desk {
        match first_where(self.tabs, is_tab(tab_id)) {
            Some(i) => Desk { tabs: self.tabs.update(i, tab), ..self },
            None => self,
        }
    }

    /// What served a tab before is closed, where the tab is to be connected again.
    pub open spec fn retry_begun(self, tab_id: Seq<char>) -> Desk {
        if self.retry_source(tab_id) is Nothing {
            self
        } else {
            self.asks(EffectView::CloseBackend { tab: tab_id })
        }
    }

    /// A tab is connected again.
    pub open spec fn retried(self, tab_id: Seq<char>, failure: Option<Seq<char>>) -> Desk {
        match self.retry_source(tab_id) {
            RetryView::Nothing => self,
            RetryView::Session { kind, session } => {
                let waiting = self.with_tab(
                    tab_id,
                    TabView {
                        connected: false,
                        status: "connecting"@,
                        disconnected_reason: None,
                        terminal_title_received: false,
                        ..tab_with(self.tabs, tab_id)->0
                    },
                );
                if kind == TabKind::Ssh && self.active_tab == Some(tab_id) {
                    waiting.files_bound(true).says("ssh tab retrying"@)
                } else {
                    waiting.says("ssh tab retrying"@)
                }
            },
            RetryView::Local { cwd } => match failure {
                Some(reason) => self.says("failed to reopen local terminal: "@ + reason),
                None => self.with_tab(
                    tab_id,
                    TabView {
                        connected: true,
                        status: "local shell"@,
                        disconnected_reason: None,
                        local_cwd: cwd,
                        ..tab_with(self.tabs, tab_id)->0
                    },
                ).says("local tab reopened"@),
            },
        }
    }
}

impl Workspace {
    /// What is to be started to connect a tab again.
    pub fn retry_plan(&self, tab_id: &str) -> (r: RetrySource)
        ensures
            r@ == self@.retry_source(tab_id@),
    {
        let tab = match find_tab(&self.tabs, tab_id) {
            Some(i) => {
                assert(self@.tabs[i as int] == self.tabs@[i as int]@);
                &self.tabs[i]
            },
            None => {
                return RetrySource::Nothing;
            },
        };
        if tab.connected || tab.disconnected_reason.is_none() {
            return RetrySource::Nothing;
        }
        match &tab.session {
            Some(session) => RetrySource::Session { kind: tab.kind, session: session.clone() },
            None => RetrySource::Local {
                cwd: match &tab.local_cwd {
                    Some(cwd) => Some(cwd.clone()),
                    None => default_local_directory(&self.place),
                },
            },
        }
    }

    /// Begins to connect a tab again: what served it before is closed, and what is
    /// to be started in its place is given.
    pub fn begin_retry(&mut self, tab_id: &str) -> (r: RetrySource)
        ensures
            r@ == old(self)@.retry_source(tab_id@),
            final(self)@ == old(self)@.retry_begun(tab_id@),
    {
        let plan = self.retry_plan(tab_id);
        match plan {
            RetrySource::Nothing => {},
            _ => {
                self.ask(Effect::CloseBackend { tab_id: tab_id.to_string() });
            },
        }
        plan
    }

    /// Notes that a tab is connected again; `failure` says why a local one is not.
    pub fn retry_disconnected_tab(&mut self, tab_id: &str, failure: Option<String>)
        ensures
            final(self)@ == old(self)@.retried(tab_id@, option_text(failure)),
    {
        let ghost before = self@;
        let plan = self.retry_plan(tab_id);
        let i: usize = match find_tab(&self.tabs, tab_id) {
            Some(i) => i,
            None => {
                return ;
            },
        };
        assert(before.tabs[i as int] == self.tabs@[i as int]@);
        match plan {
            RetrySource::Nothing => {},
            RetrySource::Session { kind, session } => {
                self.tabs[i].connected = false;
                self.tabs[i].status = "connecting".to_string();
                self.tabs[i].disconnected_reason = None;
                self.tabs[i].terminal_title_received = false;
                assert(self@.tabs =~= before.tabs.update(
                    i as int,
                    TabView {
                        connected: false,
                        status: "connecting"@,
                        disconnected_reason: None,
                        terminal_title_received: false,
                        ..before.tabs[i as int]
                    },
                ));
                if kind == TabKind::Ssh && is_option(&self.active_tab, tab_id) {
                    self.restart_active_sftp();
                }
                self.status = "ssh tab retrying".to_string();
            },
            RetrySource::Local { cwd } => {
                match failure {
                    Some(reason) => {
                        self.status = joined(
                            "failed to reopen local terminal: ",
                            reason.as_str(),
                        );
                    },
                    None => {
                        assert(before.tabs[i as int] == self.tabs@[i as int]@) by {
                            assert(self@.tabs[i as int] == self.tabs@[i as int]@);
                        }
                        self.tabs[i].connected = true;
                        self.tabs[i].status = "local shell".to_string();
                        self.tabs[i].disconnected_reason = None;
                        self.tabs[i].local_cwd = cwd;
                        assert(self@.tabs =~= before.tabs.update(
                            i as int,
                            TabView {
                                connected: true,
                                status: "local shell"@,
                                disconnected_reason: None,
                                local_cwd: option_text(cwd),
                                ..before.tabs[i as int]
                            },
                        ));
                        self.status = "local tab reopened".to_string();
                    },
                }
            },
        }
    }
}

/// To begin a retry changes nothing of what is to be started, nor of any tab.
pub proof fn beginning_a_retry_keeps_its_source(desk: Desk, tab_id: Seq<char>)
    ensures
        desk.retry_begun(tab_id).retry_source(tab_id) == desk.retry_source(tab_id),
        desk.retry_begun(tab_id).tabs == desk.tabs,
{
}

} // verus!
