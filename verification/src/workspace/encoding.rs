//! The encoding of a terminal's text.
use vstd::prelude::*;

use crate::config::{upserted, ConfigFile};
use crate::session::{Session, TextEncoding};
use crate::text::same_text;
use crate::workspace::{find_tab, settings_of, tab_with, Desk, TabKind, TabView, Workspace};

verus! {

/// Whether two encodings are the same.
pub open spec fn encodes_alike(a: TextEncoding, b: TextEncoding) -> bool {
    match (a, b) {
        (TextEncoding::Utf8, TextEncoding::Utf8) => true,
        (TextEncoding::Named(x), TextEncoding::Named(y)) => x@ == y@,
        _ => false,
    }
}

fn same_encoding(a: &TextEncoding, b: &TextEncoding) -> (r: bool)
    ensures
        r == encodes_alike(*a, *b),
{
    match (a, b) {
        (TextEncoding::Utf8, TextEncoding::Utf8) => true,
        (TextEncoding::Named(x), TextEncoding::Named(y)) => same_text(x.as_str(), y.as_str()),
        _ => false,
    }
}

/// A tab with another encoding, which its session keeps too.
pub open spec fn encoded(tab: TabView, encoding: TextEncoding) -> TabView {
    TabView {
        encoding,
        session: match tab.session {
            Some(session) => Some(Session { terminal_encoding: encoding, ..session }),
            None => None,
        },
        ..tab
    }
}

/// The session that is stored because of a change of encoding.
pub open spec fn session_to_store(tab: TabView) -> Option<Session> {
    if tab.kind == TabKind::Ssh {
        tab.session
    } else {
        None
    }
}

/// Whether settings are others with a session stored, if any.
pub open spec fn stores_session(
    after: ConfigFile,
    before: ConfigFile,
    session: Option<Session>,
) -> bool {
    &&& after == (ConfigFile { sessions: after.sessions, ..before })
    &&& match session {
        Some(s) => after.sessions@ == upserted(before.sessions@, s),
        None => after == before,
    }
}

impl Desk {
    /// Whether the encoding of a tab changes to another one.
    pub open spec fn changes_encoding(self, tab_id: Seq<char>, encoding: TextEncoding) -> bool {
        match tab_with(self.tabs, tab_id) {
            Some(tab) => tab.kind != TabKind::Serial && !encodes_alike(tab.encoding, encoding),
            None => false,
        }
    }

    /// A tab has another encoding, and the settings are the given ones.
    pub open spec fn encoding_changed(
        self,
        tab_id: Seq<char>,
        encoding: TextEncoding,
        settings: ConfigFile,
        status: Seq<char>,
    ) -> Desk {
        let tab = encoded(tab_with(self.tabs, tab_id)->0, encoding);
        let changed = Desk { settings, ..self.with_tab(tab_id, tab) };
        if self.remembers() {
            changed.captured().says(status)
        } else {
            changed.says(status)
        }
    }
}

proof fn lemma_stored(before: ConfigFile, after: ConfigFile, session: Session)
    requires
        after == (ConfigFile { sessions: after.sessions, ..before }),
        after.sessions@ == upserted(before.sessions@, session),
    ensures
        stores_session(settings_of(after), settings_of(before), Some(session)),
        after.saved_tabs == before.saved_tabs,
{
    reveal(settings_of);
}

impl Workspace {
    fn store_session(&mut self, session: Option<Session>)
        ensures
            final(self)@ == (Desk { settings: final(self)@.settings, ..old(self)@ }),
            stores_session(final(self)@.settings, old(self)@.settings, session),
    {
        if let Some(session) = session {
            let ghost file = self.config.cache;
            self.config.upsert(session);
            proof {
                lemma_stored(file, self.config.cache, session);
            }
        }
    }

    fn encode_tab(&mut self, tab_id: &str, encoding: TextEncoding) -> (r: Option<Session>)
        requires
            tab_with(old(self)@.tabs, tab_id@) is Some,
        ensures
            ({
                let tab = encoded(tab_with(old(self)@.tabs, tab_id@)->0, encoding);
                &&& final(self)@ == old(self)@.with_tab(tab_id@, tab)
                &&& r == session_to_store(tab)
            }),
    {
        let ghost before = self@;
        let i: usize = match find_tab(&self.tabs, tab_id) {
            Some(i) => i,
            None => {
                return None;
            },
        };
        assert(before.tabs[i as int] == self.tabs@[i as int]@);
        let session: Option<Session> = match &self.tabs[i].session {
            Some(session) => {
                let mut session = session.clone();
                session.terminal_encoding = encoding.clone();
                Some(session)
            },
            None => None,
        };
        let stored: Option<Session> = if self.tabs[i].kind == TabKind::Ssh {
            match &session {
                Some(session) => Some(session.clone()),
                None => None,
            }
        } else {
            None
        };
        self.tabs[i].encoding = encoding;
        self.tabs[i].session = session;
        assert(self@.tabs =~= before.tabs.update(
            i as int,
            encoded(before.tabs[i as int], encoding),
        ));
        stored
    }

    /// Gives a terminal on this machine or over SSH another encoding and says so.
    /// Tells whether the configuration is to be written.
    pub fn set_terminal_encoding(
        &mut self,
        tab_id: &str,
        encoding: TextEncoding,
        status: String,
    ) -> (r: bool)
        ensures
            !old(self)@.changes_encoding(tab_id@, encoding) ==> !r && final(self)@ == old(self)@,
            old(self)@.changes_encoding(tab_id@, encoding) ==> {
                let stored = session_to_store(
                    encoded(tab_with(old(self)@.tabs, tab_id@)->0, encoding),
                );
                &&& stores_session(final(self)@.settings, old(self)@.settings, stored)
                &&& final(self)@ == old(self)@.encoding_changed(
                    tab_id@,
                    encoding,
                    final(self)@.settings,
                    status@,
                )
                &&& r == (stored is Some || old(self)@.remembers())
            },
    {
        let i: usize = match find_tab(&self.tabs, tab_id) {
            Some(i) => i,
            None => {
                return false;
            },
        };
        assert(self@.tabs[i as int] == self.tabs@[i as int]@);
        if self.tabs[i].kind == TabKind::Serial || same_encoding(
            &self.tabs[i].encoding,
            &encoding,
        ) {
            return false;
        }
        let remembers: bool = self.remembers_tabs();
        let stored = self.encode_tab(tab_id, encoding);
        let store: bool = stored.is_some();
        self.store_session(stored);
        if remembers {
            self.capture_tabs_state();
        }
        self.status = status;
        store || remembers
    }
}

} // verus!
