//! The configuration: what it holds, what it holds at first, and how it is read
//! and changed.
use vstd::prelude::*;

use crate::history::{
    commands_of, forget_command, history_listing, history_rows, history_view, normalize_history,
    normalized_history, record_command, recording_changes, row_views, with_command,
};
use crate::number::Float32;
use crate::saved::{CursorStyle, SavedTabsState, SavedWindowBounds, TitleBarStyle};
use crate::session::{new_id, Session};
use crate::text::{same_text, trim};
use crate::text_map::{lists_keys, TextMap};

verus! {

/// What the program remembers.
#[derive(Debug, Clone)]
pub struct ConfigFile {
    pub follow_system_theme: bool,
    pub theme_mode: String,
    pub light_theme_name: String,
    pub dark_theme_name: String,
    pub locale: String,
    /// The size of the terminal's letters.
    pub terminal_font_size: Float32,
    pub ui_font_size: Float32,
    pub right_click_copy_paste: bool,
    pub keyword_highlight: bool,
    pub ui_font_family: String,
    pub terminal_font_family: String,
    pub title_bar_style: TitleBarStyle,
    pub cursor_style: CursorStyle,
    /// The saved connections.
    pub sessions: Vec<Session>,
    /// The commands of each session, by its identifier.
    pub command_history: TextMap<Vec<String>>,
    pub command_history_revision: u64,
    pub remember_tabs: bool,
    pub saved_tabs: Option<SavedTabsState>,
    pub window_bounds: Option<SavedWindowBounds>,
    pub workspace_panels: Option<Vec<Float32>>,
    pub body_panels: Option<Vec<Float32>>,
    pub sftp_tree_panels: Option<Vec<Float32>>,
    pub sftp_file_columns: Option<Vec<Float32>>,
    pub sftp_file_columns_customized: bool,
    /// The transfers, each as its stored text.
    pub transfers: Vec<String>,
    pub show_hidden_files: bool,
    pub lock_layout: bool,
    pub monitoring_position: String,
    pub sidebar_collapsed: bool,
    pub sftp_panel_minimized: bool,
    pub key_bindings: TextMap<String>,
    pub sync_endpoint: String,
    pub sync_username: String,
    pub sync_etag: Option<String>,
    pub sync_device_id: String,
    pub sync_backend: String,
    pub sync_etag_backend: String,
    pub sync_s3_endpoint: String,
    pub sync_s3_region: String,
    pub sync_s3_bucket: String,
    pub sync_s3_object_key: String,
    pub use_proxy: bool,
    pub read_env_proxy: bool,
    pub global_proxy_type: String,
    pub global_proxy_host: String,
    pub global_proxy_port: Option<u16>,
    pub global_proxy_user: String,
    pub global_proxy_password: String,
}

pub fn default_read_env_proxy() -> (r: bool)
    ensures
        r == true,
{
    true
}

pub fn default_global_proxy_type() -> (r: String)
    ensures
        r@ == "socks5"@,
{
    "socks5".to_owned()
}

pub fn default_monitoring_position() -> (r: String)
    ensures
        r@ == "Sidebar"@,
{
    "Sidebar".to_owned()
}

pub fn default_s3_region() -> (r: String)
    ensures
        r@ == "us-east-1"@,
{
    "us-east-1".to_owned()
}

pub fn default_s3_object_key() -> (r: String)
    ensures
        r@ == "ashell-sync.json"@,
{
    "ashell-sync.json".to_owned()
}

pub fn default_follow_system_theme() -> (r: bool)
    ensures
        r == true,
{
    true
}

pub fn default_locale() -> (r: String)
    ensures
        r@ == "system"@,
{
    "system".to_owned()
}

/// The name that stands for the system's own font.
pub fn default_ui_font_family() -> (r: String)
    ensures
        r@ == ".SystemUIFont"@,
{
    ".SystemUIFont".to_owned()
}

pub fn default_terminal_font_family() -> (r: String)
    ensures
        r@ == "Maple Mono NF CN"@,
{
    "Maple Mono NF CN".to_owned()
}

/// Eighteen.
pub fn default_terminal_font_size() -> (r: Float32)
    ensures
        r.bits == 0x4190_0000,
{
    Float32 { bits: 0x4190_0000 }
}

/// Fourteen.
pub fn default_ui_font_size() -> (r: Float32)
    ensures
        r.bits == 0x4160_0000,
{
    Float32 { bits: 0x4160_0000 }
}

impl ConfigFile {
    /// Whether this is what the configuration holds at first.
    pub open spec fn initial(self) -> bool {
        &&& self.follow_system_theme
        &&& self.theme_mode@ == Seq::<char>::empty()
        &&& self.light_theme_name@ == Seq::<char>::empty()
        &&& self.dark_theme_name@ == Seq::<char>::empty()
        &&& self.locale@ == "system"@
        &&& self.terminal_font_size == (Float32 { bits: 0x4190_0000 })
        &&& self.ui_font_size == (Float32 { bits: 0x4160_0000 })
        &&& !self.right_click_copy_paste
        &&& !self.keyword_highlight
        &&& self.ui_font_family@ == ".SystemUIFont"@
        &&& self.terminal_font_family@ == "Maple Mono NF CN"@
        &&& self.title_bar_style == TitleBarStyle::Integrated
        &&& self.cursor_style == CursorStyle::Default
        &&& self.sessions@ == Seq::<Session>::empty()
        &&& self.command_history@ == Map::<Seq<char>, Vec<String>>::empty()
        &&& self.command_history_revision == 0
        &&& !self.remember_tabs
        &&& self.saved_tabs is None
        &&& self.window_bounds is None
        &&& self.workspace_panels is None
        &&& self.body_panels is None
        &&& self.sftp_tree_panels is None
        &&& self.sftp_file_columns is None
        &&& !self.sftp_file_columns_customized
        &&& self.transfers@ == Seq::<String>::empty()
        &&& !self.show_hidden_files
        &&& !self.lock_layout
        &&& self.monitoring_position@ == "Sidebar"@
        &&& !self.sidebar_collapsed
        &&& !self.sftp_panel_minimized
        &&& self.key_bindings@ == Map::<Seq<char>, String>::empty()
        &&& self.sync_endpoint@ == Seq::<char>::empty()
        &&& self.sync_username@ == Seq::<char>::empty()
        &&& self.sync_etag is None
        &&& self.sync_device_id@ == Seq::<char>::empty()
        &&& self.sync_backend@ == Seq::<char>::empty()
        &&& self.sync_etag_backend@ == Seq::<char>::empty()
        &&& self.sync_s3_endpoint@ == Seq::<char>::empty()
        &&& self.sync_s3_region@ == "us-east-1"@
        &&& self.sync_s3_bucket@ == Seq::<char>::empty()
        &&& self.sync_s3_object_key@ == "ashell-sync.json"@
        &&& !self.use_proxy
        &&& self.read_env_proxy
        &&& self.global_proxy_type@ == "socks5"@
        &&& self.global_proxy_host@ == Seq::<char>::empty()
        &&& self.global_proxy_port is None
        &&& self.global_proxy_user@ == Seq::<char>::empty()
        &&& self.global_proxy_password@ == Seq::<char>::empty()
    }
}

impl Default for ConfigFile {
    fn default() -> (r: Self)
        ensures
            r.initial(),
    {
        ConfigFile {
            follow_system_theme: default_follow_system_theme(),
            theme_mode: String::new(),
            light_theme_name: String::new(),
            dark_theme_name: String::new(),
            locale: default_locale(),
            terminal_font_size: default_terminal_font_size(),
            ui_font_size: default_ui_font_size(),
            right_click_copy_paste: false,
            keyword_highlight: false,
            ui_font_family: default_ui_font_family(),
            terminal_font_family: default_terminal_font_family(),
            title_bar_style: TitleBarStyle::Integrated,
            cursor_style: CursorStyle::Default,
            sessions: Vec::new(),
            command_history: TextMap::new(),
            command_history_revision: 0,
            remember_tabs: false,
            saved_tabs: None,
            window_bounds: None,
            workspace_panels: None,
            body_panels: None,
            sftp_tree_panels: None,
            sftp_file_columns: None,
            sftp_file_columns_customized: false,
            transfers: Vec::new(),
            show_hidden_files: false,
            lock_layout: false,
            monitoring_position: default_monitoring_position(),
            sidebar_collapsed: false,
            sftp_panel_minimized: false,
            key_bindings: TextMap::new(),
            sync_endpoint: String::new(),
            sync_username: String::new(),
            sync_etag: None,
            sync_device_id: String::new(),
            sync_backend: String::new(),
            sync_etag_backend: String::new(),
            sync_s3_endpoint: String::new(),
            sync_s3_region: default_s3_region(),
            sync_s3_bucket: String::new(),
            sync_s3_object_key: default_s3_object_key(),
            use_proxy: false,
            read_env_proxy: default_read_env_proxy(),
            global_proxy_type: default_global_proxy_type(),
            global_proxy_host: String::new(),
            global_proxy_port: None,
            global_proxy_user: String::new(),
            global_proxy_password: String::new(),
        }
    }
}

/// Two configurations merged: the preferences of the local one; the sessions,
/// the transfers and the settings of the synchronisation of the one on disk; and
/// the command history of the local one unless the other is more recent.
pub open spec fn merged(disk: ConfigFile, local: ConfigFile) -> ConfigFile {
    let recent = if local.command_history_revision >= disk.command_history_revision {
        local
    } else {
        disk
    };
    ConfigFile {
        command_history: recent.command_history,
        command_history_revision: recent.command_history_revision,
        sessions: disk.sessions,
        transfers: disk.transfers,
        sync_endpoint: disk.sync_endpoint,
        sync_username: disk.sync_username,
        sync_etag: disk.sync_etag,
        sync_device_id: disk.sync_device_id,
        sync_backend: disk.sync_backend,
        sync_etag_backend: disk.sync_etag_backend,
        sync_s3_endpoint: disk.sync_s3_endpoint,
        sync_s3_region: disk.sync_s3_region,
        sync_s3_bucket: disk.sync_s3_bucket,
        sync_s3_object_key: disk.sync_s3_object_key,
        ..local
    }
}

/// Merges the preferences of a running program into the configuration on disk.
pub fn merge_preferences(disk: ConfigFile, local: ConfigFile) -> (r: ConfigFile)
    ensures
        r == merged(disk, local),
{
    let mut merged = local;
    if merged.command_history_revision < disk.command_history_revision {
        merged.command_history = disk.command_history;
        merged.command_history_revision = disk.command_history_revision;
    }
    merged.sessions = disk.sessions;
    merged.transfers = disk.transfers;
    merged.sync_endpoint = disk.sync_endpoint;
    merged.sync_username = disk.sync_username;
    merged.sync_etag = disk.sync_etag;
    merged.sync_device_id = disk.sync_device_id;
    merged.sync_backend = disk.sync_backend;
    merged.sync_etag_backend = disk.sync_etag_backend;
    merged.sync_s3_endpoint = disk.sync_s3_endpoint;
    merged.sync_s3_region = disk.sync_s3_region;
    merged.sync_s3_bucket = disk.sync_s3_bucket;
    merged.sync_s3_object_key = disk.sync_s3_object_key;
    merged
}

/// The position of the first session with the identifier, or the number of
/// sessions where there is none.
pub open spec fn session_index(sessions: Seq<Session>, id: Seq<char>) -> nat
    decreases sessions.len(),
{
    if sessions.len() == 0 || sessions[0].id@ == id {
        0
    } else {
        1 + session_index(sessions.skip(1), id)
    }
}

/// The sessions without those with the identifier.
pub open spec fn sessions_without(sessions: Seq<Session>, id: Seq<char>) -> Seq<Session> {
    sessions.filter(|s: Session| s.id@ != id)
}

/// The sessions with the given one in place of the one with its identifier, or
/// at the end.
pub open spec fn upserted(sessions: Seq<Session>, session: Session) -> Seq<Session> {
    let i = session_index(sessions, session.id@);
    if i < sessions.len() {
        sessions.update(i as int, session)
    } else {
        sessions.push(session)
    }
}

/// The session with the identifier.
pub open spec fn session_with(sessions: Seq<Session>, id: Seq<char>) -> Option<Session> {
    let i = session_index(sessions, id);
    if i < sessions.len() {
        Some(sessions[i as int])
    } else {
        None
    }
}

/// The revision after a change, which stays at its largest value.
pub open spec fn next_revision(revision: u64) -> u64 {
    if revision == u64::MAX {
        revision
    } else {
        (revision + 1) as u64
    }
}

fn next_revision_of(revision: u64) -> (r: u64)
    ensures
        r == next_revision(revision),
{
    if revision == u64::MAX {
        revision
    } else {
        revision + 1
    }
}

proof fn lemma_session_index(sessions: Seq<Session>, id: Seq<char>, i: int)
    requires
        0 <= i <= sessions.len(),
        forall|k: int| 0 <= k < i ==> (#[trigger] sessions[k]).id@ != id,
        i < sessions.len() ==> sessions[i].id@ == id,
    ensures
        session_index(sessions, id) == i,
    decreases sessions.len(),
{
    if i > 0 {
        assert(sessions[0].id@ != id);
        assert forall|k: int| 0 <= k < i - 1 implies (#[trigger] sessions.skip(1)[k]).id@ != id by {
            assert(sessions[k + 1].id@ != id);
        }
        lemma_session_index(sessions.skip(1), id, i - 1);
    }
}

pub proof fn lemma_session_index_bound(sessions: Seq<Session>, id: Seq<char>)
    ensures
        session_index(sessions, id) <= sessions.len(),
        session_index(sessions, id) < sessions.len() ==> sessions[session_index(
            sessions,
            id,
        ) as int].id@ == id,
        forall|k: int|
            0 <= k < session_index(sessions, id) ==> (#[trigger] sessions[k]).id@ != id,
    decreases sessions.len(),
{
    if sessions.len() > 0 && sessions[0].id@ != id {
        lemma_session_index_bound(sessions.skip(1), id);
        let rest = sessions.skip(1);
        assert forall|k: int| 0 <= k < session_index(sessions, id) implies (
        #[trigger] sessions[k]).id@ != id by {
            if k > 0 {
                assert(rest[k - 1].id@ != id);
            }
        }
    }
}

/// The position of the first session with the identifier, or the number of
/// sessions.
pub fn find_session(sessions: &[Session], id: &str) -> (r: usize)
    ensures
        r == session_index(sessions@, id@),
        r <= sessions@.len(),
{
    let mut i: usize = 0;
    while i < sessions.len() && !same_text(sessions[i].id.as_str(), id)
        invariant
            i <= sessions.len(),
            forall|k: int| 0 <= k < i ==> (#[trigger] sessions@[k]).id@ != id@,
        decreases sessions.len() - i,
    {
        i += 1;
    }
    proof {
        lemma_session_index(sessions@, id@, i as int);
    }
    i
}

/// The configuration of a running program.
#[derive(Debug, Clone)]
pub struct ConfigStore {
    pub cache: ConfigFile,
}

impl ConfigStore {
    /// A configuration that is kept nowhere: the one at first, with a new
    /// identifier for the device.
    pub fn in_memory() -> (r: ConfigStore)
        ensures
            r.cache.sync_device_id@.len() == 36,
            exists|first: ConfigFile| #[trigger]
                first.initial() && r.cache == (ConfigFile {
                    sync_device_id: r.cache.sync_device_id,
                    ..first
                }),
    {
        let mut cache = ConfigFile::default();
        let ghost first = cache;
        cache.sync_device_id = new_id();
        assert(first.initial());
        ConfigStore { cache }
    }

    pub fn sessions(&self) -> (r: &[Session])
        ensures
            r@ == self.cache.sessions@,
    {
        self.cache.sessions.as_slice()
    }

    pub fn replace_sessions(&mut self, sessions: Vec<Session>)
        ensures
            final(self).cache == (ConfigFile { sessions, ..old(self).cache }),
    {
        self.cache.sessions = sessions;
    }

    /// The commands of all sessions: the sessions in the order of their
    /// identifiers, and the commands of each with the newest first.
    pub fn all_command_history(&self) -> (r: Vec<(String, usize, String)>)
        ensures
            exists|ids: Seq<Seq<char>>| #[trigger]
                lists_keys(ids, self.cache.command_history@) && row_views(r@) == history_rows(
                    ids,
                    history_view(self.cache.command_history@),
                ),
    {
        history_listing(&self.cache.command_history)
    }

    /// Whether everything but the command history and its revision is the same.
    pub open spec fn same_but_history(self, other: ConfigStore) -> bool {
        self.cache == (ConfigFile {
            command_history: self.cache.command_history,
            command_history_revision: self.cache.command_history_revision,
            ..other.cache
        })
    }

    /// Records that a command was run in the session. True means that this
    /// changed the history, and then its revision grows.
    pub fn add_command_history(&mut self, session_id: &str, command: String) -> (r: bool)
        ensures
            final(self).same_but_history(*old(self)),
            trim(command@).len() == 0 ==> !r && *final(self) == *old(self),
            trim(command@).len() > 0 ==> {
                let before = history_view(old(self).cache.command_history@);
                let commands = commands_of(before, session_id@);
                &&& history_view(final(self).cache.command_history@) == before.insert(
                    session_id@,
                    with_command(commands, trim(command@)),
                )
                &&& r == recording_changes(commands, trim(command@))
            },
            final(self).cache.command_history_revision == (if r {
                next_revision(old(self).cache.command_history_revision)
            } else {
                old(self).cache.command_history_revision
            }),
    {
        let changed = record_command(&mut self.cache.command_history, session_id, command);
        if changed {
            self.cache.command_history_revision = next_revision_of(
                self.cache.command_history_revision,
            );
        }
        changed
    }

    /// Brings the history into the form in which it is kept; where this changes
    /// it, its revision grows.
    pub fn normalize_command_history(&mut self)
        ensures
            final(self).same_but_history(*old(self)),
            ({
                let before = history_view(old(self).cache.command_history@);
                &&& history_view(final(self).cache.command_history@) == normalized_history(before)
                &&& final(self).cache.command_history_revision == (if normalized_history(before)
                    != before {
                    next_revision(old(self).cache.command_history_revision)
                } else {
                    old(self).cache.command_history_revision
                })
            }),
    {
        let changed = normalize_history(&mut self.cache.command_history);
        if changed {
            self.cache.command_history_revision = next_revision_of(
                self.cache.command_history_revision,
            );
        }
    }

    /// Takes one command out of the session's history. True means that there
    /// was such a command, and then the revision grows.
    pub fn remove_command_history(&mut self, session_id: &str, index: usize) -> (r: bool)
        ensures
            final(self).same_but_history(*old(self)),
            ({
                let before = history_view(old(self).cache.command_history@);
                let after = history_view(final(self).cache.command_history@);
                let commands = commands_of(before, session_id@);
                &&& r == (index < commands.len())
                &&& !r ==> after == before
                &&& r && commands.len() == 1 ==> after == before.remove(session_id@)
                &&& r && commands.len() > 1 ==> after == before.insert(
                    session_id@,
                    commands.remove(index as int),
                )
            }),
            final(self).cache.command_history_revision == (if r {
                next_revision(old(self).cache.command_history_revision)
            } else {
                old(self).cache.command_history_revision
            }),
    {
        let removed = forget_command(&mut self.cache.command_history, session_id, index);
        if removed {
            self.cache.command_history_revision = next_revision_of(
                self.cache.command_history_revision,
            );
        }
        removed
    }

    /// The session with the identifier, the first where there are several.
    pub fn get(&self, id: &str) -> (r: Option<&Session>)
        ensures
            match r {
                Some(session) => session_with(self.cache.sessions@, id@) == Some(*session),
                None => session_with(self.cache.sessions@, id@) is None,
            },
    {
        let i = find_session(self.cache.sessions.as_slice(), id);
        if i < self.cache.sessions.len() {
            Some(&self.cache.sessions[i])
        } else {
            None
        }
    }

    /// Puts the session in place of the one with its identifier, or at the end.
    pub fn upsert(&mut self, session: Session)
        ensures
            final(self).cache == (ConfigFile {
                sessions: final(self).cache.sessions,
                ..old(self).cache
            }),
            final(self).cache.sessions@ == upserted(old(self).cache.sessions@, session),
    {
        let i = find_session(self.cache.sessions.as_slice(), session.id.as_str());
        if i < self.cache.sessions.len() {
            self.cache.sessions[i] = session;
        } else {
            self.cache.sessions.push(session);
        }
    }

    /// Takes the sessions with the identifier out, and their command history.
    pub fn remove(&mut self, id: &str)
        ensures
            final(self).cache == (ConfigFile {
                sessions: final(self).cache.sessions,
                command_history: final(self).cache.command_history,
                command_history_revision: final(self).cache.command_history_revision,
                ..old(self).cache
            }),
            final(self).cache.sessions@ == sessions_without(old(self).cache.sessions@, id@),
            final(self).cache.command_history@ == old(self).cache.command_history@.remove(id@),
            final(self).cache.command_history_revision == (if old(
                self,
            ).cache.command_history@.contains_key(id@) {
                next_revision(old(self).cache.command_history_revision)
            } else {
                old(self).cache.command_history_revision
            }),
    {
        let mut kept: Vec<Session> = Vec::new();
        let ghost all = self.cache.sessions@;
        let mut i: usize = 0;
        proof {
            reveal(Seq::filter);
        }
        assert(kept@ =~= sessions_without(all.take(0), id@));
        while i < self.cache.sessions.len()
            invariant
                i <= self.cache.sessions@.len(),
                *self == *old(self),
                all == self.cache.sessions@,
                kept@ == sessions_without(all.take(i as int), id@),
            decreases self.cache.sessions.len() - i,
        {
            proof {
                reveal(Seq::filter);
            }
            assert(all.take(i + 1).drop_last() =~= all.take(i as int));
            assert(all.take(i + 1).last() == all[i as int]);
            if !same_text(self.cache.sessions[i].id.as_str(), id) {
                kept.push(self.cache.sessions[i].clone());
            }
            i += 1;
        }
        assert(all.take(i as int) =~= all);
        self.cache.sessions = kept;
        if self.cache.command_history.remove(id).is_some() {
            self.cache.command_history_revision = next_revision_of(
                self.cache.command_history_revision,
            );
        }
    }

    /// The kind of store with which the configuration is synchronised.
    pub open spec fn backend(self) -> Seq<char> {
        if self.cache.sync_backend@ == "s3"@ {
            "s3"@
        } else {
            "webdav"@
        }
    }

    pub fn sync_backend(&self) -> (r: &str)
        ensures
            r@ == self.backend(),
    {
        if same_text(self.cache.sync_backend.as_str(), "s3") {
            "s3"
        } else {
            "webdav"
        }
    }

    pub fn set_sync_backend(&mut self, backend: &str)
        ensures
            final(self).cache == (ConfigFile {
                sync_backend: final(self).cache.sync_backend,
                ..old(self).cache
            }),
            final(self).cache.sync_backend@ == (if backend@ == "s3"@ {
                "s3"@
            } else {
                "webdav"@
            }),
    {
        self.cache.sync_backend = if same_text(backend, "s3") {
            "s3".to_owned()
        } else {
            "webdav".to_owned()
        };
    }

    /// The mark of the version that was synchronised last, where it comes from
    /// the store that is in use.
    pub fn sync_etag(&self) -> (r: Option<&str>)
        ensures
            match r {
                Some(t) => self.cache.sync_etag_backend@ == self.backend()
                    && self.cache.sync_etag is Some && t@ == self.cache.sync_etag.unwrap()@,
                None => self.cache.sync_etag_backend@ != self.backend()
                    || self.cache.sync_etag is None,
            },
    {
        if !same_text(self.cache.sync_etag_backend.as_str(), self.sync_backend()) {
            return None;
        }
        match &self.cache.sync_etag {
            Some(t) => Some(t.as_str()),
            None => None,
        }
    }

    /// Notes the mark of the version that was synchronised with the store that
    /// is in use.
    pub fn set_sync_etag(&mut self, etag: Option<String>)
        ensures
            final(self).cache == (ConfigFile {
                sync_etag: etag,
                sync_etag_backend: final(self).cache.sync_etag_backend,
                ..old(self).cache
            }),
            final(self).cache.sync_etag_backend@ == old(self).backend(),
    {
        let backend = self.sync_backend().to_owned();
        self.cache.sync_etag = etag;
        self.cache.sync_etag_backend = backend;
    }

    pub fn set_sync_connection(&mut self, endpoint: String, username: String)
        ensures
            final(self).cache == (ConfigFile {
                sync_endpoint: endpoint,
                sync_username: username,
                ..old(self).cache
            }),
    {
        self.cache.sync_endpoint = endpoint;
        self.cache.sync_username = username;
    }

    pub fn set_sync_s3_connection(
        &mut self,
        endpoint: String,
        region: String,
        bucket: String,
        object_key: String,
    )
        ensures
            final(self).cache == (ConfigFile {
                sync_s3_endpoint: endpoint,
                sync_s3_region: region,
                sync_s3_bucket: bucket,
                sync_s3_object_key: object_key,
                ..old(self).cache
            }),
    {
        self.cache.sync_s3_endpoint = endpoint;
        self.cache.sync_s3_region = region;
        self.cache.sync_s3_bucket = bucket;
        self.cache.sync_s3_object_key = object_key;
    }

    pub fn set_theme_preferences(
        &mut self,
        follow_system_theme: bool,
        theme_mode: String,
        light_theme_name: String,
        dark_theme_name: String,
    )
        ensures
            final(self).cache == (ConfigFile {
                follow_system_theme,
                theme_mode,
                light_theme_name,
                dark_theme_name,
                ..old(self).cache
            }),
    {
        self.cache.follow_system_theme = follow_system_theme;
        self.cache.theme_mode = theme_mode;
        self.cache.light_theme_name = light_theme_name;
        self.cache.dark_theme_name = dark_theme_name;
    }

    pub fn key_bindings(&self) -> (r: &TextMap<String>)
        ensures
            *r == self.cache.key_bindings,
    {
        &self.cache.key_bindings
    }

    /// Binds the action to the keystroke.
    pub fn set_key_binding(&mut self, action_name: &str, keystroke: &str)
        ensures
            final(self).cache == (ConfigFile {
                key_bindings: final(self).cache.key_bindings,
                ..old(self).cache
            }),
            final(self).cache.key_bindings@.contains_key(action_name@),
            final(self).cache.key_bindings@[action_name@]@ == keystroke@,
            final(self).cache.key_bindings@ == old(self).cache.key_bindings@.insert(
                action_name@,
                final(self).cache.key_bindings@[action_name@],
            ),
    {
        self.cache.key_bindings.insert(action_name.to_owned(), keystroke.to_owned());
    }

    /// A size as it is used: one that is not above zero counts as not set.
    pub open spec fn size_or(size: Float32, fallback: Float32) -> Float32 {
        if !size.nan() && size.place() <= 0 {
            fallback
        } else {
            size
        }
    }

    pub fn terminal_font_size(&self) -> (r: Float32)
        ensures
            r == Self::size_or(
                self.cache.terminal_font_size,
                (Float32 { bits: 0x4190_0000 }),
            ),
    {
        if self.cache.terminal_font_size.not_above_zero() {
            default_terminal_font_size()
        } else {
            self.cache.terminal_font_size
        }
    }

    /// Sets the size of the terminal's letters, to ten at least.
    pub fn set_terminal_font_size(&mut self, terminal_font_size: Float32)
        ensures
            final(self).cache == (ConfigFile {
                terminal_font_size: terminal_font_size.at_least((Float32 { bits: 0x4120_0000 })),
                ..old(self).cache
            }),
    {
        self.cache.terminal_font_size = terminal_font_size.max(Float32 { bits: 0x4120_0000 });
    }

    pub fn ui_font_size(&self) -> (r: Float32)
        ensures
            r == Self::size_or(self.cache.ui_font_size, (Float32 { bits: 0x4160_0000 })),
    {
        if self.cache.ui_font_size.not_above_zero() {
            default_ui_font_size()
        } else {
            self.cache.ui_font_size
        }
    }

    /// Sets the size of the window's letters, to eight at least.
    pub fn set_ui_font_size(&mut self, ui_font_size: Float32)
        ensures
            final(self).cache == (ConfigFile {
                ui_font_size: ui_font_size.at_least((Float32 { bits: 0x4100_0000 })),
                ..old(self).cache
            }),
    {
        self.cache.ui_font_size = ui_font_size.max(Float32 { bits: 0x4100_0000 });
    }

    /// Remembers the open tabs from now on, or forgets them.
    pub fn set_remember_tabs(&mut self, remember_tabs: bool)
        ensures
            final(self).cache == (ConfigFile {
                remember_tabs,
                saved_tabs: (if remember_tabs {
                    old(self).cache.saved_tabs
                } else {
                    None
                }),
                ..old(self).cache
            }),
    {
        self.cache.remember_tabs = remember_tabs;
        if !remember_tabs {
            self.cache.saved_tabs = None;
        }
    }

    pub fn saved_tabs(&self) -> (r: Option<&SavedTabsState>)
        ensures
            match r {
                Some(tabs) => self.cache.saved_tabs == Some(*tabs),
                None => self.cache.saved_tabs is None,
            },
    {
        self.cache.saved_tabs.as_ref()
    }

    pub fn window_bounds(&self) -> (r: Option<&SavedWindowBounds>)
        ensures
            match r {
                Some(bounds) => self.cache.window_bounds == Some(*bounds),
                None => self.cache.window_bounds is None,
            },
    {
        self.cache.window_bounds.as_ref()
    }

    pub fn set_layout_state(
        &mut self,
        window_bounds: Option<SavedWindowBounds>,
        workspace_panels: Option<Vec<Float32>>,
        body_panels: Option<Vec<Float32>>,
    )
        ensures
            final(self).cache == (ConfigFile {
                window_bounds,
                workspace_panels,
                body_panels,
                ..old(self).cache
            }),
    {
        self.cache.window_bounds = window_bounds;
        self.cache.workspace_panels = workspace_panels;
        self.cache.body_panels = body_panels;
    }

    pub fn transfers(&self) -> (r: Vec<String>)
        ensures
            r@ == self.cache.transfers@,
    {
        let r = self.cache.transfers.clone();
        assert(r@ =~= self.cache.transfers@);
        r
    }

    pub fn sync_endpoint(&self) -> (r: &str)
        ensures
            r@ == self.cache.sync_endpoint@,
    {
        self.cache.sync_endpoint.as_str()
    }

    pub fn sync_username(&self) -> (r: &str)
        ensures
            r@ == self.cache.sync_username@,
    {
        self.cache.sync_username.as_str()
    }

    pub fn sync_device_id(&self) -> (r: &str)
        ensures
            r@ == self.cache.sync_device_id@,
    {
        self.cache.sync_device_id.as_str()
    }

    pub fn sync_s3_endpoint(&self) -> (r: &str)
        ensures
            r@ == self.cache.sync_s3_endpoint@,
    {
        self.cache.sync_s3_endpoint.as_str()
    }

    pub fn sync_s3_bucket(&self) -> (r: &str)
        ensures
            r@ == self.cache.sync_s3_bucket@,
    {
        self.cache.sync_s3_bucket.as_str()
    }

    pub fn theme_mode(&self) -> (r: &str)
        ensures
            r@ == self.cache.theme_mode@,
    {
        self.cache.theme_mode.as_str()
    }

    pub fn light_theme_name(&self) -> (r: &str)
        ensures
            r@ == self.cache.light_theme_name@,
    {
        self.cache.light_theme_name.as_str()
    }

    pub fn dark_theme_name(&self) -> (r: &str)
        ensures
            r@ == self.cache.dark_theme_name@,
    {
        self.cache.dark_theme_name.as_str()
    }

    pub fn global_proxy_type(&self) -> (r: &str)
        ensures
            r@ == self.cache.global_proxy_type@,
    {
        self.cache.global_proxy_type.as_str()
    }

    pub fn global_proxy_host(&self) -> (r: &str)
        ensures
            r@ == self.cache.global_proxy_host@,
    {
        self.cache.global_proxy_host.as_str()
    }

    pub fn global_proxy_user(&self) -> (r: &str)
        ensures
            r@ == self.cache.global_proxy_user@,
    {
        self.cache.global_proxy_user.as_str()
    }

    pub fn global_proxy_password(&self) -> (r: &str)
        ensures
            r@ == self.cache.global_proxy_password@,
    {
        self.cache.global_proxy_password.as_str()
    }

    pub fn sync_s3_region(&self) -> (r: &str)
        ensures
            r@ == (if self.cache.sync_s3_region@.len() == 0 {
                "us-east-1"@
            } else {
                self.cache.sync_s3_region@
            }),
    {
        if self.cache.sync_s3_region.as_str().is_empty() {
            "us-east-1"
        } else {
            self.cache.sync_s3_region.as_str()
        }
    }

    pub fn sync_s3_object_key(&self) -> (r: &str)
        ensures
            r@ == (if self.cache.sync_s3_object_key@.len() == 0 {
                "ashell-sync.json"@
            } else {
                self.cache.sync_s3_object_key@
            }),
    {
        if self.cache.sync_s3_object_key.as_str().is_empty() {
            "ashell-sync.json"
        } else {
            self.cache.sync_s3_object_key.as_str()
        }
    }

    pub fn locale(&self) -> (r: &str)
        ensures
            r@ == (if self.cache.locale@.len() == 0 {
                "system"@
            } else {
                self.cache.locale@
            }),
    {
        if self.cache.locale.as_str().is_empty() {
            "system"
        } else {
            self.cache.locale.as_str()
        }
    }

    pub fn monitoring_position(&self) -> (r: &str)
        ensures
            r@ == (if self.cache.monitoring_position@.len() == 0 {
                "Sidebar"@
            } else {
                self.cache.monitoring_position@
            }),
    {
        if self.cache.monitoring_position.as_str().is_empty() {
            "Sidebar"
        } else {
            self.cache.monitoring_position.as_str()
        }
    }

    pub fn ui_font_family(&self) -> (r: &str)
        ensures
            r@ == (if self.cache.ui_font_family@.len() == 0 {
                ".SystemUIFont"@
            } else {
                self.cache.ui_font_family@
            }),
    {
        if self.cache.ui_font_family.as_str().is_empty() {
            ".SystemUIFont"
        } else {
            self.cache.ui_font_family.as_str()
        }
    }

    pub fn terminal_font_family(&self) -> (r: &str)
        ensures
            r@ == (if self.cache.terminal_font_family@.len() == 0 {
                "Maple Mono NF CN"@
            } else {
                self.cache.terminal_font_family@
            }),
    {
        if self.cache.terminal_font_family.as_str().is_empty() {
            "Maple Mono NF CN"
        } else {
            self.cache.terminal_font_family.as_str()
        }
    }

    pub fn set_locale(&mut self, locale: &str)
        ensures
            final(self).cache == (ConfigFile {
                locale: final(self).cache.locale,
                ..old(self).cache
            }),
            final(self).cache.locale@ == locale@,
    {
        self.cache.locale = locale.to_owned();
    }

    pub fn set_monitoring_position(&mut self, pos: &str)
        ensures
            final(self).cache == (ConfigFile {
                monitoring_position: final(self).cache.monitoring_position,
                ..old(self).cache
            }),
            final(self).cache.monitoring_position@ == pos@,
    {
        self.cache.monitoring_position = pos.to_owned();
    }

    pub fn set_ui_font_family(&mut self, family: &str)
        ensures
            final(self).cache == (ConfigFile {
                ui_font_family: final(self).cache.ui_font_family,
                ..old(self).cache
            }),
            final(self).cache.ui_font_family@ == family@,
    {
        self.cache.ui_font_family = family.to_owned();
    }

    pub fn set_terminal_font_family(&mut self, family: &str)
        ensures
            final(self).cache == (ConfigFile {
                terminal_font_family: final(self).cache.terminal_font_family,
                ..old(self).cache
            }),
            final(self).cache.terminal_font_family@ == family@,
    {
        self.cache.terminal_font_family = family.to_owned();
    }

    pub fn follow_system_theme(&self) -> (r: bool)
        ensures
            r == self.cache.follow_system_theme,
    {
        self.cache.follow_system_theme
    }

    pub fn remember_tabs(&self) -> (r: bool)
        ensures
            r == self.cache.remember_tabs,
    {
        self.cache.remember_tabs
    }

    pub fn sftp_file_columns_customized(&self) -> (r: bool)
        ensures
            r == self.cache.sftp_file_columns_customized,
    {
        self.cache.sftp_file_columns_customized
    }

    pub fn right_click_copy_paste(&self) -> (r: bool)
        ensures
            r == self.cache.right_click_copy_paste,
    {
        self.cache.right_click_copy_paste
    }

    pub fn keyword_highlight(&self) -> (r: bool)
        ensures
            r == self.cache.keyword_highlight,
    {
        self.cache.keyword_highlight
    }

    pub fn title_bar_style(&self) -> (r: TitleBarStyle)
        ensures
            r == self.cache.title_bar_style,
    {
        self.cache.title_bar_style
    }

    pub fn cursor_style(&self) -> (r: CursorStyle)
        ensures
            r == self.cache.cursor_style,
    {
        self.cache.cursor_style
    }

    pub fn use_proxy(&self) -> (r: bool)
        ensures
            r == self.cache.use_proxy,
    {
        self.cache.use_proxy
    }

    pub fn read_env_proxy(&self) -> (r: bool)
        ensures
            r == self.cache.read_env_proxy,
    {
        self.cache.read_env_proxy
    }

    pub fn global_proxy_port(&self) -> (r: Option<u16>)
        ensures
            r == self.cache.global_proxy_port,
    {
        self.cache.global_proxy_port
    }

    pub fn show_hidden_files(&self) -> (r: bool)
        ensures
            r == self.cache.show_hidden_files,
    {
        self.cache.show_hidden_files
    }

    pub fn lock_layout(&self) -> (r: bool)
        ensures
            r == self.cache.lock_layout,
    {
        self.cache.lock_layout
    }

    pub fn sidebar_collapsed(&self) -> (r: bool)
        ensures
            r == self.cache.sidebar_collapsed,
    {
        self.cache.sidebar_collapsed
    }

    pub fn sftp_panel_minimized(&self) -> (r: bool)
        ensures
            r == self.cache.sftp_panel_minimized,
    {
        self.cache.sftp_panel_minimized
    }

    pub fn set_saved_tabs(&mut self, saved_tabs: Option<SavedTabsState>)
        ensures
            final(self).cache == (ConfigFile { saved_tabs: saved_tabs, ..old(self).cache }),
    {
        self.cache.saved_tabs = saved_tabs;
    }

    pub fn set_transfers(&mut self, transfers: Vec<String>)
        ensures
            final(self).cache == (ConfigFile { transfers: transfers, ..old(self).cache }),
    {
        self.cache.transfers = transfers;
    }

    pub fn set_sftp_tree_panels(&mut self, panels: Option<Vec<Float32>>)
        ensures
            final(self).cache == (ConfigFile { sftp_tree_panels: panels, ..old(self).cache }),
    {
        self.cache.sftp_tree_panels = panels;
    }

    pub fn set_sftp_file_columns(&mut self, columns: Option<Vec<Float32>>)
        ensures
            final(self).cache == (ConfigFile { sftp_file_columns: columns, ..old(self).cache }),
    {
        self.cache.sftp_file_columns = columns;
    }

    pub fn set_sftp_file_columns_customized(&mut self, customized: bool)
        ensures
            final(self).cache == (ConfigFile { sftp_file_columns_customized: customized, ..old(self).cache }),
    {
        self.cache.sftp_file_columns_customized = customized;
    }

    pub fn set_right_click_copy_paste(&mut self, val: bool)
        ensures
            final(self).cache == (ConfigFile { right_click_copy_paste: val, ..old(self).cache }),
    {
        self.cache.right_click_copy_paste = val;
    }

    pub fn set_keyword_highlight(&mut self, val: bool)
        ensures
            final(self).cache == (ConfigFile { keyword_highlight: val, ..old(self).cache }),
    {
        self.cache.keyword_highlight = val;
    }

    pub fn set_title_bar_style(&mut self, style: TitleBarStyle)
        ensures
            final(self).cache == (ConfigFile { title_bar_style: style, ..old(self).cache }),
    {
        self.cache.title_bar_style = style;
    }

    pub fn set_cursor_style(&mut self, style: CursorStyle)
        ensures
            final(self).cache == (ConfigFile { cursor_style: style, ..old(self).cache }),
    {
        self.cache.cursor_style = style;
    }

    pub fn set_use_proxy(&mut self, val: bool)
        ensures
            final(self).cache == (ConfigFile { use_proxy: val, ..old(self).cache }),
    {
        self.cache.use_proxy = val;
    }

    pub fn set_read_env_proxy(&mut self, val: bool)
        ensures
            final(self).cache == (ConfigFile { read_env_proxy: val, ..old(self).cache }),
    {
        self.cache.read_env_proxy = val;
    }

    pub fn set_global_proxy_type(&mut self, val: String)
        ensures
            final(self).cache == (ConfigFile { global_proxy_type: val, ..old(self).cache }),
    {
        self.cache.global_proxy_type = val;
    }

    pub fn set_global_proxy_host(&mut self, val: String)
        ensures
            final(self).cache == (ConfigFile { global_proxy_host: val, ..old(self).cache }),
    {
        self.cache.global_proxy_host = val;
    }

    pub fn set_global_proxy_port(&mut self, val: Option<u16>)
        ensures
            final(self).cache == (ConfigFile { global_proxy_port: val, ..old(self).cache }),
    {
        self.cache.global_proxy_port = val;
    }

    pub fn set_global_proxy_user(&mut self, val: String)
        ensures
            final(self).cache == (ConfigFile { global_proxy_user: val, ..old(self).cache }),
    {
        self.cache.global_proxy_user = val;
    }

    pub fn set_global_proxy_password(&mut self, val: String)
        ensures
            final(self).cache == (ConfigFile { global_proxy_password: val, ..old(self).cache }),
    {
        self.cache.global_proxy_password = val;
    }

    pub fn set_show_hidden_files(&mut self, val: bool)
        ensures
            final(self).cache == (ConfigFile { show_hidden_files: val, ..old(self).cache }),
    {
        self.cache.show_hidden_files = val;
    }

    pub fn set_lock_layout(&mut self, val: bool)
        ensures
            final(self).cache == (ConfigFile { lock_layout: val, ..old(self).cache }),
    {
        self.cache.lock_layout = val;
    }

    pub fn set_sidebar_collapsed(&mut self, val: bool)
        ensures
            final(self).cache == (ConfigFile { sidebar_collapsed: val, ..old(self).cache }),
    {
        self.cache.sidebar_collapsed = val;
    }

    pub fn set_sftp_panel_minimized(&mut self, val: bool)
        ensures
            final(self).cache == (ConfigFile { sftp_panel_minimized: val, ..old(self).cache }),
    {
        self.cache.sftp_panel_minimized = val;
    }

    pub fn workspace_panels(&self) -> (r: Option<&Vec<Float32>>)
        ensures
            match r {
                Some(sizes) => self.cache.workspace_panels == Some(*sizes),
                None => self.cache.workspace_panels is None,
            },
    {
        self.cache.workspace_panels.as_ref()
    }

    pub fn body_panels(&self) -> (r: Option<&Vec<Float32>>)
        ensures
            match r {
                Some(sizes) => self.cache.body_panels == Some(*sizes),
                None => self.cache.body_panels is None,
            },
    {
        self.cache.body_panels.as_ref()
    }

    pub fn sftp_tree_panels(&self) -> (r: Option<&Vec<Float32>>)
        ensures
            match r {
                Some(sizes) => self.cache.sftp_tree_panels == Some(*sizes),
                None => self.cache.sftp_tree_panels is None,
            },
    {
        self.cache.sftp_tree_panels.as_ref()
    }

    pub fn sftp_file_columns(&self) -> (r: Option<&Vec<Float32>>)
        ensures
            match r {
                Some(sizes) => self.cache.sftp_file_columns == Some(*sizes),
                None => self.cache.sftp_file_columns is None,
            },
    {
        self.cache.sftp_file_columns.as_ref()
    }
}

/// After a session was put in, its identifier finds it, and every other
/// identifier finds what it found before.
pub proof fn upserting_makes_it_found(sessions: Seq<Session>, session: Session, id: Seq<char>)
    ensures
        session_with(upserted(sessions, session), session.id@) == Some(session),
        id != session.id@ ==> session_with(upserted(sessions, session), id) == session_with(
            sessions,
            id,
        ),
{
    let after = upserted(sessions, session);
    lemma_session_index_bound(sessions, session.id@);
    lemma_session_index_bound(sessions, id);
    let i = session_index(sessions, session.id@) as int;
    lemma_session_index(after, session.id@, i);
    if id != session.id@ {
        let k = session_index(sessions, id) as int;
        if k < sessions.len() {
            lemma_session_index(after, id, k);
        } else {
            lemma_session_index(after, id, after.len() as int);
        }
    }
}

/// After the sessions with an identifier were taken out, it finds none, and
/// every other identifier finds what it found before.
pub proof fn removing_makes_it_unfound(sessions: Seq<Session>, gone: Seq<char>, id: Seq<char>)
    ensures
        session_with(sessions_without(sessions, gone), gone) is None,
        id != gone ==> session_with(sessions_without(sessions, gone), id) == session_with(
            sessions,
            id,
        ),
    decreases sessions.len(),
{
    let kept = sessions_without(sessions, gone);
    reveal(Seq::filter);
    if sessions.len() > 0 {
        let fewer = sessions.drop_last();
        let last = sessions.last();
        removing_makes_it_unfound(fewer, gone, id);
        let kept_fewer = sessions_without(fewer, gone);
        lemma_session_push(fewer, last, id);
        lemma_session_push(kept_fewer, last, id);
        lemma_session_push(kept_fewer, last, gone);
        assert(fewer.push(last) =~= sessions);
    }
}

proof fn lemma_session_push(sessions: Seq<Session>, session: Session, id: Seq<char>)
    ensures
        session_with(sessions.push(session), id) == (if session_with(sessions, id) is Some {
            session_with(sessions, id)
        } else if session.id@ == id {
            Some(session)
        } else {
            None
        }),
{
    lemma_session_index_bound(sessions, id);
    let k = session_index(sessions, id) as int;
    let more = sessions.push(session);
    if k < sessions.len() || session.id@ == id {
        lemma_session_index(more, id, k);
    } else {
        lemma_session_index(more, id, more.len() as int);
    }
}

/// Merging keeps the sessions on disk and never lowers the revision of the
/// command history; merging the same preferences again changes nothing.
pub proof fn merging_preferences(disk: ConfigFile, local: ConfigFile)
    ensures
        merged(disk, local).sessions == disk.sessions,
        merged(disk, local).command_history_revision >= disk.command_history_revision,
        merged(disk, local).command_history_revision >= local.command_history_revision,
        local.command_history_revision < disk.command_history_revision ==> merged(
            disk,
            local,
        ).command_history == disk.command_history,
        merged(merged(disk, local), local) == merged(disk, local),
{
}

/// A configuration merged with itself stays as it is. What another window may have
/// changed, the sessions, the transfers and the connection for synchronising, never
/// comes from here; all other preferences never come from the file; and the history
/// comes, as a whole, from the side that went further, or from here where both went as
/// far.
pub proof fn merging_takes_each_part_from_its_side(
    disk: ConfigFile,
    local: ConfigFile,
    other: ConfigFile,
)
    ensures
        merged(local, local) == local,
        merged(
            disk,
            ConfigFile {
                sessions: other.sessions,
                transfers: other.transfers,
                sync_endpoint: other.sync_endpoint,
                sync_username: other.sync_username,
                sync_etag: other.sync_etag,
                sync_device_id: other.sync_device_id,
                sync_backend: other.sync_backend,
                sync_etag_backend: other.sync_etag_backend,
                sync_s3_endpoint: other.sync_s3_endpoint,
                sync_s3_region: other.sync_s3_region,
                sync_s3_bucket: other.sync_s3_bucket,
                sync_s3_object_key: other.sync_s3_object_key,
                ..local
            },
        ) == merged(disk, local),
        merged(
            ConfigFile {
                command_history: disk.command_history,
                command_history_revision: disk.command_history_revision,
                sessions: disk.sessions,
                transfers: disk.transfers,
                sync_endpoint: disk.sync_endpoint,
                sync_username: disk.sync_username,
                sync_etag: disk.sync_etag,
                sync_device_id: disk.sync_device_id,
                sync_backend: disk.sync_backend,
                sync_etag_backend: disk.sync_etag_backend,
                sync_s3_endpoint: disk.sync_s3_endpoint,
                sync_s3_region: disk.sync_s3_region,
                sync_s3_bucket: disk.sync_s3_bucket,
                sync_s3_object_key: disk.sync_s3_object_key,
                ..other
            },
            local,
        ) == merged(disk, local),
        local.command_history_revision >= disk.command_history_revision ==> merged(
            disk,
            local,
        ).command_history == local.command_history,
        disk.command_history_revision > local.command_history_revision ==> merged(
            disk,
            local,
        ).command_history == disk.command_history,
{
}

/// A changed session keeps its place and a new one comes last; the others stay as they
/// are.
pub proof fn a_changed_session_keeps_its_place(sessions: Seq<Session>, session: Session, i: int)
    ensures
        (0 <= i < sessions.len() && sessions[i].id@ == session.id@ && forall|k: int|
            0 <= k < i ==> (#[trigger] sessions[k]).id@ != session.id@) ==> upserted(
            sessions,
            session,
        ) == sessions.update(i, session),
        (forall|k: int| 0 <= k < sessions.len() ==> (#[trigger] sessions[k]).id@ != session.id@)
            ==> upserted(sessions, session) == sessions.push(session),
{
    lemma_session_index_bound(sessions, session.id@);
    let at = session_index(sessions, session.id@) as int;
    if at < sessions.len() {
        assert(sessions[at].id@ == session.id@);
    }
}

/// A session leaves the list and the others stay in their order.
pub proof fn a_removed_session_leaves_the_others(sessions: Seq<Session>, session: Session, id: Seq<char>)
    ensures
        sessions_without(sessions.push(session), id) == if session.id@ == id {
            sessions_without(sessions, id)
        } else {
            sessions_without(sessions, id).push(session)
        },
        sessions_without(Seq::empty(), id) == Seq::<Session>::empty(),
{
    reveal(Seq::filter);
    assert(sessions.push(session).drop_last() =~= sessions);
    assert(sessions_without(Seq::empty(), id) =~= Seq::empty());
}

/// Every change of the history counts one further, up to the greatest number.
pub proof fn revisions_go_up(revision: u64)
    ensures
        revision < u64::MAX ==> next_revision(revision) == revision + 1,
        next_revision(u64::MAX) == u64::MAX,
{
}

/// A size that is above zero is used as it is; any other gives way to the usual one.
pub proof fn a_size_above_zero_is_used(size: Float32, usual: Float32)
    ensures
        0 < size.bits < 0x8000_0000 ==> ConfigStore::size_or(size, usual) == size,
        size.bits == 0 ==> ConfigStore::size_or(size, usual) == usual,
        0x8000_0000 <= size.bits <= 0xff80_0000 ==> ConfigStore::size_or(size, usual) == usual,
{
}

/// Settings are kept in step over S3 where that is chosen, and else over WebDAV.
pub proof fn settings_are_kept_in_step_over_one_of_two(store: ConfigStore)
    ensures
        store.cache.sync_backend@ == "s3"@ ==> store.backend() == "s3"@,
        store.cache.sync_backend@ != "s3"@ ==> store.backend() == "webdav"@,
{
}

} // verus!
