//! The form for a connection, and the sessions that it makes.
use vstd::prelude::*;

use crate::config::{session_with, upserted, ConfigFile, ConfigStore};
use crate::number::{
    decimal, decimal_parses_back, decimal_text, parse_decimal, parse_u16_text, parse_u32_chars,
};
use crate::session::{clone_option, AuthMethod, Session, TextEncoding};
use crate::text::{
    chars_of, is_trimmed, is_white, option_text, same_text, trim, trim_text, trimming_is_idempotent,
    trimming_takes_the_white_space_off,
};

verus! {

/// What stands in the form.
#[derive(Debug)]
pub struct ConnectionForm {
    /// The session that is edited, if any.
    pub editing_session_id: Option<String>,
    pub auth: AuthMethod,
    pub protocol: String,
    pub encoding: TextEncoding,
    /// The chosen entry of the SSH configuration.
    pub config_selected: Option<usize>,
    pub name: String,
    pub host: String,
    pub port: String,
    pub user: String,
    pub password: String,
    pub key_path: String,
    pub key_inline: String,
    pub passphrase: String,
    pub baud_rate: String,
    pub proxy_type: String,
    pub proxy_host: String,
    pub proxy_port: String,
    pub proxy_user: String,
    pub proxy_password: String,
}

/// Why a form makes no session.
#[derive(Clone, Copy, PartialEq, Eq, Structural, Debug)]
pub enum FormRefusal {
    SerialPortMissing,
    HostOrUserMissing,
    ProxyIncomplete,
}

/// A session, with its texts as characters.
#[verifier::ext_equal]
pub struct SessionView {
    pub id: Seq<char>,
    pub name: Seq<char>,
    pub host: Seq<char>,
    pub port: u16,
    pub user: Seq<char>,
    pub auth: AuthMethod,
    pub password: Seq<char>,
    pub private_key_path: Seq<char>,
    pub private_key_inline: Seq<char>,
    pub passphrase: Seq<char>,
    pub last_used: Option<Seq<char>>,
    pub proxy_type: Seq<char>,
    pub proxy_host: Seq<char>,
    pub proxy_port: Option<u16>,
    pub proxy_user: Seq<char>,
    pub proxy_password: Seq<char>,
    pub protocol: Seq<char>,
    pub baud_rate: u32,
    pub terminal_encoding: TextEncoding,
}

impl View for Session {
    type V = SessionView;

    open spec fn view(&self) -> SessionView {
        SessionView {
            id: self.id@,
            name: self.name@,
            host: self.host@,
            port: self.port,
            user: self.user@,
            auth: self.auth,
            password: self.password@,
            private_key_path: self.private_key_path@,
            private_key_inline: self.private_key_inline@,
            passphrase: self.passphrase@,
            last_used: option_text(self.last_used),
            proxy_type: self.proxy_type@,
            proxy_host: self.proxy_host@,
            proxy_port: self.proxy_port,
            proxy_user: self.proxy_user@,
            proxy_password: self.proxy_password@,
            protocol: self.protocol@,
            baud_rate: self.baud_rate,
            terminal_encoding: self.terminal_encoding,
        }
    }
}

/// The number that a field holds between white space, if it holds one up to the
/// limit.
pub open spec fn number_in(field: Seq<char>, limit: nat) -> Option<nat> {
    parse_decimal(trim(field), limit)
}

/// The first text, or the other one where it is empty.
pub open spec fn or_else(text: Seq<char>, other: Seq<char>) -> Seq<char> {
    if text.len() == 0 {
        other
    } else {
        text
    }
}

impl ConnectionForm {
    pub open spec fn is_serial(self) -> bool {
        self.protocol@ == "serial"@
    }

    /// Why the form makes no session, if it does not.
    pub open spec fn refusal(self) -> Option<FormRefusal> {
        if self.is_serial() {
            if trim(self.host@).len() == 0 {
                Some(FormRefusal::SerialPortMissing)
            } else {
                None
            }
        } else if trim(self.host@).len() == 0 || trim(self.user@).len() == 0 {
            Some(FormRefusal::HostOrUserMissing)
        } else if self.proxy_type@ != "none"@ && (trim(self.proxy_host@).len() == 0 || number_in(
            self.proxy_port@,
            u16::MAX as nat,
        ) is None) {
            Some(FormRefusal::ProxyIncomplete)
        } else {
            None
        }
    }

    /// The session over a serial line that the form makes.
    pub open spec fn serial_session(self, id: Seq<char>, last_used: Option<Seq<char>>) -> SessionView {
        SessionView {
            id,
            name: or_else(trim(self.name@), trim(self.host@)),
            host: trim(self.host@),
            port: 0,
            user: Seq::empty(),
            auth: AuthMethod::Password,
            password: Seq::empty(),
            private_key_path: Seq::empty(),
            private_key_inline: Seq::empty(),
            passphrase: Seq::empty(),
            last_used,
            proxy_type: "none"@,
            proxy_host: Seq::empty(),
            proxy_port: None,
            proxy_user: Seq::empty(),
            proxy_password: Seq::empty(),
            protocol: "serial"@,
            baud_rate: match number_in(self.baud_rate@, u32::MAX as nat) {
                Some(n) => n as u32,
                None => 115200,
            },
            terminal_encoding: TextEncoding::Utf8,
        }
    }

    /// The session over SSH that the form makes. With the SSH configuration the key
    /// is given by its path alone.
    pub open spec fn ssh_session(self, id: Seq<char>, last_used: Option<Seq<char>>) -> SessionView {
        let by_password = self.auth == AuthMethod::Password;
        let by_key = self.auth == AuthMethod::Key;
        SessionView {
            id,
            name: or_else(trim(self.name@), trim(self.host@)),
            host: trim(self.host@),
            port: match number_in(self.port@, u16::MAX as nat) {
                Some(n) => n as u16,
                None => 22,
            },
            user: trim(self.user@),
            auth: self.auth,
            password: if by_password {
                self.password@
            } else {
                Seq::empty()
            },
            private_key_path: if by_password {
                Seq::empty()
            } else {
                trim(self.key_path@)
            },
            private_key_inline: if by_key {
                self.key_inline@
            } else {
                Seq::empty()
            },
            passphrase: if by_key {
                self.passphrase@
            } else {
                Seq::empty()
            },
            last_used,
            proxy_type: self.proxy_type@,
            proxy_host: trim(self.proxy_host@),
            proxy_port: match number_in(self.proxy_port@, u16::MAX as nat) {
                Some(n) => Some(n as u16),
                None => None,
            },
            proxy_user: trim(self.proxy_user@),
            proxy_password: self.proxy_password@,
            protocol: "ssh"@,
            baud_rate: 115200,
            terminal_encoding: self.encoding,
        }
    }

    /// The session that the form makes.
    pub open spec fn session(self, id: Seq<char>, last_used: Option<Seq<char>>) -> SessionView {
        if self.is_serial() {
            self.serial_session(id, last_used)
        } else {
            self.ssh_session(id, last_used)
        }
    }

    /// When the edited session was last used.
    pub open spec fn last_used(self, sessions: Seq<Session>) -> Option<Seq<char>> {
        match self.editing_session_id {
            Some(id) => match session_with(sessions, id@) {
                Some(session) => option_text(session.last_used),
                None => None,
            },
            None => None,
        }
    }
}

fn trimmed_u16(field: &str) -> (r: Option<u16>)
    ensures
        match r {
            Some(n) => number_in(field@, u16::MAX as nat) == Some(n as nat),
            None => number_in(field@, u16::MAX as nat) is None,
        },
{
    let trimmed = trim_text(field);
    parse_u16_text(trimmed.as_str())
}

impl ConnectionForm {
    /// Why the form makes no session, if it does not.
    pub fn find_refusal(&self) -> (r: Option<FormRefusal>)
        ensures
            r == self.refusal(),
    {
        let host = trim_text(self.host.as_str());
        if same_text(self.protocol.as_str(), "serial") {
            return if host.as_str().is_empty() {
                Some(FormRefusal::SerialPortMissing)
            } else {
                None
            };
        }
        let user = trim_text(self.user.as_str());
        if host.as_str().is_empty() || user.as_str().is_empty() {
            return Some(FormRefusal::HostOrUserMissing);
        }
        if !same_text(self.proxy_type.as_str(), "none") {
            let proxy_host = trim_text(self.proxy_host.as_str());
            if proxy_host.as_str().is_empty() || trimmed_u16(self.proxy_port.as_str()).is_none() {
                return Some(FormRefusal::ProxyIncomplete);
            }
        }
        None
    }

    fn session_name(&self) -> (r: String)
        ensures
            r@ == or_else(trim(self.name@), trim(self.host@)),
    {
        let name = trim_text(self.name.as_str());
        if name.as_str().is_empty() {
            trim_text(self.host.as_str())
        } else {
            name
        }
    }

    fn new_session(&self) -> (r: Session)
        ensures
            r@ == self.session(r.id@, None),
            r.id@.len() == 36,
    {
        let host = trim_text(self.host.as_str());
        if same_text(self.protocol.as_str(), "serial") {
            let rate_chars = chars_of(trim_text(self.baud_rate.as_str()).as_str());
            let rate: u32 = match parse_u32_chars(rate_chars.as_slice()) {
                Some(n) => n,
                None => 115200,
            };
            let mut session = Session::serial(host, rate);
            session.name = self.session_name();
            return session;
        }
        let port: u16 = match trimmed_u16(self.port.as_str()) {
            Some(n) => n,
            None => 22,
        };
        let user = trim_text(self.user.as_str());
        let key_path = trim_text(self.key_path.as_str());
        let mut session = match self.auth {
            AuthMethod::Password => Session::password(host, port, user, self.password.clone()),
            AuthMethod::Key => Session::key(
                host,
                port,
                user,
                key_path,
                self.key_inline.clone(),
                self.passphrase.clone(),
            ),
            AuthMethod::Config => {
                let mut session = Session::key(
                    host,
                    port,
                    user,
                    key_path,
                    String::new(),
                    String::new(),
                );
                session.auth = AuthMethod::Config;
                session
            },
        };
        session.name = self.session_name();
        session.proxy_type = self.proxy_type.clone();
        session.proxy_host = trim_text(self.proxy_host.as_str());
        session.proxy_port = trimmed_u16(self.proxy_port.as_str());
        session.proxy_user = trim_text(self.proxy_user.as_str());
        session.proxy_password = self.proxy_password.clone();
        session.terminal_encoding = self.encoding.clone();
        session
    }
}

/// What a form made: a session, and whether it is to be opened, which an edited one
/// is not.
#[derive(Debug)]
pub struct FormOutcome {
    pub session: Session,
    pub open: bool,
}

/// Stores the session that the form makes. An edited session keeps its identifier
/// and when it was last used; another one gets a new identifier.
pub fn connect_ssh(form: &mut ConnectionForm, config: &mut ConfigStore) -> (r: Result<
    FormOutcome,
    FormRefusal,
>)
    ensures
        match r {
            Ok(outcome) => {
                &&& old(form).refusal() is None
                &&& outcome.open == (old(form).editing_session_id is None)
                &&& outcome.session@ == old(form).session(
                    outcome.session.id@,
                    old(form).last_used(old(config).cache.sessions@),
                )
                &&& match old(form).editing_session_id {
                    Some(id) => outcome.session.id@ == id@,
                    None => outcome.session.id@.len() == 36,
                }
                &&& *final(form) == (ConnectionForm { editing_session_id: None, ..*old(form) })
                &&& final(config).cache == (ConfigFile {
                    sessions: final(config).cache.sessions,
                    ..old(config).cache
                })
                &&& final(config).cache.sessions@ == upserted(
                    old(config).cache.sessions@,
                    outcome.session,
                )
            },
            Err(refusal) => {
                &&& old(form).refusal() == Some(refusal)
                &&& *final(form) == *old(form)
                &&& *final(config) == *old(config)
            },
        },
{
    if let Some(refusal) = form.find_refusal() {
        return Err(refusal);
    }
    let mut session = form.new_session();
    if let Some(id) = &form.editing_session_id {
        if let Some(existing) = config.get(id.as_str()) {
            session.last_used = clone_option(&existing.last_used);
        }
        session.id = id.clone();
    }
    let open: bool = form.editing_session_id.is_none();
    config.upsert(session.clone());
    form.editing_session_id = None;
    Ok(FormOutcome { session, open })
}

/// What stands in the form, with its texts as characters.
pub struct FormView {
    pub editing: Option<Seq<char>>,
    pub auth: AuthMethod,
    pub protocol: Seq<char>,
    pub encoding: TextEncoding,
    pub config_selected: Option<usize>,
    pub name: Seq<char>,
    pub host: Seq<char>,
    pub port: Seq<char>,
    pub user: Seq<char>,
    pub password: Seq<char>,
    pub key_path: Seq<char>,
    pub key_inline: Seq<char>,
    pub passphrase: Seq<char>,
    pub baud_rate: Seq<char>,
    pub proxy_type: Seq<char>,
    pub proxy_host: Seq<char>,
    pub proxy_port: Seq<char>,
    pub proxy_user: Seq<char>,
    pub proxy_password: Seq<char>,
}

impl View for ConnectionForm {
    type V = FormView;

    open spec fn view(&self) -> FormView {
        FormView {
            editing: option_text(self.editing_session_id),
            auth: self.auth,
            protocol: self.protocol@,
            encoding: self.encoding,
            config_selected: self.config_selected,
            name: self.name@,
            host: self.host@,
            port: self.port@,
            user: self.user@,
            password: self.password@,
            key_path: self.key_path@,
            key_inline: self.key_inline@,
            passphrase: self.passphrase@,
            baud_rate: self.baud_rate@,
            proxy_type: self.proxy_type@,
            proxy_host: self.proxy_host@,
            proxy_port: self.proxy_port@,
            proxy_user: self.proxy_user@,
            proxy_password: self.proxy_password@,
        }
    }
}

impl FormView {
    /// The form for a new connection.
    pub open spec fn blank() -> FormView {
        FormView {
            editing: None,
            auth: AuthMethod::Password,
            protocol: "ssh"@,
            encoding: TextEncoding::Utf8,
            config_selected: None,
            name: Seq::empty(),
            host: Seq::empty(),
            port: "22"@,
            user: "root"@,
            password: Seq::empty(),
            key_path: Seq::empty(),
            key_inline: Seq::empty(),
            passphrase: Seq::empty(),
            baud_rate: "115200"@,
            proxy_type: "none"@,
            proxy_host: Seq::empty(),
            proxy_port: Seq::empty(),
            proxy_user: Seq::empty(),
            proxy_password: Seq::empty(),
        }
    }

    /// The form with what a session holds, to edit it.
    pub open spec fn loaded(self, session: Session) -> FormView {
        FormView {
            editing: Some(session.id@),
            auth: session.auth,
            protocol: session.protocol@,
            encoding: session.terminal_encoding,
            config_selected: self.config_selected,
            name: session.name@,
            host: session.host@,
            port: decimal(session.port as nat),
            user: session.user@,
            password: session.password@,
            key_path: session.private_key_path@,
            key_inline: session.private_key_inline@,
            passphrase: session.passphrase@,
            baud_rate: decimal(session.baud_rate as nat),
            proxy_type: or_else(session.proxy_type@, "none"@),
            proxy_host: session.proxy_host@,
            proxy_port: match session.proxy_port {
                Some(port) => decimal(port as nat),
                None => Seq::empty(),
            },
            proxy_user: session.proxy_user@,
            proxy_password: session.proxy_password@,
        }
    }

    /// The form with what a session holds, to make another one like it.
    pub open spec fn copied(self, session: Session) -> FormView {
        FormView {
            editing: None,
            name: session.name@ + "-copy"@,
            ..self.loaded(session)
        }
    }
}

/// An entry of the SSH configuration.
#[derive(Debug)]
pub struct SshConfigEntry {
    pub host_alias: String,
    pub hostname: String,
    pub port: u16,
    pub user: String,
    pub identity_files: Vec<String>,
}

impl FormView {
    /// The form with what an entry of the SSH configuration says; without a user
    /// that of this system, and else `root`.
    pub open spec fn chosen(
        self,
        index: usize,
        entry: SshConfigEntry,
        system_user: Option<Seq<char>>,
    ) -> FormView {
        FormView {
            config_selected: Some(index),
            name: entry.host_alias@,
            host: entry.hostname@,
            port: decimal(entry.port as nat),
            user: if entry.user@.len() == 0 {
                match system_user {
                    Some(user) => user,
                    None => "root"@,
                }
            } else {
                entry.user@
            },
            password: Seq::empty(),
            key_path: if entry.identity_files@.len() > 0 {
                entry.identity_files@[0]@
            } else {
                Seq::empty()
            },
            key_inline: Seq::empty(),
            passphrase: Seq::empty(),
            ..self
        }
    }
}

impl ConnectionForm {
    /// Empties the form.
    pub fn reset_ssh_form(&mut self)
        ensures
            final(self)@ == FormView::blank(),
    {
        self.editing_session_id = None;
        self.auth = AuthMethod::Password;
        self.config_selected = None;
        self.protocol = "ssh".to_string();
        self.encoding = TextEncoding::Utf8;
        self.name = String::new();
        self.host = String::new();
        self.port = "22".to_string();
        self.user = "root".to_string();
        self.password = String::new();
        self.key_path = String::new();
        self.key_inline = String::new();
        self.passphrase = String::new();
        self.baud_rate = "115200".to_string();
        self.proxy_type = "none".to_string();
        self.proxy_host = String::new();
        self.proxy_port = String::new();
        self.proxy_user = String::new();
        self.proxy_password = String::new();
    }

    /// Fills the form with what a session holds, to edit it.
    pub fn load_session_into_form(&mut self, session: &Session)
        ensures
            final(self)@ == old(self)@.loaded(*session),
    {
        self.editing_session_id = Some(session.id.clone());
        self.auth = session.auth;
        self.protocol = session.protocol.clone();
        self.encoding = session.terminal_encoding.clone();
        self.name = session.name.clone();
        self.host = session.host.clone();
        self.port = decimal_text(session.port as u64);
        self.user = session.user.clone();
        self.password = session.password.clone();
        self.key_path = session.private_key_path.clone();
        self.key_inline = session.private_key_inline.clone();
        self.passphrase = session.passphrase.clone();
        self.baud_rate = decimal_text(session.baud_rate as u64);
        self.proxy_type = if session.proxy_type.as_str().is_empty() {
            "none".to_string()
        } else {
            session.proxy_type.clone()
        };
        self.proxy_host = session.proxy_host.clone();
        self.proxy_port = match session.proxy_port {
            Some(port) => decimal_text(port as u64),
            None => String::new(),
        };
        self.proxy_user = session.proxy_user.clone();
        self.proxy_password = session.proxy_password.clone();
    }

    /// Fills the form with a saved session, to edit it. Tells whether there is one.
    pub fn edit_saved_session(&mut self, config: &ConfigStore, session_id: &str) -> (r: bool)
        ensures
            match session_with(config.cache.sessions@, session_id@) {
                Some(session) => r && final(self)@ == old(self)@.loaded(session),
                None => !r && *final(self) == *old(self),
            },
    {
        match config.get(session_id) {
            Some(session) => {
                self.load_session_into_form(session);
                true
            },
            None => false,
        }
    }

    /// Fills the form with a saved session, to make another one like it. Tells
    /// whether there is one.
    pub fn clone_saved_session(&mut self, config: &ConfigStore, session_id: &str) -> (r: bool)
        ensures
            match session_with(config.cache.sessions@, session_id@) {
                Some(session) => r && final(self)@ == old(self)@.copied(session),
                None => !r && *final(self) == *old(self),
            },
    {
        match config.get(session_id) {
            Some(session) => {
                self.load_session_into_form(session);
                self.editing_session_id = None;
                let mut name = session.name.clone();
                name.append("-copy");
                self.name = name;
                true
            },
            None => false,
        }
    }

    /// Chooses an entry of the SSH configuration and fills the form with it. Tells
    /// whether there is such an entry, which is then to be connected.
    pub fn select_ssh_config_entry(
        &mut self,
        entries: &Vec<SshConfigEntry>,
        index: usize,
        system_user: Option<String>,
    ) -> (r: bool)
        ensures
            r == (index < entries@.len()),
            final(self)@ == (if r {
                old(self)@.chosen(index, entries@[index as int], option_text(system_user))
            } else {
                (FormView { config_selected: Some(index), ..old(self)@ })
            }),
    {
        self.config_selected = Some(index);
        if index >= entries.len() {
            return false;
        }
        let entry = &entries[index];
        self.name = entry.host_alias.clone();
        self.host = entry.hostname.clone();
        self.port = decimal_text(entry.port as u64);
        self.user = if entry.user.as_str().is_empty() {
            match system_user {
                Some(user) => user,
                None => "root".to_string(),
            }
        } else {
            entry.user.clone()
        };
        self.key_path = if entry.identity_files.len() > 0 {
            entry.identity_files[0].clone()
        } else {
            String::new()
        };
        self.password = String::new();
        self.key_inline = String::new();
        self.passphrase = String::new();
        true
    }

    /// Chooses how to authenticate. Tells whether the SSH configuration is to be
    /// read.
    pub fn set_ssh_auth_method(&mut self, method: AuthMethod) -> (r: bool)
        ensures
            r == (method == AuthMethod::Config),
            final(self)@ == (FormView {
                auth: method,
                config_selected: if r {
                    None
                } else {
                    old(self)@.config_selected
                },
                ..old(self)@
            }),
    {
        self.auth = method;
        match method {
            AuthMethod::Config => {
                self.config_selected = None;
                true
            },
            _ => false,
        }
    }
}

/// How a connection is described below its name.
pub open spec fn described(session: Session) -> Seq<char> {
    if session.protocol@ == "serial"@ {
        "Serial: "@ + session.host@ + "@"@ + decimal(session.baud_rate as nat)
    } else {
        session.user@ + "@"@ + session.host@ + ":"@ + decimal(session.port as nat)
    }
}

/// How a connection is described below its name.
pub fn session_detail(session: &Session) -> (r: String)
    ensures
        r@ == described(*session),
{
    if same_text(session.protocol.as_str(), "serial") {
        let mut r = "Serial: ".to_owned();
        r.append(session.host.as_str());
        r.append("@");
        let rate = decimal_text(session.baud_rate as u64);
        r.append(rate.as_str());
        r
    } else {
        let mut r = session.user.clone();
        r.append("@");
        r.append(session.host.as_str());
        r.append(":");
        let port = decimal_text(session.port as u64);
        r.append(port.as_str());
        r
    }
}

/// Whether a session is one that a form could have made: its texts are trimmed
/// where the form trims them, and it holds nothing that its way to authenticate has
/// no use for.
pub open spec fn from_a_form(session: Session) -> bool {
    &&& session.protocol@ == "ssh"@
    &&& session.name@.len() > 0
    &&& session.host@.len() > 0
    &&& session.user@.len() > 0
    &&& trim(session.name@) == session.name@
    &&& trim(session.host@) == session.host@
    &&& trim(session.user@) == session.user@
    &&& trim(session.private_key_path@) == session.private_key_path@
    &&& trim(session.proxy_host@) == session.proxy_host@
    &&& trim(session.proxy_user@) == session.proxy_user@
    &&& session.proxy_type@.len() > 0
    &&& session.proxy_type@ != "none"@ ==> session.proxy_host@.len() > 0
        && session.proxy_port is Some
    &&& session.auth == AuthMethod::Password ==> session.private_key_path@.len() == 0
    &&& session.auth != AuthMethod::Password ==> session.password@.len() == 0
    &&& session.auth != AuthMethod::Key ==> session.private_key_inline@.len() == 0
        && session.passphrase@.len() == 0
    &&& session.baud_rate == 115200
}

proof fn lemma_number_stays(n: nat, limit: nat)
    requires
        n <= limit,
    ensures
        number_in(decimal(n), limit) == Some(n),
{
    decimal_parses_back(n, limit);
    crate::number::lemma_decimal_is_trimmed(n);
}

/// A session that a form made goes through the form unchanged: loading it and
/// storing the form makes the same session.
pub proof fn an_unchanged_form_keeps_the_session(form: ConnectionForm, session: Session, before: FormView)
    requires
        from_a_form(session),
        form@ == before.loaded(session),
    ensures
        form.refusal() is None,
        form.session(session.id@, option_text(session.last_used)) == session@,
{
    reveal_strlit("ssh");
    reveal_strlit("serial");
    assert("ssh"@.len() == 3);
    assert("serial"@.len() == 6);
    lemma_number_stays(session.port as nat, u16::MAX as nat);
    if let Some(port) = session.proxy_port {
        lemma_number_stays(port as nat, u16::MAX as nat);
    } else {
        assert(trim(Seq::<char>::empty()) =~= Seq::empty());
        assert(number_in(form.proxy_port@, u16::MAX as nat) is None);
    }
    let made = form.session(session.id@, option_text(session.last_used));
    assert(made.password =~= session.password@);
    assert(made.private_key_path =~= session.private_key_path@);
    assert(made.private_key_inline =~= session.private_key_inline@);
    assert(made.passphrase =~= session.passphrase@);
    assert(made =~= session@);
}

/// An entry of the SSH configuration that names a user puts that user into the form,
/// whoever uses this system. Without one the system's user is taken, and without either
/// `root`.
pub proof fn the_user_an_entry_names_is_taken(
    form: FormView,
    index: usize,
    entry: SshConfigEntry,
    system: Option<Seq<char>>,
    other: Option<Seq<char>>,
)
    ensures
        entry.user@.len() > 0 ==> form.chosen(index, entry, system).user == entry.user@,
        entry.user@.len() > 0 ==> form.chosen(index, entry, system) == form.chosen(
            index,
            entry,
            other,
        ),
        entry.user@.len() == 0 && system is Some ==> form.chosen(index, entry, system).user
            == system->Some_0,
        entry.user@.len() == 0 && system is None ==> form.chosen(index, entry, system).user
            == "root"@,
{
}

/// Choosing an entry of the SSH configuration marks it and fills in what it says: its
/// name, its machine and its port, and its first key if it has one. The secrets that the
/// form held are cleared, and nothing else of it changes.
pub proof fn a_chosen_entry_fills_the_form(
    form: FormView,
    index: usize,
    entry: SshConfigEntry,
    system: Option<Seq<char>>,
)
    ensures
        ({
            let after = form.chosen(index, entry, system);
            &&& after.config_selected == Some(index)
            &&& after.name == entry.host_alias@
            &&& after.host == entry.hostname@
            &&& number_in(after.port, u16::MAX as nat) == Some(entry.port as nat)
            &&& entry.identity_files@.len() > 0 ==> after.key_path == entry.identity_files@[0]@
            &&& entry.identity_files@.len() == 0 ==> after.key_path.len() == 0
            &&& after.password.len() == 0 && after.key_inline.len() == 0
                && after.passphrase.len() == 0
            &&& after.editing == form.editing && after.auth == form.auth && after.protocol
                == form.protocol && after.encoding == form.encoding && after.baud_rate
                == form.baud_rate
            &&& after.proxy_type == form.proxy_type && after.proxy_host == form.proxy_host
                && after.proxy_port == form.proxy_port && after.proxy_user == form.proxy_user
                && after.proxy_password == form.proxy_password
        }),
{
    lemma_number_stays(entry.port as nat, u16::MAX as nat);
}

/// A session that is loaded into the form to edit it marks itself as the one edited, and
/// one without a proxy says so.
pub proof fn a_loaded_session_is_the_one_edited(form: FormView, session: Session)
    ensures
        form.loaded(session).editing == Some(session.id@),
        session.proxy_type@.len() == 0 ==> form.loaded(session).proxy_type == "none"@,
        session.proxy_type@.len() > 0 ==> form.loaded(session).proxy_type == session.proxy_type@,
        session.proxy_port is None ==> form.loaded(session).proxy_port.len() == 0,
        number_in(form.loaded(session).port, u16::MAX as nat) == Some(session.port as nat),
        number_in(form.loaded(session).baud_rate, u32::MAX as nat) == Some(
            session.baud_rate as nat,
        ),
        form.loaded(session).password == session.password@ && form.loaded(session).key_path
            == session.private_key_path@ && form.loaded(session).passphrase == session.passphrase@,
        form.copied(session).editing is None,
        form.copied(session) == (FormView {
            editing: None,
            name: form.copied(session).name,
            ..form.loaded(session)
        }),
{
    lemma_number_stays(session.port as nat, u16::MAX as nat);
    lemma_number_stays(session.baud_rate as nat, u32::MAX as nat);
}

/// The session made from a chosen entry of the SSH configuration leads to the machine
/// that the entry names, at its port, as its user, with its first key; no secret of
/// what the form held before goes with it.
pub proof fn a_chosen_entry_makes_its_session(
    form: ConnectionForm,
    before: FormView,
    index: usize,
    entry: SshConfigEntry,
    system: Option<Seq<char>>,
    id: Seq<char>,
    last_used: Option<Seq<char>>,
)
    requires
        form@ == before.chosen(index, entry, system),
        before.protocol == "ssh"@,
        before.proxy_type == "none"@,
        entry.hostname@.len() > 0,
        entry.user@.len() > 0,
        entry.host_alias@.len() > 0,
        is_trimmed(entry.hostname@),
        is_trimmed(entry.user@),
        is_trimmed(entry.host_alias@),
        entry.identity_files@.len() > 0 ==> is_trimmed(entry.identity_files@[0]@),
    ensures
        form.refusal() is None,
        ({
            let made = form.session(id, last_used);
            &&& made.id == id
            &&& made.last_used == last_used
            &&& made.name == entry.host_alias@
            &&& made.host == entry.hostname@
            &&& made.port == entry.port
            &&& made.user == entry.user@
            &&& made.password.len() == 0
            &&& made.private_key_inline.len() == 0
            &&& made.passphrase.len() == 0
            &&& made.auth == before.auth
            &&& (before.auth != AuthMethod::Password && entry.identity_files@.len() > 0)
                ==> made.private_key_path == entry.identity_files@[0]@
            &&& entry.identity_files@.len() == 0 ==> made.private_key_path.len() == 0
        }),
{
    reveal_strlit("ssh");
    reveal_strlit("serial");
    assert("ssh"@.len() == 3);
    assert("serial"@.len() == 6);
    lemma_number_stays(entry.port as nat, u16::MAX as nat);
    trimming_is_idempotent(entry.hostname@);
    trimming_is_idempotent(entry.user@);
    trimming_is_idempotent(entry.host_alias@);
    if entry.identity_files@.len() > 0 {
        trimming_is_idempotent(entry.identity_files@[0]@);
    } else {
        assert(trim(Seq::<char>::empty()) =~= Seq::empty());
    }
}

/// A form is refused exactly where it lacks something: for a serial line its port; else
/// the machine or the user; else, with a proxy, the proxy's machine or port.
pub proof fn a_form_is_refused_for_what_it_lacks(form: ConnectionForm)
    ensures
        ({
            let serial = form.protocol@ == "serial"@;
            let host = trim(form.host@).len() > 0;
            let user = trim(form.user@).len() > 0;
            let proxy = form.proxy_type@ == "none"@ || (trim(form.proxy_host@).len() > 0
                && number_in(form.proxy_port@, u16::MAX as nat) is Some);
            &&& form.refusal() is None <==> host && (serial || (user && proxy))
            &&& form.refusal() == Some(FormRefusal::SerialPortMissing) <==> serial && !host
            &&& form.refusal() == Some(FormRefusal::HostOrUserMissing) <==> !serial && !(host
                && user)
            &&& form.refusal() == Some(FormRefusal::ProxyIncomplete) <==> !serial && host && user
                && !proxy
        }),
{
}

/// A number typed into a field is read as that number, also between white space.
pub proof fn a_number_typed_is_read(
    n: u16,
    before: Seq<char>,
    after: Seq<char>,
)
    requires
        forall|i: int| 0 <= i < before.len() ==> is_white(#[trigger] before[i]),
        forall|i: int| 0 <= i < after.len() ==> is_white(#[trigger] after[i]),
    ensures
        number_in(before + decimal(n as nat) + after, u16::MAX as nat) == Some(n as nat),
{
    lemma_number_stays(n as nat, u16::MAX as nat);
    let d = decimal(n as nat);
    crate::number::lemma_decimal_is_trimmed(n as nat);
    trimming_is_idempotent(d);
    trimming_takes_the_white_space_off(before, d, after);
}

/// A session holds what its form says: the name typed, or the machine where none was;
/// the port typed, or 22 where none was; and of the secrets those of its way to
/// authenticate alone.
pub proof fn a_session_holds_what_its_form_says(
    form: ConnectionForm,
    id: Seq<char>,
    last_used: Option<Seq<char>>,
    port: u16,
)
    requires
        form.protocol@ != "serial"@,
    ensures
        ({
            let made = form.session(id, last_used);
            &&& made.id == id && made.last_used == last_used && made.protocol == "ssh"@
            &&& made.host == trim(form.host@) && made.user == trim(form.user@)
            &&& trim(form.name@).len() > 0 ==> made.name == trim(form.name@)
            &&& trim(form.name@).len() == 0 ==> made.name == made.host
            &&& form.port@ == decimal(port as nat) ==> made.port == port
            &&& number_in(form.port@, u16::MAX as nat) is None ==> made.port == 22
            &&& made.auth == form.auth && made.terminal_encoding == form.encoding
            &&& form.auth == AuthMethod::Password ==> made.password == form.password@
                && made.private_key_path.len() == 0 && made.private_key_inline.len() == 0
                && made.passphrase.len() == 0
            &&& form.auth == AuthMethod::Key ==> made.password.len() == 0 && made.private_key_path
                == trim(form.key_path@) && made.private_key_inline == form.key_inline@
                && made.passphrase == form.passphrase@
            &&& form.auth == AuthMethod::Config ==> made.password.len() == 0
                && made.private_key_path == trim(form.key_path@) && made.private_key_inline.len()
                == 0 && made.passphrase.len() == 0
            &&& made.proxy_type == form.proxy_type@ && made.proxy_host == trim(form.proxy_host@)
            &&& made.proxy_user == trim(form.proxy_user@) && made.proxy_password
                == form.proxy_password@
            &&& form.proxy_port@ == decimal(port as nat) ==> made.proxy_port == Some(port)
        }),
{
    lemma_number_stays(port as nat, u16::MAX as nat);
}

/// The session over a serial line holds the port and the rate typed, or 115200 where no
/// rate was, and no secret at all.
pub proof fn a_serial_session_holds_what_its_form_says(
    form: ConnectionForm,
    id: Seq<char>,
    last_used: Option<Seq<char>>,
    rate: u32,
)
    requires
        form.protocol@ == "serial"@,
    ensures
        ({
            let made = form.session(id, last_used);
            &&& made.id == id && made.last_used == last_used && made.protocol == "serial"@
            &&& made.host == trim(form.host@)
            &&& trim(form.name@).len() > 0 ==> made.name == trim(form.name@)
            &&& trim(form.name@).len() == 0 ==> made.name == made.host
            &&& form.baud_rate@ == decimal(rate as nat) ==> made.baud_rate == rate
            &&& number_in(form.baud_rate@, u32::MAX as nat) is None ==> made.baud_rate == 115200
            &&& made.password.len() + made.private_key_path.len() + made.private_key_inline.len()
                + made.passphrase.len() + made.proxy_password.len() + made.user.len() == 0
            &&& made.proxy_type == "none"@ && made.proxy_port is None && made.port == 0
        }),
{
    lemma_number_stays(rate as nat, u32::MAX as nat);
}

/// A session over a serial line that a form made goes through the form unchanged.
pub proof fn an_unchanged_form_keeps_the_line(
    form: ConnectionForm,
    session: Session,
    before: FormView,
    first: ConnectionForm,
    last_used: Option<Seq<char>>,
)
    requires
        first.is_serial(),
        session@ == first.session(session.id@, last_used),
        form@ == before.loaded(session),
    ensures
        form.session(session.id@, last_used) == session@,
{
    let n = trim(first.name@);
    let h = trim(first.host@);
    trimming_is_idempotent(first.name@);
    trimming_is_idempotent(first.host@);
    lemma_number_stays(session.baud_rate as nat, u32::MAX as nat);
    let made = form.session(session.id@, last_used);
    assert(made.name == session@.name);
    assert(made =~= session@);
}

/// A copy makes a session like the one it was made from, under a name that says so; it
/// is a new one, and not the one it was made from.
pub proof fn a_copy_makes_a_session_like_the_first(
    form: ConnectionForm,
    session: Session,
    before: FormView,
    id: Seq<char>,
)
    requires
        from_a_form(session),
        form@ == before.copied(session),
    ensures
        form.editing_session_id is None,
        form.refusal() is None,
        form.session(id, None) == (SessionView {
            id,
            name: session.name@ + "-copy"@,
            last_used: None,
            ..session@
        }),
{
    reveal_strlit("ssh");
    reveal_strlit("serial");
    reveal_strlit("-copy");
    assert("ssh"@.len() == 3);
    assert("serial"@.len() == 6);
    lemma_number_stays(session.port as nat, u16::MAX as nat);
    if let Some(port) = session.proxy_port {
        lemma_number_stays(port as nat, u16::MAX as nat);
    } else {
        assert(trim(Seq::<char>::empty()) =~= Seq::empty());
        assert(number_in(form.proxy_port@, u16::MAX as nat) is None);
    }
    let name = session.name@ + "-copy"@;
    trimming_is_idempotent(session.name@);
    assert(name[0] == session.name@[0]);
    assert(name.last() == 'y');
    trimming_is_idempotent(name);
    let made = form.session(id, None);
    assert(made.password =~= session.password@);
    assert(made.private_key_path =~= session.private_key_path@);
    assert(made.private_key_inline =~= session.private_key_inline@);
    assert(made.passphrase =~= session.passphrase@);
    assert(made =~= SessionView { id, name, last_used: None, ..session@ });
}

/// A connection is described by where it leads: the user at the machine and its port, or
/// the serial port with its rate.
pub proof fn a_connection_is_described_by_where_it_leads(session: Session)
    ensures
        session.protocol@ != "serial"@ ==> described(session) == session.user@ + "@"@
            + session.host@ + ":"@ + decimal(session.port as nat),
        session.protocol@ == "serial"@ ==> described(session) == "Serial: "@ + session.host@ + "@"@
            + decimal(session.baud_rate as nat),
{
}

/// The session that a form edits keeps the time at which it was last used; a new one was
/// not used yet.
pub proof fn an_edited_session_was_used_when_it_was(
    form: ConnectionForm,
    sessions: Seq<Session>,
    session: Session,
)
    ensures
        form.editing_session_id is None ==> form.last_used(sessions) is None,
        (form.editing_session_id matches Some(id) && session_with(sessions, id@) == Some(session))
            ==> form.last_used(sessions) == option_text(session.last_used),
{
}

/// A blank form in which only a machine is named makes a new session there: over SSH at
/// port 22, as `root`, with a password and without a proxy.
pub proof fn a_blank_form_needs_only_a_machine(
    form: ConnectionForm,
    host: Seq<char>,
    id: Seq<char>,
)
    requires
        host.len() > 0,
        is_trimmed(host),
        form@ == (FormView { host, ..FormView::blank() }),
    ensures
        form.editing_session_id is None,
        form.refusal() is None,
        ({
            let made = form.session(id, None);
            &&& made.id == id && made.name == host && made.host == host && made.port == 22
            &&& made.user == "root"@ && made.auth == AuthMethod::Password
            &&& made.password.len() == 0 && made.private_key_path.len() == 0
            &&& made.protocol == "ssh"@ && made.proxy_type == "none"@ && made.proxy_port is None
            &&& made.terminal_encoding is Utf8
        }),
{
    reveal_strlit("ssh");
    reveal_strlit("serial");
    reveal_strlit("22");
    reveal_strlit("root");
    assert("ssh"@.len() == 3);
    assert("serial"@.len() == 6);
    assert("22"@ =~= decimal(22)) by {
        reveal_with_fuel(decimal, 3);
    }
    lemma_number_stays(22, u16::MAX as nat);
    trimming_is_idempotent(host);
    assert("root"@[0] == 'r' && "root"@[3] == 't');
    trimming_is_idempotent("root"@);
    assert(trim(Seq::<char>::empty()) =~= Seq::empty());
}

} // verus!
