//! A saved connection.
use vstd::prelude::*;

use crate::number::{decimal, decimal_text};

verus! {

/// How a session proves who the user is.
#[derive(Debug, Clone, Copy, PartialEq, Eq, Structural)]
pub enum AuthMethod {
    Password,
    Key,
    Config,
}

/// The encoding of a terminal's text: UTF-8, or another one by its name.
#[derive(Debug)]
pub enum TextEncoding {
    Utf8,
    Named(String),
}

impl Clone for TextEncoding {
    fn clone(&self) -> (r: Self)
        ensures
            r == *self,
    {
        match self {
            TextEncoding::Utf8 => TextEncoding::Utf8,
            TextEncoding::Named(name) => TextEncoding::Named(name.clone()),
        }
    }
}

impl Default for TextEncoding {
    fn default() -> (r: Self)
        ensures
            r == TextEncoding::Utf8,
    {
        TextEncoding::Utf8
    }
}

pub fn default_protocol() -> (r: String)
    ensures
        r@ == "ssh"@,
{
    "ssh".to_owned()
}

pub fn default_baud_rate() -> (r: u32)
    ensures
        r == 115200,
{
    115200
}

/// A connection that can be opened: to a host over SSH, or to a serial port.
#[derive(Debug)]
pub struct Session {
    pub id: String,
    pub name: String,
    pub host: String,
    pub port: u16,
    pub user: String,
    pub auth: AuthMethod,
    pub password: String,
    pub private_key_path: String,
    pub private_key_inline: String,
    pub passphrase: String,
    pub last_used: Option<String>,
    pub proxy_type: String,
    pub proxy_host: String,
    pub proxy_port: Option<u16>,
    pub proxy_user: String,
    pub proxy_password: String,
    pub protocol: String,
    pub baud_rate: u32,
    pub terminal_encoding: TextEncoding,
}

/// A copy of an optional text.
pub fn clone_option(t: &Option<String>) -> (r: Option<String>)
    ensures
        r == *t,
{
    match t {
        Some(s) => Some(s.clone()),
        None => None,
    }
}

impl Clone for Session {
    fn clone(&self) -> (r: Self)
        ensures
            r == *self,
    {
        Session {
            id: self.id.clone(),
            name: self.name.clone(),
            host: self.host.clone(),
            port: self.port,
            user: self.user.clone(),
            auth: self.auth,
            password: self.password.clone(),
            private_key_path: self.private_key_path.clone(),
            private_key_inline: self.private_key_inline.clone(),
            passphrase: self.passphrase.clone(),
            last_used: clone_option(&self.last_used),
            proxy_type: self.proxy_type.clone(),
            proxy_host: self.proxy_host.clone(),
            proxy_port: self.proxy_port,
            proxy_user: self.proxy_user.clone(),
            proxy_password: self.proxy_password.clone(),
            protocol: self.protocol.clone(),
            baud_rate: self.baud_rate,
            terminal_encoding: self.terminal_encoding.clone(),
        }
    }
}

/// `Uuid::new_v4` of the `uuid` crate makes an identifier by chance; written
/// out it has 36 characters.
#[verifier::external_body]
pub(crate) fn new_id() -> (r: String)
    ensures
        r@.len() == 36,
{
    uuid::Uuid::new_v4().to_string()
}

impl Session {
    /// Whether the session has no proxy of its own, was never used and has the
    /// terminal's usual encoding, as a new one.
    pub open spec fn unused(self) -> bool {
        &&& self.last_used is None
        &&& self.proxy_type@ == "none"@
        &&& self.proxy_host@ == Seq::<char>::empty()
        &&& self.proxy_port is None
        &&& self.proxy_user@ == Seq::<char>::empty()
        &&& self.proxy_password@ == Seq::<char>::empty()
        &&& self.terminal_encoding == TextEncoding::Utf8
    }

    /// A session to a host with a password. Its identifier is new.
    pub fn password(host: String, port: u16, user: String, password: String) -> (r: Session)
        ensures
            r.unused(),
            r.id@.len() == 36,
            r.name@ == user@ + "@"@ + host@,
            r.host == host,
            r.port == port,
            r.user == user,
            r.auth == AuthMethod::Password,
            r.password == password,
            r.private_key_path@ == Seq::<char>::empty(),
            r.private_key_inline@ == Seq::<char>::empty(),
            r.passphrase@ == Seq::<char>::empty(),
            r.protocol@ == "ssh"@,
            r.baud_rate == 115200,
    {
        let mut name = user.clone();
        name.append("@");
        name.append(host.as_str());
        Session {
            id: new_id(),
            name,
            host,
            port,
            user,
            auth: AuthMethod::Password,
            password,
            private_key_path: String::new(),
            private_key_inline: String::new(),
            passphrase: String::new(),
            last_used: None,
            proxy_type: "none".to_owned(),
            proxy_host: String::new(),
            proxy_port: None,
            proxy_user: String::new(),
            proxy_password: String::new(),
            protocol: "ssh".to_owned(),
            baud_rate: 115200,
            terminal_encoding: TextEncoding::Utf8,
        }
    }

    /// A session to a host with a private key. Its identifier is new.
    pub fn key(
        host: String,
        port: u16,
        user: String,
        private_key_path: String,
        private_key_inline: String,
        passphrase: String,
    ) -> (r: Session)
        ensures
            r.unused(),
            r.id@.len() == 36,
            r.name@ == user@ + "@"@ + host@,
            r.host == host,
            r.port == port,
            r.user == user,
            r.auth == AuthMethod::Key,
            r.password@ == Seq::<char>::empty(),
            r.private_key_path == private_key_path,
            r.private_key_inline == private_key_inline,
            r.passphrase == passphrase,
            r.protocol@ == "ssh"@,
            r.baud_rate == 115200,
    {
        let mut name = user.clone();
        name.append("@");
        name.append(host.as_str());
        Session {
            id: new_id(),
            name,
            host,
            port,
            user,
            auth: AuthMethod::Key,
            password: String::new(),
            private_key_path,
            private_key_inline,
            passphrase,
            last_used: None,
            proxy_type: "none".to_owned(),
            proxy_host: String::new(),
            proxy_port: None,
            proxy_user: String::new(),
            proxy_password: String::new(),
            protocol: "ssh".to_owned(),
            baud_rate: 115200,
            terminal_encoding: TextEncoding::Utf8,
        }
    }

    /// A session to a serial port. Its identifier is new.
    pub fn serial(port_name: String, baud_rate: u32) -> (r: Session)
        ensures
            r.unused(),
            r.id@.len() == 36,
            r.name@ == "serial://"@ + port_name@ + "@"@ + decimal(baud_rate as nat),
            r.host == port_name,
            r.port == 0,
            r.user@ == Seq::<char>::empty(),
            r.auth == AuthMethod::Password,
            r.password@ == Seq::<char>::empty(),
            r.private_key_path@ == Seq::<char>::empty(),
            r.private_key_inline@ == Seq::<char>::empty(),
            r.passphrase@ == Seq::<char>::empty(),
            r.protocol@ == "serial"@,
            r.baud_rate == baud_rate,
    {
        let mut name = "serial://".to_owned();
        name.append(port_name.as_str());
        name.append("@");
        let rate = decimal_text(baud_rate as u64);
        name.append(rate.as_str());
        Session {
            id: new_id(),
            name,
            host: port_name,
            port: 0,
            user: String::new(),
            auth: AuthMethod::Password,
            password: String::new(),
            private_key_path: String::new(),
            private_key_inline: String::new(),
            passphrase: String::new(),
            last_used: None,
            proxy_type: "none".to_owned(),
            proxy_host: String::new(),
            proxy_port: None,
            proxy_user: String::new(),
            proxy_password: String::new(),
            protocol: "serial".to_owned(),
            baud_rate,
            terminal_encoding: TextEncoding::Utf8,
        }
    }
}

} // verus!
