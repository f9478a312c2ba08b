//! The proxy through which a session connects.
use vstd::prelude::*;
use vstd::utf8::encode_utf8;

use crate::config::ConfigFile;
use crate::crypto::{base64_encode, base64_text};
use crate::number::{decimal, decimal_text};
use crate::session::Session;
use crate::text::{
    a_prefix_comes_off, holds, holds_at, holds_text, lossy_text, same_text, text_from_bytes,
};

verus! {

/// The proxy that the environment names.
#[derive(Debug, Clone)]
pub struct EnvProxy {
    pub proxy_type: String,
    pub host: String,
    pub port: Option<u16>,
    pub user: String,
    pub pass: String,
}

/// The proxy that was chosen for a connection; of the type `none` where there
/// is none.
#[derive(Debug)]
pub struct ProxyChoice {
    pub proxy_type: String,
    pub host: String,
    pub port: Option<u16>,
    pub user: String,
    pub password: String,
}

/// What a `ProxyChoice` says.
pub struct ProxyView {
    pub proxy_type: Seq<char>,
    pub host: Seq<char>,
    pub port: Option<u16>,
    pub user: Seq<char>,
    pub password: Seq<char>,
}

impl View for ProxyChoice {
    type V = ProxyView;

    open spec fn view(&self) -> ProxyView {
        ProxyView {
            proxy_type: self.proxy_type@,
            host: self.host@,
            port: self.port,
            user: self.user@,
            password: self.password@,
        }
    }
}

/// The proxy of a connection: the session's own; else the one that the
/// environment names, where the configuration says to read it; else the one for
/// all sessions, where it is in use.
pub open spec fn proxy_for(
    session: Session,
    config: ConfigFile,
    environment: Option<EnvProxy>,
) -> ProxyView {
    if session.proxy_type@.len() > 0 && session.proxy_type@ != "none"@ {
        ProxyView {
            proxy_type: session.proxy_type@,
            host: session.proxy_host@,
            port: session.proxy_port,
            user: session.proxy_user@,
            password: session.proxy_password@,
        }
    } else if config.read_env_proxy && environment is Some {
        let named = environment.unwrap();
        ProxyView {
            proxy_type: named.proxy_type@,
            host: named.host@,
            port: named.port,
            user: named.user@,
            password: named.pass@,
        }
    } else if config.use_proxy {
        ProxyView {
            proxy_type: config.global_proxy_type@,
            host: config.global_proxy_host@,
            port: config.global_proxy_port,
            user: config.global_proxy_user@,
            password: config.global_proxy_password@,
        }
    } else {
        ProxyView {
            proxy_type: "none"@,
            host: Seq::empty(),
            port: None,
            user: Seq::empty(),
            password: Seq::empty(),
        }
    }
}

/// The proxy of a connection of the session.
pub fn choose_proxy(
    session: &Session,
    config: &ConfigFile,
    environment: &Option<EnvProxy>,
) -> (r: ProxyChoice)
    ensures
        r@ == proxy_for(*session, *config, *environment),
{
    if !session.proxy_type.as_str().is_empty() && !same_text(
        session.proxy_type.as_str(),
        "none",
    ) {
        return ProxyChoice {
            proxy_type: session.proxy_type.clone(),
            host: session.proxy_host.clone(),
            port: session.proxy_port,
            user: session.proxy_user.clone(),
            password: session.proxy_password.clone(),
        };
    }
    if config.read_env_proxy {
        match environment {
            Some(named) => {
                return ProxyChoice {
                    proxy_type: named.proxy_type.clone(),
                    host: named.host.clone(),
                    port: named.port,
                    user: named.user.clone(),
                    password: named.pass.clone(),
                };
            },
            None => {},
        }
    }
    if config.use_proxy {
        ProxyChoice {
            proxy_type: config.global_proxy_type.clone(),
            host: config.global_proxy_host.clone(),
            port: config.global_proxy_port,
            user: config.global_proxy_user.clone(),
            password: config.global_proxy_password.clone(),
        }
    } else {
        ProxyChoice {
            proxy_type: "none".to_owned(),
            host: String::new(),
            port: None,
            user: String::new(),
            password: String::new(),
        }
    }
}

/// Whether a chosen proxy can be used: it is one at all, and it has a host and a
/// port.
pub open spec fn usable(proxy: ProxyView) -> bool {
    proxy.proxy_type != "none"@ && proxy.host.len() > 0 && proxy.port is Some
}

/// The type, the host and the port of the proxy through which the session would
/// connect.
pub fn active_proxy(
    session: &Session,
    config: &ConfigFile,
    environment: &Option<EnvProxy>,
) -> (r: Option<(String, String, Option<u16>)>)
    ensures
        ({
            let proxy = proxy_for(*session, *config, *environment);
            match r {
                Some((proxy_type, host, port)) => usable(proxy) && proxy_type@ == proxy.proxy_type
                    && host@ == proxy.host && port == proxy.port,
                None => !usable(proxy),
            }
        }),
{
    let choice = choose_proxy(session, config, environment);
    if !same_text(choice.proxy_type.as_str(), "none") && !choice.host.as_str().is_empty()
        && choice.port.is_some() {
        Some((choice.proxy_type, choice.host, choice.port))
    } else {
        None
    }
}

/// How a connection is made.
#[derive(Debug)]
pub enum ConnectPlan {
    /// Connect to this address.
    Direct(String),
    /// Ask the SOCKS proxy at this address for the target, with these
    /// credentials.
    Socks5(String, Option<(String, String)>),
    /// Send this request to the HTTP proxy at this address.
    Http(String, String),
}

/// A host and a port.
pub open spec fn address(host: Seq<char>, port: u16) -> Seq<char> {
    host + ":"@ + decimal(port as nat)
}

pub fn address_text(host: &str, port: u16) -> (r: String)
    ensures
        r@ == address(host@, port),
{
    let mut r = host.to_owned();
    r.append(":");
    let number = decimal_text(port as u64);
    r.append(number.as_str());
    r
}

/// The request with which an HTTP proxy is asked for the target.
pub open spec fn connect_request(
    host: Seq<char>,
    port: u16,
    user: Seq<char>,
    password: Seq<char>,
) -> Seq<char> {
    let target = address(host, port);
    let start = "CONNECT "@ + target + " HTTP/1.1\r\nHost: "@ + target + "\r\n"@;
    if user.len() == 0 {
        start + "\r\n"@
    } else {
        start + "Proxy-Authorization: Basic "@ + base64_text(
            encode_utf8(user + ":"@ + password),
        ) + "\r\n"@ + "\r\n"@
    }
}

pub fn http_connect_request(host: &str, port: u16, user: &str, password: &str) -> (r: String)
    ensures
        r@ == connect_request(host@, port, user@, password@),
{
    let target = address_text(host, port);
    let mut r = "CONNECT ".to_owned();
    r.append(target.as_str());
    r.append(" HTTP/1.1\r\nHost: ");
    r.append(target.as_str());
    r.append("\r\n");
    if !user.is_empty() {
        let mut pair = user.to_owned();
        pair.append(":");
        pair.append(password);
        let encoded = base64_encode(pair.as_str().as_bytes());
        r.append("Proxy-Authorization: Basic ");
        r.append(encoded.as_str());
        r.append("\r\n");
    }
    r.append("\r\n");
    r
}

/// What an HTTP proxy's reply means: it let the connection through where it
/// says so.
pub fn http_connect_reply(reply: &[u8]) -> (r: Result<(), String>)
    ensures
        ({
            let text = lossy_text(reply@);
            match r {
                Ok(()) => holds(text, "200"@) || holds(text, "established"@),
                Err(words) => !holds(text, "200"@) && !holds(text, "established"@) && words@
                    == "HTTP proxy CONNECT failed: "@ + text,
            }
        }),
{
    let text = text_from_bytes(reply);
    http_connect_accepted(text.as_str())
}

/// What the text of an HTTP proxy's reply means.
pub fn http_connect_accepted(text: &str) -> (r: Result<(), String>)
    ensures
        match r {
            Ok(()) => holds(text@, "200"@) || holds(text@, "established"@),
            Err(words) => !holds(text@, "200"@) && !holds(text@, "established"@) && words@
                == "HTTP proxy CONNECT failed: "@ + text@,
        },
{
    if holds_text(text, "200") || holds_text(text, "established") {
        Ok(())
    } else {
        let mut words = "HTTP proxy CONNECT failed: ".to_owned();
        words.append(text);
        Err(words)
    }
}

/// Whether the plan is the one for a target and a chosen proxy. A proxy without
/// a host or a port, or of a type that is not known, is passed by.
pub open spec fn plans(plan: ConnectPlan, host: Seq<char>, port: u16, proxy: ProxyView) -> bool {
    if usable(proxy) && (proxy.proxy_type == "socks5"@ || proxy.proxy_type == "socks5h"@) {
        match plan {
            ConnectPlan::Socks5(at, credentials) => {
                &&& at@ == address(proxy.host, proxy.port.unwrap())
                &&& match credentials {
                    Some((user, password)) => proxy.user.len() > 0 && user@ == proxy.user
                        && password@ == proxy.password,
                    None => proxy.user.len() == 0,
                }
            },
            _ => false,
        }
    } else if usable(proxy) && proxy.proxy_type == "http"@ {
        match plan {
            ConnectPlan::Http(at, request) => at@ == address(proxy.host, proxy.port.unwrap())
                && request@ == connect_request(host, port, proxy.user, proxy.password),
            _ => false,
        }
    } else {
        match plan {
            ConnectPlan::Direct(at) => at@ == address(host, port),
            _ => false,
        }
    }
}

/// How to connect to a host and a port through the chosen proxy.
pub fn plan_connection(host: &str, port: u16, proxy: ProxyChoice) -> (r: ConnectPlan)
    ensures
        plans(r, host@, port, proxy@),
{
    let proxy_port = match proxy.port {
        Some(proxy_port) => proxy_port,
        None => {
            return ConnectPlan::Direct(address_text(host, port));
        },
    };
    if same_text(proxy.proxy_type.as_str(), "none") || proxy.host.as_str().is_empty() {
        return ConnectPlan::Direct(address_text(host, port));
    }
    let at = address_text(proxy.host.as_str(), proxy_port);
    if same_text(proxy.proxy_type.as_str(), "socks5") || same_text(
        proxy.proxy_type.as_str(),
        "socks5h",
    ) {
        if proxy.user.as_str().is_empty() {
            ConnectPlan::Socks5(at, None)
        } else {
            ConnectPlan::Socks5(at, Some((proxy.user, proxy.password)))
        }
    } else if same_text(proxy.proxy_type.as_str(), "http") {
        let request = http_connect_request(
            host,
            port,
            proxy.user.as_str(),
            proxy.password.as_str(),
        );
        ConnectPlan::Http(at, request)
    } else {
        ConnectPlan::Direct(address_text(host, port))
    }
}

/// How many seconds a connection may take to be made.
pub const CONNECT_TIMEOUT_SECONDS: u64 = 16;

/// An attempt to connect: how, and how many seconds it may take.
#[derive(Debug)]
pub struct ConnectAttempt {
    pub plan: ConnectPlan,
    pub seconds: u64,
}

/// What is said of a connection that took too long.
pub open spec fn late_connection(seconds: u64) -> Seq<char> {
    "connection timed out after "@ + decimal(seconds as nat) + " seconds"@
}

/// What is said of a connection that took too long.
pub fn connect_timeout(seconds: u64) -> (r: String)
    ensures
        r@ == late_connection(seconds),
{
    let mut words = "connection timed out after ".to_owned();
    let number = decimal_text(seconds);
    words.append(number.as_str());
    words.append(" seconds");
    words
}

/// What an attempt to connect gives, where `ended` is how it ended within the seconds
/// that it had, if it did: one that did not end in time is an error.
pub open spec fn attempt_gives(
    seconds: u64,
    ended: Option<Result<(), String>>,
) -> Result<(), Seq<char>> {
    match ended {
        Some(Ok(_)) => Ok(()),
        Some(Err(error)) => Err(error@),
        None => Err(late_connection(seconds)),
    }
}

impl ConnectAttempt {
    /// What the attempt gives, where `ended` is how it ended in time, if it did.
    pub fn result(&self, ended: Option<Result<(), String>>) -> (r: Result<(), String>)
        ensures
            match (r, attempt_gives(self.seconds, ended)) {
                (Ok(_), Ok(_)) => true,
                (Err(words), Err(error)) => words@ == error,
                _ => false,
            },
    {
        match ended {
            Some(outcome) => outcome,
            None => Err(connect_timeout(self.seconds)),
        }
    }
}

/// How a session connects.
pub fn connect_proxy(
    session: &Session,
    config: &ConfigFile,
    environment: &Option<EnvProxy>,
) -> (r: ConnectAttempt)
    ensures
        plans(r.plan, session.host@, session.port, proxy_for(*session, *config, *environment)),
        r.seconds == CONNECT_TIMEOUT_SECONDS,
{
    let choice = choose_proxy(session, config, environment);
    ConnectAttempt {
        plan: plan_connection(session.host.as_str(), session.port, choice),
        seconds: CONNECT_TIMEOUT_SECONDS,
    }
}

/// There is a connection exactly where an attempt ended with one within the seconds
/// that it had, and it has sixteen.
pub proof fn a_late_connection_is_none(attempt: ConnectAttempt, ended: Option<Result<(), String>>)
    requires
        attempt.seconds == CONNECT_TIMEOUT_SECONDS,
    ensures
        attempt.seconds == 16,
        attempt_gives(attempt.seconds, ended) is Ok <==> (ended matches Some(outcome)
            && outcome is Ok),
{
}

/// A session without an active proxy, or with one of a type that is not known,
/// connects straight to its host; one with an active proxy of a known type connects to
/// the address of the proxy.
pub proof fn plan_follows_active_proxy(
    session: Session,
    config: ConfigFile,
    environment: Option<EnvProxy>,
    plan: ConnectPlan,
)
    requires
        plans(plan, session.host@, session.port, proxy_for(session, config, environment)),
    ensures
        ({
            let proxy = proxy_for(session, config, environment);
            let known = proxy.proxy_type == "socks5"@ || proxy.proxy_type == "socks5h"@
                || proxy.proxy_type == "http"@;
            opened_address(plan) == (if usable(proxy) && known {
                address(proxy.host, proxy.port.unwrap())
            } else {
                address(session.host@, session.port)
            })
        }),
{
}

/// The address to which a plan opens a connection.
pub open spec fn opened_address(plan: ConnectPlan) -> Seq<char> {
    match plan {
        ConnectPlan::Direct(at) => at@,
        ConnectPlan::Socks5(at, _) => at@,
        ConnectPlan::Http(at, _) => at@,
    }
}

/// A session's own proxy counts before any other. Without one the environment's counts,
/// where it is to be read and names one; else the proxy for all sessions, where it is in
/// use; and else there is none.
pub proof fn the_nearest_proxy_counts(
    session: Session,
    config: ConfigFile,
    other: ConfigFile,
    named: EnvProxy,
    environment: Option<EnvProxy>,
)
    ensures
        ({
            let own = session.proxy_type@.len() > 0 && session.proxy_type@ != "none"@;
            let mine = proxy_for(session, config, environment);
            &&& own ==> mine.proxy_type == session.proxy_type@ && mine.host == session.proxy_host@
                && mine.port == session.proxy_port && mine.user == session.proxy_user@
                && mine.password == session.proxy_password@
            &&& own ==> mine == proxy_for(session, other, Some(named))
            &&& (!own && config.read_env_proxy && environment == Some(named)) ==> mine.proxy_type
                == named.proxy_type@ && mine.host == named.host@ && mine.port == named.port
                && mine.user == named.user@ && mine.password == named.pass@
            &&& (!own && !config.read_env_proxy) ==> mine == proxy_for(session, config, None)
            &&& (!own && environment is None && config.use_proxy) ==> mine.proxy_type
                == config.global_proxy_type@ && mine.host == config.global_proxy_host@ && mine.port
                == config.global_proxy_port && mine.user == config.global_proxy_user@
                && mine.password == config.global_proxy_password@
            &&& (!own && environment is None && !config.use_proxy) ==> mine.proxy_type == "none"@
                && !usable(mine)
        }),
{
}

/// A connection goes through a proxy of a known kind as that kind asks for it: through a
/// SOCKS proxy with the user and the password where a user is named, and through an HTTP
/// proxy with a request that names the machine to reach. Otherwise it goes straight to the
/// machine.
pub proof fn a_connection_goes_as_its_proxy_asks(
    plan: ConnectPlan,
    host: Seq<char>,
    port: u16,
    proxy: ProxyView,
)
    requires
        plans(plan, host, port, proxy),
    ensures
        (proxy.proxy_type == "none"@ || proxy.host.len() == 0 || proxy.port is None) ==> (
        plan matches ConnectPlan::Direct(at) && at@ == host + ":"@ + decimal(port as nat)),
        (proxy.proxy_type == "socks5"@ && proxy.host.len() > 0 && proxy.port is Some) ==> (
        plan matches ConnectPlan::Socks5(at, login) && at@ == proxy.host + ":"@ + decimal(
            proxy.port->Some_0 as nat,
        ) && (login is Some <==> proxy.user.len() > 0) && (login matches Some((user, password))
            ==> user@ == proxy.user && password@ == proxy.password)),
        (proxy.proxy_type == "socks5h"@ && proxy.host.len() > 0 && proxy.port is Some)
            ==> plan is Socks5,
        (proxy.proxy_type == "http"@ && proxy.host.len() > 0 && proxy.port is Some) ==> (
        plan matches ConnectPlan::Http(at, request) && at@ == proxy.host + ":"@ + decimal(
            proxy.port->Some_0 as nat,
        ) && holds_at(
            request@,
            "CONNECT "@ + host + ":"@ + decimal(port as nat) + " HTTP/1.1\r\n"@,
            0,
        )),
{
    reveal_strlit("none");
    reveal_strlit("socks5");
    reveal_strlit("socks5h");
    reveal_strlit("http");
    assert("none"@[0] == 'n');
    assert("socks5"@[0] == 's');
    assert("socks5h"@[0] == 's');
    assert("http"@[0] == 'h');
    if let ConnectPlan::Http(at, request) = plan {
        the_request_names_the_machine(host, port, proxy.user, proxy.password);
    }
}

/// The request to an HTTP proxy starts with the machine to reach, names it again as the
/// host and ends with an empty line. It holds credentials only where a user is named.
pub proof fn the_request_names_the_machine(
    host: Seq<char>,
    port: u16,
    user: Seq<char>,
    password: Seq<char>,
)
    ensures
        ({
            let request = connect_request(host, port, user, password);
            let target = host + ":"@ + decimal(port as nat);
            let start = "CONNECT "@ + target + " HTTP/1.1\r\n"@ + "Host: "@ + target + "\r\n"@;
            &&& holds_at(
                request,
                "CONNECT "@ + host + ":"@ + decimal(port as nat) + " HTTP/1.1\r\n"@,
                0,
            )
            &&& holds_at(request, start, 0)
            &&& user.len() == 0 ==> request == start + "\r\n"@
            &&& user.len() > 0 ==> request == start + "Proxy-Authorization: Basic "@ + base64_text(
                encode_utf8(user + ":"@ + password),
            ) + "\r\n\r\n"@
        }),
{
    reveal_strlit(" HTTP/1.1\r\nHost: ");
    reveal_strlit(" HTTP/1.1\r\n");
    reveal_strlit("Host: ");
    reveal_strlit("\r\n");
    reveal_strlit("\r\n\r\n");
    let request = connect_request(host, port, user, password);
    let target = host + ":"@ + decimal(port as nat);
    assert(" HTTP/1.1\r\nHost: "@ =~= " HTTP/1.1\r\n"@ + "Host: "@);
    assert("\r\n\r\n"@ =~= "\r\n"@ + "\r\n"@);
    let first = "CONNECT "@ + host + ":"@ + decimal(port as nat) + " HTTP/1.1\r\n"@;
    let start = "CONNECT "@ + target + " HTTP/1.1\r\n"@ + "Host: "@ + target + "\r\n"@;
    assert(start =~= "CONNECT "@ + target + " HTTP/1.1\r\nHost: "@ + target + "\r\n"@);
    assert(start =~= first + ("Host: "@ + target + "\r\n"@));
    if user.len() == 0 {
        assert(request =~= start + "\r\n"@);
        assert(request =~= first + ("Host: "@ + target + "\r\n"@ + "\r\n"@));
        a_prefix_comes_off(first, "Host: "@ + target + "\r\n"@ + "\r\n"@, request);
        a_prefix_comes_off(start, "\r\n"@, request);
    } else {
        let login = "Proxy-Authorization: Basic "@ + base64_text(
            encode_utf8(user + ":"@ + password),
        ) + "\r\n\r\n"@;
        assert(request =~= start + login);
        assert(request =~= start + "Proxy-Authorization: Basic "@ + base64_text(
            encode_utf8(user + ":"@ + password),
        ) + "\r\n\r\n"@);
        assert(request =~= first + ("Host: "@ + target + "\r\n"@ + login));
        a_prefix_comes_off(first, "Host: "@ + target + "\r\n"@ + login, request);
        a_prefix_comes_off(start, login, request);
    }
}

} // verus!
