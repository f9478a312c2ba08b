use ashell::config::ConfigFile;
use ashell::proxy::{
    active_proxy, choose_proxy, connect_proxy, http_connect_reply, http_connect_request,
    ConnectPlan, EnvProxy,
};
use ashell::session::Session;

fn session() -> Session {
    Session::password("host".to_string(), 22, "root".to_string(), "secret".to_string())
}

fn session_with(proxy_type: &str, port: Option<u16>, user: &str) -> Session {
    let mut session = session();
    session.proxy_type = proxy_type.to_string();
    session.proxy_host = "proxy".to_string();
    session.proxy_port = port;
    session.proxy_user = user.to_string();
    session.proxy_password = "pass".to_string();
    session
}

fn environment() -> Option<EnvProxy> {
    Some(EnvProxy {
        proxy_type: "http".to_string(),
        host: "env".to_string(),
        port: Some(3128),
        user: String::new(),
        pass: String::new(),
    })
}

fn settings(read_env_proxy: bool, use_proxy: bool) -> ConfigFile {
    let mut config = ConfigFile::default();
    config.read_env_proxy = read_env_proxy;
    config.use_proxy = use_proxy;
    config.global_proxy_type = "socks5".to_string();
    config.global_proxy_host = "global".to_string();
    config.global_proxy_port = Some(1080);
    config
}

#[test]
fn the_session_comes_before_the_environment_and_the_settings() {
    let config = settings(true, true);

    let own = choose_proxy(&session_with("http", Some(1), ""), &config, &environment());
    assert_eq!(own.host, "proxy");
    let named = choose_proxy(&session(), &config, &environment());
    assert_eq!(named.host, "env");
    let for_all = choose_proxy(&session(), &config, &None);
    assert_eq!(for_all.host, "global");
    let unread = choose_proxy(&session(), &settings(false, true), &environment());
    assert_eq!(unread.host, "global");
    let off = choose_proxy(&session(), &settings(false, false), &environment());
    assert_eq!(off.proxy_type, "none");
    let refused = choose_proxy(&session_with("none", Some(1), ""), &config, &None);
    assert_eq!(refused.host, "global");
}

#[test]
fn a_proxy_without_a_port_is_not_active() {
    let config = settings(false, false);

    assert_eq!(
        active_proxy(&session_with("http", Some(8080), ""), &config, &None),
        Some(("http".to_string(), "proxy".to_string(), Some(8080)))
    );
    assert_eq!(active_proxy(&session_with("http", None, ""), &config, &None), None);
    assert_eq!(active_proxy(&session(), &config, &None), None);
}

#[test]
fn connections_go_straight_or_through_the_proxy() {
    let config = settings(false, false);

    assert!(matches!(
        connect_proxy(&session(), &config, &None).plan,
        ConnectPlan::Direct(at) if at == "host:22"
    ));
    assert!(matches!(
        connect_proxy(&session_with("socks5h", Some(9), ""), &config, &None).plan,
        ConnectPlan::Socks5(at, None) if at == "proxy:9"
    ));
    assert!(matches!(
        connect_proxy(&session_with("socks5", Some(9), "me"), &config, &None).plan,
        ConnectPlan::Socks5(at, Some((user, pass)))
            if at == "proxy:9" && user == "me" && pass == "pass"
    ));
    assert!(matches!(
        connect_proxy(&session_with("http", Some(9), ""), &config, &None).plan,
        ConnectPlan::Http(at, request)
            if at == "proxy:9" && request == "CONNECT host:22 HTTP/1.1\r\nHost: host:22\r\n\r\n"
    ));
    assert!(matches!(
        connect_proxy(&session_with("ftp", Some(9), ""), &config, &None).plan,
        ConnectPlan::Direct(at) if at == "host:22"
    ));
}

#[test]
fn a_connection_has_sixteen_seconds() {
    let attempt = connect_proxy(&session(), &settings(false, false), &None);

    assert_eq!(attempt.seconds, 16);
    assert_eq!(attempt.result(Some(Ok(()))), Ok(()));
    assert_eq!(attempt.result(Some(Err("refused".to_string()))), Err("refused".to_string()));
    assert_eq!(
        attempt.result(None),
        Err("connection timed out after 16 seconds".to_string())
    );
}

#[test]
fn credentials_go_in_base64() {
    assert_eq!(
        http_connect_request("host", 22, "user", "pass"),
        "CONNECT host:22 HTTP/1.1\r\nHost: host:22\r\nProxy-Authorization: Basic dXNlcjpwYXNz\r\n\r\n"
    );
}

#[test]
fn the_reply_says_whether_the_proxy_connected() {
    assert_eq!(http_connect_reply(b"HTTP/1.1 200 OK\r\n\r\n"), Ok(()));
    assert_eq!(http_connect_reply(b"connection established"), Ok(()));
    assert_eq!(
        http_connect_reply(b"HTTP/1.1 407 no\xff"),
        Err("HTTP proxy CONNECT failed: HTTP/1.1 407 no\u{fffd}".to_string())
    );
}
