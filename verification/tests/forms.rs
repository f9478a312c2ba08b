use ashell::config::ConfigStore;
use ashell::forms::{
    connect_ssh, session_detail, ConnectionForm, FormRefusal, SshConfigEntry,
};
use ashell::session::{AuthMethod, Session, TextEncoding};

fn blank() -> ConnectionForm {
    let mut form = ConnectionForm {
        editing_session_id: Some("x".to_string()),
        auth: AuthMethod::Key,
        protocol: "serial".to_string(),
        encoding: TextEncoding::Utf8,
        config_selected: Some(3),
        name: "n".to_string(),
        host: "h".to_string(),
        port: "1".to_string(),
        user: "u".to_string(),
        password: "p".to_string(),
        key_path: "k".to_string(),
        key_inline: "i".to_string(),
        passphrase: "s".to_string(),
        baud_rate: "9".to_string(),
        proxy_type: "http".to_string(),
        proxy_host: "ph".to_string(),
        proxy_port: "2".to_string(),
        proxy_user: "pu".to_string(),
        proxy_password: "pp".to_string(),
    };
    form.reset_ssh_form();
    form
}

fn saved() -> Session {
    let mut session =
        Session::password("host".to_string(), 2222, "me".to_string(), "pwd".to_string());
    session.id = "id".to_string();
    session.proxy_type = "none".to_string();
    session.last_used = Some("yesterday".to_string());
    session
}

#[test]
fn a_new_form_is_blank() {
    let form = blank();

    assert_eq!(form.editing_session_id, None);
    assert_eq!(form.auth, AuthMethod::Password);
    assert_eq!(form.protocol, "ssh");
    assert_eq!(form.port, "22");
    assert_eq!(form.user, "root");
    assert_eq!(form.baud_rate, "115200");
    assert_eq!(form.proxy_type, "none");
    assert_eq!(form.config_selected, None);
}

#[test]
fn a_form_needs_a_host_and_a_user() {
    let mut store = ConfigStore::in_memory();
    let mut form = blank();
    assert_eq!(connect_ssh(&mut form, &mut store).unwrap_err(), FormRefusal::HostOrUserMissing);
    form.host = " host ".to_string();
    form.user = " ".to_string();
    assert_eq!(form.find_refusal(), Some(FormRefusal::HostOrUserMissing));
    form.user = "me".to_string();
    form.proxy_type = "http".to_string();
    assert_eq!(form.find_refusal(), Some(FormRefusal::ProxyIncomplete));
    form.proxy_host = "proxy".to_string();
    form.proxy_port = "70000".to_string();
    assert_eq!(form.find_refusal(), Some(FormRefusal::ProxyIncomplete));
    form.proxy_port = " 8080 ".to_string();
    assert_eq!(form.find_refusal(), None);
    let outcome = connect_ssh(&mut form, &mut store).unwrap();
    assert!(outcome.open);
    assert_eq!(outcome.session.host, "host");
    assert_eq!(outcome.session.name, "host");
    assert_eq!(outcome.session.proxy_port, Some(8080));
    assert_eq!(store.sessions().len(), 1);
}

#[test]
fn a_serial_form_needs_a_port() {
    let mut store = ConfigStore::in_memory();
    let mut form = blank();
    form.protocol = "serial".to_string();
    assert_eq!(connect_ssh(&mut form, &mut store).unwrap_err(), FormRefusal::SerialPortMissing);
    form.host = "/dev/ttyS0".to_string();
    form.baud_rate = "9600".to_string();
    let outcome = connect_ssh(&mut form, &mut store).unwrap();

    assert_eq!(outcome.session.protocol, "serial");
    assert_eq!(outcome.session.baud_rate, 9600);
    assert_eq!(session_detail(&outcome.session), "Serial: /dev/ttyS0@9600");
}

#[test]
fn an_unchanged_form_gives_the_session_back() {
    let mut store = ConfigStore::in_memory();
    store.upsert(saved());
    let mut form = blank();
    assert!(form.edit_saved_session(&store, "id"));
    assert_eq!(form.editing_session_id, Some("id".to_string()));
    let outcome = connect_ssh(&mut form, &mut store).unwrap();

    assert!(!outcome.open);
    assert_eq!(format!("{:?}", outcome.session), format!("{:?}", saved()));
    assert_eq!(store.sessions().len(), 1);
    assert_eq!(form.editing_session_id, None);
    assert!(!form.edit_saved_session(&store, "other"));
}

#[test]
fn a_copied_session_is_a_new_one() {
    let mut store = ConfigStore::in_memory();
    store.upsert(saved());
    let mut form = blank();
    assert!(form.clone_saved_session(&store, "id"));
    assert_eq!(form.name, "me@host-copy");
    let outcome = connect_ssh(&mut form, &mut store).unwrap();

    assert!(outcome.open);
    assert_ne!(outcome.session.id, "id");
    assert_eq!(outcome.session.last_used, None);
    assert_eq!(store.sessions().len(), 2);
}

#[test]
fn an_entry_of_the_ssh_configuration_fills_the_form() {
    let entries = vec![SshConfigEntry {
        host_alias: "alias".to_string(),
        hostname: "real".to_string(),
        port: 23,
        user: String::new(),
        identity_files: vec!["id_a".to_string(), "id_b".to_string()],
    }];
    let mut form = blank();
    assert!(form.select_ssh_config_entry(&entries, 0, Some("system".to_string())));

    assert_eq!(form.name, "alias");
    assert_eq!(form.host, "real");
    assert_eq!(form.port, "23");
    assert_eq!(form.user, "system");
    assert_eq!(form.key_path, "id_a");
    assert!(!form.select_ssh_config_entry(&entries, 1, None));
    assert_eq!(form.config_selected, Some(1));
    assert!(form.set_ssh_auth_method(AuthMethod::Config));
    assert_eq!(form.config_selected, None);
    assert!(!form.set_ssh_auth_method(AuthMethod::Key));
}

#[test]
fn connections_are_described() {
    assert_eq!(session_detail(&saved()), "me@host:2222");
}
