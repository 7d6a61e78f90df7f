//! Connection rules: the handshake a configuration demands, transport
//! selection, lifecycle stepping, and how an exchange's outcome is
//! classified — the peer closing mid-read in particular.

use rustis::codec::Value;
use rustis::command::Command;
use rustis::connection::{
    connection_step, handshake_commands, send_outcome, transport_kind, Config, ConnectionState,
    Error, ServerConfig, TransportKind,
};

fn config(username: Option<&str>, password: Option<&str>, database: u64, tls: bool) -> Config {
    Config {
        server: ServerConfig::Single { host: String::from("localhost"), port: 6379 },
        username: username.map(String::from),
        password: password.map(String::from),
        database,
        use_tls: tls,
    }
}

fn args_of(c: &Command) -> Vec<Vec<u8>> {
    let mut out = Vec::new();
    let mut i = 0;
    while i < c.num_args() {
        out.push(c.get_arg(i).clone());
        i += 1;
    }
    out
}

#[test]
fn peer_close_reports_disconnected_by_peer() {
    // end-of-stream on read is a distinct client failure, never an
    // ambiguous empty reply
    match send_outcome(None) {
        Err(Error::Client(m)) => assert_eq!(m, "Disconnected by peer"),
        _ => panic!("peer close must be the disconnected-by-peer failure"),
    }
}

#[test]
fn error_reply_becomes_server_failure_with_message() {
    let read = Some(Ok(Value::Error(b"ERR bad key".to_vec())));
    match send_outcome(read) {
        Err(Error::Server(m)) => assert_eq!(m, b"ERR bad key".to_vec()),
        _ => panic!("an error reply must become a server failure"),
    }
}

#[test]
fn ordinary_reply_passes_through() {
    let read = Some(Ok(Value::Integer(3)));
    match send_outcome(read) {
        Ok(Value::Integer(3)) => {}
        _ => panic!("an ordinary reply is the result"),
    }
}

#[test]
fn read_failure_passes_through() {
    let read = Some(Err(Error::Protocol(String::from("bad frame"))));
    match send_outcome(read) {
        Err(Error::Protocol(m)) => assert_eq!(m, "bad frame"),
        _ => panic!("a read failure passes through"),
    }
}

#[test]
fn handshake_with_credential_and_database() {
    let cmds = handshake_commands(&config(Some("user"), Some("pw"), 3, false));
    assert_eq!(cmds.len(), 2);
    assert_eq!(cmds[0].name_bytes(), &b"AUTH".to_vec());
    assert_eq!(args_of(&cmds[0]), vec![b"user".to_vec(), b"pw".to_vec()]);
    assert_eq!(cmds[1].name_bytes(), &b"SELECT".to_vec());
    assert_eq!(args_of(&cmds[1]), vec![b"3".to_vec()]);
}

#[test]
fn handshake_password_only() {
    let cmds = handshake_commands(&config(None, Some("secret"), 0, false));
    assert_eq!(cmds.len(), 1);
    assert_eq!(cmds[0].name_bytes(), &b"AUTH".to_vec());
    assert_eq!(args_of(&cmds[0]), vec![b"secret".to_vec()]);
}

#[test]
fn handshake_default_is_empty() {
    let cmds = handshake_commands(&config(None, None, 0, false));
    assert_eq!(cmds.len(), 0);
}

#[test]
fn transport_follows_tls_setting() {
    assert_eq!(transport_kind(&config(None, None, 0, false)), TransportKind::Plain);
    assert_eq!(transport_kind(&config(None, None, 0, true)), TransportKind::Tls);
}

#[test]
fn lifecycle_honors_configured_steps() {
    let full = config(Some("u"), Some("p"), 2, false);
    let mut s = ConnectionState::Disconnected;
    s = connection_step(s, &full, true);
    assert_eq!(s, ConnectionState::Connecting);
    s = connection_step(s, &full, true);
    assert_eq!(s, ConnectionState::Authenticating);
    s = connection_step(s, &full, true);
    assert_eq!(s, ConnectionState::SelectingDatabase);
    s = connection_step(s, &full, true);
    assert_eq!(s, ConnectionState::Ready);

    let bare = config(None, None, 0, false);
    let s2 = connection_step(ConnectionState::Connecting, &bare, true);
    assert_eq!(s2, ConnectionState::Ready);

    let failed = connection_step(ConnectionState::Authenticating, &full, false);
    assert_eq!(failed, ConnectionState::Failed);

    let again = connection_step(ConnectionState::Reconnecting, &full, true);
    assert_eq!(again, ConnectionState::Connecting);
}
