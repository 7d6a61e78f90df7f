//! Connection rules: the lifecycle states, the handshake a configuration
//! demands, the choice of transport, and how a one-command-in /
//! one-reply-out exchange classifies what came back. The caller owns the
//! byte stream; these functions decide, and their decisions are exact.

use vstd::prelude::*;
use vstd::utf8::encode_utf8;
use crate::codec::Value;
use crate::command::{cmd, Command};
use crate::digits::dec_int;
use crate::sentinel::SentinelConfig;

verus! {

/// Which of the two discovery failure causes applied.
#[derive(Clone, Copy, PartialEq, Eq, Structural, Debug)]
pub enum SentinelFailure {
    /// No sentinel ever answered a query: every endpoint was unreachable.
    AllUnreachable,
    /// At least one sentinel answered, but none currently names a valid
    /// master for the service.
    ServiceNotKnown,
}

/// The failure taxonomy: I/O on the stream, a malformed or unexpected
/// frame, an explicit error reply (message preserved verbatim), local
/// misuse, and discovery exhaustion with its precise cause.
#[derive(Debug)]
pub enum Error {
    Transport(String),
    Protocol(String),
    Server(Vec<u8>),
    Client(String),
    Sentinel(SentinelFailure),
}

/// The server topology: one fixed endpoint, or a sentinel-monitored set.
pub enum ServerConfig {
    Single { host: String, port: u16 },
    Sentinel(SentinelConfig),
}

/// Everything needed to establish — and re-establish — a connection,
/// immutable for the duration of an attempt.
pub struct Config {
    pub server: ServerConfig,
    pub username: Option<String>,
    pub password: Option<String>,
    pub database: u64,
    pub use_tls: bool,
}

/// The transport variants a configuration can select.
#[derive(Clone, Copy, PartialEq, Eq, Structural, Debug)]
pub enum TransportKind {
    Plain,
    Tls,
}

/// The connection lifecycle.
#[derive(Clone, Copy, PartialEq, Eq, Structural, Debug)]
pub enum ConnectionState {
    Disconnected,
    Connecting,
    Authenticating,
    SelectingDatabase,
    Ready,
    Reconnecting,
    Failed,
}

/// The transport is encrypted exactly when the configuration supplies TLS
/// settings.
pub fn transport_kind(config: &Config) -> (r: TransportKind)
    ensures
        r == TransportKind::Tls <==> config.use_tls,
{
    if config.use_tls {
        TransportKind::Tls
    } else {
        TransportKind::Plain
    }
}

/// Where the lifecycle goes when the current step concludes: on success,
/// the next step the configuration demands (authentication only if a
/// credential is configured, database selection only if a non-default
/// database is configured); on failure, terminal for this attempt.
pub open spec fn connection_step_spec(
    state: ConnectionState,
    config: Config,
    ok: bool,
) -> ConnectionState {
    if !ok {
        ConnectionState::Failed
    } else {
        match state {
            ConnectionState::Disconnected => ConnectionState::Connecting,
            ConnectionState::Reconnecting => ConnectionState::Connecting,
            ConnectionState::Connecting => if config.password is Some {
                ConnectionState::Authenticating
            } else if config.database != 0 {
                ConnectionState::SelectingDatabase
            } else {
                ConnectionState::Ready
            },
            ConnectionState::Authenticating => if config.database != 0 {
                ConnectionState::SelectingDatabase
            } else {
                ConnectionState::Ready
            },
            ConnectionState::SelectingDatabase => ConnectionState::Ready,
            ConnectionState::Ready => ConnectionState::Ready,
            ConnectionState::Failed => ConnectionState::Failed,
        }
    }
}

/// Advance the lifecycle by one step's outcome.
pub fn connection_step(state: ConnectionState, config: &Config, ok: bool) -> (r: ConnectionState)
    ensures
        r == connection_step_spec(state, *config, ok),
{
    if !ok {
        ConnectionState::Failed
    } else {
        match state {
            ConnectionState::Disconnected => ConnectionState::Connecting,
            ConnectionState::Reconnecting => ConnectionState::Connecting,
            ConnectionState::Connecting => if config.password.is_some() {
                ConnectionState::Authenticating
            } else if config.database != 0 {
                ConnectionState::SelectingDatabase
            } else {
                ConnectionState::Ready
            },
            ConnectionState::Authenticating => if config.database != 0 {
                ConnectionState::SelectingDatabase
            } else {
                ConnectionState::Ready
            },
            ConnectionState::SelectingDatabase => ConnectionState::Ready,
            ConnectionState::Ready => ConnectionState::Ready,
            ConnectionState::Failed => ConnectionState::Failed,
        }
    }
}

/// The commands the post-connect handshake sends, in order: an
/// authentication request exactly when a credential is configured (the
/// username, if any, precedes the password), then a database selection
/// exactly when a non-default database index is configured.
pub fn handshake_commands(config: &Config) -> (r: Vec<Command>)
    ensures
        r@.len() == (if config.password is Some { 1int } else { 0int }) + (
            if config.database != 0 { 1int } else { 0int }),
        (config.password matches Some(p) ==> r@[0].name_view() == encode_utf8("AUTH"@)
            && r@[0].args_view() == (match config.username {
                Option::Some(u) => seq![encode_utf8(u@), encode_utf8(p@)],
                Option::None => seq![encode_utf8(p@)],
            })),
        config.database != 0 ==> r@[r@.len() - 1].name_view() == encode_utf8("SELECT"@)
            && r@[r@.len() - 1].args_view() == seq![dec_int(config.database as int)],
{
    let mut out: Vec<Command> = Vec::new();
    match &config.password {
        Option::Some(p) => {
            let auth = match &config.username {
                Option::Some(u) => cmd("AUTH").arg(u.as_str()).arg(p.as_str()),
                Option::None => cmd("AUTH").arg(p.as_str()),
            };
            out.push(auth);
        },
        Option::None => {},
    }
    if config.database != 0 {
        out.push(cmd("SELECT").arg(config.database));
    }
    out
}

/// Classify what one exchange's read yielded, exactly as `send` reports
/// it: the peer's end-of-stream becomes the "disconnected by peer" client
/// failure — never an ambiguous empty reply; a read failure passes
/// through; an error reply becomes a server failure with its message
/// preserved; any other reply is the result.
pub fn send_outcome(read: Option<Result<Value, Error>>) -> (r: Result<Value, Error>)
    ensures
        read is None ==> (r matches Err(Error::Client(m)) && m@ == "Disconnected by peer"@),
        (read matches Some(Err(e)) ==> r == Err::<Value, Error>(e)),
        (read matches Some(Ok(v)) ==> (match v {
            Value::Error(msg) => r == Err::<Value, Error>(Error::Server(msg)),
            _ => r == Ok::<Value, Error>(v),
        })),
{
    match read {
        Option::None => Err(Error::Client("Disconnected by peer".to_owned())),
        Option::Some(Err(e)) => Err(e),
        Option::Some(Ok(v)) => match v {
            Value::Error(msg) => Err(Error::Server(msg)),
            other => Ok(other),
        },
    }
}

/// Marker tying command results to a direct connection.
pub struct ConnectionResult;

} // verus!
