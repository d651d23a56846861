//! A length-framed, bidirectional TCP messaging core.
//!
//! One process acts as a server accepting many clients, or as a client
//! connecting to one server, exchanging opaque serialized payloads identified
//! by a numeric type tag.  This crate holds the verified logic: wire framing,
//! the connection registry, the per-iteration reader state machine, outbound
//! dispatch, the event bridge, and the reconnection controller.  The host
//! application owns the sockets and worker threads and drives these functions
//! with plain values: socket reads hand their bytes (or their error kind) to
//! the reader functions, and the dispatch functions hand back the frames to
//! write on which connection.

use vstd::prelude::*;
use vstd::string::StringExecFns;

pub mod client;
pub mod codec;
pub mod events;
pub mod player;
pub mod reader;
pub mod reconnect;
pub mod server;

verus! {

/// The application-opaque unit the core transports: a numeric type tag and
/// the serialized payload bytes.
#[derive(Clone, Debug, PartialEq)]
pub struct DataPacket {
    pub identifier: u32,
    pub bytes: Vec<u8>,
}

impl View for DataPacket {
    type V = (u32, Seq<u8>);

    open spec fn view(&self) -> (u32, Seq<u8>) {
        (self.identifier, self.bytes@)
    }
}

impl DataPacket {
    /// A copy with the same tag and the same bytes, for broadcasting one
    /// payload to several recipients.
    pub fn clone_packet(&self) -> (copied: Self)
        ensures
            copied@ == self@,
    {
        let bytes = self.bytes.clone();
        proof {
            assert(bytes@ =~= self.bytes@);
        }
        DataPacket { identifier: self.identifier, bytes }
    }
}

/// Every failure the core reports to its callers.  Transport errors carry no
/// payload here: the host keeps the underlying I/O error where it needs it.
#[derive(Clone, Copy, Debug, PartialEq, Eq, Structural)]
pub enum ConnectionError {
    MissingClientConfig,
    MissingServerConfig,
    NotConnectedToServer,
    AlreadyConnectedToServer,
    AlreadyHosting,
    ConnectionRefused,
    ConnectionReset,
    FailedToSerializeData,
    FailedToSendData,
    TcpErr,
    BincodeErr,
}

/// Server role configuration: the port to listen on.
pub struct ServerConfig {
    pub host_port: u16,
}

impl Default for ServerConfig {
    fn default() -> (config: Self)
        ensures
            config.host_port == 46393,
    {
        ServerConfig { host_port: 46393 }
    }
}

/// Client role configuration: where the server lives, and whether to retry
/// after losing the connection.
pub struct ClientConfig {
    pub server_address: String,
    pub auto_reconnect: AutoReconnect,
}

impl Default for ClientConfig {
    fn default() -> (config: Self)
        ensures
            config.server_address@ == "127.0.0.1:46393"@,
            config.auto_reconnect == (AutoReconnect::Auto { reconnection_time_ms: 5000 }),
    {
        ClientConfig {
            server_address: String::from_str("127.0.0.1:46393"),
            auto_reconnect: AutoReconnect::Auto { reconnection_time_ms: 5000 },
        }
    }
}

/// Client-side retry policy after a disconnect, with the retry period in
/// milliseconds.
#[derive(Clone, Copy, Debug, PartialEq, Eq, Structural)]
pub enum AutoReconnect {
    Auto { reconnection_time_ms: u64 },
    Off,
}

/// Whether a peer joined or left; carried by the server's membership events.
#[derive(Clone, Copy, Debug, PartialEq, Eq, Structural)]
pub enum IntergressType {
    Joined,
    Left,
}

/// Selects which connected peer(s) receive an outbound payload.
#[derive(Clone, Copy, Debug, PartialEq, Eq, Structural)]
pub enum Recipient {
    All,
    AllExcept { id: u32 },
    Single { id: u32 },
}

impl Recipient {
    /// Whether a payload addressed by `self` is owed to connection `id`.
    pub open spec fn selects(self, id: u32) -> bool {
        match self {
            Recipient::All => true,
            Recipient::AllExcept { id: excluded } => id != excluded,
            Recipient::Single { id: wanted } => id == wanted,
        }
    }
}

/// Application payload types implement this to tag their serialized bytes.
pub trait Identify {
    fn get_identifier(&self) -> u32;
}

/// The role the process runs, decided from which configurations are present.
/// Exactly one of the two must be supplied; the host treats the two mixed
/// outcomes as fatal, as the role cannot be decided.
#[derive(Clone, Copy, Debug, PartialEq, Eq, Structural)]
pub enum RoleSetup {
    Client,
    Server,
    BothPresent,
    NonePresent,
}

/// Decides the process role from the supplied configurations.
pub fn setup(client_config: Option<&ClientConfig>, server_config: Option<&ServerConfig>) -> (role:
    RoleSetup)
    ensures
        role == (match (client_config, server_config) {
            (Option::Some(_), Option::Some(_)) => RoleSetup::BothPresent,
            (Option::Some(_), Option::None) => RoleSetup::Client,
            (Option::None, Option::Some(_)) => RoleSetup::Server,
            (Option::None, Option::None) => RoleSetup::NonePresent,
        }),
{
    match (client_config, server_config) {
        (Option::Some(_), Option::Some(_)) => RoleSetup::BothPresent,
        (Option::Some(_), Option::None) => RoleSetup::Client,
        (Option::None, Option::Some(_)) => RoleSetup::Server,
        (Option::None, Option::None) => RoleSetup::NonePresent,
    }
}

} // verus!
