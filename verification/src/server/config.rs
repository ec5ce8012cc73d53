//! The configuration of a server.
use crate::auth::MethodSet;
use crate::limits::{recommended_limits, Limits};
use crate::time::Duration;
use russh_keys::key::KeyPair;
use vstd::prelude::*;
use vstd::string::StringExecFns;

verus! {

/// The name under which the library identifies itself to clients.
pub const PACKAGE_NAME: &'static str = "russh";

/// The version under which the library identifies itself to clients.
pub const PACKAGE_VERSION: &'static str = "0.1.0";

/// A key pair of `russh_keys`. It is opaque.
#[verifier::external_type_specification]
#[verifier::external_body]
pub struct ExKeyPair(russh_keys::key::KeyPair);

/// Configuration of a server.
#[derive(Debug)]
pub struct Config<P> {
    /// The server ID string sent at the beginning of the protocol.
    pub server_id: String,
    /// Authentication methods proposed to the client.
    pub methods: MethodSet,
    /// The authentication banner, usually a warning message shown to the client.
    pub auth_banner: Option<&'static str>,
    /// Authentication rejections must happen in constant time for
    /// security reasons. This is not handled by default.
    pub auth_rejection_time: Duration,
    /// The server's keys. The first key pair in the client's preference order will be chosen.
    pub keys: Vec<KeyPair>,
    /// The bytes and time limits before key re-exchange.
    pub limits: Limits,
    /// The initial size of a channel (used for flow control).
    pub window_size: u32,
    /// The maximal size of a single packet.
    pub maximum_packet_size: u32,
    /// Lists of preferred algorithms.
    pub preferred: P,
    /// Maximal number of allowed authentication attempts.
    pub max_auth_attempts: usize,
    /// Time after which the connection is garbage-collected.
    pub connection_timeout: Option<Duration>,
}

/// The line with which a program of the given name and version identifies
/// itself.
pub fn ssh_id(name: &str, version: &str) -> (id: String)
    ensures
        id@ == "SSH-2.0-"@ + name@ + "_"@ + version@,
{
    let mut id = "SSH-2.0-".to_string();
    id.append(name);
    id.append("_");
    id.append(version);
    id
}

impl<P: Default> Default for Config<P> {
    fn default() -> (config: Config<P>)
        ensures
            config.server_id@ == "SSH-2.0-"@ + PACKAGE_NAME@ + "_"@ + PACKAGE_VERSION@,
            config.methods == (MethodSet {
                none: true,
                password: true,
                publickey: true,
                hostbased: true,
                keyboard_interactive: true,
            }),
            config.auth_banner is None,
            config.auth_rejection_time.nanos == 1_000_000_000,
            config.keys@ == Seq::<KeyPair>::empty(),
            config.window_size == 2097152,
            config.maximum_packet_size == 32768,
            config.limits == recommended_limits(),
            call_ensures(P::default, (), config.preferred),
            config.max_auth_attempts == 10,
            config.connection_timeout matches Some(t) && t.nanos == 600_000_000_000,
    {
        Config {
            server_id: ssh_id(PACKAGE_NAME, PACKAGE_VERSION),
            methods: MethodSet::all(),
            auth_banner: None,
            auth_rejection_time: Duration::from_secs(1),
            keys: Vec::new(),
            window_size: 2097152,
            maximum_packet_size: 32768,
            limits: Limits::default(),
            preferred: P::default(),
            max_auth_attempts: 10,
            connection_timeout: Some(Duration::from_secs(600)),
        }
    }
}

impl<P> Config<P> {
    /// Whether packets may become larger than what TCP carries in one piece,
    /// which a server should warn of.
    pub fn packets_exceed_tcp(&self) -> (exceed: bool)
        ensures
            exceed == (self.maximum_packet_size > 65535),
    {
        self.maximum_packet_size > 65535
    }
}

} // verus!
