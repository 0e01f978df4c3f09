use vstd::prelude::*;
use vstd::utf8::encode_utf8;

verus! {

/// Client id used when a relay configures none.
pub open spec fn default_client_id() -> Seq<char> {
    "tagoio-relay"@
}

/// Seconds between keep-alive pings.
pub const KEEP_ALIVE_SECS: u64 = 30;

/// Largest packet accepted or sent, in bytes.
pub const MAX_PACKET_BYTES: usize = 1048576;

/// Capacity of each relay's publish channel.
pub const PUBLISH_CHANNEL_CAPACITY: usize = 32;

/// Capacity of the request queue of each protocol client.
pub const CLIENT_REQUEST_CAPACITY: usize = 15;

/// Seconds between two supervisor ticks.
pub const RESTART_DELAY_SECS: u64 = 120;

/// One configured relay: a broker endpoint and how to reach it.
pub struct RelayConfig {
    pub id: String,
    pub address: String,
    pub port: u16,
    pub tls_enabled: bool,
    /// CA certificate, PEM text.
    pub certificate: Option<String>,
    pub username: Option<String>,
    pub password: Option<String>,
    pub client_id: Option<String>,
    /// Topics to subscribe to, in order.
    pub subscribe: Vec<String>,
}

/// What a protocol client needs to reach one relay's broker.
pub struct ConnectionSettings {
    pub client_id: String,
    pub host: String,
    pub port: u16,
    pub keep_alive_secs: u64,
    pub max_incoming_packet: usize,
    pub max_outgoing_packet: usize,
    /// CA certificate to trust over TLS; `None` for a plain connection.
    pub tls_ca: Option<String>,
    /// Username and password to log in with.
    pub credentials: Option<(String, String)>,
}

/// Whether the UTF-8 bytes of an address start with `ssl`.
pub open spec fn has_ssl_scheme(address: Seq<char>) -> bool {
    let b = encode_utf8(address);
    b.len() >= 3 && b[0] == 0x73u8 && b[1] == 0x73u8 && b[2] == 0x6cu8
}

/// TLS is used when it is enabled or the address names the `ssl` scheme,
/// and only with a certificate to trust.
pub open spec fn tls_ca_of(cfg: RelayConfig) -> Option<String> {
    if cfg.tls_enabled || has_ssl_scheme(cfg.address@) {
        cfg.certificate
    } else {
        None
    }
}

/// A relay can be configured when a username that is used (one that comes
/// with a certificate) has a password beside it.
pub open spec fn credentials_complete(cfg: RelayConfig) -> bool {
    cfg.username is Some && cfg.certificate is Some ==> cfg.password is Some
}

/// Credentials are sent only where a username and a certificate are both set.
pub open spec fn credentials_of(cfg: RelayConfig) -> Option<(String, String)> {
    if cfg.username is Some && cfg.certificate is Some {
        Some((cfg.username->Some_0, cfg.password->Some_0))
    } else {
        None
    }
}

/// Whether an address starts with the `ssl` scheme.
pub fn starts_with_ssl(address: &String) -> (r: bool)
    ensures
        r == has_ssl_scheme(address@),
{
    let b = address.as_str().as_bytes();
    b.len() >= 3 && b[0] == 0x73u8 && b[1] == 0x73u8 && b[2] == 0x6cu8
}

fn clone_option(s: &Option<String>) -> (r: Option<String>)
    ensures
        r == *s,
{
    match s {
        Some(v) => Some(v.clone()),
        None => None,
    }
}

impl RelayConfig {
    /// The settings of the protocol client for this relay.
    pub fn connection_settings(&self) -> (r: ConnectionSettings)
        requires
            credentials_complete(*self),
        ensures
            r.client_id@ == (match self.client_id {
                Some(c) => c@,
                None => default_client_id(),
            }),
            r.host == self.address,
            r.port == self.port,
            r.keep_alive_secs == KEEP_ALIVE_SECS,
            r.max_incoming_packet == MAX_PACKET_BYTES,
            r.max_outgoing_packet == MAX_PACKET_BYTES,
            r.tls_ca == tls_ca_of(*self),
            r.credentials == credentials_of(*self),
    {
        let client_id = match &self.client_id {
            Some(c) => c.clone(),
            None => {
                proof {
                    reveal_strlit("tagoio-relay");
                }
                "tagoio-relay".to_owned()
            },
        };
        let tls_ca = if self.tls_enabled || starts_with_ssl(&self.address) {
            clone_option(&self.certificate)
        } else {
            None
        };
        let credentials = match (&self.username, &self.certificate, &self.password) {
            (Some(u), Some(_), Some(p)) => Some((u.clone(), p.clone())),
            _ => None,
        };
        ConnectionSettings {
            client_id,
            host: self.address.clone(),
            port: self.port,
            keep_alive_secs: KEEP_ALIVE_SECS,
            max_incoming_packet: MAX_PACKET_BYTES,
            max_outgoing_packet: MAX_PACKET_BYTES,
            tls_ca,
            credentials,
        }
    }
}

} // verus!
