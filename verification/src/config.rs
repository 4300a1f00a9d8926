//! Connection settings: the values the rest of the backend is configured
//! with. Reading and writing them on disk is the caller's business.

use vstd::prelude::*;
use vstd::string::*;

verus! {

/// The settings of one connection.
#[derive(Debug, Clone)]
pub struct Settings {
    pub server: String,
    pub port: u16,
    pub use_tls: bool,
    pub nick: String,
    pub user: String,
    pub realname: String,
    pub autojoin: Vec<String>,
}

impl Default for Settings {
    /// The stock configuration: TLS to irc.libera.chat on 6697, one
    /// autojoined channel.
    fn default() -> (r: Self)
        ensures
            r.server@ == "irc.libera.chat"@,
            r.port == 6697,
            r.use_tls == true,
            r.nick@ == "HexRs"@,
            r.user@ == "hexrs"@,
            r.realname@ == "HexChat RS"@,
            r.autojoin.deep_view() == seq!["#rust"@],
    {
        let mut autojoin: Vec<String> = Vec::new();
        autojoin.push(String::from_str("#rust"));
        proof {
            assert(autojoin.deep_view() =~= seq!["#rust"@]);
        }
        Settings {
            server: String::from_str("irc.libera.chat"),
            port: 6697,
            use_tls: true,
            nick: String::from_str("HexRs"),
            user: String::from_str("hexrs"),
            realname: String::from_str("HexChat RS"),
            autojoin,
        }
    }
}

/// Whether and how to wrap the connection in TLS.
#[derive(Debug, Clone)]
pub enum TlsConfig {
    Off,
    Rustls { client_auth: Option<ClientAuth> },
}

/// Paths of a client certificate and its private key.
#[derive(Debug, Clone)]
pub struct ClientAuth {
    pub cert_path: String,
    pub key_path: String,
}

} // verus!
