//! Configuration: network addresses, the local user, and the text encodings.
use vstd::prelude::*;
use crate::encoding::TextEncoding;
use crate::text::{decimal, push_decimal};

verus! {

/// The whole configuration.
#[derive(Clone, Debug)]
pub struct AppConfig {
    pub network: NetworkConfig,
    pub user: UserConfig,
    pub debug: DebugConfig,
    pub encoding: EncodingConfig,
}

/// Where the service binds and where it broadcasts.
#[derive(Clone, Debug)]
pub struct NetworkConfig {
    pub bind_ip: String,
    pub port: u16,
    pub broadcast_ip: String,
    pub timeout_secs: u64,
}

/// The local user as announced to peers.
#[derive(Clone, Debug)]
pub struct UserConfig {
    pub name: String,
    pub host: String,
    pub auto_login: bool,
    pub group: String,
}

/// The encoding used on the wire (`"gbk"` or `"utf-8"`) and for display.
#[derive(Clone, Debug)]
pub struct EncodingConfig {
    pub protocol: String,
    pub display: String,
}

/// Diagnostics settings.
#[derive(Clone, Debug)]
pub struct DebugConfig {
    pub log_level: String,
    pub dump_packets: bool,
}

/// The protocol port that peers listen on.
pub const IPMSG_PORT: u16 = 2425;

/// The text `ip:port`.
pub open spec fn host_port(ip: Seq<char>, port: u16) -> Seq<char> {
    ip + seq![':'] + decimal(port as nat)
}

/// The wire encoding that a protocol name selects: `"gbk"` selects GBK, any
/// other name UTF-8.
pub open spec fn encoding_named(name: Seq<char>) -> TextEncoding {
    if name == "gbk"@ {
        TextEncoding::Gbk
    } else {
        TextEncoding::Utf8
    }
}

fn host_port_text(ip: &String, port: u16) -> (r: String)
    ensures
        r@ == host_port(ip@, port),
{
    let mut r = ip.clone();
    crate::text::push_char(&mut r, ':');
    push_decimal(&mut r, port as u32);
    r
}

fn default_bind_ip() -> (r: String)
    ensures
        r@ == "0.0.0.0"@,
{
    String::from_str("0.0.0.0")
}

fn default_port() -> (r: u16)
    ensures
        r == IPMSG_PORT,
{
    IPMSG_PORT
}

fn default_broadcast_ip() -> (r: String)
    ensures
        r@ == "255.255.255.255"@,
{
    String::from_str("255.255.255.255")
}

fn default_timeout_secs() -> (r: u64)
    ensures
        r == 3,
{
    3
}

fn default_user_name() -> (r: String)
    ensures
        r@ == "anonymous"@,
{
    String::from_str("anonymous")
}

fn default_user_host() -> (r: String)
    ensures
        r@ == "localhost"@,
{
    String::from_str("localhost")
}

fn default_user_group() -> (r: String)
    ensures
        r@ == "group"@,
{
    String::from_str("group")
}

fn default_log_level() -> (r: String)
    ensures
        r@ == "info"@,
{
    String::from_str("info")
}

fn default_gbk() -> (r: String)
    ensures
        r@ == "gbk"@,
{
    String::from_str("gbk")
}

fn default_utf8() -> (r: String)
    ensures
        r@ == "utf-8"@,
{
    String::from_str("utf-8")
}

impl Default for NetworkConfig {
    fn default() -> (r: Self)
        ensures
            r.bind_ip@ == "0.0.0.0"@,
            r.port == IPMSG_PORT,
            r.broadcast_ip@ == "255.255.255.255"@,
            r.timeout_secs == 3,
    {
        NetworkConfig {
            bind_ip: default_bind_ip(),
            port: default_port(),
            broadcast_ip: default_broadcast_ip(),
            timeout_secs: default_timeout_secs(),
        }
    }
}

impl Default for UserConfig {
    fn default() -> (r: Self)
        ensures
            r.name@ == "anonymous"@,
            r.host@ == "localhost"@,
            r.group@ == "group"@,
            !r.auto_login,
    {
        UserConfig {
            name: default_user_name(),
            host: default_user_host(),
            group: default_user_group(),
            auto_login: false,
        }
    }
}

impl Default for DebugConfig {
    fn default() -> (r: Self)
        ensures
            r.log_level@ == "info"@,
            !r.dump_packets,
    {
        DebugConfig { log_level: default_log_level(), dump_packets: false }
    }
}

impl Default for EncodingConfig {
    fn default() -> (r: Self)
        ensures
            r.protocol@ == "gbk"@,
            r.display@ == "utf-8"@,
    {
        EncodingConfig { protocol: default_gbk(), display: default_utf8() }
    }
}

impl Default for AppConfig {
    fn default() -> (r: Self)
        ensures
            r.network.bind_ip@ == "0.0.0.0"@,
            r.network.port == IPMSG_PORT,
            r.network.broadcast_ip@ == "255.255.255.255"@,
            r.network.timeout_secs == 3,
            r.user.name@ == "anonymous"@,
            r.user.host@ == "localhost"@,
            r.user.group@ == "group"@,
            !r.user.auto_login,
            r.debug.log_level@ == "info"@,
            !r.debug.dump_packets,
            r.encoding.protocol@ == "gbk"@,
            r.encoding.display@ == "utf-8"@,
    {
        AppConfig {
            network: NetworkConfig::default(),
            user: UserConfig::default(),
            debug: DebugConfig::default(),
            encoding: EncodingConfig::default(),
        }
    }
}

impl AppConfig {
    /// The address to bind: `bind_ip:port`.
    pub fn bind_addr(&self) -> (r: String)
        ensures
            r@ == host_port(self.network.bind_ip@, self.network.port),
    {
        host_port_text(&self.network.bind_ip, self.network.port)
    }

    /// The address to broadcast to: `broadcast_ip:port`.
    pub fn broadcast_addr(&self) -> (r: String)
        ensures
            r@ == host_port(self.network.broadcast_ip@, self.network.port),
    {
        host_port_text(&self.network.broadcast_ip, self.network.port)
    }
}

impl EncodingConfig {
    /// The wire encoding that `protocol` selects.
    pub fn protocol_encoding(&self) -> (r: TextEncoding)
        ensures
            r == encoding_named(self.protocol@),
    {
        let gbk = String::from_str("gbk");
        if self.protocol == gbk {
            TextEncoding::Gbk
        } else {
            TextEncoding::Utf8
        }
    }
}

impl NetworkConfig {
    /// Whether the settings are usable, given whether each address parses
    /// as an IP address: the port must lie strictly between 1024 and 65535.
    pub fn is_valid_with(&self, bind_ip_parses: bool, broadcast_ip_parses: bool) -> (r: bool)
        ensures
            r == (bind_ip_parses && broadcast_ip_parses && 1024 < self.port < 65535),
    {
        bind_ip_parses && broadcast_ip_parses && self.port > 1024 && self.port < 65535
    }
}

} // verus!
