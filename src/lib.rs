//! A LAN presence and messaging protocol in the colon-delimited IPMsg wire
//! format: the packet codec, with its lenient reading of garbled datagrams,
//! the presence directory, and the decisions of the receive loop.
pub mod cli;
pub mod config;
pub mod directory;
pub mod encoding;
pub mod listener;
pub mod protocol;
pub mod text;

pub use cli::{Cli, Commands};
pub use config::{AppConfig, DebugConfig, EncodingConfig, NetworkConfig, UserConfig, IPMSG_PORT};
pub use directory::{Directory, OnlineUser, PeerAddr};
pub use encoding::TextEncoding;
pub use listener::{ReceiveOutcome, ReceiveState, MAX_CONSECUTIVE_ERRORS};
pub use protocol::{commands, DecodeError, IpMsgPacket};
