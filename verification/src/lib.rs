//! Verified core of a TradingView client: the websocket wire format, the
//! messages sent to open quote and chart sessions, the decisions taken on
//! the server's replies, and the account helpers.

pub mod account;
pub mod frame;
pub mod json;
pub mod listen;
pub mod market;
pub mod packet;
pub mod session;
pub mod text;

pub use account::{ProfileFields, TradingViewError, UtcInstant};
pub use frame::{format_ws_packet, parse_ws_packet, WsFrame};
pub use json::JsonValue;
pub use market::{ClientOptions, Currency, TickerSymbol, Timeframe};
pub use packet::{TradingViewPacket, WsItem};
