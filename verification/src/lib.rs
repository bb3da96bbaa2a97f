//! Framed, typed packets for a transport-agnostic messaging protocol, and the
//! event registry that dispatches decoded packets to listeners.
//!
//! The packet codec: `packet_type`, `options`, `raw_data` and `packet` hold
//! the data model; `encode` and `decode` the two forms of a single packet,
//! binary and text; `payload` the framing of several packets in one
//! transfer; `decoding_stream` and `encoding_stream` the framing of packets
//! on a byte stream; `round_trip` the laws that tie encoding and decoding
//! together. `decimal`, `text` and `base64url` serve them.
//!
//! The event engine: `events::listener` and `events::emitter`, over the
//! name index of `events::name_index`.
//!
//! What a server around them is configured with: `cors`, `cookie`, `server`
//! and `transports`.
//!
//! Every function is verified against the contract it carries, except the
//! few that call into other crates or parts of the standard library that
//! have no contract of their own; those are believed, and say so.

pub mod base64url;
pub mod cookie;
pub mod cors;
pub mod decimal;
pub mod decode;
pub mod decoding_stream;
pub mod encode;
pub mod encoding_stream;
pub mod error;
pub mod events;
pub mod options;
pub mod packet;
pub mod packet_type;
pub mod payload;
pub mod raw_data;
pub mod round_trip;
pub mod server;
pub mod text;
pub mod transports;

pub use crate::cookie::CookieSerializeOptions;
pub use crate::cookie::PriorityLevel;
pub use crate::cookie::SameSiteSetting;
pub use crate::cors::AllOrSome;
pub use crate::cors::CorsError;
pub use crate::cors::CorsMiddleware;
pub use crate::cors::CorsOptions;
pub use crate::cors::Origins;
pub use crate::decoding_stream::PacketDecoderStream;
pub use crate::encoding_stream::PacketEncoderStream;
pub use crate::error::DecodingError;
pub use crate::error::EncodingError;
pub use crate::error::PacketError;
pub use crate::error::ProtocolError;
pub use crate::events::emitter::EventEmitter;
pub use crate::events::emitter::EventManager;
pub use crate::events::listener::EventError;
pub use crate::events::listener::EventPayload;
pub use crate::events::listener::Listener;
pub use crate::events::listener::ListenerId;
pub use crate::options::PacketOptions;
pub use crate::packet::Packet;
pub use crate::packet_type::PacketType;
pub use crate::raw_data::BinaryType;
pub use crate::raw_data::RawData;
pub use crate::raw_data::BINARY_MASK;
pub use crate::raw_data::MAX_PACKET_SIZE;
pub use crate::raw_data::PLAIN_TEXT_MASK;
pub use crate::server::AttachOptions;
pub use crate::server::ServerBase;
pub use crate::server::ServerBaseOperations;
pub use crate::server::ServerOptions;
pub use crate::server::TransportType;
pub use crate::transports::ReadyState;
pub use crate::transports::TransportBase;
