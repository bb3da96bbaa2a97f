//! The parameters of the server that the packet layer is attached to.

use vstd::prelude::*;
use crate::cookie::CookieSerializeOptions;
use crate::cookie::SameSiteSetting;
use crate::cors::CorsOptions;
use crate::packet::Packet;
use crate::text::chars_of;
use crate::text::string_of;

verus! {

/// The transports that can carry a session.
#[derive(Debug, Clone, Copy, PartialEq, Eq, Structural)]
pub enum TransportType {
    /// HTTP long-polling.
    Polling,
    /// WebSocket.
    WebSocket,
    /// WebTransport.
    WebTransport,
}

impl Default for TransportType {
    /// Long-polling, which every session starts with.
    fn default() -> (t: Self)
        ensures
            t == TransportType::Polling,
    {
        TransportType::Polling
    }
}

/// The transports that a long-polling session can move to.
pub fn polling_upgrades_to() -> (upgrades: Vec<TransportType>)
    ensures
        upgrades@ == seq![TransportType::WebSocket, TransportType::WebTransport],
{
    let mut upgrades: Vec<TransportType> = Vec::new();
    upgrades.push(TransportType::WebSocket);
    upgrades.push(TransportType::WebTransport);
    assert(upgrades@ =~= seq![TransportType::WebSocket, TransportType::WebTransport]);
    upgrades
}

/// Milliseconds without a pong after which a connection counts as closed.
pub const DEFAULT_PING_TIMEOUT: u32 = 20000;

/// Milliseconds between two pings.
pub const DEFAULT_PING_INTERVAL: u32 = 25000;

/// Milliseconds after which an unfinished transport upgrade is abandoned.
pub const DEFAULT_UPGRADE_TIMEOUT: u32 = 10000;

/// Bytes that a buffered message may have before the session is closed.
pub const DEFAULT_MAX_BUFFER_SIZE: u32 = 100000;

/// Milliseconds after which an unhandled upgrade request is ended.
pub const DEFAULT_DESTROY_UPGRADE_TIMEOUT: u32 = 1000;

/// The threshold, in bytes, from which WebSocket messages are deflated.
pub const DEFLATE_THRESHOLD: u32 = 1024;

/// How the server is attached to an HTTP server.
#[derive(Debug, Clone, PartialEq, Eq)]
pub struct AttachOptions {
    /// The path to capture.
    pub path: String,
    /// Whether unhandled upgrade requests are destroyed.
    pub destroy_upgrade: bool,
    /// Milliseconds after which unhandled requests are ended.
    pub destroy_upgrade_timeout: u32,
    /// Whether the captured path ends with a slash.
    pub add_trailing_slash: bool,
}

impl Default for AttachOptions {
    /// The path `/engine.io`, upgrades destroyed after a second, trailing
    /// slash.
    fn default() -> (o: Self)
        ensures
            o.path@ == "/engine.io"@,
            o.destroy_upgrade,
            o.destroy_upgrade_timeout == DEFAULT_DESTROY_UPGRADE_TIMEOUT,
            o.add_trailing_slash,
    {
        AttachOptions {
            path: "/engine.io".to_owned(),
            destroy_upgrade: true,
            destroy_upgrade_timeout: DEFAULT_DESTROY_UPGRADE_TIMEOUT,
            add_trailing_slash: true,
        }
    }
}

/// The path with exactly one or no slash at its end, as asked for.
pub open spec fn computed_path(path: Seq<char>, add_trailing_slash: bool) -> Seq<char> {
    let bare = if path.len() > 0 && path.last() == '/' {
        path.drop_last()
    } else {
        path
    };
    if add_trailing_slash {
        bare.push('/')
    } else {
        bare
    }
}

impl AttachOptions {
    /// Attach options in which whatever is not given has its default.
    pub fn new(
        path: Option<String>,
        destroy_upgrade: Option<bool>,
        destroy_upgrade_timeout: Option<u32>,
        add_trailing_slash: Option<bool>,
    ) -> (o: Self)
        ensures
            o.path@ == match path {
                Some(p) => p@,
                None => "/engine.io"@,
            },
            o.destroy_upgrade == match destroy_upgrade {
                Some(b) => b,
                None => true,
            },
            o.destroy_upgrade_timeout == match destroy_upgrade_timeout {
                Some(t) => t,
                None => DEFAULT_DESTROY_UPGRADE_TIMEOUT,
            },
            o.add_trailing_slash == match add_trailing_slash {
                Some(b) => b,
                None => true,
            },
    {
        AttachOptions {
            path: match path {
                Some(p) => p,
                None => "/engine.io".to_owned(),
            },
            destroy_upgrade: match destroy_upgrade {
                Some(b) => b,
                None => true,
            },
            destroy_upgrade_timeout: match destroy_upgrade_timeout {
                Some(t) => t,
                None => DEFAULT_DESTROY_UPGRADE_TIMEOUT,
            },
            add_trailing_slash: match add_trailing_slash {
                Some(b) => b,
                None => true,
            },
        }
    }
}

/// The parameters of a server.
#[derive(Debug, Clone, PartialEq, Eq)]
pub struct ServerOptions {
    /// Milliseconds without a pong after which a connection counts as
    /// closed.
    pub ping_timeout: u32,
    /// Milliseconds between two pings.
    pub ping_interval: u32,
    /// Milliseconds after which an unfinished transport upgrade is
    /// abandoned.
    pub upgrade_timeout: u32,
    /// Bytes that a buffered message may have before the session is
    /// closed.
    pub max_buffer_size: u32,
    /// The transports that are enabled.
    pub transports: Vec<TransportType>,
    /// Whether a client may move to another transport.
    pub allow_upgrades: bool,
    /// The threshold from which WebSocket messages are deflated, where
    /// they are deflated at all.
    pub per_message_deflate: Option<u32>,
    /// Whether responses of the polling transport are compressed.
    pub http_compression: bool,
    /// A packet that is sent along with the handshake.
    pub initial_packet: Option<Packet>,
    /// The cookie that carries the session id, where one is sent.
    pub cookie: Option<CookieSerializeOptions>,
    /// The cross-origin configuration, where there is one.
    pub cors: Option<CorsOptions>,
}

/// The transports that are enabled unless told otherwise.
pub open spec fn default_transports() -> Seq<TransportType> {
    seq![TransportType::Polling, TransportType::WebSocket]
}

/// The transports that are enabled unless told otherwise.
fn transports_by_default() -> (transports: Vec<TransportType>)
    ensures
        transports@ == default_transports(),
{
    let mut transports: Vec<TransportType> = Vec::new();
    transports.push(TransportType::Polling);
    transports.push(TransportType::WebSocket);
    assert(transports@ =~= default_transports());
    transports
}

/// Whether every parameter has its default: pings every 25 s with 20 s to
/// answer, 10 s for an upgrade, buffers of 100 000 bytes, polling and
/// WebSocket, upgrades allowed, HTTP compression; nothing else.
pub open spec fn is_default_options(o: ServerOptions) -> bool {
    &&& o.ping_timeout == DEFAULT_PING_TIMEOUT
    &&& o.ping_interval == DEFAULT_PING_INTERVAL
    &&& o.upgrade_timeout == DEFAULT_UPGRADE_TIMEOUT
    &&& o.max_buffer_size == DEFAULT_MAX_BUFFER_SIZE
    &&& o.transports@ == default_transports()
    &&& o.allow_upgrades
    &&& o.per_message_deflate is None
    &&& o.http_compression
    &&& o.initial_packet is None
    &&& o.cookie is None
    &&& o.cors is None
}

impl Default for ServerOptions {
    /// The server options in which every parameter has its default.
    fn default() -> (o: Self)
        ensures
            is_default_options(o),
    {
        ServerOptions {
            ping_timeout: DEFAULT_PING_TIMEOUT,
            ping_interval: DEFAULT_PING_INTERVAL,
            upgrade_timeout: DEFAULT_UPGRADE_TIMEOUT,
            max_buffer_size: DEFAULT_MAX_BUFFER_SIZE,
            transports: transports_by_default(),
            allow_upgrades: true,
            per_message_deflate: None,
            http_compression: true,
            initial_packet: None,
            cookie: None,
            cors: None,
        }
    }
}

impl ServerOptions {
    /// Server options in which whatever is not given has its default.
    pub fn new(
        ping_timeout: Option<u32>,
        ping_interval: Option<u32>,
        upgrade_timeout: Option<u32>,
        max_buffer_size: Option<u32>,
        transports: Option<Vec<TransportType>>,
        allow_upgrades: Option<bool>,
        per_message_deflate: Option<u32>,
        http_compression: Option<bool>,
        initial_packet: Option<Packet>,
        cookie: Option<CookieSerializeOptions>,
        cors: Option<CorsOptions>,
    ) -> (o: Self)
        ensures
            o.ping_timeout == match ping_timeout {
                Some(t) => t,
                None => DEFAULT_PING_TIMEOUT,
            },
            o.ping_interval == match ping_interval {
                Some(t) => t,
                None => DEFAULT_PING_INTERVAL,
            },
            o.upgrade_timeout == match upgrade_timeout {
                Some(t) => t,
                None => DEFAULT_UPGRADE_TIMEOUT,
            },
            o.max_buffer_size == match max_buffer_size {
                Some(n) => n,
                None => DEFAULT_MAX_BUFFER_SIZE,
            },
            o.transports@ == match transports {
                Some(t) => t@,
                None => default_transports(),
            },
            o.allow_upgrades == match allow_upgrades {
                Some(b) => b,
                None => true,
            },
            o.per_message_deflate == per_message_deflate,
            o.http_compression == match http_compression {
                Some(b) => b,
                None => true,
            },
            o.initial_packet == initial_packet,
            o.cookie == cookie,
            o.cors == cors,
    {
        ServerOptions {
            ping_timeout: match ping_timeout {
                Some(t) => t,
                None => DEFAULT_PING_TIMEOUT,
            },
            ping_interval: match ping_interval {
                Some(t) => t,
                None => DEFAULT_PING_INTERVAL,
            },
            upgrade_timeout: match upgrade_timeout {
                Some(t) => t,
                None => DEFAULT_UPGRADE_TIMEOUT,
            },
            max_buffer_size: match max_buffer_size {
                Some(n) => n,
                None => DEFAULT_MAX_BUFFER_SIZE,
            },
            transports: match transports {
                Some(t) => t,
                None => transports_by_default(),
            },
            allow_upgrades: match allow_upgrades {
                Some(b) => b,
                None => true,
            },
            per_message_deflate,
            http_compression: match http_compression {
                Some(b) => b,
                None => true,
            },
            initial_packet,
            cookie,
            cors,
        }
    }
}

/// What every kind of server does besides serving.
pub trait ServerBaseOperations {
    /// Prepares the server; nothing by default.
    fn init() {
    }

    /// Announces the transports that a transport can move to; nothing by
    /// default.
    fn upgrades_to() {
    }
}

/// The state that every kind of server has.
#[derive(Debug)]
pub struct ServerBase {
    /// The parameters of the server.
    pub opts: ServerOptions,
    /// The number of connected clients.
    pub clients_count: usize,
}

impl ServerBaseOperations for ServerBase {

}

/// The handshake cookie that a configured cookie becomes: named `greeno`,
/// for the whole site, hidden from scripts, with lax same-site
/// enforcement; its other attributes stay.
pub open spec fn is_handshake_cookie(
    given: CookieSerializeOptions,
    cookie: CookieSerializeOptions,
) -> bool {
    &&& cookie.name@ == "greeno"@
    &&& cookie.path matches Some(p) && p@ == "/"@
    &&& cookie.http_only
    &&& cookie.same_site == Some(SameSiteSetting::Lax)
    &&& cookie.domain == given.domain
    &&& cookie.expires == given.expires
    &&& cookie.max_age == given.max_age
    &&& cookie.partitioned == given.partitioned
    &&& cookie.priority == given.priority
    &&& cookie.secure == given.secure
}

impl ServerBase {
    /// A server without clients. Options that are not given have their
    /// defaults; a configured cookie becomes the handshake cookie, and
    /// deflation, where it is on, starts at 1024 bytes.
    pub fn new(options: Option<ServerOptions>) -> (server: Self)
        ensures
            server.clients_count == 0,
            match options {
                None => is_default_options(server.opts),
                Some(given) => {
                    &&& server.opts.ping_timeout == given.ping_timeout
                    &&& server.opts.ping_interval == given.ping_interval
                    &&& server.opts.upgrade_timeout == given.upgrade_timeout
                    &&& server.opts.max_buffer_size == given.max_buffer_size
                    &&& server.opts.transports == given.transports
                    &&& server.opts.allow_upgrades == given.allow_upgrades
                    &&& server.opts.http_compression == given.http_compression
                    &&& server.opts.initial_packet == given.initial_packet
                    &&& server.opts.cors == given.cors
                    &&& server.opts.per_message_deflate == match given.per_message_deflate {
                        Some(_) => Some(DEFLATE_THRESHOLD),
                        None => None,
                    }
                    &&& match given.cookie {
                        Some(cookie) => server.opts.cookie is Some && is_handshake_cookie(
                            cookie,
                            server.opts.cookie->0,
                        ),
                        None => server.opts.cookie is None,
                    }
                },
            },
    {
        let mut opts: ServerOptions = match options {
            Some(given) => given,
            None => ServerOptions::default(),
        };
        opts.cookie = match opts.cookie {
            Some(cookie) => {
                let mut cookie: CookieSerializeOptions = cookie;
                cookie.set_name("greeno".to_owned());
                cookie.set_path(Some("/".to_owned()));
                cookie.set_http_only(true);
                cookie.set_same_site(Some(SameSiteSetting::Lax));
                Some(cookie)
            },
            None => None,
        };
        opts.per_message_deflate = match opts.per_message_deflate {
            Some(_) => Some(DEFLATE_THRESHOLD),
            None => None,
        };
        ServerBase { opts, clients_count: 0 }
    }

    /// The path that the server captures: that of the attach options with
    /// its trailing slash removed, and one added where asked for.
    pub fn compute_path(options: &AttachOptions) -> (path: String)
        ensures
            path@ == computed_path(options.path@, options.add_trailing_slash),
    {
        let chars: Vec<char> = chars_of(options.path.as_str());
        let n: usize = chars.len();
        let end: usize = if n > 0 && chars[n - 1] == '/' {
            n - 1
        } else {
            n
        };
        let mut path: String = string_of(&chars, 0, end);
        assert(chars@.subrange(0, n as int) =~= chars@);
        assert(chars@.subrange(0, n - 1) =~= chars@.drop_last()) by {
            if n > 0 {
            }
        }
        if options.add_trailing_slash {
            path.push('/');
        }
        path
    }
}

} // verus!
