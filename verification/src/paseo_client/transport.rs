//! What passes over the websocket, in the clear or encrypted.
use crate::json;
use crate::json::{Json, JsonModel};
use crate::paseo_client::e2ee;
use crate::paseo_client::e2ee::{Channel, Decrypted, DecryptedModel};
use crate::paseo_client::error::{ErrorModel, PaseoError};
use crate::text;
use vstd::prelude::*;

verus! {

/// A message once it is decrypted.
#[derive(Debug)]
pub enum Frame {
    Json(String),
    Binary(Vec<u8>),
}

/// A message as the websocket carries it.
#[derive(Debug)]
pub enum WireMessage {
    Text(String),
    Binary(Vec<u8>),
    Close,
    Other,
}

/// What a [`WireMessage`] says.
#[verifier::ext_equal]
pub enum WireModel {
    Text(Seq<char>),
    Binary(Seq<u8>),
    Close,
    Other,
}

impl View for WireMessage {
    type V = WireModel;

    open spec fn view(&self) -> WireModel {
        match self {
            WireMessage::Text(s) => WireModel::Text(s@),
            WireMessage::Binary(b) => WireModel::Binary(b@),
            WireMessage::Close => WireModel::Close,
            WireMessage::Other => WireModel::Other,
        }
    }
}

/// What is made of a message that arrived.
#[derive(Debug)]
pub enum Received {
    /// A message for the client.
    Frame(Frame),
    /// The end of the connection.
    Closed,
    /// Nothing; the next message counts.
    Skip,
}

/// What a [`Received`] says.
#[verifier::ext_equal]
pub enum ReceivedModel {
    Frame(DecryptedModel),
    Closed,
    Skip,
}

impl View for Frame {
    type V = DecryptedModel;

    open spec fn view(&self) -> DecryptedModel {
        match self {
            Frame::Json(s) => DecryptedModel::Json(s@),
            Frame::Binary(b) => DecryptedModel::Binary(b@),
        }
    }
}

impl View for Received {
    type V = ReceivedModel;

    open spec fn view(&self) -> ReceivedModel {
        match self {
            Received::Frame(f) => ReceivedModel::Frame(f@),
            Received::Closed => ReceivedModel::Closed,
            Received::Skip => ReceivedModel::Skip,
        }
    }
}

/// What is made of a message that arrived. On an encrypted connection everything comes as text, and
/// binary messages are passed over.
pub open spec fn received(e2ee: Option<e2ee::ChannelModel>, message: WireModel) -> Result<
    ReceivedModel,
    ErrorModel,
> {
    match message {
        WireModel::Text(t) => match e2ee {
            Some(channel) => match e2ee::decrypted(channel, t) {
                Ok(d) => Ok(ReceivedModel::Frame(d)),
                Err(e) => Err(e),
            },
            None => Ok(ReceivedModel::Frame(DecryptedModel::Json(t))),
        },
        WireModel::Binary(b) => match e2ee {
            Some(_) => Ok(ReceivedModel::Skip),
            None => Ok(ReceivedModel::Frame(DecryptedModel::Binary(b))),
        },
        WireModel::Close => Ok(ReceivedModel::Closed),
        WireModel::Other => Ok(ReceivedModel::Skip),
    }
}

/// The keys of an optional channel.
pub open spec fn opt_channel(e2ee: Option<&Channel>) -> Option<e2ee::ChannelModel> {
    match e2ee {
        Some(c) => Some(c@),
        None => None,
    }
}

/// What is made of a message that arrived.
pub fn receive(e2ee: Option<&Channel>, message: WireMessage) -> (r: Result<Received, PaseoError>)
    ensures
        match received(opt_channel(e2ee), message@) {
            Ok(m) => r matches Ok(x) && x@ == m,
            Err(e) => r matches Err(x) && x@ == e,
        },
{
    match message {
        WireMessage::Text(t) => match e2ee {
            Some(channel) => match channel.decrypt(t.as_str()) {
                Ok(Decrypted::Json(s)) => Ok(Received::Frame(Frame::Json(s))),
                Ok(Decrypted::Binary(b)) => Ok(Received::Frame(Frame::Binary(b))),
                Err(e) => Err(e),
            },
            None => Ok(Received::Frame(Frame::Json(t))),
        },
        WireMessage::Binary(b) => match e2ee {
            Some(_) => Ok(Received::Skip),
            None => Ok(Received::Frame(Frame::Binary(b))),
        },
        WireMessage::Close => Ok(Received::Closed),
        WireMessage::Other => Ok(Received::Skip),
    }
}

/// Whether the message is an encrypted frame that both ends of the channel read as the plaintext.
pub open spec fn carries(channel: Channel, message: WireModel, plaintext: Seq<u8>) -> bool {
    message matches WireModel::Text(t) && exists|nonce: Seq<u8>|
        t == #[trigger] e2ee::frame_text(channel@, nonce, plaintext) && channel.opens(
            t,
            nonce,
            plaintext,
        )
}

/// The message that carries a text. Over a channel it is encrypted, which fails only where no random
/// numbers can be had.
pub fn send_text(e2ee: Option<&Channel>, t: String) -> (r: Result<WireMessage, PaseoError>)
    ensures
        match e2ee {
            Some(channel) => match r {
                Ok(m) => carries(*channel, m@, vstd::utf8::encode_utf8(t@)),
                Err(e) => e@ is Crypto,
            },
            None => r matches Ok(m) && m@ == WireModel::Text(t@),
        },
{
    match e2ee {
        Some(channel) => match channel.encrypt(t.as_str().as_bytes()) {
            Ok(sealed) => Ok(WireMessage::Text(sealed)),
            Err(e) => Err(e),
        },
        None => Ok(WireMessage::Text(t)),
    }
}

/// The message that carries bytes. Over a channel it is encrypted and sent as text, which fails only
/// where no random numbers can be had.
pub fn send_binary(e2ee: Option<&Channel>, data: Vec<u8>) -> (r: Result<WireMessage, PaseoError>)
    ensures
        match e2ee {
            Some(channel) => match r {
                Ok(m) => carries(*channel, m@, data@),
                Err(e) => e@ is Crypto,
            },
            None => r matches Ok(m) && m@ == WireModel::Binary(data@),
        },
{
    match e2ee {
        Some(channel) => match channel.encrypt(&data) {
            Ok(sealed) => Ok(WireMessage::Text(sealed)),
            Err(e) => Err(e),
        },
        None => Ok(WireMessage::Binary(data)),
    }
}

/// What carries a plaintext over a channel is received at the other end as that plaintext: as bytes
/// where it is a terminal frame or no UTF-8, else as text.
pub proof fn channel_delivers(
    channel: Channel,
    other: e2ee::ChannelModel,
    message: WireModel,
    plaintext: Seq<u8>,
)
    requires
        carries(channel, message, plaintext),
        other.secret.len() == 32,
        e2ee::box_public_key(other.secret) == channel@.daemon_public,
        other.daemon_public == e2ee::box_public_key(channel@.secret),
    ensures
        received(Some(other), message) == Ok::<ReceivedModel, ErrorModel>(
            ReceivedModel::Frame(e2ee::classified(plaintext)),
        ),
{
}

/// What a message means while the channel is being opened.
#[derive(Debug)]
pub enum HandshakeStep {
    /// The channel is open.
    Ready,
    /// It may still be opened.
    Wait,
    /// It will not be opened.
    Failed(PaseoError),
}

/// Whether the JSON value says that the channel is open.
pub open spec fn says_ready(value: JsonModel) -> bool {
    json::text_member(value, "type"@) == Some("e2ee_ready"@)
}

/// Whether the value says that the channel is open.
pub fn is_ready(value: &Json) -> (r: bool)
    ensures
        r == says_ready(value@),
{
    match value.get_text("type") {
        Some(ty) => text::same(ty.as_str(), "e2ee_ready"),
        None => false,
    }
}

/// What the next message, or the end of the connection, means while the channel is being opened.
pub fn handshake_step(message: Option<WireMessage>) -> (r: HandshakeStep)
    ensures
        match message {
            None | Some(WireMessage::Close) => r matches HandshakeStep::Failed(e) && e@
                == ErrorModel::Handshake("closed before e2ee_ready"@),
            Some(WireMessage::Text(t)) => match json::json_parsed(t@) {
                Ok(value) => if says_ready(value) {
                    r is Ready
                } else {
                    r is Wait
                },
                Err(_) => r is Wait,
            },
            Some(_) => r is Wait,
        },
{
    match message {
        None => HandshakeStep::Failed(
            PaseoError::Handshake("closed before e2ee_ready".to_owned()),
        ),
        Some(WireMessage::Close) => HandshakeStep::Failed(
            PaseoError::Handshake("closed before e2ee_ready".to_owned()),
        ),
        Some(WireMessage::Text(t)) => match Json::read(t.as_str()) {
            Ok(value) => if is_ready(&value) {
                HandshakeStep::Ready
            } else {
                HandshakeStep::Wait
            },
            Err(_) => HandshakeStep::Wait,
        },
        Some(_) => HandshakeStep::Wait,
    }
}

/// The parts of a URL that a connection needs.
#[derive(Clone, Debug, PartialEq, Eq)]
pub struct UrlParts {
    pub scheme: String,
    pub host: Option<String>,
    pub port: Option<u16>,
}

/// What a [`UrlParts`] says.
#[verifier::ext_equal]
pub struct UrlModel {
    pub scheme: Seq<char>,
    pub host: Option<Seq<char>>,
    pub port: Option<u16>,
}

impl View for UrlParts {
    type V = UrlModel;

    open spec fn view(&self) -> UrlModel {
        UrlModel { scheme: self.scheme@, host: text::opt_text(self.host), port: self.port }
    }
}

/// What `url::Url::parse` makes of a text: the scheme, the host, and the port or the known default of
/// the scheme, or the message of the error.
pub uninterp spec fn url_parts(text: Seq<char>) -> Result<UrlModel, Seq<char>>;

/// `url::Url::parse`, with what `scheme`, `host_str` and `port_or_known_default` give, or the message
/// of the error.
#[verifier::external_body]
fn parse_url_parts(text: &str) -> (r: Result<UrlParts, String>)
    ensures
        match url_parts(text@) {
            Ok(parts) => r matches Ok(p) && p@ == parts,
            Err(e) => r matches Err(x) && x@ == e,
        },
{
    match url::Url::parse(text) {
        Ok(url) => Ok(
            UrlParts {
                scheme: url.scheme().to_owned(),
                host: url.host_str().map(str::to_owned),
                port: url.port_or_known_default(),
            },
        ),
        Err(e) => Err(e.to_string()),
    }
}

/// Where a websocket is opened.
#[derive(Clone, Debug, PartialEq, Eq)]
pub struct Endpoint {
    pub use_tls: bool,
    pub host: String,
    pub port: u16,
}

/// Where the parts of a URL lead: it needs a host and a port, and `wss` means TLS.
pub fn endpoint_of_parts(parts: UrlParts) -> (r: Result<Endpoint, PaseoError>)
    ensures
        match (parts@.host, parts@.port) {
            (Some(host), Some(port)) => r matches Ok(e) && e.host@ == host && e.port == port
                && e.use_tls == (parts@.scheme == "wss"@),
            (None, _) => r matches Err(e) && e@ == ErrorModel::WebSocket("url missing host"@),
            (Some(_), None) => r matches Err(e) && e@ == ErrorModel::WebSocket(
                "url missing port"@,
            ),
        },
{
    let use_tls = text::same(parts.scheme.as_str(), "wss");
    match parts.host {
        None => Err(PaseoError::WebSocket("url missing host".to_owned())),
        Some(host) => match parts.port {
            None => Err(PaseoError::WebSocket("url missing port".to_owned())),
            Some(port) => Ok(Endpoint { use_tls, host, port }),
        },
    }
}

/// Where the URL leads.
pub fn endpoint_of(url: &str) -> (r: Result<Endpoint, PaseoError>)
    ensures
        match url_parts(url@) {
            Err(e) => r matches Err(x) && x@ == ErrorModel::WebSocket("bad url: "@ + e),
            Ok(parts) => match (parts.host, parts.port) {
                (Some(host), Some(port)) => r matches Ok(e) && e.host@ == host && e.port == port
                    && e.use_tls == (parts.scheme == "wss"@),
                (None, _) => r matches Err(e) && e@ == ErrorModel::WebSocket("url missing host"@),
                (Some(_), None) => r matches Err(e) && e@ == ErrorModel::WebSocket(
                    "url missing port"@,
                ),
            },
        },
{
    match parse_url_parts(url) {
        Ok(parts) => endpoint_of_parts(parts),
        Err(e) => Err(PaseoError::WebSocket(text::concat("bad url: ", e.as_str()))),
    }
}

/// The `Authorization` header and the websocket subprotocol that carry a password.
pub fn password_headers(password: &str) -> (r: (String, String))
    ensures
        r.0@ == "Bearer "@ + password@,
        r.1@ == "paseo.bearer."@ + password@,
{
    (text::concat("Bearer ", password), text::concat("paseo.bearer.", password))
}

/// On a channel texts are opened and bytes are of no account; without one both are taken as they are.
/// The end of the connection is told, and all else skipped.
pub proof fn messages_are_told_apart(
    channel: e2ee::ChannelModel,
    e2ee: Option<e2ee::ChannelModel>,
    t: Seq<char>,
    b: Seq<u8>,
)
    ensures
        received(None, WireModel::Text(t)) == Ok::<ReceivedModel, ErrorModel>(
            ReceivedModel::Frame(DecryptedModel::Json(t)),
        ),
        received(None, WireModel::Binary(b)) == Ok::<ReceivedModel, ErrorModel>(
            ReceivedModel::Frame(DecryptedModel::Binary(b)),
        ),
        received(Some(channel), WireModel::Binary(b)) == Ok::<ReceivedModel, ErrorModel>(
            ReceivedModel::Skip,
        ),
        match e2ee::decrypted(channel, t) {
            Ok(d) => received(Some(channel), WireModel::Text(t)) == Ok::<ReceivedModel, ErrorModel>(
                ReceivedModel::Frame(d),
            ),
            Err(e) => received(Some(channel), WireModel::Text(t)) == Err::<
                ReceivedModel,
                ErrorModel,
            >(e),
        },
        received(e2ee, WireModel::Close) == Ok::<ReceivedModel, ErrorModel>(ReceivedModel::Closed),
        received(e2ee, WireModel::Other) == Ok::<ReceivedModel, ErrorModel>(ReceivedModel::Skip),
{
}

/// The other side is ready just where it says so by the type of its message.
pub proof fn readiness_is_told(value: JsonModel)
    ensures
        says_ready(value) <==> json::member(value, "type"@) == Some(JsonModel::Text("e2ee_ready"@)),
{
}

} // verus!
