//! What can go wrong with a daemon.
use crate::text;
use vstd::prelude::*;

verus! {

/// Why a request or a connection failed.
#[derive(Clone, Debug, PartialEq, Eq)]
pub enum PaseoError {
    Closed,
    Timeout,
    Rpc(String),
    Offer(String),
    Handshake(String),
    Crypto(String),
    Protocol(String),
    WebSocket(String),
    Json(String),
    Io(String),
}

/// What a [`PaseoError`] says.
#[verifier::ext_equal]
pub enum ErrorModel {
    Closed,
    Timeout,
    Rpc(Seq<char>),
    Offer(Seq<char>),
    Handshake(Seq<char>),
    Crypto(Seq<char>),
    Protocol(Seq<char>),
    WebSocket(Seq<char>),
    Json(Seq<char>),
    Io(Seq<char>),
}

impl View for PaseoError {
    type V = ErrorModel;

    open spec fn view(&self) -> ErrorModel {
        match self {
            PaseoError::Closed => ErrorModel::Closed,
            PaseoError::Timeout => ErrorModel::Timeout,
            PaseoError::Rpc(s) => ErrorModel::Rpc(s@),
            PaseoError::Offer(s) => ErrorModel::Offer(s@),
            PaseoError::Handshake(s) => ErrorModel::Handshake(s@),
            PaseoError::Crypto(s) => ErrorModel::Crypto(s@),
            PaseoError::Protocol(s) => ErrorModel::Protocol(s@),
            PaseoError::WebSocket(s) => ErrorModel::WebSocket(s@),
            PaseoError::Json(s) => ErrorModel::Json(s@),
            PaseoError::Io(s) => ErrorModel::Io(s@),
        }
    }
}

impl PaseoError {
    /// The error in words.
    pub fn message(&self) -> (r: String)
        ensures
            r@ == (match self@ {
                ErrorModel::Closed => "connection closed"@,
                ErrorModel::Timeout => "request timed out"@,
                ErrorModel::Rpc(s) => "rpc error: "@ + s,
                ErrorModel::Offer(s) => "invalid pairing offer: "@ + s,
                ErrorModel::Handshake(s) => "handshake failed: "@ + s,
                ErrorModel::Crypto(s) => "crypto failure: "@ + s,
                ErrorModel::Protocol(s) => "protocol violation: "@ + s,
                ErrorModel::WebSocket(s) => "websocket error: "@ + s,
                ErrorModel::Json(s) => s,
                ErrorModel::Io(s) => s,
            }),
    {
        match self {
            PaseoError::Closed => "connection closed".to_owned(),
            PaseoError::Timeout => "request timed out".to_owned(),
            PaseoError::Rpc(s) => text::concat("rpc error: ", s.as_str()),
            PaseoError::Offer(s) => text::concat("invalid pairing offer: ", s.as_str()),
            PaseoError::Handshake(s) => text::concat("handshake failed: ", s.as_str()),
            PaseoError::Crypto(s) => text::concat("crypto failure: ", s.as_str()),
            PaseoError::Protocol(s) => text::concat("protocol violation: ", s.as_str()),
            PaseoError::WebSocket(s) => text::concat("websocket error: ", s.as_str()),
            PaseoError::Json(s) => s.clone(),
            PaseoError::Io(s) => s.clone(),
        }
    }
}

} // verus!
