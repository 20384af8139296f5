//! Pairing offers, and the addresses that they lead to.
use crate::paseo_client::e2ee;
use crate::paseo_client::error::{ErrorModel, PaseoError};
use crate::text;
use vstd::prelude::*;

verus! {

/// The relay of an offer.
#[derive(Clone, Debug, PartialEq, Eq)]
pub struct RelayInfo {
    pub endpoint: String,
    pub use_tls: Option<bool>,
}

/// What a daemon offers to whoever pairs with it.
#[derive(Clone, Debug, PartialEq, Eq)]
pub struct ConnectionOffer {
    pub v: u32,
    pub server_id: String,
    pub daemon_public_key_b64: String,
    pub relay: RelayInfo,
}

impl ConnectionOffer {
    /// Whether the relay is reached over TLS; it is unless the offer says no.
    pub fn use_tls(&self) -> (r: bool)
        ensures
            r == (self.relay.use_tls != Some(false)),
    {
        match self.relay.use_tls {
            Some(use_tls) => use_tls,
            None => true,
        }
    }
}

/// The bytes of base64 of either alphabet in an offer, padded or not.
pub open spec fn offer_bytes(s: Seq<char>) -> Result<Seq<u8>, ErrorModel> {
    match e2ee::b64_decoded(e2ee::normalized(s)) {
        Ok(data) => Ok(data),
        Err(e) => Err(ErrorModel::Offer("bad base64url: "@ + e)),
    }
}

fn base64url_decode(input: &str) -> (r: Result<Vec<u8>, PaseoError>)
    ensures
        match offer_bytes(input@) {
            Ok(data) => r matches Ok(v) && v@ == data,
            Err(e) => r matches Err(x) && x@ == e,
        },
{
    let normal = e2ee::normalize_b64(input);
    match e2ee::decode_b64(normal.as_str()) {
        Ok(data) => Ok(data),
        Err(e) => Err(PaseoError::Offer(text::concat("bad base64url: ", e.as_str()))),
    }
}

/// The bytes of the JSON text that an offer URL carries behind its first `#offer=`.
pub open spec fn offer_json_of(url: Seq<char>) -> Result<Seq<u8>, ErrorModel> {
    match text::first_at(url, "#offer="@, 0) {
        None => Err(ErrorModel::Offer("missing #offer= fragment"@)),
        Some(at) => offer_bytes(text::trimmed(url.skip(at + "#offer="@.len()))),
    }
}

/// The bytes of the JSON text that an offer URL carries.
pub fn offer_json(url: &str) -> (r: Result<Vec<u8>, PaseoError>)
    ensures
        match offer_json_of(url@) {
            Ok(data) => r matches Ok(v) && v@ == data,
            Err(e) => r matches Err(x) && x@ == e,
        },
{
    let cs = text::chars_of(url);
    let n: usize = cs.len();
    let marker = text::chars_of("#offer=");
    match text::find(&cs, &marker, 0) {
        None => Err(PaseoError::Offer("missing #offer= fragment".to_owned())),
        Some(at) => {
            let rest = text::string_of(&cs, at + marker.len(), n);
            assert(rest@ == url@.skip(at + "#offer="@.len()));
            let encoded = text::trim(rest.as_str());
            base64url_decode(encoded.as_str())
        },
    }
}

/// The offer, once it is read: it names a server and a key.
pub fn check_offer(offer: ConnectionOffer) -> (r: Result<ConnectionOffer, PaseoError>)
    ensures
        if offer.server_id@.len() == 0 || offer.daemon_public_key_b64@.len() == 0 {
            r matches Err(e) && e@ == ErrorModel::Offer("offer missing serverId/daemonPublicKeyB64"@)
        } else {
            r matches Ok(o) && o == offer
        },
{
    if offer.server_id.as_str().is_empty() || offer.daemon_public_key_b64.as_str().is_empty() {
        return Err(PaseoError::Offer("offer missing serverId/daemonPublicKeyB64".to_owned()));
    }
    Ok(offer)
}

/// The key of the daemon: 32 bytes in base64 of the standard alphabet, with padding.
pub open spec fn daemon_key_of(b64: Seq<char>) -> Result<Seq<u8>, ErrorModel> {
    match e2ee::b64_decoded(b64) {
        Err(e) => Err(ErrorModel::Offer("bad daemon key base64: "@ + e)),
        Ok(key) => if key.len() == 32 {
            Ok(key)
        } else {
            Err(ErrorModel::Offer("daemon key is not 32 bytes"@))
        },
    }
}

/// The key of the daemon that made the offer.
pub fn decode_daemon_public_key(offer: &ConnectionOffer) -> (r: Result<[u8; 32], PaseoError>)
    ensures
        match daemon_key_of(offer.daemon_public_key_b64@) {
            Ok(key) => r matches Ok(k) && k@ == key,
            Err(e) => r matches Err(x) && x@ == e,
        },
{
    let bytes = match e2ee::decode_b64(offer.daemon_public_key_b64.as_str()) {
        Ok(bytes) => bytes,
        Err(e) => return Err(
            PaseoError::Offer(text::concat("bad daemon key base64: ", e.as_str())),
        ),
    };
    if bytes.len() != 32 {
        return Err(PaseoError::Offer("daemon key is not 32 bytes".to_owned()));
    }
    let mut key: [u8; 32] = [0u8; 32];
    let mut i: usize = 0;
    while i < 32
        invariant
            i <= 32,
            bytes@.len() == 32,
            forall|j: int| 0 <= j < i ==> key@[j] == bytes@[j],
        decreases 32 - i,
    {
        key[i] = bytes[i];
        i += 1;
    }
    assert(key@ == bytes@);
    Ok(key)
}

/// What `url::Url::parse` makes of a text: the URL as it is written out, or the message of the error.
pub uninterp spec fn url_parsed(text: Seq<char>) -> Result<Seq<char>, Seq<char>>;

/// What `url::Url::parse`, and then `query_pairs_mut().extend_pairs` with the pairs, make of
/// a text: the URL as it is written out, or the message of the error.
pub uninterp spec fn url_with_query(
    text: Seq<char>,
    pairs: Seq<(Seq<char>, Seq<char>)>,
) -> Result<Seq<char>, Seq<char>>;

/// `url::Url::parse`, with the URL as it is written out or the message of the error.
#[verifier::external_body]
fn parse_url(text: &str) -> (r: Result<String, String>)
    ensures
        match url_parsed(text@) {
            Ok(url) => r matches Ok(u) && u@ == url,
            Err(e) => r matches Err(x) && x@ == e,
        },
{
    match url::Url::parse(text) {
        Ok(url) => Ok(url.into()),
        Err(e) => Err(e.to_string()),
    }
}

/// The pairs as characters.
pub open spec fn pair_texts(pairs: Seq<(&str, &str)>) -> Seq<(Seq<char>, Seq<char>)> {
    Seq::new(pairs.len(), |i: int| (pairs[i].0@, pairs[i].1@))
}

/// `url::Url::parse` and `query_pairs_mut().extend_pairs`, with the URL as it is written
/// out or the message of the error.
#[verifier::external_body]
fn parse_url_with_query(text: &str, pairs: &[(&str, &str)]) -> (r: Result<String, String>)
    ensures
        match url_with_query(text@, pair_texts(pairs@)) {
            Ok(url) => r matches Ok(u) && u@ == url,
            Err(e) => r matches Err(x) && x@ == e,
        },
{
    match url::Url::parse(text) {
        Ok(mut url) => {
            url.query_pairs_mut().extend_pairs(pairs);
            Ok(url.into())
        },
        Err(e) => Err(e.to_string()),
    }
}

/// The address of the websocket at `endpoint`.
pub open spec fn ws_address(endpoint: Seq<char>, use_tls: bool) -> Seq<char> {
    (if use_tls {
        "wss"@
    } else {
        "ws"@
    }) + "://"@ + endpoint + "/ws"@
}

fn ws_text(endpoint: &str, use_tls: bool) -> (r: String)
    ensures
        r@ == ws_address(endpoint@, use_tls),
{
    let mut out = if use_tls {
        "wss".to_owned()
    } else {
        "ws".to_owned()
    };
    out.push_str("://");
    out.push_str(endpoint);
    out.push_str("/ws");
    out
}

/// The query that tells a relay whom to connect with.
pub open spec fn relay_query(server_id: Seq<char>) -> Seq<(Seq<char>, Seq<char>)> {
    seq![("serverId"@, server_id), ("role"@, "client"@), ("v"@, "2"@)]
}

fn bad_endpoint(what: &str, endpoint: &str, e: &str) -> (r: PaseoError)
    ensures
        r@ == ErrorModel::Offer(what@ + endpoint@ + ": "@ + e@),
{
    let mut out = what.to_owned();
    out.push_str(endpoint);
    out.push_str(": ");
    out.push_str(e);
    PaseoError::Offer(out)
}

/// The URL of a relay, with the query that tells it whom to connect with.
pub fn build_relay_ws_url(endpoint: &str, use_tls: bool, server_id: &str) -> (r: Result<
    String,
    PaseoError,
>)
    ensures
        match url_with_query(ws_address(endpoint@, use_tls), relay_query(server_id@)) {
            Ok(url) => r matches Ok(u) && u@ == url,
            Err(e) => r matches Err(x) && x@ == ErrorModel::Offer(
                "bad relay endpoint "@ + endpoint@ + ": "@ + e,
            ),
        },
{
    let pairs: [(&str, &str); 3] = [("serverId", server_id), ("role", "client"), ("v", "2")];
    assert(pair_texts(pairs@) == relay_query(server_id@));
    match parse_url_with_query(ws_text(endpoint, use_tls).as_str(), &pairs) {
        Ok(url) => Ok(url),
        Err(e) => Err(bad_endpoint("bad relay endpoint ", endpoint, e.as_str())),
    }
}

/// The URL of a daemon that is reached directly.
pub fn build_daemon_ws_url(host_port: &str, use_tls: bool) -> (r: Result<String, PaseoError>)
    ensures
        match url_parsed(ws_address(host_port@, use_tls)) {
            Ok(url) => r matches Ok(u) && u@ == url,
            Err(e) => r matches Err(x) && x@ == ErrorModel::Offer(
                "bad daemon endpoint "@ + host_port@ + ": "@ + e,
            ),
        },
{
    match parse_url(ws_text(host_port, use_tls).as_str()) {
        Ok(url) => Ok(url),
        Err(e) => Err(bad_endpoint("bad daemon endpoint ", host_port, e.as_str())),
    }
}

/// The offer of a link is what stands behind the first `#offer=`, without white space around it. A link
/// without that mark has none.
pub proof fn offers_stand_behind_the_mark(url: Seq<char>)
    ensures
        match text::halves(url, "#offer="@) {
            Some((_, rest)) => offer_json_of(url) == offer_bytes(text::trimmed(rest)),
            None => offer_json_of(url) is Err,
        },
{
}

/// An offer can be read just where it is base64, in either alphabet and with or without padding.
pub proof fn offers_are_base64(s: Seq<char>, data: Seq<u8>)
    ensures
        offer_bytes(s) == Ok::<Seq<u8>, ErrorModel>(data) <==> e2ee::b64_reads_as(
            e2ee::normalized(s),
            data,
        ),
{
}

/// The key of a daemon is 32 bytes in base64, and nothing else is one.
pub proof fn keys_have_thirty_two_bytes(b64: Seq<char>, key: Seq<u8>)
    ensures
        daemon_key_of(b64) == Ok::<Seq<u8>, ErrorModel>(key) <==> e2ee::b64_reads_as(b64, key)
            && key.len() == 32,
{
}

/// The address of a socket names its scheme by whether the connection is encrypted.
pub proof fn addresses_name_the_scheme(endpoint: Seq<char>)
    ensures
        ws_address(endpoint, true) == "wss"@ + "://"@ + endpoint + "/ws"@,
        ws_address(endpoint, false) == "ws"@ + "://"@ + endpoint + "/ws"@,
{
}

/// A relay is asked for the daemon by its name, in the role of a client and in the second version.
pub proof fn relays_are_asked_for_the_daemon(server_id: Seq<char>)
    ensures
        relay_query(server_id).len() == 3,
        relay_query(server_id).contains(("serverId"@, server_id)),
        relay_query(server_id).contains(("role"@, "client"@)),
        relay_query(server_id).contains(("v"@, "2"@)),
{
    assert(relay_query(server_id)[0] == ("serverId"@, server_id));
    assert(relay_query(server_id)[1] == ("role"@, "client"@));
    assert(relay_query(server_id)[2] == ("v"@, "2"@));
}

/// What a list says, it says item by item: each stands in its place, and none is added or left out.
pub proof fn items_keep_their_places(v: Seq<(&str, &str)>, i: int)
    ensures
        pair_texts(v).len() == v.len(),
        0 <= i < v.len() ==> pair_texts(v)[i] == (v[i].0@, v[i].1@),
{
}

} // verus!
