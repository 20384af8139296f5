//! The encrypted channel to a daemon behind a relay.
use crate::bytes;
use crate::json;
use crate::json::{Json, JsonModel, ObjectBuilder};
use crate::lists;
use crate::paseo_client::binary_frames;
use crate::paseo_client::error::{ErrorModel, PaseoError};
use crate::text;
use vstd::prelude::*;

verus! {

/// The length of a nonce, which stands in front of every ciphertext.
pub const NONCE_LEN: usize = 24;

/// What a frame holds once it is decrypted.
#[derive(Debug)]
pub enum Decrypted {
    Json(String),
    Binary(Vec<u8>),
}

/// What a [`Decrypted`] says.
#[verifier::ext_equal]
pub enum DecryptedModel {
    Json(Seq<char>),
    Binary(Seq<u8>),
}

impl View for Decrypted {
    type V = DecryptedModel;

    open spec fn view(&self) -> DecryptedModel {
        match self {
            Decrypted::Json(s) => DecryptedModel::Json(s@),
            Decrypted::Binary(b) => DecryptedModel::Binary(b@),
        }
    }
}

/// The text that `base64`'s standard engine, with padding, writes for the bytes.
pub uninterp spec fn b64_encoded(data: Seq<u8>) -> Seq<char>;

/// The bytes that `base64`'s standard engine, with padding, reads in the text, or the message of its
/// error.
pub uninterp spec fn b64_decoded(text: Seq<char>) -> Result<Seq<u8>, Seq<char>>;

/// Whether the character is one of the 64 of the standard alphabet.
pub open spec fn is_b64_char(c: char) -> bool {
    ('A' <= c <= 'Z') || ('a' <= c <= 'z') || ('0' <= c <= '9') || c == '+' || c == '/'
}

/// Whether the text is `n` characters of the standard alphabet, then `=` up to a multiple of 4.
pub open spec fn is_padded_after(s: Seq<char>, n: int) -> bool {
    &&& 0 <= n <= s.len()
    &&& s.len() == n + (4 - n % 4) % 4
    &&& forall|i: int| 0 <= i < n ==> is_b64_char(#[trigger] s[i])
    &&& forall|i: int| n <= i < s.len() ==> #[trigger] s[i] == '='
}

/// Whether the text is characters of the standard alphabet, then `=` up to a multiple of 4.
pub open spec fn is_b64_text(s: Seq<char>) -> bool {
    exists|n: int| #[trigger] is_padded_after(s, n)
}

/// Whether the text reads as the bytes.
pub open spec fn b64_reads_as(text: Seq<char>, data: Seq<u8>) -> bool {
    b64_decoded(text) == Ok::<Seq<u8>, Seq<char>>(data)
}

/// `base64::engine::general_purpose::STANDARD.encode`. What it writes is made of the standard
/// alphabet with padding, and reads back as the bytes.
#[verifier::external_body]
fn b64_encode(data: &[u8]) -> (r: String)
    ensures
        r@ == b64_encoded(data@),
        is_b64_text(r@),
        b64_reads_as(r@, data@),
{
    base64::Engine::encode(&base64::engine::general_purpose::STANDARD, data)
}

/// `base64::engine::general_purpose::STANDARD.decode`, with the bytes or the message of the error.
#[verifier::external_body]
fn b64_decode(text: &str) -> (r: Result<Vec<u8>, String>)
    ensures
        match b64_decoded(text@) {
            Ok(data) => r matches Ok(v) && v@ == data,
            Err(e) => r matches Err(x) && x@ == e,
        },
{
    match base64::Engine::decode(&base64::engine::general_purpose::STANDARD, text.as_bytes()) {
        Ok(data) => Ok(data),
        Err(e) => Err(e.to_string()),
    }
}

/// Reads base64 of the standard alphabet with padding.
pub(crate) fn decode_b64(text: &str) -> (r: Result<Vec<u8>, String>)
    ensures
        match b64_decoded(text@) {
            Ok(data) => r matches Ok(v) && v@ == data,
            Err(e) => r matches Err(x) && x@ == e,
        },
{
    b64_decode(text)
}

/// A character of the URL-safe alphabet as one of the standard alphabet.
pub open spec fn standard_char(c: char) -> char {
    if c == '-' {
        '+'
    } else if c == '_' {
        '/'
    } else {
        c
    }
}

/// The characters of the text in the standard alphabet, without padding.
pub open spec fn unpadded(s: Seq<char>) -> Seq<char>
    decreases s.len(),
{
    if s.len() == 0 {
        Seq::empty()
    } else if s.last() == '=' {
        unpadded(s.drop_last())
    } else {
        unpadded(s.drop_last()).push(standard_char(s.last()))
    }
}

/// `n` times `=`.
pub open spec fn padding(n: int) -> Seq<char> {
    Seq::new(n as nat, |i: int| '=')
}

/// The text in the standard alphabet, padded to a multiple of 4 bytes.
pub open spec fn normalized(s: Seq<char>) -> Seq<char> {
    let body = unpadded(s);
    body + padding((4 - vstd::utf8::encode_utf8(body).len() % 4) % 4)
}

/// The text in the standard alphabet and with the padding that its length asks for.
pub(crate) fn normalize_b64(input: &str) -> (r: String)
    ensures
        r@ == normalized(input@),
{
    let mut out = String::new();
    assert(input@.take(0) == Seq::<char>::empty());
    for c in it: input.chars()
        invariant
            it.seq() == input@,
            out@ == unpadded(input@.take(it.index())),
    {
        assert(input@.take(it.index() + 1).drop_last() == input@.take(it.index()));
        assert(input@.take(it.index() + 1).last() == c);
        if c == '-' {
            out.push('+');
        } else if c == '_' {
            out.push('/');
        } else if c != '=' {
            out.push(c);
        }
    }
    assert(input@.take(input@.len() as int) == input@);
    let ghost body = out@;
    let bytes: usize = out.as_str().as_bytes().len();
    let n: usize = (4 - bytes % 4) % 4;
    let mut k: usize = 0;
    assert(body + padding(0) == body);
    while k < n
        invariant
            k <= n,
            out@ == body + padding(k as int),
        decreases n - k,
    {
        out.push('=');
        assert(body + padding(k + 1) == (body + padding(k as int)).push('='));
        k += 1;
    }
    out
}

/// The bytes in base64 of either alphabet, padded or not.
pub open spec fn permissive_bytes(s: Seq<char>) -> Result<Seq<u8>, ErrorModel> {
    match b64_decoded(normalized(s)) {
        Ok(data) => Ok(data),
        Err(e) => Err(ErrorModel::Crypto("bad base64: "@ + e)),
    }
}

/// Reads base64 of either alphabet, padded or not.
pub fn decode_b64_permissive(input: &str) -> (r: Result<Vec<u8>, PaseoError>)
    ensures
        match permissive_bytes(input@) {
            Ok(data) => r matches Ok(v) && v@ == data,
            Err(e) => r matches Err(x) && x@ == e,
        },
{
    let normal = normalize_b64(input);
    match b64_decode(normal.as_str()) {
        Ok(data) => Ok(data),
        Err(e) => Err(PaseoError::Crypto(text::concat("bad base64: ", e.as_str()))),
    }
}

proof fn lemma_unpadded(s: Seq<char>, n: int, k: int)
    requires
        is_padded_after(s, n),
        0 <= k <= s.len(),
    ensures
        unpadded(s.take(k)) == s.take(if k <= n {
            k
        } else {
            n
        }),
    decreases k,
{
    if k > 0 {
        lemma_unpadded(s, n, k - 1);
        assert(s.take(k).drop_last() == s.take(k - 1));
        assert(s.take(k).last() == s[k - 1]);
        if k <= n {
            assert(is_b64_char(s[k - 1]));
            assert(s.take(k - 1).push(s[k - 1]) == s.take(k));
        } else {
            assert(s[k - 1] == '=');
        }
    } else {
        assert(s.take(0) == Seq::<char>::empty());
    }
}

proof fn lemma_normalized_is_fixed(s: Seq<char>)
    requires
        is_b64_text(s),
    ensures
        normalized(s) == s,
{
    let n = choose|n: int| #[trigger] is_padded_after(s, n);
    lemma_unpadded(s, n, s.len() as int);
    assert(s.take(s.len() as int) == s);
    let body = s.take(n);
    assert(vstd::utf8::is_ascii_chars(body)) by {
        assert forall|i: int| 0 <= i < body.len() implies '\0' <= #[trigger] body[i] <= '\u{7f}' by {
            assert(is_b64_char(s[i]));
        }
    }
    vstd::utf8::is_ascii_chars_encode_utf8(body);
    assert(vstd::utf8::encode_utf8(body).len() == n);
    assert(body + padding((4 - n % 4) % 4) == s);
}

/// The public key that `crypto_box` derives from a secret key.
pub uninterp spec fn box_public_key(secret: Seq<u8>) -> Seq<u8>;

/// What `crypto_box::SalsaBox` makes of a plaintext, for their public key, our secret key and a nonce.
pub uninterp spec fn box_sealed(
    public: Seq<u8>,
    secret: Seq<u8>,
    nonce: Seq<u8>,
    plaintext: Seq<u8>,
) -> Seq<u8>;

/// The plaintext that `crypto_box::SalsaBox` finds in a ciphertext, for their public key, our secret
/// key and a nonce, where the ciphertext is authentic.
pub uninterp spec fn box_opened(
    public: Seq<u8>,
    secret: Seq<u8>,
    nonce: Seq<u8>,
    ciphertext: Seq<u8>,
) -> Option<Seq<u8>>;

/// `crypto_box::SecretKey::public_key`.
#[verifier::external_body]
fn derive_public_key(secret: &[u8; 32]) -> (r: [u8; 32])
    ensures
        r@ == box_public_key(secret@),
{
    crypto_box::SecretKey::from_bytes(*secret).public_key().to_bytes()
}

/// Whether the holder of the other secret key, and of this one's public key, opens the ciphertext as
/// the plaintext.
pub open spec fn other_side_opens(
    public: Seq<u8>,
    secret: Seq<u8>,
    nonce: Seq<u8>,
    plaintext: Seq<u8>,
    ciphertext: Seq<u8>,
) -> bool {
    forall|other: Seq<u8>|
        #[trigger] box_public_key(other) == public && other.len() == 32 ==> box_opened(
            box_public_key(secret),
            other,
            nonce,
            ciphertext,
        ) == Some(plaintext)
}

/// `crypto_box::SalsaBox::encrypt` without associated data, which then never fails. Both ends of the
/// box open what either sealed: X25519 gives them the same key.
#[verifier::external_body]
fn box_seal(public: &[u8; 32], secret: &[u8; 32], nonce: &[u8; 24], plaintext: &[u8]) -> (r: Vec<
    u8,
>)
    ensures
        r@ == box_sealed(public@, secret@, nonce@, plaintext@),
        box_opened(public@, secret@, nonce@, r@) == Some(plaintext@),
        other_side_opens(public@, secret@, nonce@, plaintext@, r@),
{
    let theirs = crypto_box::PublicKey::from_bytes(*public);
    let ours = crypto_box::SecretKey::from_bytes(*secret);
    let sbox = crypto_box::SalsaBox::new(&theirs, &ours);
    crypto_box::aead::Aead::encrypt(&sbox, crypto_box::Nonce::from_slice(nonce), plaintext)
        .expect("no associated data")
}

/// `crypto_box::SalsaBox::decrypt` without associated data.
#[verifier::external_body]
fn box_open(public: &[u8; 32], secret: &[u8; 32], nonce: &[u8], ciphertext: &[u8]) -> (r: Option<
    Vec<u8>,
>)
    requires
        nonce@.len() == 24,
    ensures
        match box_opened(public@, secret@, nonce@, ciphertext@) {
            Some(plaintext) => r matches Some(v) && v@ == plaintext,
            None => r is None,
        },
{
    let theirs = crypto_box::PublicKey::from_bytes(*public);
    let ours = crypto_box::SecretKey::from_bytes(*secret);
    let sbox = crypto_box::SalsaBox::new(&theirs, &ours);
    crypto_box::aead::Aead::decrypt(&sbox, crypto_box::Nonce::from_slice(nonce), ciphertext).ok()
}

/// `getrandom::fill` on `N` bytes, with the bytes or the message of the error. Nothing holds of the
/// bytes.
#[verifier::external_body]
fn random_bytes<const N: usize>() -> (r: Result<[u8; N], String>) {
    let mut buf = [0u8; N];
    match getrandom::fill(&mut buf) {
        Ok(()) => Ok(buf),
        Err(e) => Err(e.to_string()),
    }
}

/// A plaintext as what it holds: a terminal frame or anything that is no UTF-8 is binary, the rest
/// is JSON.
pub open spec fn classified(plaintext: Seq<u8>) -> DecryptedModel {
    if binary_frames::begins_frame(plaintext) || !vstd::utf8::valid_utf8(plaintext) {
        DecryptedModel::Binary(plaintext)
    } else {
        DecryptedModel::Json(vstd::utf8::decode_utf8(plaintext))
    }
}

/// What a plaintext holds.
pub fn classify(plaintext: Vec<u8>) -> (r: Decrypted)
    ensures
        r@ == classified(plaintext@),
{
    if binary_frames::is_terminal_frame(&plaintext) {
        return Decrypted::Binary(plaintext);
    }
    match text::utf8_text(&plaintext) {
        Some(s) => Decrypted::Json(s),
        None => Decrypted::Binary(plaintext),
    }
}

/// A channel: the daemon's public key, and our own two keys.
pub struct Channel {
    daemon_public: [u8; 32],
    secret: [u8; 32],
    our_public: [u8; 32],
}

/// The keys of a [`Channel`].
pub struct ChannelModel {
    pub daemon_public: Seq<u8>,
    pub secret: Seq<u8>,
    pub our_public: Seq<u8>,
}

impl View for Channel {
    type V = ChannelModel;

    closed spec fn view(&self) -> ChannelModel {
        ChannelModel {
            daemon_public: self.daemon_public@,
            secret: self.secret@,
            our_public: self.our_public@,
        }
    }
}

/// The text of an encrypted frame: the nonce and the ciphertext in base64.
pub open spec fn frame_text(channel: ChannelModel, nonce: Seq<u8>, plaintext: Seq<u8>) -> Seq<char> {
    b64_encoded(nonce + box_sealed(channel.daemon_public, channel.secret, nonce, plaintext))
}

/// What an encrypted frame holds.
pub open spec fn decrypted(channel: ChannelModel, b64: Seq<char>) -> Result<
    DecryptedModel,
    ErrorModel,
> {
    match permissive_bytes(b64) {
        Err(e) => Err(e),
        Ok(bundle) => if bundle.len() < NONCE_LEN {
            Err(ErrorModel::Crypto("frame shorter than nonce"@))
        } else {
            match box_opened(
                channel.daemon_public,
                channel.secret,
                bundle.take(NONCE_LEN as int),
                bundle.skip(NONCE_LEN as int),
            ) {
                None => Err(ErrorModel::Crypto("decrypt failed"@)),
                Some(plaintext) => Ok(classified(plaintext)),
            }
        },
    }
}

/// The message that opens a channel: it carries our public key in base64.
pub open spec fn hello_json(our_public: Seq<u8>) -> JsonModel {
    JsonModel::Object(
        map![
            "type"@ => JsonModel::Text("e2ee_hello"@),
            "key"@ => JsonModel::Text(b64_encoded(our_public)),
        ],
    )
}

impl Channel {
    /// A channel to the daemon with a secret key drawn at random.
    pub fn new(daemon_public_key: [u8; 32]) -> (r: Result<Channel, PaseoError>)
        ensures
            match r {
                Ok(c) => c@.daemon_public == daemon_public_key@ && c@.secret.len() == 32
                    && c@.our_public == box_public_key(c@.secret),
                Err(e) => e@ matches ErrorModel::Crypto(m) && text::is_prefix(m, "rng: "@),
            },
    {
        match random_bytes::<32>() {
            Ok(secret_bytes) => Ok(Channel::from_secret_bytes(daemon_public_key, secret_bytes)),
            Err(e) => {
                let message = text::concat("rng: ", e.as_str());
                assert(message@.take("rng: "@.len() as int) == "rng: "@);
                Err(PaseoError::Crypto(message))
            },
        }
    }

    /// The channel to the daemon with the given secret key.
    pub fn from_secret_bytes(daemon_public_key: [u8; 32], secret_bytes: [u8; 32]) -> (r: Channel)
        ensures
            r@.daemon_public == daemon_public_key@,
            r@.secret == secret_bytes@,
            r@.our_public == box_public_key(secret_bytes@),
    {
        let our_public = derive_public_key(&secret_bytes);
        Channel { daemon_public: daemon_public_key, secret: secret_bytes, our_public }
    }

    /// The message that opens the channel.
    pub fn hello_frame(&self) -> (r: String)
        ensures
            r@ == json::json_rendered(hello_json(self@.our_public)),
            json::reads_as(r@, hello_json(self@.our_public)),
    {
        let key = b64_encode(&self.our_public);
        let hello = ObjectBuilder::new().with("type", Json::text("e2ee_hello")).with(
            "key",
            Json::text(key.as_str()),
        ).build();
        assert(hello@ == hello_json(self@.our_public));
        assert(json::is_exact(hello@, 120)) by {
            reveal_with_fuel(json::is_exact, 2);
        }
        hello.write()
    }

    /// The text of a frame for the plaintext, with the given nonce; it never fails.
    pub fn encrypt_with_nonce(&self, nonce_bytes: [u8; 24], plaintext: &[u8]) -> (r: Result<
        String,
        PaseoError,
    >)
        ensures
            r matches Ok(t) && t@ == frame_text(self@, nonce_bytes@, plaintext@) && self.opens(
                t@,
                nonce_bytes@,
                plaintext@,
            ),
    {
        let ciphertext = box_seal(&self.daemon_public, &self.secret, &nonce_bytes, plaintext);
        let mut bundle: Vec<u8> = Vec::new();
        bytes::push_all(&mut bundle, &nonce_bytes);
        bytes::push_all(&mut bundle, &ciphertext);
        assert(bundle@ == nonce_bytes@ + ciphertext@);
        let out = b64_encode(&bundle);
        proof {
            lemma_normalized_is_fixed(out@);
            assert(bundle@.take(NONCE_LEN as int) == nonce_bytes@);
            assert(bundle@.skip(NONCE_LEN as int) == ciphertext@);
        }
        Ok(out)
    }

    /// Whether both ends of the channel read the frame as the plaintext: this one, and one with the
    /// secret key of the daemon's public key and with our public key.
    pub open spec fn opens(&self, t: Seq<char>, nonce: Seq<u8>, plaintext: Seq<u8>) -> bool {
        &&& decrypted(self@, t) == Ok::<DecryptedModel, ErrorModel>(classified(plaintext))
        &&& forall|other: ChannelModel|
            other.secret.len() == 32 && #[trigger] box_public_key(other.secret)
                == self@.daemon_public && other.daemon_public == box_public_key(self@.secret)
                ==> decrypted(other, t) == Ok::<DecryptedModel, ErrorModel>(classified(plaintext))
    }

    /// The text of a frame for the plaintext, with a nonce drawn at random.
    pub fn encrypt(&self, plaintext: &[u8]) -> (r: Result<String, PaseoError>)
        ensures
            match r {
                Ok(t) => exists|nonce: Seq<u8>|
                    nonce.len() == NONCE_LEN && t@ == #[trigger] frame_text(
                        self@,
                        nonce,
                        plaintext@,
                    ) && self.opens(t@, nonce, plaintext@),
                Err(e) => e@ matches ErrorModel::Crypto(m) && text::is_prefix(m, "rng: "@),
            },
    {
        match random_bytes::<24>() {
            Ok(nonce_bytes) => {
                assert(nonce_bytes@.len() == NONCE_LEN);
                self.encrypt_with_nonce(nonce_bytes, plaintext)
            },
            Err(e) => {
                let message = text::concat("rng: ", e.as_str());
                assert(message@.take("rng: "@.len() as int) == "rng: "@);
                Err(PaseoError::Crypto(message))
            },
        }
    }

    /// What the frame holds.
    pub fn decrypt(&self, b64: &str) -> (r: Result<Decrypted, PaseoError>)
        ensures
            match decrypted(self@, b64@) {
                Ok(d) => r matches Ok(x) && x@ == d,
                Err(e) => r matches Err(x) && x@ == e,
            },
    {
        let bundle = match decode_b64_permissive(b64) {
            Ok(bundle) => bundle,
            Err(e) => return Err(e),
        };
        if bundle.len() < NONCE_LEN {
            return Err(PaseoError::Crypto("frame shorter than nonce".to_owned()));
        }
        let nonce = bytes::copy_range(&bundle, 0, NONCE_LEN);
        let ciphertext = bytes::copy_range(&bundle, NONCE_LEN, bundle.len());
        assert(nonce@ == bundle@.take(NONCE_LEN as int));
        assert(ciphertext@ == bundle@.skip(NONCE_LEN as int));
        match box_open(&self.daemon_public, &self.secret, &nonce, &ciphertext) {
            Some(plaintext) => Ok(classify(plaintext)),
            None => Err(PaseoError::Crypto("decrypt failed".to_owned())),
        }
    }
}

/// Padding is left out, and the characters of the alphabet for links become those of the standard one.
pub proof fn base64_is_made_standard(s: Seq<char>)
    ensures
        unpadded(s) == lists::picked(
            s,
            |c: char|
                if c == '=' {
                    None
                } else if c == '-' {
                    Some('+')
                } else if c == '_' {
                    Some('/')
                } else {
                    Some(c)
                },
        ),
    decreases s.len(),
{
    let f = |c: char|
        if c == '=' {
            None
        } else if c == '-' {
            Some('+')
        } else if c == '_' {
            Some('/')
        } else {
            Some(c)
        };
    if s.len() > 0 {
        base64_is_made_standard(s.drop_last());
        lists::lemma_picked_back(s, s.len() as int, f);
        assert(s.take(s.len() as int) == s);
        assert(s.take(s.len() - 1) == s.drop_last());
    } else {
        assert(s =~= Seq::<char>::empty());
        lists::lemma_picked_empty(f);
    }
}

/// Base64 is filled up with padding to a multiple of four bytes. What is in the standard form already is
/// left as it is.
pub proof fn base64_is_filled_up(s: Seq<char>)
    ensures
        normalized(s).take(unpadded(s).len() as int) == unpadded(s),
        normalized(s).len() < unpadded(s).len() + 4,
        forall|i: int|
            unpadded(s).len() <= i < normalized(s).len() ==> #[trigger] normalized(s)[i] == '=',
        (vstd::utf8::encode_utf8(unpadded(s)).len() + normalized(s).len() - unpadded(s).len()) % 4 == 0,
        is_b64_text(s) ==> normalized(s) == s,
{
    let body = unpadded(s);
    assert(normalized(s).take(body.len() as int) == body);
    if is_b64_text(s) {
        lemma_normalized_is_fixed(s);
    }
}

/// What was decrypted is a terminal frame where it begins as one or is no text, and else a message.
pub proof fn frames_are_told_from_messages(plaintext: Seq<u8>)
    ensures
        plaintext.len() > 0 && 1 <= plaintext[0] <= 5 ==> classified(plaintext)
            == DecryptedModel::Binary(plaintext),
        !vstd::utf8::valid_utf8(plaintext) ==> classified(plaintext) == DecryptedModel::Binary(
            plaintext,
        ),
        !(plaintext.len() > 0 && 1 <= plaintext[0] <= 5) && vstd::utf8::valid_utf8(plaintext)
            ==> classified(plaintext) == DecryptedModel::Json(vstd::utf8::decode_utf8(plaintext)),
{
}

/// What is sealed follows a nonce of 24 bytes. It is opened with that nonce, the secret of the channel
/// and the key of the other side, and is refused where it is shorter or cannot be opened.
pub proof fn the_nonce_comes_first(
    channel: ChannelModel,
    b64: Seq<char>,
    nonce: Seq<u8>,
    sealed: Seq<u8>,
    short: Seq<u8>,
)
    requires
        nonce.len() == 24,
        short.len() < 24,
    ensures
        b64_reads_as(normalized(b64), nonce + sealed) ==> (match box_opened(
            channel.daemon_public,
            channel.secret,
            nonce,
            sealed,
        ) {
            Some(plaintext) => decrypted(channel, b64) == Ok::<DecryptedModel, ErrorModel>(
                classified(plaintext),
            ),
            None => decrypted(channel, b64) is Err,
        }),
        b64_reads_as(normalized(b64), short) ==> decrypted(channel, b64) is Err,
{
    assert((nonce + sealed).take(24) == nonce);
    assert((nonce + sealed).skip(24) == sealed);
}

/// A client greets with its public key, in base64.
pub proof fn clients_greet_with_their_key(our_public: Seq<u8>)
    ensures
        json::member(hello_json(our_public), "type"@) == Some(JsonModel::Text("e2ee_hello"@)),
        json::member(hello_json(our_public), "key"@) == Some(
            JsonModel::Text(b64_encoded(our_public)),
        ),
{
    reveal_strlit("type");
    reveal_strlit("key");
    assert("type"@.len() != "key"@.len());
}

} // verus!
