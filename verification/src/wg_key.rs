//! The WireGuard key pair of the server.

use vstd::prelude::*;

use aes_gcm::aead::rand_core::RngCore;
use base64::engine::general_purpose;
use base64::Engine;
use boringtun::x25519::{PublicKey, StaticSecret};

use crate::text;
use crate::text::trimmed;

verus! {

/// The number of bytes of a key.
pub const KEY_LEN: usize = 32;

/// What the standard base64 alphabet decodes a text to: its bytes, or the decoder's message.
pub uninterp spec fn base64_decoded(text: Seq<char>) -> Result<Seq<u8>, Seq<char>>;

/// The text that the standard base64 alphabet encodes bytes as.
pub uninterp spec fn base64_encoded(bytes: Seq<u8>) -> Seq<char>;

/// The X25519 public key that belongs to the secret key with the given bytes.
pub uninterp spec fn x25519_public_key(secret: Seq<u8>) -> Seq<u8>;

/// The outcome of decoding, over plain sequences.
pub open spec fn outcome(r: Result<Vec<u8>, String>) -> Result<Seq<u8>, Seq<char>> {
    match r {
        Ok(bytes) => Ok(bytes@),
        Err(message) => Err(message@),
    }
}

/// Whether `text` decodes, and to `bytes`.
pub open spec fn decodes_to(text: Seq<char>, bytes: Seq<u8>) -> bool {
    base64_decoded(text) == Ok::<Seq<u8>, Seq<char>>(bytes)
}

/// Whether `text` holds no white space.
pub open spec fn no_white(text: Seq<char>) -> bool {
    forall|i: int| 0 <= i < text.len() ==> !text::is_white(#[trigger] text[i])
}

/// `base64`'s `Engine::decode` on the engine `general_purpose::STANDARD`. The result depends on
/// the text alone. That engine demands canonical padding and zero trailing bits, so a text that
/// it accepts is the one that it encodes the decoded bytes as.
#[verifier::external_body]
fn base64_decode(text: &str) -> (r: Result<Vec<u8>, String>)
    ensures
        outcome(r) == base64_decoded(text@),
        r matches Ok(bytes) ==> base64_encoded(bytes@) == text@,
{
    match general_purpose::STANDARD.decode(text) {
        Ok(bytes) => Ok(bytes),
        Err(e) => Err(e.to_string()),
    }
}

/// `base64`'s `Engine::encode` on the engine `general_purpose::STANDARD`. The result depends on
/// the bytes alone, and the same engine decodes it to them. It holds letters, digits, `+`, `/` and
/// `=`, so no white space.
#[verifier::external_body]
fn base64_encode(bytes: &[u8; 32]) -> (r: String)
    ensures
        r@ == base64_encoded(bytes@),
        decodes_to(r@, bytes@),
        no_white(r@),
{
    general_purpose::STANDARD.encode(bytes)
}

/// `boringtun`'s `x25519::PublicKey::from` on the `x25519::StaticSecret` made of `secret`, as
/// bytes. The result depends on the secret alone.
#[verifier::external_body]
fn derive_public_key(secret: &[u8; 32]) -> (r: [u8; 32])
    ensures
        r@ == x25519_public_key(secret@),
{
    PublicKey::from(&StaticSecret::from(*secret)).to_bytes()
}

/// `rand`'s `thread_rng` asked to fill a key with `fill_bytes`. Nothing is known of the bytes:
/// they are drawn at random.
#[verifier::external_body]
fn random_key() -> (r: [u8; 32]) {
    let mut key = [0u8; 32];
    rand::thread_rng().fill_bytes(&mut key);
    key
}

/// What a configured secret key text amounts to.
#[derive(Debug)]
pub enum WgKeyChoice {
    /// No text is configured.
    Absent,
    /// The text is not base64; the decoder's message.
    NotBase64(String),
    /// The text decodes to this many bytes, which is not the length of a key.
    WrongLength(usize),
    /// The text decodes to a key.
    Given([u8; 32]),
}

/// What a configured secret key text amounts to, over plain sequences.
pub ghost enum KeyChoice {
    Absent,
    NotBase64(Seq<char>),
    WrongLength(nat),
    Given(Seq<u8>),
}

impl View for WgKeyChoice {
    type V = KeyChoice;

    open spec fn view(&self) -> KeyChoice {
        match self {
            WgKeyChoice::Absent => KeyChoice::Absent,
            WgKeyChoice::NotBase64(message) => KeyChoice::NotBase64(message@),
            WgKeyChoice::WrongLength(n) => KeyChoice::WrongLength(*n as nat),
            WgKeyChoice::Given(key) => KeyChoice::Given(key@),
        }
    }
}

/// What the outcome of decoding a configured text amounts to.
pub open spec fn choice_of(decoded: Result<Seq<u8>, Seq<char>>) -> KeyChoice {
    match decoded {
        Err(message) => KeyChoice::NotBase64(message),
        Ok(bytes) => if bytes.len() == KEY_LEN {
            KeyChoice::Given(bytes)
        } else {
            KeyChoice::WrongLength(bytes.len())
        },
    }
}

/// What an optional configured text amounts to. White space around it does not count.
pub open spec fn choice_of_text(text: Option<Seq<char>>) -> KeyChoice {
    match text {
        None => KeyChoice::Absent,
        Some(t) => choice_of(base64_decoded(text::trim(t))),
    }
}

/// The secret key that is used: the given one, or else `fallback`.
pub open spec fn secret_of(choice: KeyChoice, fallback: Seq<u8>) -> Seq<u8> {
    match choice {
        KeyChoice::Given(key) => key,
        _ => fallback,
    }
}

impl WgKeyChoice {
    /// Judges the outcome of decoding a configured text.
    pub fn from_decoded(decoded: Result<Vec<u8>, String>) -> (r: Self)
        ensures
            r@ == choice_of(outcome(decoded)),
    {
        match decoded {
            Err(message) => WgKeyChoice::NotBase64(message),
            Ok(bytes) => if bytes.len() == KEY_LEN {
                let mut key: [u8; 32] = [0u8; 32];
                let mut i: usize = 0;
                while i < 32
                    invariant
                        i <= 32,
                        bytes@.len() == 32,
                        forall|j: int| 0 <= j < i ==> key@[j] == bytes@[j],
                    decreases 32 - i,
                {
                    key[i] = bytes[i];
                    i += 1;
                }
                assert(key@ =~= bytes@);
                WgKeyChoice::Given(key)
            } else {
                WgKeyChoice::WrongLength(bytes.len())
            },
        }
    }

    /// Reads a configured secret key. A key that is given is written as it was configured, but
    /// for the white space around it.
    pub fn from_text(text: &Option<String>) -> (r: Self)
        ensures
            r@ == choice_of_text(text.deep_view()),
            r@ matches KeyChoice::Given(key) ==> text.deep_view() matches Some(t)
                && base64_encoded(key) == text::trim(t),
    {
        match text {
            None => WgKeyChoice::Absent,
            Some(t) => {
                let trimmed_text = trimmed(t.as_str());
                WgKeyChoice::from_decoded(base64_decode(trimmed_text.as_str()))
            },
        }
    }

    /// The given key, or else `fallback`.
    pub fn secret_or(&self, fallback: [u8; 32]) -> (r: [u8; 32])
        ensures
            r@ == secret_of(self@, fallback@),
            *self matches WgKeyChoice::Given(key) ==> r == key,
            *self !is Given ==> r == fallback,
    {
        match self {
            WgKeyChoice::Given(key) => *key,
            _ => fallback,
        }
    }

    /// The given key, or else one drawn at random.
    pub fn secret_or_random(&self) -> (r: [u8; 32])
        ensures
            r@ == secret_of(self@, r@),
            *self matches WgKeyChoice::Given(key) ==> r == key,
    {
        match self {
            WgKeyChoice::Given(key) => *key,
            _ => random_key(),
        }
    }
}

/// A secret key and the public key that belongs to it.
#[derive(Clone, Copy, Debug)]
pub struct WgKeyPair {
    pub secret: [u8; 32],
    pub public: [u8; 32],
}

impl WgKeyPair {
    /// The public key belongs to the secret key.
    pub open spec fn wf(self) -> bool {
        self.public@ == x25519_public_key(self.secret@)
    }

    /// The key pair of a secret key.
    pub fn from_secret(secret: [u8; 32]) -> (r: Self)
        ensures
            r.secret == secret,
            r.wf(),
    {
        let public = derive_public_key(&secret);
        WgKeyPair { secret, public }
    }

    /// The secret key in base64. Configured as a secret key, that text gives the same key.
    pub fn secret_text(&self) -> (r: String)
        ensures
            r@ == base64_encoded(self.secret@),
            choice_of_text(Some(r@)) == KeyChoice::Given(self.secret@),
    {
        let r = base64_encode(&self.secret);
        assert(text::trim(r@) == r@);
        r
    }

    /// The public key in base64.
    pub fn public_text(&self) -> (r: String)
        ensures
            r@ == base64_encoded(self.public@),
    {
        base64_encode(&self.public)
    }
}

/// White space around a configured key does not count.
pub proof fn law_key_text_is_trimmed(text: Seq<char>)
    ensures
        choice_of_text(Some(text::trim(text))) == choice_of_text(Some(text)),
{
    text::law_trimmed_is_bare(text);
}

/// A configured text gives a key if and only if it decodes, without the white space around it, to
/// 32 bytes, and then it gives these bytes. One that decodes to another length or does not decode
/// gives none, and neither does no text at all.
pub proof fn law_decoded_bytes_are_the_key(text: Seq<char>, bytes: Seq<u8>)
    ensures
        choice_of_text(Some(text)) == KeyChoice::Given(bytes) <==> base64_decoded(text::trim(text))
            == Ok::<Seq<u8>, Seq<char>>(bytes) && bytes.len() == 32,
        base64_decoded(text::trim(text)) == Ok::<Seq<u8>, Seq<char>>(bytes) && bytes.len() != 32
            ==> choice_of_text(Some(text)) == KeyChoice::WrongLength(bytes.len()),
        base64_decoded(text::trim(text)) matches Err(message) ==> choice_of_text(Some(text))
            == KeyChoice::NotBase64(message),
        choice_of_text(None) == KeyChoice::Absent,
{
}

/// A given key is used as it is, whatever the fallback; in any other case the fallback is used as
/// it is.
pub proof fn law_given_key_is_used(choice: KeyChoice, fallback: Seq<u8>, bytes: Seq<u8>)
    ensures
        secret_of(KeyChoice::Given(bytes), fallback) == bytes,
        choice !is Given ==> secret_of(choice, fallback) == fallback,
{
}

} // verus!
