//! The envelope of the mobile relay: payloads sealed with AES-256-GCM under
//! the SHA-256 digest of a shared key text, carried as URL-safe base64
//! without padding.
use vstd::prelude::*;
use vstd::string::StringSliceAdditionalSpecFns;
use aes_gcm::aead::Aead;
use aes_gcm::{Aes256Gcm, KeyInit, Nonce};
use base64::engine::general_purpose::URL_SAFE_NO_PAD;
use base64::Engine;
use sha2::{Digest, Sha256};
use crate::json::{as_str, get, take_member, JsonValue};
use crate::text::{chars_of, owned, vec_eq_str};

verus! {

#[verifier::external_type_specification]
#[verifier::external_body]
pub struct ExAeadError(aes_gcm::Error);

#[verifier::external_type_specification]
#[verifier::external_body]
pub struct ExDecodeError(base64::DecodeError);

/// The SHA-256 digest of `bytes`.
pub uninterp spec fn sha256_of(bytes: Seq<u8>) -> Seq<u8>;

/// The AES-256-GCM ciphertext (with its 16-byte tag) of `plaintext` under
/// `key` and `nonce`, with no associated data.
pub uninterp spec fn aes_gcm_sealed(key: Seq<u8>, nonce: Seq<u8>, plaintext: Seq<u8>) -> Seq<u8>;

/// The URL-safe base64 digit for `v < 64`: `A`-`Z`, `a`-`z`, `0`-`9`, `-`,
/// `_`.
pub open spec fn base64_url_digit(v: int) -> char {
    if v < 26 {
        (65 + v) as char
    } else if v < 52 {
        (97 + v - 26) as char
    } else if v < 62 {
        (48 + v - 52) as char
    } else if v == 62 {
        '-'
    } else {
        '_'
    }
}

/// URL-safe base64 of `bytes`, without padding: each group of three bytes
/// gives four digits of six bits each, a last group of two bytes three
/// digits and a last single byte two, the unused low bits being zero.
pub open spec fn base64_url_of(bytes: Seq<u8>) -> Seq<char>
    decreases bytes.len(),
{
    if bytes.len() == 0 {
        Seq::empty()
    } else if bytes.len() == 1 {
        let b0 = bytes[0] as int;
        seq![base64_url_digit(b0 / 4), base64_url_digit((b0 % 4) * 16)]
    } else if bytes.len() == 2 {
        let b0 = bytes[0] as int;
        let b1 = bytes[1] as int;
        seq![
            base64_url_digit(b0 / 4),
            base64_url_digit((b0 % 4) * 16 + b1 / 16),
            base64_url_digit((b1 % 16) * 4),
        ]
    } else {
        let b0 = bytes[0] as int;
        let b1 = bytes[1] as int;
        let b2 = bytes[2] as int;
        seq![
            base64_url_digit(b0 / 4),
            base64_url_digit((b0 % 4) * 16 + b1 / 16),
            base64_url_digit((b1 % 16) * 4 + b2 / 64),
            base64_url_digit(b2 % 64),
        ] + base64_url_of(bytes.skip(3))
    }
}

/// The longest plaintext AES-GCM seals: 2^36 bytes.
pub open spec fn aes_gcm_max_plaintext() -> nat {
    0x10_0000_0000
}

/// The longest ciphertext body (without its tag) AES-GCM opens: 2^36 + 16
/// bytes, so the plaintexts it gives back are at most that long.
pub open spec fn aes_gcm_max_opened() -> nat {
    0x10_0000_0010
}

/// `Sha256::digest`: the 32-byte SHA-256 digest of `bytes`.
#[verifier::external_body]
fn sha256_digest(bytes: &[u8]) -> (r: Vec<u8>)
    ensures
        r@ == sha256_of(bytes@),
        r@.len() == 32,
{
    Sha256::digest(bytes).to_vec()
}

/// `Aes256Gcm::encrypt` with the cipher made from `key`: it seals any
/// plaintext of at most 2^36 bytes, appending the 16-byte tag, and refuses
/// longer ones.
#[verifier::external_body]
fn aes_gcm_seal(key: &[u8], nonce: &[u8], plaintext: &[u8]) -> (r: Result<Vec<u8>, aes_gcm::Error>)
    requires
        key@.len() == 32,
        nonce@.len() == 12,
    ensures
        plaintext@.len() <= aes_gcm_max_plaintext() <==> r is Ok,
        r matches Ok(c) ==> c@ == aes_gcm_sealed(key@, nonce@, plaintext@) && c@.len()
            == plaintext@.len() + 16,
{
    let cipher = Aes256Gcm::new_from_slice(key).expect("a 32-byte key");
    cipher.encrypt(Nonce::from_slice(nonce), plaintext)
}

/// `Aes256Gcm::decrypt` with the cipher made from `key`: it accepts exactly
/// the ciphertexts (body and 16-byte tag) whose body is at most 2^36 + 16
/// bytes and that seal some plaintext, and returns that plaintext.
#[verifier::external_body]
fn aes_gcm_open(key: &[u8], nonce: &[u8], ciphertext: &[u8]) -> (r: Result<Vec<u8>, aes_gcm::Error>)
    requires
        key@.len() == 32,
        nonce@.len() == 12,
    ensures
        r matches Ok(p) ==> p@.len() <= aes_gcm_max_opened() && aes_gcm_sealed(
            key@,
            nonce@,
            p@,
        ) == ciphertext@,
        forall|p: Seq<u8>|
            p.len() <= aes_gcm_max_opened() && #[trigger] aes_gcm_sealed(key@, nonce@, p)
                == ciphertext@ ==> r is Ok && r->Ok_0@ == p,
{
    let cipher = Aes256Gcm::new_from_slice(key).expect("a 32-byte key");
    cipher.decrypt(Nonce::from_slice(nonce), ciphertext)
}

/// `URL_SAFE_NO_PAD.encode`: the URL-safe base64 of `bytes`, without
/// padding.
#[verifier::external_body]
fn base64_url_encode(bytes: &[u8]) -> (r: String)
    requires
        (bytes@.len() / 3) * 4 + 3 <= usize::MAX,
    ensures
        r@ == base64_url_of(bytes@),
{
    URL_SAFE_NO_PAD.encode(bytes)
}

/// `URL_SAFE_NO_PAD.decode`: the decoding is canonical (no padding, no
/// stray trailing bits), so it accepts exactly the encodings of byte strings
/// and gives back the bytes encoded.
#[verifier::external_body]
fn base64_url_decode(text: &str) -> (r: Result<Vec<u8>, base64::DecodeError>)
    ensures
        r matches Ok(v) ==> base64_url_of(v@) == text@,
        forall|b: Seq<u8>| #[trigger] base64_url_of(b) == text@ ==> r is Ok && r->Ok_0@ == b,
{
    URL_SAFE_NO_PAD.decode(text)
}

/// The key of the mobile relay envelope: the SHA-256 digest of the shared
/// key text.
pub struct MobileRelayCipher {
    pub key: Vec<u8>,
}

impl MobileRelayCipher {
    pub open spec fn wf(&self) -> bool {
        self.key@.len() == 32
    }
}

/// `mobile_relay_cipher`: the cipher for the shared key text `key_text`.
pub fn mobile_relay_cipher(key_text: &str) -> (r: MobileRelayCipher)
    ensures
        r.wf(),
        r.key@ == sha256_of(key_text.spec_bytes()),
{
    MobileRelayCipher { key: sha256_digest(key_text.as_bytes()) }
}

/// The `k` low bytes of `n`, least significant first.
pub open spec fn le_bytes(n: nat, k: nat) -> Seq<u8>
    decreases k,
{
    if k == 0 {
        Seq::empty()
    } else {
        seq![(n % 256) as u8] + le_bytes(n / 256, (k - 1) as nat)
    }
}

/// A nonce: the time in milliseconds as 8 little-endian bytes, then four
/// random bytes.
pub fn mobile_relay_nonce(now_ms: u64, random: [u8; 4]) -> (r: Vec<u8>)
    ensures
        r@ == le_bytes(now_ms as nat, 8) + random@,
        r@.len() == 12,
{
    let mut out: Vec<u8> = Vec::new();
    let mut rest: u64 = now_ms;
    let mut k: usize = 0;
    while k < 8
        invariant
            k <= 8,
            out@ + le_bytes(rest as nat, (8 - k) as nat) == le_bytes(now_ms as nat, 8),
            out@.len() == k,
        decreases 8 - k,
    {
        let ghost before = out@;
        out.push((rest % 256) as u8);
        proof {
            assert(le_bytes(rest as nat, (8 - k) as nat) == seq![(rest % 256) as u8] + le_bytes(
                (rest / 256) as nat,
                (8 - k - 1) as nat,
            ));
            assert(out@ + le_bytes((rest / 256) as nat, (8 - k - 1) as nat) =~= before + le_bytes(
                rest as nat,
                (8 - k) as nat,
            ));
        }
        rest = rest / 256;
        k = k + 1;
    }
    proof {
        assert(le_bytes(rest as nat, 0) =~= Seq::<u8>::empty());
        assert(out@ =~= le_bytes(now_ms as nat, 8));
    }
    let mut i: usize = 0;
    while i < 4
        invariant
            i <= 4,
            out@ == le_bytes(now_ms as nat, 8) + random@.take(i as int),
        decreases 4 - i,
    {
        out.push(random[i]);
        i = i + 1;
        proof {
            assert(out@ =~= le_bytes(now_ms as nat, 8) + random@.take(i as int));
        }
    }
    proof {
        assert(random@.take(4) =~= random@);
    }
    out
}

/// Why an envelope is not accepted, or a payload not sealed.
#[derive(Debug, Clone, Copy, PartialEq, Eq)]
pub enum EnvelopeError {
    /// The envelope's `type` is not `encrypted`.
    NotEncrypted,
    /// The envelope has no `nonce` string.
    MissingNonce,
    /// The envelope has no `payload` string.
    MissingPayload,
    /// The nonce or the payload is not URL-safe base64.
    InvalidBase64,
    /// The nonce is not 12 bytes long.
    InvalidNonceLength,
    /// The payload does not open under the key.
    DecryptFailed,
    /// The payload is too long to seal.
    EncryptFailed,
    /// A plaintext envelope has no `payload`.
    MissingPlaintextPayload,
}

/// The `nonce` and `payload` fields of an `encrypted` envelope.
#[derive(Debug)]
pub struct EncryptedEnvelope {
    pub nonce: String,
    pub payload: String,
}

/// Seals the serialised payload `plaintext` under `nonce`; a plaintext
/// longer than AES-GCM seals fails with `EncryptFailed`.
pub fn encrypt_mobile_relay_payload(
    cipher: &MobileRelayCipher,
    nonce: &[u8],
    plaintext: &[u8],
) -> (r: Result<EncryptedEnvelope, EnvelopeError>)
    requires
        cipher.wf(),
        nonce@.len() == 12,
        (plaintext@.len() + 16) / 3 * 4 + 3 <= usize::MAX,
    ensures
        plaintext@.len() <= aes_gcm_max_plaintext() ==> (r matches Ok(e) && e.nonce@
            == base64_url_of(nonce@) && e.payload@ == base64_url_of(
            aes_gcm_sealed(cipher.key@, nonce@, plaintext@),
        )),
        plaintext@.len() > aes_gcm_max_plaintext() ==> r == Err::<
            EncryptedEnvelope,
            EnvelopeError,
        >(EnvelopeError::EncryptFailed),
{
    let sealed = match aes_gcm_seal(cipher.key.as_slice(), nonce, plaintext) {
        Ok(c) => c,
        Err(_) => return Err(EnvelopeError::EncryptFailed),
    };
    Ok(
        EncryptedEnvelope {
            nonce: base64_url_encode(nonce),
            payload: base64_url_encode(sealed.as_slice()),
        },
    )
}

/// `{"type":"encrypted","nonce":nonce,"payload":payload}`, members in that
/// order.
pub open spec fn is_sealed_json(v: JsonValue, nonce: Seq<char>, payload: Seq<char>) -> bool {
    &&& v matches JsonValue::Object(m)
    &&& m@.len() == 3
    &&& m@[0].0@ == "type"@
    &&& m@[0].1 matches JsonValue::Str(t) && t@ == "encrypted"@
    &&& m@[1].0@ == "nonce"@
    &&& m@[1].1 matches JsonValue::Str(n) && n@ == nonce
    &&& m@[2].0@ == "payload"@
    &&& m@[2].1 matches JsonValue::Str(p) && p@ == payload
}

impl EncryptedEnvelope {
    /// The envelope as JSON: `{"type":"encrypted","nonce":..,"payload":..}`.
    pub fn to_json(&self) -> (r: JsonValue)
        ensures
            is_sealed_json(r, self.nonce@, self.payload@),
            as_str(get(r, "type"@)) == Some("encrypted"@),
            as_str(get(r, "nonce"@)) == Some(self.nonce@),
            as_str(get(r, "payload"@)) == Some(self.payload@),
    {
        let mut members: Vec<(String, JsonValue)> = Vec::new();
        members.push((owned("type"), JsonValue::Str(owned("encrypted"))));
        members.push((owned("nonce"), JsonValue::Str(self.nonce.clone())));
        members.push((owned("payload"), JsonValue::Str(self.payload.clone())));
        proof {
            reveal_strlit("type");
            reveal_strlit("nonce");
            reveal_strlit("payload");
            let m = members@;
            assert(m.drop_first().drop_first().drop_first() =~= Seq::<(String, JsonValue)>::empty());
            assert(m.drop_first()[0] == m[1]);
            assert(m.drop_first().drop_first()[0] == m[2]);
            assert("type"@.len() == 4);
            assert("nonce"@.len() == 5);
            assert("payload"@.len() == 7);
            assert("type"@ != "nonce"@);
            assert("type"@ != "payload"@);
            assert("nonce"@ != "payload"@);
            reveal_with_fuel(crate::json::member, 4);
        }
        JsonValue::Object(members)
    }
}

/// The bytes whose URL-safe base64 is `text`, if any.
pub open spec fn decoded_base64(text: Seq<char>) -> Option<Seq<u8>> {
    if exists|b: Seq<u8>| #[trigger] base64_url_of(b) == text {
        Some(choose|b: Seq<u8>| #[trigger] base64_url_of(b) == text)
    } else {
        None
    }
}

/// The plaintext that `ciphertext` seals under `key` and `nonce`, if any.
pub open spec fn opened(key: Seq<u8>, nonce: Seq<u8>, ciphertext: Seq<u8>) -> Option<Seq<u8>> {
    if exists|p: Seq<u8>|
        p.len() <= aes_gcm_max_opened() && #[trigger] aes_gcm_sealed(key, nonce, p) == ciphertext {
        Some(
            choose|p: Seq<u8>|
                p.len() <= aes_gcm_max_opened() && #[trigger] aes_gcm_sealed(key, nonce, p)
                    == ciphertext,
        )
    } else {
        None
    }
}

/// What opening `envelope` under `key` gives.
pub open spec fn envelope_outcome(key: Seq<u8>, envelope: JsonValue) -> Result<Seq<u8>, EnvelopeError> {
    if as_str(get(envelope, "type"@)) != Some("encrypted"@) {
        Err(EnvelopeError::NotEncrypted)
    } else {
        match as_str(get(envelope, "nonce"@)) {
            None => Err(EnvelopeError::MissingNonce),
            Some(n) => match as_str(get(envelope, "payload"@)) {
                None => Err(EnvelopeError::MissingPayload),
                Some(p) => match decoded_base64(n) {
                    None => Err(EnvelopeError::InvalidBase64),
                    Some(nonce) => if nonce.len() != 12 {
                        Err(EnvelopeError::InvalidNonceLength)
                    } else {
                        match decoded_base64(p) {
                            None => Err(EnvelopeError::InvalidBase64),
                            Some(c) => match opened(key, nonce, c) {
                                Some(plain) => Ok(plain),
                                None => Err(EnvelopeError::DecryptFailed),
                            },
                        }
                    },
                },
            },
        }
    }
}

/// `envelope` is `plaintext` sealed under `key` with a 12-byte nonce.
pub open spec fn seals(key: Seq<u8>, envelope: JsonValue, plaintext: Seq<u8>) -> bool {
    exists|nonce: Seq<u8>|
        nonce.len() == 12 && as_str(get(envelope, "type"@)) == Some("encrypted"@) && as_str(
            get(envelope, "nonce"@),
        ) == Some(#[trigger] base64_url_of(nonce)) && as_str(get(envelope, "payload"@)) == Some(
            base64_url_of(aes_gcm_sealed(key, nonce, plaintext)),
        )
}

/// `decrypt_mobile_relay_envelope`: the plaintext bytes of an `encrypted`
/// envelope. An envelope that seals a plaintext under this key opens to it.
pub fn decrypt_mobile_relay_envelope(cipher: &MobileRelayCipher, envelope: &JsonValue) -> (r: Result<
    Vec<u8>,
    EnvelopeError,
>)
    requires
        cipher.wf(),
    ensures
        match envelope_outcome(cipher.key@, *envelope) {
            Ok(p) => r matches Ok(v) && v@ == p,
            Err(e) => r matches Err(f) && f == e,
        },
        forall|p: Seq<u8>|
            p.len() <= aes_gcm_max_opened() && #[trigger] seals(cipher.key@, *envelope, p) ==> (
            r matches Ok(v) && v@ == p),
{
    let kind = match envelope.get("type") {
        Some(v) => v.as_str(),
        None => None,
    };
    let is_encrypted = match kind {
        Some(k) => vec_eq_str(&chars_of(k), "encrypted"),
        None => false,
    };
    if !is_encrypted {
        return Err(EnvelopeError::NotEncrypted);
    }
    let nonce_text = match envelope.get("nonce") {
        Some(v) => match v.as_str() {
            Some(t) => t,
            None => return Err(EnvelopeError::MissingNonce),
        },
        None => return Err(EnvelopeError::MissingNonce),
    };
    let payload_text = match envelope.get("payload") {
        Some(v) => match v.as_str() {
            Some(t) => t,
            None => return Err(EnvelopeError::MissingPayload),
        },
        None => return Err(EnvelopeError::MissingPayload),
    };
    let nonce = match base64_url_decode(nonce_text) {
        Ok(n) => n,
        Err(_) => return Err(EnvelopeError::InvalidBase64),
    };
    proof {
        assert(base64_url_of(nonce@) == nonce_text@);
        assert(decoded_base64(nonce_text@) == Some(nonce@));
    }
    if nonce.len() != 12 {
        return Err(EnvelopeError::InvalidNonceLength);
    }
    let ciphertext = match base64_url_decode(payload_text) {
        Ok(c) => c,
        Err(_) => return Err(EnvelopeError::InvalidBase64),
    };
    proof {
        assert(base64_url_of(ciphertext@) == payload_text@);
        assert(decoded_base64(payload_text@) == Some(ciphertext@));
    }
    match aes_gcm_open(cipher.key.as_slice(), nonce.as_slice(), ciphertext.as_slice()) {
        Ok(plain) => {
            proof {
                assert(opened(cipher.key@, nonce@, ciphertext@) == Some(plain@));
            }
            Ok(plain)
        },
        Err(_) => Err(EnvelopeError::DecryptFailed),
    }
}

/// A request read from the relay: a plaintext payload, or the opened bytes
/// of an encrypted one.
#[derive(Debug)]
pub enum RelayRequestBody {
    Plain(JsonValue),
    Opened(Vec<u8>),
}

/// The envelope is a plaintext one.
pub open spec fn is_plaintext(envelope: JsonValue) -> bool {
    as_str(get(envelope, "type"@)) == Some("plaintext"@)
}


/// `decrypt_mobile_relay_request`: the payload of a plaintext envelope, or
/// the opened bytes of an encrypted one.
pub fn decrypt_mobile_relay_request(cipher: &MobileRelayCipher, envelope: JsonValue) -> (r: Result<
    RelayRequestBody,
    EnvelopeError,
>)
    requires
        cipher.wf(),
    ensures
        is_plaintext(envelope) ==> match get(envelope, "payload"@) {
            Some(p) => r matches Ok(RelayRequestBody::Plain(q)) && q == p,
            None => r matches Err(e) && e == EnvelopeError::MissingPlaintextPayload,
        },
        !is_plaintext(envelope) ==> match envelope_outcome(cipher.key@, envelope) {
            Ok(p) => r matches Ok(RelayRequestBody::Opened(v)) && v@ == p,
            Err(e) => r matches Err(f) && f == e,
        },
{
    let plaintext = match envelope.get("type") {
        Some(v) => match v.as_str() {
            Some(k) => vec_eq_str(&chars_of(k), "plaintext"),
            None => false,
        },
        None => false,
    };
    if plaintext {
        match envelope {
            JsonValue::Object(members) => match take_member(members, "payload") {
                Some(p) => Ok(RelayRequestBody::Plain(p)),
                None => Err(EnvelopeError::MissingPlaintextPayload),
            },
            _ => Err(EnvelopeError::MissingPlaintextPayload),
        }
    } else {
        match decrypt_mobile_relay_envelope(cipher, &envelope) {
            Ok(v) => Ok(RelayRequestBody::Opened(v)),
            Err(e) => Err(e),
        }
    }
}

/// How a reply goes back over the relay.
#[derive(Debug)]
pub enum MobileRelayEnvelope {
    /// As `{"type":"plaintext","payload":..}`.
    Plaintext,
    /// Sealed.
    Encrypted(EncryptedEnvelope),
}

/// In plaintext mode the payload goes as it is, otherwise it is sealed
/// under `nonce` (failing with `EncryptFailed` when it is too long to seal).
pub fn encode_mobile_relay_payload(
    cipher: &MobileRelayCipher,
    plaintext_mode: bool,
    nonce: &[u8],
    plaintext: &[u8],
) -> (r: Result<MobileRelayEnvelope, EnvelopeError>)
    requires
        cipher.wf(),
        nonce@.len() == 12,
        (plaintext@.len() + 16) / 3 * 4 + 3 <= usize::MAX,
    ensures
        plaintext_mode ==> r matches Ok(MobileRelayEnvelope::Plaintext),
        !plaintext_mode && plaintext@.len() <= aes_gcm_max_plaintext() ==> (r matches Ok(
            MobileRelayEnvelope::Encrypted(e),
        ) && e.nonce@ == base64_url_of(nonce@) && e.payload@ == base64_url_of(
            aes_gcm_sealed(cipher.key@, nonce@, plaintext@),
        )),
        !plaintext_mode && plaintext@.len() > aes_gcm_max_plaintext() ==> r == Err::<
            MobileRelayEnvelope,
            EnvelopeError,
        >(EnvelopeError::EncryptFailed),
{
    if plaintext_mode {
        return Ok(MobileRelayEnvelope::Plaintext);
    }
    match encrypt_mobile_relay_payload(cipher, nonce, plaintext) {
        Ok(e) => Ok(MobileRelayEnvelope::Encrypted(e)),
        Err(e) => Err(e),
    }
}

} // verus!
