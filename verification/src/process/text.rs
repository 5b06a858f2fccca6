//! The cryptographic text-operation core: keyed-hash and asymmetric
//! signing and verification, key loading and generation, and
//! authenticated symmetric encryption, dispatched by a format tag.
//!
//! The primitive operations themselves are supplied by vetted outside
//! implementations behind trusted wrappers; everything around them —
//! key sizing, dispatch, encoding, record framing, error selection —
//! is verified.

use crate::ascii::{ascii_chars_of, ascii_to_string, lemma_ascii_chars_encode};
use crate::cli::base64::Base64Format;
use crate::cli::text::TextSignFormat;
use crate::error::Error;
use crate::process::b64::{
    b64_decode, b64_encode, decode_bytes, encode_bytes, lemma_b64_encode_ascii,
    lemma_b64_round_trip,
};
use crate::process::gen_pass::{genpass_bytes, password_ok};
use chacha20poly1305::aead::{Aead, AeadCore, KeyInit};
use chacha20poly1305::ChaCha20Poly1305;
use ed25519_dalek::Signer;
use ed25519_dalek::Verifier;
use vstd::prelude::*;
use vstd::string::StringSliceAdditionalSpecFns;

verus! {

/// The 32-byte digest that blake3's keyed hash computes; it depends
/// on the key and the content alone.
pub uninterp spec fn blake3_keyed_digest(key: Seq<u8>, msg: Seq<u8>) -> Seq<u8>;

/// The 64-byte signature that the asymmetric scheme derives from a
/// 32-byte signing seed and the content; the scheme signs
/// deterministically, so it depends on these alone.
pub uninterp spec fn ed25519_signature(seed: Seq<u8>, msg: Seq<u8>) -> Seq<u8>;

/// The 32-byte public verifying key derived from a signing seed.
pub uninterp spec fn ed25519_public_key(seed: Seq<u8>) -> Seq<u8>;

/// Whether 32 bytes are a valid public key encoding.
pub uninterp spec fn ed25519_pk_valid(pk: Seq<u8>) -> bool;

/// Whether the asymmetric scheme accepts a signature for a public key
/// and content.
pub uninterp spec fn ed25519_verifies(pk: Seq<u8>, msg: Seq<u8>, sig: Seq<u8>) -> bool;

/// Relies on blake3::keyed_hash: a 32-byte keyed digest determined by
/// the key and the content alone, identical across invocations and
/// processes.
#[verifier::external_body]
fn keyed_digest(key: &[u8; 32], msg: &Vec<u8>) -> (r: Vec<u8>)
    ensures
        r@ == blake3_keyed_digest(key@, msg@),
        r@.len() == 32,
{
    blake3::keyed_hash(key, msg.as_slice()).as_bytes().to_vec()
}

/// Relies on ed25519_dalek::SigningKey::sign: RFC 8032 signing is
/// deterministic in the seed and message, produces 64 bytes, and the
/// result is accepted by the verifying key derived from the same
/// seed.
#[verifier::external_body]
fn ed25519_sign_bytes(seed: &[u8; 32], msg: &Vec<u8>) -> (r: Vec<u8>)
    ensures
        r@ == ed25519_signature(seed@, msg@),
        r@.len() == 64,
        ed25519_verifies(ed25519_public_key(seed@), msg@, r@),
{
    let sk = ed25519_dalek::SigningKey::from_bytes(seed);
    sk.sign(msg.as_slice()).to_bytes().to_vec()
}

/// Relies on ed25519_dalek::SigningKey::verifying_key and
/// VerifyingKey::to_bytes: the public key is derived from the seed
/// alone, is 32 bytes, and round-trips through its byte encoding, so
/// it is a valid encoding.
#[verifier::external_body]
fn ed25519_derive_pk(seed: &[u8; 32]) -> (r: Vec<u8>)
    ensures
        r@ == ed25519_public_key(seed@),
        r@.len() == 32,
        ed25519_pk_valid(r@),
{
    let sk = ed25519_dalek::SigningKey::from_bytes(seed);
    sk.verifying_key().to_bytes().to_vec()
}

/// Relies on ed25519_dalek::VerifyingKey::from_bytes: whether the
/// bytes decode to a point of the curve, a property of the bytes
/// alone.
#[verifier::external_body]
fn ed25519_check_pk(pk: &[u8; 32]) -> (r: bool)
    ensures
        r == ed25519_pk_valid(pk@),
{
    ed25519_dalek::VerifyingKey::from_bytes(pk).is_ok()
}

/// Relies on ed25519_dalek::VerifyingKey::verify: deterministic in
/// the public key, message and signature. The key must be a valid
/// encoding, established at load time.
#[verifier::external_body]
fn ed25519_verify_bytes(pk: &[u8; 32], msg: &Vec<u8>, sig: &[u8]) -> (r: bool)
    requires
        ed25519_pk_valid(pk@),
        sig@.len() == 64,
    ensures
        r == ed25519_verifies(pk@, msg@, sig@),
{
    let vk = ed25519_dalek::VerifyingKey::from_bytes(pk).unwrap();
    let sig = ed25519_dalek::Signature::from_bytes(sig.try_into().unwrap());
    vk.verify(msg.as_slice(), &sig).is_ok()
}

/// Relies on ed25519_dalek::SigningKey::generate with the operating
/// system's secure generator: a freshly drawn 32-byte seed. Nothing
/// can be promised of a random value beyond its length.
#[verifier::external_body]
fn ed25519_generate_seed() -> (r: [u8; 32])
{
    ed25519_dalek::SigningKey::generate(&mut rand::rngs::OsRng).to_bytes()
}

/// Relies on <[u8; 32]>::copy_from_slice: copies the first 32 bytes
/// of a slice into an array.
#[verifier::external_body]
fn bytes32_prefix(v: &[u8]) -> (r: [u8; 32])
    requires
        v@.len() >= 32,
    ensures
        r@ == v@.take(32),
{
    let mut out = [0u8; 32];
    out.copy_from_slice(&v[..32]);
    out
}

/// Byte-for-byte comparison of two slices.
fn bytes_equal(a: &[u8], b: &[u8]) -> (r: bool)
    ensures
        r == (a@ == b@),
{
    if a.len() != b.len() {
        return false;
    }
    let n = a.len();
    let mut i: usize = 0;
    while i < n
        invariant
            i <= n,
            n == a@.len(),
            n == b@.len(),
            forall|j: int| 0 <= j < i ==> a@[j] == b@[j],
        decreases n - i,
    {
        if a[i] != b[i] {
            return false;
        }
        i = i + 1;
    }
    proof {
        assert(a@ =~= b@);
    }
    true
}

/// Signing capability: produces raw signature bytes over the full
/// content.
pub trait TextSign {
    /// The signature this signer produces for a content.
    spec fn signature_spec(&self, msg: Seq<u8>) -> Seq<u8>;

    /// The algorithm's fixed signature length.
    spec fn signature_len(&self) -> int;

    /// Whether a signature passes the verification side that belongs
    /// to this signer's key. A fresh signature always does.
    spec fn signed_verifies(&self, msg: Seq<u8>, sig: Seq<u8>) -> bool;

    /// Signs the full content; the result has the algorithm's fixed
    /// length.
    fn sign(&self, msg: &Vec<u8>) -> (r: Result<Vec<u8>, Error>)
        ensures
            r matches Ok(s) && s@ == self.signature_spec(msg@),
            r matches Ok(s) ==> s@.len() == self.signature_len(),
            r matches Ok(s) ==> self.signed_verifies(msg@, s@),
    ;
}

/// Verification capability: checks raw signature bytes against the
/// full content. A failed check is the `false` result, never an
/// error; an error is reserved for a malformed signature length.
pub trait TextVerify {
    /// Whether this verifier accepts a signature for a content.
    spec fn verify_spec(&self, msg: Seq<u8>, sig: Seq<u8>) -> bool;

    /// Whether the signature has the algorithm's fixed length.
    spec fn sig_well_formed(&self, sig: Seq<u8>) -> bool;

    /// Verifies a signature over the full content.
    fn verify(&self, msg: &Vec<u8>, sig: &[u8]) -> (r: Result<bool, Error>)
        ensures
            r is Ok <==> self.sig_well_formed(sig@),
            r matches Ok(b) ==> b == self.verify_spec(msg@, sig@),
            r matches Err(e) ==> e == Error::Decode,
    ;
}

/// Key-loading capability: builds a typed key of the algorithm's
/// exact size from raw bytes. Shorter input is a `KeyFormat` error;
/// longer input is truncated to the needed prefix.
pub trait KeyLoader: Sized {
    /// Whether this algorithm accepts the key bytes.
    spec fn load_ok(key: Seq<u8>) -> bool;

    /// How the loaded value relates to the accepted key bytes.
    spec fn loaded(key: Seq<u8>, v: Self) -> bool;

    /// Loads key material from raw bytes.
    fn load(key: &[u8]) -> (r: Result<Self, Error>)
        ensures
            r is Ok <==> Self::load_ok(key@),
            r matches Ok(v) ==> Self::loaded(key@, v),
            r matches Err(e) ==> e == Error::KeyFormat,
    ;
}

/// Key-generation capability: produces fresh key material. The order
/// of the returned buffers is fixed: the primary secret first, then
/// the derived public part where the algorithm has one.
pub trait KeyGenerator {
    /// What the generated buffers look like.
    spec fn generated_ok(out: Seq<Seq<u8>>) -> bool;

    /// Generates fresh key material.
    fn generate() -> (r: Result<Vec<Vec<u8>>, Error>)
        ensures
            r matches Ok(v) && Self::generated_ok(v.deep_view()),
    ;
}

/// The keyed-hash signer and verifier: a 256-bit shared key.
pub struct Blake3 {
    key: [u8; 32],
}

/// The asymmetric signer: a 32-byte signing seed.
pub struct Ed25519Signer {
    key: [u8; 32],
}

/// The asymmetric verifier: a 32-byte public key, valid by
/// construction.
pub struct Ed25519Verifier {
    key: [u8; 32],
}

impl Blake3 {
    /// The key bytes this signer authenticates with.
    pub closed spec fn key_spec(&self) -> Seq<u8> {
        self.key@
    }

    pub fn new(key: [u8; 32]) -> (r: Self)
        ensures
            r.key_spec() == key@,
    {
        Self { key }
    }

    /// Builds the typed key from raw bytes: the first 32 bytes of a
    /// longer input, an error for a shorter one.
    pub fn try_new(key: &[u8]) -> (r: Result<Self, Error>)
        ensures
            r is Ok <==> key@.len() >= 32,
            r matches Ok(v) ==> v.key_spec() == key@.take(32),
            r matches Err(e) ==> e == Error::KeyFormat,
    {
        if key.len() < 32 {
            return Err(Error::KeyFormat);
        }
        Ok(Blake3::new(bytes32_prefix(key)))
    }
}

impl Ed25519Signer {
    /// The signing seed.
    pub closed spec fn key_spec(&self) -> Seq<u8> {
        self.key@
    }

    pub fn new(key: [u8; 32]) -> (r: Self)
        ensures
            r.key_spec() == key@,
    {
        Self { key }
    }

    /// Builds the typed signing key from raw bytes: the first 32
    /// bytes of a longer input, an error for a shorter one.
    pub fn try_new(key: &[u8]) -> (r: Result<Self, Error>)
        ensures
            r is Ok <==> key@.len() >= 32,
            r matches Ok(v) ==> v.key_spec() == key@.take(32),
            r matches Err(e) ==> e == Error::KeyFormat,
    {
        if key.len() < 32 {
            return Err(Error::KeyFormat);
        }
        Ok(Ed25519Signer::new(bytes32_prefix(key)))
    }
}

impl Ed25519Verifier {
    #[verifier::type_invariant]
    spec fn wf(&self) -> bool {
        ed25519_pk_valid(self.key@)
    }

    /// The public key bytes.
    pub closed spec fn key_spec(&self) -> Seq<u8> {
        self.key@
    }

    pub fn new(key: [u8; 32]) -> (r: Self)
        requires
            ed25519_pk_valid(key@),
        ensures
            r.key_spec() == key@,
    {
        Self { key }
    }

    /// Builds the typed verifying key from raw bytes: the first 32
    /// bytes must be a valid public key encoding, and shorter input
    /// is an error.
    pub fn try_new(key: &[u8]) -> (r: Result<Self, Error>)
        ensures
            r is Ok <==> key@.len() >= 32 && ed25519_pk_valid(key@.take(32)),
            r matches Ok(v) ==> v.key_spec() == key@.take(32),
            r matches Err(e) ==> e == Error::KeyFormat,
    {
        if key.len() < 32 {
            return Err(Error::KeyFormat);
        }
        let pk = bytes32_prefix(key);
        if !ed25519_check_pk(&pk) {
            return Err(Error::KeyFormat);
        }
        Ok(Ed25519Verifier::new(pk))
    }
}

impl TextSign for Blake3 {
    open spec fn signature_spec(&self, msg: Seq<u8>) -> Seq<u8> {
        blake3_keyed_digest(self.key_spec(), msg)
    }

    open spec fn signature_len(&self) -> int {
        32
    }

    open spec fn signed_verifies(&self, msg: Seq<u8>, sig: Seq<u8>) -> bool {
        sig == blake3_keyed_digest(self.key_spec(), msg)
    }

    fn sign(&self, msg: &Vec<u8>) -> (r: Result<Vec<u8>, Error>) {
        Ok(keyed_digest(&self.key, msg))
    }
}

impl TextVerify for Blake3 {
    open spec fn verify_spec(&self, msg: Seq<u8>, sig: Seq<u8>) -> bool {
        sig == blake3_keyed_digest(self.key_spec(), msg)
    }

    open spec fn sig_well_formed(&self, sig: Seq<u8>) -> bool {
        sig.len() == 32
    }

    fn verify(&self, msg: &Vec<u8>, sig: &[u8]) -> (r: Result<bool, Error>) {
        if sig.len() != 32 {
            return Err(Error::Decode);
        }
        let digest = keyed_digest(&self.key, msg);
        Ok(bytes_equal(digest.as_slice(), sig))
    }
}

impl TextSign for Ed25519Signer {
    open spec fn signature_spec(&self, msg: Seq<u8>) -> Seq<u8> {
        ed25519_signature(self.key_spec(), msg)
    }

    open spec fn signature_len(&self) -> int {
        64
    }

    open spec fn signed_verifies(&self, msg: Seq<u8>, sig: Seq<u8>) -> bool {
        ed25519_verifies(ed25519_public_key(self.key_spec()), msg, sig)
    }

    fn sign(&self, msg: &Vec<u8>) -> (r: Result<Vec<u8>, Error>) {
        Ok(ed25519_sign_bytes(&self.key, msg))
    }
}

impl TextVerify for Ed25519Verifier {
    open spec fn verify_spec(&self, msg: Seq<u8>, sig: Seq<u8>) -> bool {
        ed25519_verifies(self.key_spec(), msg, sig)
    }

    open spec fn sig_well_formed(&self, sig: Seq<u8>) -> bool {
        sig.len() == 64
    }

    fn verify(&self, msg: &Vec<u8>, sig: &[u8]) -> (r: Result<bool, Error>) {
        if sig.len() != 64 {
            return Err(Error::Decode);
        }
        proof {
            use_type_invariant(self);
        }
        Ok(ed25519_verify_bytes(&self.key, msg, sig))
    }
}

impl KeyLoader for Blake3 {
    open spec fn load_ok(key: Seq<u8>) -> bool {
        key.len() >= 32
    }

    open spec fn loaded(key: Seq<u8>, v: Self) -> bool {
        v.key_spec() == key.take(32)
    }

    fn load(key: &[u8]) -> (r: Result<Self, Error>) {
        Self::try_new(key)
    }
}

impl KeyLoader for Ed25519Signer {
    open spec fn load_ok(key: Seq<u8>) -> bool {
        key.len() >= 32
    }

    open spec fn loaded(key: Seq<u8>, v: Self) -> bool {
        v.key_spec() == key.take(32)
    }

    fn load(key: &[u8]) -> (r: Result<Self, Error>) {
        Self::try_new(key)
    }
}

impl KeyLoader for Ed25519Verifier {
    open spec fn load_ok(key: Seq<u8>) -> bool {
        key.len() >= 32 && ed25519_pk_valid(key.take(32))
    }

    open spec fn loaded(key: Seq<u8>, v: Self) -> bool {
        v.key_spec() == key.take(32)
    }

    fn load(key: &[u8]) -> (r: Result<Self, Error>) {
        Self::try_new(key)
    }
}

impl KeyGenerator for Blake3 {
    open spec fn generated_ok(out: Seq<Seq<u8>>) -> bool {
        out.len() == 1 && password_ok(out[0], 32, true, true, true, true)
    }

    fn generate() -> (r: Result<Vec<Vec<u8>>, Error>) {
        let key = genpass_bytes(32, true, true, true, true);
        let mut out: Vec<Vec<u8>> = Vec::new();
        out.push(key);
        proof {
            assert(out.deep_view() =~~= seq![out@[0]@]);
        }
        Ok(out)
    }
}

impl KeyGenerator for Ed25519Signer {
    open spec fn generated_ok(out: Seq<Seq<u8>>) -> bool {
        &&& out.len() == 2
        &&& out[0].len() == 32
        &&& out[1].len() == 32
        &&& out[1] == ed25519_public_key(out[0])
        &&& ed25519_pk_valid(out[1])
    }

    fn generate() -> (r: Result<Vec<Vec<u8>>, Error>) {
        let seed = ed25519_generate_seed();
        let pk = ed25519_derive_pk(&seed);
        let seed_vec = vstd::slice::slice_to_vec(seed.as_slice());
        let mut out: Vec<Vec<u8>> = Vec::new();
        out.push(seed_vec);
        out.push(pk);
        proof {
            assert(out.deep_view() =~~= seq![out@[0]@, out@[1]@]);
        }
        Ok(out)
    }
}

/// For every keyed-hash key and every content, the digest that
/// signing produces is exactly the digest that verification
/// recomputes: a fresh signature always verifies, and only the one
/// digest does.
pub proof fn lemma_keyed_hash_sign_verifies(signer: Blake3, msg: Seq<u8>, sig: Seq<u8>)
    ensures
        signer.verify_spec(msg, signer.signature_spec(msg)),
        signer.verify_spec(msg, sig) <==> sig == signer.signature_spec(msg),
{
}

/// The ciphertext, with its embedded 16-byte tag, that the
/// authenticated cipher produces; deterministic in key, nonce and
/// plaintext.
pub uninterp spec fn chacha_seal(key: Seq<u8>, nonce: Seq<u8>, pt: Seq<u8>) -> Seq<u8>;

/// What decryption returns: the plaintext when the tag verifies,
/// nothing otherwise; deterministic in key, nonce and ciphertext.
pub uninterp spec fn chacha_open(key: Seq<u8>, nonce: Seq<u8>, ct: Seq<u8>) -> Option<Seq<u8>>;

/// The largest plaintext the cipher accepts.
pub open spec fn chacha_max_plaintext() -> int {
    274877906880
}

/// Relies on ChaCha20Poly1305::encrypt: deterministic in key, nonce
/// and plaintext; appends a 16-byte tag; the matching decrypt call
/// recovers exactly the plaintext. The plaintext bound keeps the
/// block counter in range, the one case the cipher refuses.
#[verifier::external_body]
fn aead_seal(key: &[u8; 32], nonce: &[u8], pt: &Vec<u8>) -> (r: Vec<u8>)
    requires
        nonce@.len() == 12,
        pt@.len() < chacha_max_plaintext(),
    ensures
        r@ == chacha_seal(key@, nonce@, pt@),
        r@.len() == pt@.len() + 16,
        chacha_open(key@, nonce@, r@) == Some(pt@),
{
    let cipher = ChaCha20Poly1305::new(chacha20poly1305::Key::from_slice(key.as_slice()));
    let n = chacha20poly1305::Nonce::from_slice(nonce);
    cipher.encrypt(n, pt.as_slice()).unwrap()
}

/// Relies on ChaCha20Poly1305::decrypt: deterministic; verifies the
/// embedded tag and releases the plaintext only when it matches,
/// never a partial result.
#[verifier::external_body]
fn aead_open(key: &[u8; 32], nonce: &[u8], ct: &Vec<u8>) -> (r: Option<Vec<u8>>)
    requires
        nonce@.len() == 12,
    ensures
        match r {
            Some(p) => chacha_open(key@, nonce@, ct@) == Some(p@) && p@.len() + 16 == ct@.len(),
            None => chacha_open(key@, nonce@, ct@) is None,
        },
{
    let cipher = ChaCha20Poly1305::new(chacha20poly1305::Key::from_slice(key.as_slice()));
    let n = chacha20poly1305::Nonce::from_slice(nonce);
    cipher.decrypt(n, ct.as_slice()).ok()
}

/// Relies on AeadCore::generate_nonce with the operating system's
/// secure generator: 12 fresh random bytes, promised by length alone.
#[verifier::external_body]
fn generate_nonce_bytes() -> (r: Vec<u8>)
    ensures
        r@.len() == 12,
{
    ChaCha20Poly1305::generate_nonce(&mut rand::rngs::OsRng).to_vec()
}

/// The literal bytes of `nonce: `.
pub open spec fn nonce_prefix() -> Seq<u8> {
    seq![110u8, 111, 110, 99, 101, 58, 32]
}

/// The literal bytes of `ciphertext: `.
pub open spec fn ciphertext_prefix() -> Seq<u8> {
    seq![99u8, 105, 112, 104, 101, 114, 116, 101, 120, 116, 58, 32]
}

/// The serialized encrypted record: two text lines, the URL-safe
/// base64 of the nonce and of the ciphertext, each behind its fixed
/// prefix.
pub open spec fn record_bytes(nonce: Seq<u8>, ct: Seq<u8>) -> Seq<u8> {
    nonce_prefix() + b64_encode(Base64Format::UrlSafe, nonce) + seq![10u8] + ciphertext_prefix()
        + b64_encode(Base64Format::UrlSafe, ct) + seq![10u8]
}

/// One line of a record: the fixed prefix followed by a decodable
/// URL-safe base64 payload.
pub open spec fn parse_line(line: Seq<u8>, prefix: Seq<u8>) -> Option<Seq<u8>> {
    if line.len() >= prefix.len() && line.take(prefix.len() as int) == prefix {
        b64_decode(Base64Format::UrlSafe, line.skip(prefix.len() as int))
    } else {
        None
    }
}

/// A line with the carriage return of a `\r\n` ending removed.
pub open spec fn strip_cr(line: Seq<u8>) -> Seq<u8> {
    if line.len() > 0 && line.last() == 13 {
        line.drop_last()
    } else {
        line
    }
}

/// The inverse of `record_bytes`: both lines must be present, in
/// order, with their exact prefixes, and both payloads must decode;
/// lines end at a line feed, with an optional carriage return before
/// it, and content after the second line is ignored.
pub open spec fn parse_record(data: Seq<u8>) -> Option<(Seq<u8>, Seq<u8>)> {
    match data.index_of_first(10) {
        None => None,
        Some(i) => {
            let line1 = strip_cr(data.take(i));
            let rest = data.skip(i + 1);
            if rest.len() == 0 {
                None
            } else {
                let line2 = match rest.index_of_first(10) {
                    Some(j) => strip_cr(rest.take(j)),
                    None => rest,
                };
                match (parse_line(line1, nonce_prefix()), parse_line(line2, ciphertext_prefix())) {
                    (Some(n), Some(c)) => Some((n, c)),
                    _ => None,
                }
            }
        },
    }
}

/// Pins down `index_of_first` from an explicit witness.
proof fn lemma_first_at(data: Seq<u8>, needle: u8, pos: int)
    requires
        0 <= pos < data.len(),
        data[pos] == needle,
        forall|j: int| 0 <= j < pos ==> data[j] != needle,
    ensures
        data.index_of_first(needle) == Some(pos),
{
    data.index_of_first_ensures(needle);
    assert(data.contains(needle));
}

/// A sequence without the needle has no first occurrence.
proof fn lemma_no_first(data: Seq<u8>, needle: u8)
    requires
        forall|j: int| 0 <= j < data.len() ==> data[j] != needle,
    ensures
        data.index_of_first(needle) is None,
{
    data.index_of_first_ensures(needle);
    if data.contains(needle) {
        let i = choose|i: int| 0 <= i < data.len() && data[i] == needle;
        assert(data[i] != needle);
    }
}

/// Parsing a freshly rendered record yields exactly the nonce and
/// ciphertext that went in: the framing and the text encoding
/// together lose nothing.
pub proof fn lemma_record_round_trip(nonce: Seq<u8>, ct: Seq<u8>)
    ensures
        parse_record(record_bytes(nonce, ct)) == Some((nonce, ct)),
{
    let en = b64_encode(Base64Format::UrlSafe, nonce);
    let ec = b64_encode(Base64Format::UrlSafe, ct);
    let np = nonce_prefix();
    let cp = ciphertext_prefix();
    let data = record_bytes(nonce, ct);
    lemma_b64_encode_ascii(Base64Format::UrlSafe, nonce);
    lemma_b64_encode_ascii(Base64Format::UrlSafe, ct);
    lemma_b64_round_trip(Base64Format::UrlSafe, nonce);
    lemma_b64_round_trip(Base64Format::UrlSafe, ct);
    let p1: int = (np.len() + en.len()) as int;
    assert(data.len() == np.len() + en.len() + 1 + cp.len() + ec.len() + 1);
    assert(data[p1 as int] == 10);
    assert forall|j: int| 0 <= j < p1 implies data[j] != 10 by {
        if j < np.len() {
            assert(data[j] == np[j]);
        } else {
            assert(data[j] == en[j - np.len()]);
        }
    }
    lemma_first_at(data, 10, p1 as int);
    let line1 = data.take(p1 as int);
    let rest = data.skip(p1 + 1);
    assert(rest =~= cp + ec + seq![10u8]);
    let p2: int = (cp.len() + ec.len()) as int;
    assert(rest[p2 as int] == 10);
    assert forall|j: int| 0 <= j < p2 implies rest[j] != 10 by {
        if j < cp.len() {
            assert(rest[j] == cp[j]);
        } else {
            assert(rest[j] == ec[j - cp.len()]);
        }
    }
    lemma_first_at(rest, 10, p2 as int);
    let line2 = rest.take(p2 as int);
    assert(line1 =~= np + en);
    assert(line2 =~= cp + ec);
    // the lines carry no carriage return: their last byte is an
    // alphabet byte, or the space of the prefix for an empty payload
    assert(line1.last() != 13) by {
        if en.len() > 0 {
            assert(line1.last() == en[en.len() - 1]);
        } else {
            assert(line1.last() == np[np.len() - 1]);
        }
    }
    assert(line2.last() != 13) by {
        if ec.len() > 0 {
            assert(line2.last() == ec[ec.len() - 1]);
        } else {
            assert(line2.last() == cp[cp.len() - 1]);
        }
    }
    assert(strip_cr(line1) == line1);
    assert(strip_cr(line2) == line2);
    assert(line1.take(np.len() as int) =~= np);
    assert(line1.skip(np.len() as int) =~= en);
    assert(line2.take(cp.len() as int) =~= cp);
    assert(line2.skip(cp.len() as int) =~= ec);
    assert(parse_line(line1, np) == Some(nonce));
    assert(parse_line(line2, cp) == Some(ct));
}

fn nonce_prefix_vec() -> (r: Vec<u8>)
    ensures
        r@ == nonce_prefix(),
{
    let v: Vec<u8> = vec![110u8, 111, 110, 99, 101, 58, 32];
    proof {
        assert(v@ =~= nonce_prefix());
    }
    v
}

fn ciphertext_prefix_vec() -> (r: Vec<u8>)
    ensures
        r@ == ciphertext_prefix(),
{
    let v: Vec<u8> = vec![99u8, 105, 112, 104, 101, 114, 116, 101, 120, 116, 58, 32];
    proof {
        assert(v@ =~= ciphertext_prefix());
    }
    v
}

/// Serializes a nonce and ciphertext as the two-line record.
fn render_record(nonce: &Vec<u8>, ct: &Vec<u8>) -> (r: Vec<u8>)
    ensures
        r@ == record_bytes(nonce@, ct@),
{
    let mut out = nonce_prefix_vec();
    let mut part = encode_bytes(Base64Format::UrlSafe, nonce.as_slice());
    out.append(&mut part);
    out.push(10);
    let mut cp = ciphertext_prefix_vec();
    out.append(&mut cp);
    let mut part2 = encode_bytes(Base64Format::UrlSafe, ct.as_slice());
    out.append(&mut part2);
    out.push(10);
    proof {
        assert(out@ =~= record_bytes(nonce@, ct@));
    }
    out
}

/// The first position of a byte at or after `from`.
fn find_byte(data: &[u8], from: usize, needle: u8) -> (r: Option<usize>)
    requires
        from <= data@.len(),
    ensures
        match r {
            Some(k) => from <= k < data@.len() && data@[k as int] == needle && forall|j: int|
                from <= j < k ==> data@[j] != needle,
            None => forall|j: int| from <= j < data@.len() ==> data@[j] != needle,
        },
{
    let n = data.len();
    let mut k = from;
    while k < n
        invariant
            from <= k,
            k <= n,
            n == data@.len(),
            forall|j: int| from <= j < k ==> data@[j] != needle,
        decreases n - k,
    {
        if data[k] == needle {
            return Some(k);
        }
        k = k + 1;
    }
    None
}

/// A copy of `data[lo..hi]`.
fn subvec(data: &[u8], lo: usize, hi: usize) -> (r: Vec<u8>)
    requires
        lo <= hi,
        hi <= data@.len(),
    ensures
        r@ == data@.subrange(lo as int, hi as int),
{
    let mut out: Vec<u8> = Vec::new();
    let mut k = lo;
    while k < hi
        invariant
            lo <= k,
            k <= hi,
            hi <= data@.len(),
            out@ == data@.subrange(lo as int, k as int),
        decreases hi - k,
    {
        out.push(data[k]);
        proof {
            assert(out@ =~= data@.subrange(lo as int, k + 1));
        }
        k = k + 1;
    }
    out
}

/// The payload behind a fixed prefix, or nothing when the prefix is
/// absent.
fn strip_prefix_bytes(line: &Vec<u8>, prefix: &Vec<u8>) -> (r: Option<Vec<u8>>)
    ensures
        match r {
            Some(v) => line@.len() >= prefix@.len() && line@.take(prefix@.len() as int) == prefix@
                && v@ == line@.skip(prefix@.len() as int),
            None => !(line@.len() >= prefix@.len() && line@.take(prefix@.len() as int)
                == prefix@),
        },
{
    let m = prefix.len();
    if line.len() < m {
        return None;
    }
    let mut k: usize = 0;
    while k < m
        invariant
            k <= m,
            m == prefix@.len(),
            m <= line@.len(),
            forall|j: int| 0 <= j < k ==> line@[j] == prefix@[j],
        decreases m - k,
    {
        if line[k] != prefix[k] {
            proof {
                assert(line@.take(m as int)[k as int] != prefix@[k as int]);
            }
            return None;
        }
        k = k + 1;
    }
    proof {
        assert(line@.take(m as int) =~= prefix@);
    }
    Some(subvec(line.as_slice(), m, line.len()))
}

/// Encrypts under a caller-supplied nonce: the deterministic core of
/// the encrypt operation, kept separate so the randomness source
/// stays injectable.
pub fn encrypt_with_nonce(key: &Vec<u8>, nonce: &Vec<u8>, msg: &Vec<u8>) -> (r: Result<
    Vec<u8>,
    Error,
>)
    requires
        msg@.len() < chacha_max_plaintext(),
    ensures
        key@.len() < 32 ==> r == Err::<Vec<u8>, Error>(Error::KeyFormat),
        key@.len() >= 32 && nonce@.len() != 12 ==> r == Err::<Vec<u8>, Error>(Error::Decode),
        key@.len() >= 32 && nonce@.len() == 12 ==> (r matches Ok(c) && c@ == chacha_seal(
            key@.take(32),
            nonce@,
            msg@,
        ) && c@.len() == msg@.len() + 16 && chacha_open(key@.take(32), nonce@, c@) == Some(msg@)),
{
    if key.len() < 32 {
        return Err(Error::KeyFormat);
    }
    if nonce.len() != 12 {
        return Err(Error::Decode);
    }
    let key32 = bytes32_prefix(key.as_slice());
    Ok(aead_seal(&key32, nonce.as_slice(), msg))
}

/// Encrypts the full content under a fresh random nonce and frames
/// the result as the two-line record. Every record it returns
/// decrypts, under the same key, to exactly the content.
pub fn process_encrypt(msg: &Vec<u8>, key: &Vec<u8>) -> (r: Result<Vec<u8>, Error>)
    requires
        msg@.len() < chacha_max_plaintext(),
    ensures
        key@.len() < 32 ==> r == Err::<Vec<u8>, Error>(Error::KeyFormat),
        key@.len() >= 32 ==> (r matches Ok(rec) && exists|nonce: Seq<u8>|
            {
                &&& nonce.len() == 12
                &&& rec@ == #[trigger] record_bytes(
                    nonce,
                    chacha_seal(key@.take(32), nonce, msg@),
                )
                &&& chacha_seal(key@.take(32), nonce, msg@).len() == msg@.len() + 16
                &&& chacha_open(key@.take(32), nonce, chacha_seal(key@.take(32), nonce, msg@))
                    == Some(msg@)
                &&& parse_record(rec@) == Some(
                    (nonce, chacha_seal(key@.take(32), nonce, msg@)),
                )
            }),
{
    if key.len() < 32 {
        return Err(Error::KeyFormat);
    }
    let nonce = generate_nonce_bytes();
    let key32 = bytes32_prefix(key.as_slice());
    let ct = aead_seal(&key32, nonce.as_slice(), msg);
    let rec = render_record(&nonce, &ct);
    proof {
        lemma_record_round_trip(nonce@, ct@);
    }
    Ok(rec)
}

/// Decrypts a two-line record. The record must parse, the nonce must
/// have the cipher's fixed length, and the embedded tag must verify;
/// each failure is reported as its own error and no partial
/// plaintext is ever released.
pub fn process_decrypt(record: &Vec<u8>, key: &Vec<u8>) -> (r: Result<Vec<u8>, Error>)
    ensures
        key@.len() < 32 ==> r == Err::<Vec<u8>, Error>(Error::KeyFormat),
        key@.len() >= 32 ==> match parse_record(record@) {
            None => r == Err::<Vec<u8>, Error>(Error::Decode),
            Some((nonce, ct)) => {
                if nonce.len() != 12 {
                    r == Err::<Vec<u8>, Error>(Error::Decode)
                } else {
                    match chacha_open(key@.take(32), nonce, ct) {
                        Some(p) => r matches Ok(v) && v@ == p,
                        None => r == Err::<Vec<u8>, Error>(Error::AeadIntegrity),
                    }
                }
            },
        },
{
    if key.len() < 32 {
        return Err(Error::KeyFormat);
    }
    let key32 = bytes32_prefix(key.as_slice());
    let n = record.len();
    let i = match find_byte(record.as_slice(), 0, 10) {
        Some(i) => i,
        None => {
            proof {
                lemma_no_first(record@, 10);
            }
            return Err(Error::Decode);
        },
    };
    proof {
        lemma_first_at(record@, 10, i as int);
    }
    if i + 1 == n {
        return Err(Error::Decode);
    }
    let ghost rest = record@.skip(i + 1);
    let line2_hi = match find_byte(record.as_slice(), i + 1, 10) {
        Some(j) => {
            proof {
                assert forall|jj: int| 0 <= jj < j - (i + 1) implies rest[jj] != 10 by {
                    assert(rest[jj] == record@[i + 1 + jj]);
                }
                assert(rest[j - (i + 1)] == record@[j as int]);
                lemma_first_at(rest, 10, j - (i + 1));
            }
            j
        },
        None => {
            proof {
                assert forall|jj: int| 0 <= jj < rest.len() implies rest[jj] != 10 by {
                    assert(rest[jj] == record@[i + 1 + jj]);
                }
                lemma_no_first(rest, 10);
            }
            n
        },
    };
    let mut line1 = subvec(record.as_slice(), 0, i);
    let mut line2 = subvec(record.as_slice(), i + 1, line2_hi);
    proof {
        assert(line1@ =~= record@.take(i as int));
        assert(line2@ =~= if rest.index_of_first(10) is Some {
            rest.take(rest.index_of_first(10)->Some_0)
        } else {
            rest
        });
    }
    if line1.len() > 0 && line1[line1.len() - 1] == 13 {
        line1.pop();
    }
    proof {
        assert(line1@ =~= strip_cr(record@.take(i as int)));
    }
    if line2_hi < n && line2.len() > 0 && line2[line2.len() - 1] == 13 {
        line2.pop();
    }
    proof {
        let spec_line2 = if rest.index_of_first(10) is Some {
            strip_cr(rest.take(rest.index_of_first(10)->Some_0))
        } else {
            rest
        };
        assert(line2@ =~= spec_line2);
    }
    let np = nonce_prefix_vec();
    let cp = ciphertext_prefix_vec();
    let nonce_b64 = match strip_prefix_bytes(&line1, &np) {
        Some(v) => v,
        None => {
            return Err(Error::Decode);
        },
    };
    let ct_b64 = match strip_prefix_bytes(&line2, &cp) {
        Some(v) => v,
        None => {
            return Err(Error::Decode);
        },
    };
    let nonce = match decode_bytes(Base64Format::UrlSafe, nonce_b64.as_slice()) {
        Ok(v) => v,
        Err(_) => {
            return Err(Error::Decode);
        },
    };
    let ct = match decode_bytes(Base64Format::UrlSafe, ct_b64.as_slice()) {
        Ok(v) => v,
        Err(_) => {
            return Err(Error::Decode);
        },
    };
    if nonce.len() != 12 {
        return Err(Error::Decode);
    }
    match aead_open(&key32, nonce.as_slice(), &ct) {
        Some(p) => Ok(p),
        None => Err(Error::AeadIntegrity),
    }
}

/// Which signature bytes the chosen algorithm produces once the key
/// bytes are accepted.
pub open spec fn signature_of(format: TextSignFormat, key32: Seq<u8>, msg: Seq<u8>) -> Seq<u8> {
    match format {
        TextSignFormat::Blake3 => blake3_keyed_digest(key32, msg),
        TextSignFormat::Ed25519 => ed25519_signature(key32, msg),
    }
}

/// The fixed byte length of each algorithm's raw signature: a
/// 32-byte keyed digest, a 64-byte asymmetric signature.
pub open spec fn signature_len_of(format: TextSignFormat) -> int {
    match format {
        TextSignFormat::Blake3 => 32,
        TextSignFormat::Ed25519 => 64,
    }
}

/// Signs the full content with the algorithm the format tag selects
/// and returns the URL-safe base64 text of the raw signature.
pub fn process_text_sign(msg: &Vec<u8>, key: &Vec<u8>, format: TextSignFormat) -> (r: Result<
    String,
    Error,
>)
    ensures
        key@.len() < 32 ==> r == Err::<String, Error>(Error::KeyFormat),
        key@.len() >= 32 ==> (r matches Ok(s) && s@ == ascii_chars_of(
            b64_encode(Base64Format::UrlSafe, signature_of(format, key@.take(32), msg@)),
        )),
        key@.len() >= 32 ==> (r matches Ok(s) && vstd::utf8::encode_utf8(s@) == b64_encode(
            Base64Format::UrlSafe,
            signature_of(format, key@.take(32), msg@),
        )),
        key@.len() >= 32 ==> signature_of(format, key@.take(32), msg@).len() == signature_len_of(
            format,
        ),
        key@.len() >= 32 && format == TextSignFormat::Ed25519 ==> ed25519_verifies(
            ed25519_public_key(key@.take(32)),
            msg@,
            signature_of(format, key@.take(32), msg@),
        ),
{
    let signed = match format {
        TextSignFormat::Blake3 => {
            let signer = match Blake3::load(key.as_slice()) {
                Ok(s) => s,
                Err(e) => {
                    return Err(e);
                },
            };
            match signer.sign(msg) {
                Ok(s) => s,
                Err(e) => {
                    return Err(e);
                },
            }
        },
        TextSignFormat::Ed25519 => {
            let signer = match Ed25519Signer::load(key.as_slice()) {
                Ok(s) => s,
                Err(e) => {
                    return Err(e);
                },
            };
            match signer.sign(msg) {
                Ok(s) => s,
                Err(e) => {
                    return Err(e);
                },
            }
        },
    };
    let digits = encode_bytes(Base64Format::UrlSafe, signed.as_slice());
    proof {
        lemma_b64_encode_ascii(Base64Format::UrlSafe, signed@);
        lemma_ascii_chars_encode(b64_encode(Base64Format::UrlSafe, signed@));
    }
    Ok(ascii_to_string(digits))
}

/// Verifies a base64-encoded signature over the full content with
/// the algorithm the format tag selects. A signature that does not
/// decode is rejected before any key is loaded or any cryptographic
/// check runs; a legitimate mismatch is the `false` result, never an
/// error.
pub fn process_text_verify(msg: &Vec<u8>, key: &Vec<u8>, format: TextSignFormat, sig: &str) -> (r:
    Result<bool, Error>)
    ensures
        match b64_decode(Base64Format::UrlSafe, sig.spec_bytes()) {
            None => r == Err::<bool, Error>(Error::Decode),
            Some(raw) => match format {
                TextSignFormat::Blake3 => {
                    if key@.len() < 32 {
                        r == Err::<bool, Error>(Error::KeyFormat)
                    } else if raw.len() != 32 {
                        r == Err::<bool, Error>(Error::Decode)
                    } else {
                        r matches Ok(b) && b == (raw == blake3_keyed_digest(
                            key@.take(32),
                            msg@,
                        ))
                    }
                },
                TextSignFormat::Ed25519 => {
                    if key@.len() < 32 || !ed25519_pk_valid(key@.take(32)) {
                        r == Err::<bool, Error>(Error::KeyFormat)
                    } else if raw.len() != 64 {
                        r == Err::<bool, Error>(Error::Decode)
                    } else {
                        r matches Ok(b) && b == ed25519_verifies(key@.take(32), msg@, raw)
                    }
                },
            },
        },
{
    let sig_bytes = sig.as_bytes();
    let raw = match decode_bytes(Base64Format::UrlSafe, sig_bytes) {
        Ok(v) => v,
        Err(_) => {
            return Err(Error::Decode);
        },
    };
    match format {
        TextSignFormat::Blake3 => {
            let verifier = match Blake3::load(key.as_slice()) {
                Ok(v) => v,
                Err(e) => {
                    return Err(e);
                },
            };
            verifier.verify(msg, raw.as_slice())
        },
        TextSignFormat::Ed25519 => {
            let verifier = match Ed25519Verifier::load(key.as_slice()) {
                Ok(v) => v,
                Err(e) => {
                    return Err(e);
                },
            };
            verifier.verify(msg, raw.as_slice())
        },
    }
}

/// Generates fresh key material for the algorithm the format tag
/// selects: one shared key for the keyed hash, or the signing seed
/// followed by the derived public key for the asymmetric scheme.
pub fn process_generate(format: TextSignFormat) -> (r: Result<Vec<Vec<u8>>, Error>)
    ensures
        r matches Ok(v) && match format {
            TextSignFormat::Blake3 => <Blake3 as KeyGenerator>::generated_ok(v.deep_view()),
            TextSignFormat::Ed25519 => <Ed25519Signer as KeyGenerator>::generated_ok(
                v.deep_view(),
            ),
        },
{
    match format {
        TextSignFormat::Blake3 => Blake3::generate(),
        TextSignFormat::Ed25519 => Ed25519Signer::generate(),
    }
}

} // verus!
