//! Identity keys, hashing and signing.
//!
//! The cryptographic work itself is done by outside code (`sha2` for the
//! content-addressed identifier, `nostr_types`/`k256` for Schnorr keys and
//! signatures); each call sits behind a trusted item whose contract states
//! only what that code's source shows. The `Keypair` fields are private to
//! this module so that the invariant tying the cached public identifier to
//! the secret key cannot be broken from verified code elsewhere.

use sha2::Digest;
use vstd::prelude::*;

verus! {

/// The SHA-256 digest of a byte sequence. The digest itself is far too
/// involved to state here; the name only pins that equal inputs give equal
/// digests.
pub uninterp spec fn sha256_of(data: Seq<u8>) -> Seq<u8>;

/// Whether `sig_hex` is a valid Schnorr signature, by the author with
/// public identifier `pubkey_hex`, over the SHA-256 digest of `msg`.
/// This names the outcome of `nostr_types::PublicKey::verify` (after hex
/// decoding of key and signature), a deterministic function of the three
/// arguments.
pub uninterp spec fn sig_ok(pubkey_hex: Seq<char>, msg: Seq<u8>, sig_hex: Seq<char>) -> bool;

/// What signing a payload returns for the identity with the given public
/// identifier: the 128-character hex signature, or nothing where the
/// outside code reports failure. k256 signs with a zero auxiliary-
/// randomness tag, and normalizes the secret at construction to the one
/// scalar matching the x-only public key, so the outcome is a function of
/// the public identifier and the message alone.
pub uninterp spec fn sign_outcome_of(pubkey_hex: Seq<char>, msg: Seq<u8>) -> Option<Seq<char>>;

/// Whether bech32 `nsec` secret-key material decodes to a usable key:
/// a valid bech32 string with the `nsec` prefix whose payload is a valid
/// secret scalar. A deterministic function of the string; its full
/// statement is the bech32 and scalar grammar, named rather than spelt.
pub uninterp spec fn nsec_decodes(s: Seq<char>) -> bool;

/// Whether hexadecimal secret-key material decodes to a usable key:
/// an even-length hex string whose 32-byte payload is a valid secret
/// scalar. A deterministic function of the string.
pub uninterp spec fn hex_key_decodes(s: Seq<char>) -> bool;

/// An ASCII lowercase hexadecimal digit.
pub open spec fn is_hex_char(c: char) -> bool {
    ('0' <= c && c <= '9') || ('a' <= c && c <= 'f')
}

/// A string of ASCII lowercase hexadecimal digits.
pub open spec fn is_hex_seq(s: Seq<char>) -> bool {
    forall|i: int| 0 <= i < s.len() ==> is_hex_char(#[trigger] s[i])
}

#[verifier::external_type_specification]
#[verifier::external_body]
pub struct ExPrivateKey(nostr_types::PrivateKey);

#[verifier::external_type_specification]
#[verifier::external_body]
pub struct ExNostrError(nostr_types::Error);

/// Relies on `sha2::Sha256::digest`: the digest of a byte slice is 32
/// bytes and depends on the input alone.
#[verifier::external_body]
pub(crate) fn sha256(data: &Vec<u8>) -> (r: Vec<u8>)
    ensures
        r@ == sha256_of(data@),
        r@.len() == 32,
{
    sha2::Sha256::digest(data.as_slice()).to_vec()
}

/// Relies on `nostr_types::PrivateKey::try_from_bech32_string`: decodes a
/// bech32 `nsec` string into a secret key, or reports why it cannot;
/// success depends on the string alone.
#[verifier::external_body]
fn secret_from_bech32(s: &str) -> (r: Result<nostr_types::PrivateKey, nostr_types::Error>)
    ensures
        r is Ok <==> nsec_decodes(s@),
{
    nostr_types::PrivateKey::try_from_bech32_string(s)
}

/// Relies on `nostr_types::PrivateKey::try_from_hex_string`: decodes a
/// hexadecimal string into a secret key, or reports why it cannot;
/// success depends on the string alone.
#[verifier::external_body]
fn secret_from_hex(s: &str) -> (r: Result<nostr_types::PrivateKey, nostr_types::Error>)
    ensures
        r is Ok <==> hex_key_decodes(s@),
{
    nostr_types::PrivateKey::try_from_hex_string(s)
}

/// A private signing key together with its derived public identifier,
/// rendered once, at construction, as 64 lowercase hexadecimal characters.
/// Immutable after construction; the secret never leaves this module.
pub struct Keypair {
    secret: nostr_types::PrivateKey,
    public_hex: String,
}

impl Keypair {
    /// The public identifier, as a sequence of hex characters.
    pub closed spec fn public_id(&self) -> Seq<char> {
        self.public_hex@
    }

    /// The cached identifier has the fixed width and alphabet that
    /// `hex::encode` of a 32-byte key gives it.
    pub open spec fn wf(&self) -> bool {
        self.public_id().len() == 64 && is_hex_seq(self.public_id())
    }

    /// Relies on `nostr_types::PrivateKey::public_key` and
    /// `nostr_types::PublicKey::as_hex_string`: the identifier is
    /// `hex::encode` of the 32-byte x-only public key, hence 64 lowercase
    /// hex characters, derived from the secret alone.
    #[verifier::external_body]
    fn assemble(secret: nostr_types::PrivateKey) -> (r: Keypair)
        ensures
            r.wf(),
    {
        let public_hex = secret.public_key().as_hex_string();
        Keypair { secret, public_hex }
    }

    /// Load an identity from bech32-encoded secret material. The error
    /// carries nothing: secret material must never appear in messages.
    pub fn load(secret_bech32: &str) -> (r: Result<Keypair, KeyError>)
        ensures
            r is Ok <==> nsec_decodes(secret_bech32@),
            r is Ok ==> r.unwrap().wf(),
            r is Err ==> r == Err::<Keypair, KeyError>(KeyError::InvalidKeyEncoding),
    {
        match secret_from_bech32(secret_bech32) {
            Ok(sk) => Ok(Keypair::assemble(sk)),
            Err(_) => Err(KeyError::InvalidKeyEncoding),
        }
    }

    /// Load an identity from hex-encoded secret material.
    pub fn load_hex(secret_hex: &str) -> (r: Result<Keypair, KeyError>)
        ensures
            r is Ok <==> hex_key_decodes(secret_hex@),
            r is Ok ==> r.unwrap().wf(),
            r is Err ==> r == Err::<Keypair, KeyError>(KeyError::InvalidKeyEncoding),
    {
        match secret_from_hex(secret_hex) {
            Ok(sk) => Ok(Keypair::assemble(sk)),
            Err(_) => Err(KeyError::InvalidKeyEncoding),
        }
    }

    /// The public identifier. Pure: always the value cached at load.
    pub fn public_identifier(&self) -> (r: String)
        ensures
            r@ == self.public_id(),
    {
        self.public_hex.clone()
    }

    /// Relies on `nostr_types::PrivateKey::sign` and
    /// `nostr_types::Signature::as_hex_string`: a signature over the
    /// SHA-256 digest of `msg`, rendered as 128 lowercase hex characters.
    /// k256's signing is deterministic and driven by the secret the
    /// constructor derived `public_hex` from, so outcome and signature
    /// are named by `sign_outcome_of` over the cached identifier; what
    /// the signature proves is stated by the caller after an explicit
    /// verification.
    #[verifier::external_body]
    pub(crate) fn sign_payload(&self, msg: &Vec<u8>) -> (r: Result<
        String,
        nostr_types::Error,
    >)
        ensures
            r is Ok <==> sign_outcome_of(self.public_id(), msg@) is Some,
            r matches Ok(s) ==> Some(s@) == sign_outcome_of(self.public_id(), msg@),
            r matches Ok(s) ==> s@.len() == 128 && is_hex_seq(s@),
    {
        let sig = self.secret.sign(msg.as_slice())?;
        Ok(sig.as_hex_string())
    }
}

/// Failure to decode secret key material. Deliberately empty of detail:
/// the offending material is redacted.
#[derive(Clone, Copy, Debug, PartialEq, Eq, Structural)]
pub enum KeyError {
    InvalidKeyEncoding,
}

/// Relies on `nostr_types::PublicKey::try_from_hex_string`,
/// `nostr_types::Signature::try_from_hex_string` and
/// `nostr_types::PublicKey::verify`: decides, from its three arguments
/// alone, whether the signature verifies; an undecodable key, and a
/// 128-character input that is not hex, verify as false. The signature
/// must have a full signature's width: on shorter hex k256's byte
/// parsing panics rather than failing, so those inputs are excluded.
#[verifier::external_body]
pub(crate) fn verify_payload(pubkey_hex: &str, msg: &Vec<u8>, sig_hex: &str) -> (r: bool)
    requires
        sig_hex@.len() == 128,
    ensures
        r == sig_ok(pubkey_hex@, msg@, sig_hex@),
{
    let pk = match nostr_types::PublicKey::try_from_hex_string(pubkey_hex) {
        Ok(pk) => pk,
        Err(_) => return false,
    };
    let sig = match nostr_types::Signature::try_from_hex_string(sig_hex) {
        Ok(sig) => sig,
        Err(_) => return false,
    };
    pk.verify(msg.as_slice(), sig).is_ok()
}

} // verus!
