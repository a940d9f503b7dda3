//! Ed25519 signatures on manifests and attestations.

use crate::digest;
use crate::text;
use vstd::prelude::*;

verus! {

// ---------------------------------------------------------------------------
// What Ed25519 and Base64 compute
// ---------------------------------------------------------------------------

/// The public key of an Ed25519 secret.
pub uninterp spec fn ed25519_public(secret: Seq<u8>) -> Seq<u8>;

/// The Ed25519 signature of a message under a secret.
pub uninterp spec fn ed25519_signature(secret: Seq<u8>, message: Seq<u8>) -> Seq<u8>;

/// Some bytes are an Ed25519 public key.
pub uninterp spec fn is_ed25519_key(public: Seq<u8>) -> bool;

/// A signature is valid for a message under a public key.
pub uninterp spec fn ed25519_valid(public: Seq<u8>, message: Seq<u8>, signature: Seq<u8>) -> bool;

/// The padded standard Base64 text of some bytes.
pub uninterp spec fn base64_text(data: Seq<u8>) -> Seq<char>;

/// The bytes that a padded standard Base64 text stands for.
pub uninterp spec fn base64_bytes(text: Seq<char>) -> Option<Seq<u8>>;

/// `ed25519_dalek::SigningKey::verifying_key`. The public key is a function of
/// the secret, named [`ed25519_public`], and is a valid key.
#[verifier::external_body]
fn public_key_of(secret: &[u8; 32]) -> (r: [u8; 32])
    ensures
        r@ == ed25519_public(secret@),
        is_ed25519_key(r@),
{
    ed25519_dalek::SigningKey::from_bytes(secret).verifying_key().to_bytes()
}

/// `ed25519_dalek::Signer::sign`. The signature is a function of the secret
/// and the message, named [`ed25519_signature`]; it is 64 bytes long, and
/// valid under the public key of the secret.
#[verifier::external_body]
fn signature_of(secret: &[u8; 32], message: &[u8]) -> (r: [u8; 64])
    ensures
        r@ == ed25519_signature(secret@, message@),
        ed25519_valid(ed25519_public(secret@), message@, r@),
{
    let key = ed25519_dalek::SigningKey::from_bytes(secret);
    ed25519_dalek::Signer::sign(&key, message).to_bytes()
}

/// `ed25519_dalek::VerifyingKey::from_bytes`: whether it accepts the bytes. The
/// answer is a function of the bytes, named [`is_ed25519_key`].
#[verifier::external_body]
fn key_is_valid(public: &[u8; 32]) -> (r: bool)
    ensures
        r == is_ed25519_key(public@),
{
    ed25519_dalek::VerifyingKey::from_bytes(public).is_ok()
}

/// `ed25519_dalek::Verifier::verify`: whether it accepts the signature. The
/// answer is a function of the arguments, named [`ed25519_valid`].
#[verifier::external_body]
fn signature_holds(public: &[u8; 32], message: &[u8], signature: &[u8]) -> (r: bool)
    requires
        is_ed25519_key(public@),
        signature@.len() == 64,
    ensures
        r == ed25519_valid(public@, message@, signature@),
{
    let key = ed25519_dalek::VerifyingKey::from_bytes(public).unwrap();
    let sig = ed25519_dalek::Signature::from_slice(signature).unwrap();
    ed25519_dalek::Verifier::verify(&key, message, &sig).is_ok()
}

/// `base64::engine::general_purpose::STANDARD.encode`. The text is a function
/// of the bytes, named [`base64_text`]; decoding it gives the bytes back.
#[verifier::external_body]
fn base64_encode(data: &[u8]) -> (r: String)
    ensures
        r@ == base64_text(data@),
        base64_bytes(r@) == Some(data@),
{
    base64::Engine::encode(&base64::engine::general_purpose::STANDARD, data)
}

/// `base64::engine::general_purpose::STANDARD.decode`. The bytes are a
/// function of the text, named [`base64_bytes`]; there are none where the
/// decoder reports an error.
#[verifier::external_body]
fn base64_decode(s: &str) -> (r: Option<Vec<u8>>)
    ensures
        match r {
            Some(v) => base64_bytes(s@) == Some(v@),
            None => base64_bytes(s@) is None,
        },
{
    base64::Engine::decode(&base64::engine::general_purpose::STANDARD, s).ok()
}

/// `rand::rngs::OsRng` filling 32 bytes. The bytes are random, so nothing is
/// claimed of them.
#[verifier::external_body]
fn random_secret() -> (r: [u8; 32]) {
    let mut secret = [0u8; 32];
    rand::RngCore::fill_bytes(&mut rand::rngs::OsRng, &mut secret);
    secret
}

// ---------------------------------------------------------------------------
// Verification
// ---------------------------------------------------------------------------

/// Why a signature could not be checked.
#[derive(Debug, Clone, Copy, PartialEq, Eq, Structural)]
pub enum SignatureError {
    /// The public key is not one.
    InvalidPublicKey,
    /// The signature is not Base64.
    InvalidEncoding,
}

/// What a check of a signature, given as decoded bytes, comes to.
pub open spec fn checked(valid_key: bool, decoded: Option<Seq<u8>>, valid: bool) -> Result<
    bool,
    SignatureError,
> {
    if !valid_key {
        Err(SignatureError::InvalidPublicKey)
    } else {
        match decoded {
            None => Err(SignatureError::InvalidEncoding),
            Some(sig) => Ok(sig.len() == 64 && valid),
        }
    }
}

/// What a check of a Base64 signature comes to.
pub open spec fn verification(public: Seq<u8>, message: Seq<u8>, signature: Seq<char>) -> Result<
    bool,
    SignatureError,
> {
    checked(
        is_ed25519_key(public),
        base64_bytes(signature),
        ed25519_valid(public, message, base64_bytes(signature)->Some_0),
    )
}

/// Decides on a signature: `valid_key` says whether the key is one, `decoded`
/// is the decoded signature, `valid` whether it holds.
pub fn judge_signature(valid_key: bool, decoded: Option<&Vec<u8>>, valid: bool) -> (r: Result<
    bool,
    SignatureError,
>)
    ensures
        r == checked(
            valid_key,
            match decoded {
                Some(v) => Some(v@),
                None => None,
            },
            valid,
        ),
{
    if !valid_key {
        return Err(SignatureError::InvalidPublicKey);
    }
    match decoded {
        None => Err(SignatureError::InvalidEncoding),
        Some(v) => Ok(v.len() == 64 && valid),
    }
}

/// Checks a Base64 signature of `content`. A signature of the wrong length is
/// not valid; one that is not Base64, or a key that is none, is an error.
pub fn verify_attestation_signature(
    public_bytes: &[u8; 32],
    content: &[u8],
    signature_b64: &str,
) -> (r: Result<bool, SignatureError>)
    ensures
        r == verification(public_bytes@, content@, signature_b64@),
{
    let valid_key = key_is_valid(public_bytes);
    let decoded = base64_decode(signature_b64);
    let valid = match &decoded {
        Some(sig) => valid_key && sig.len() == 64 && signature_holds(
            public_bytes,
            content,
            sig.as_slice(),
        ),
        None => false,
    };
    judge_signature(valid_key, decoded.as_ref(), valid)
}

/// Signs manifests.
pub struct ManifestSigner {
    pub secret: [u8; 32],
}

impl ManifestSigner {
    /// A signer with a 32-byte secret.
    pub fn new(secret_bytes: &[u8; 32]) -> (r: ManifestSigner)
        ensures
            r.secret == *secret_bytes,
    {
        ManifestSigner { secret: *secret_bytes }
    }

    /// The Base64 signature of a text. It verifies under the public key of the
    /// secret.
    pub fn sign(&self, content: &str) -> (r: String)
        ensures
            r@ == base64_text(
                ed25519_signature(self.secret@, vstd::utf8::encode_utf8(content@)),
            ),
            verification(
                ed25519_public(self.secret@),
                vstd::utf8::encode_utf8(content@),
                r@,
            ) == Ok::<bool, SignatureError>(true),
    {
        sign_bytes(&self.secret, content.as_bytes())
    }
}

fn sign_bytes(secret: &[u8; 32], content: &[u8]) -> (r: String)
    ensures
        r@ == base64_text(ed25519_signature(secret@, content@)),
        verification(ed25519_public(secret@), content@, r@) == Ok::<bool, SignatureError>(true),
{
    let _public = public_key_of(secret);
    let sig = signature_of(secret, content);
    base64_encode(&sig)
}

/// Verifies manifests.
pub struct ManifestVerifier;

impl ManifestVerifier {
    /// Checks the Base64 signature of a text.
    pub fn verify(public_bytes: &[u8; 32], content: &str, signature_b64: &str) -> (r: Result<
        bool,
        SignatureError,
    >)
        ensures
            r == verification(
                public_bytes@,
                vstd::utf8::encode_utf8(content@),
                signature_b64@,
            ),
    {
        verify_attestation_signature(public_bytes, content.as_bytes(), signature_b64)
    }
}

// ---------------------------------------------------------------------------
// The gateway's own key
// ---------------------------------------------------------------------------

/// File name of the private key.
pub const PRIVATE_FILENAME: &'static str = "state_attestation.ed25519";

/// File name of the public key beside it.
pub const PUBLIC_FILENAME: &'static str = "state_attestation.ed25519.pub";

/// The identity key of a gateway.
pub struct GatewayIdentityKey {
    pub secret: [u8; 32],
}

/// What is said of a private key file of the wrong length.
pub open spec fn wrong_length_message(path: Seq<char>, len: nat) -> Seq<char> {
    "Gateway identity key at "@ + path + " has wrong length ("@ + text::decimal(len)
        + " bytes, expected 32). Refusing to operate on a malformed signing key."@
}

impl GatewayIdentityKey {
    /// The key in the bytes of a private key file.
    pub fn from_file_bytes(bytes: &[u8], path: &str) -> (r: Result<GatewayIdentityKey, String>)
        ensures
            match r {
                Ok(k) => bytes@.len() == 32 && k.secret@ == bytes@,
                Err(m) => bytes@.len() != 32 && m@ == wrong_length_message(path@, bytes@.len()),
            },
    {
        if bytes.len() != 32 {
            let mut m = "Gateway identity key at ".to_owned();
            m.append(path);
            m.append(" has wrong length (");
            m.append(text::decimal_string(bytes.len() as u64).as_str());
            m.append(" bytes, expected 32). Refusing to operate on a malformed signing key.");
            return Err(m);
        }
        let mut secret: [u8; 32] = [0u8;32];
        let mut i: usize = 0;
        while i < 32
            invariant
                i <= 32,
                bytes@.len() == 32,
                secret@.len() == 32,
                forall|k: int| 0 <= k < i ==> secret@[k] == bytes@[k],
            decreases 32 - i,
        {
            secret[i] = bytes[i];
            i = i + 1;
        }
        assert(secret@ =~= bytes@);
        Ok(GatewayIdentityKey { secret })
    }

    /// A key with a fresh random secret. Whatever the secret is, it has a valid public key.
    pub fn generate() -> (r: GatewayIdentityKey)
        ensures
            is_ed25519_key(ed25519_public(r.secret@)),
    {
        let secret = random_secret();
        let _public = public_key_of(&secret);
        GatewayIdentityKey { secret }
    }

    /// The Base64 signature of `content`. It verifies under the public key.
    pub fn sign(&self, content: &[u8]) -> (r: String)
        ensures
            r@ == base64_text(ed25519_signature(self.secret@, content@)),
            verification(ed25519_public(self.secret@), content@, r@) == Ok::<bool, SignatureError>(
                true,
            ),
    {
        sign_bytes(&self.secret, content)
    }

    /// The public key.
    pub fn public_key_bytes(&self) -> (r: [u8; 32])
        ensures
            r@ == ed25519_public(self.secret@),
            is_ed25519_key(r@),
    {
        public_key_of(&self.secret)
    }

    /// The first eight bytes of the public key in hexadecimal, by which a
    /// verifier pins it.
    pub fn fingerprint(&self) -> (r: String)
        ensures
            r@ == digest::hex_text(ed25519_public(self.secret@).subrange(0, 8)),
            r@.len() == 16,
    {
        let public = self.public_key_bytes();
        let mut head: Vec<u8> = Vec::new();
        let mut i: usize = 0;
        while i < 8
            invariant
                i <= 8,
                public@.len() == 32,
                head@ == public@.subrange(0, i as int),
            decreases 8 - i,
        {
            head.push(public[i]);
            i = i + 1;
            assert(head@ =~= public@.subrange(0, i as int));
        }
        proof {
            digest::lemma_hex_len(head@);
        }
        digest::hex_of(head.as_slice())
    }
}

/// A number in octal.
pub open spec fn octal(n: nat) -> Seq<char>
    decreases n,
{
    if n < 8 {
        seq![text::digit(n)]
    } else {
        octal(n / 8).push(text::digit(n % 8))
    }
}

fn octal_string(n: u32) -> (r: String)
    ensures
        r@ == octal(n as nat),
    decreases n,
{
    let mut s = if n < 8 {
        String::new()
    } else {
        octal_string(n / 8)
    };
    let d: u32 = n % 8;
    let c: char = if d == 0 {
        '0'
    } else if d == 1 {
        '1'
    } else if d == 2 {
        '2'
    } else if d == 3 {
        '3'
    } else if d == 4 {
        '4'
    } else if d == 5 {
        '5'
    } else if d == 6 {
        '6'
    } else {
        '7'
    };
    assert(c == text::digit(d as nat));
    s.push(c);
    assert(s@ =~= octal(n as nat));
    s
}

/// A file mode is no wider than the owner's own access.
pub open spec fn is_private_mode(mode: u32) -> bool {
    (mode & 0o777) & 0o077 == 0
}

/// What is said of a private key file that others can reach.
pub open spec fn loose_mode_message(path: Seq<char>, mode: u32) -> Seq<char> {
    "Gateway identity key "@ + path + " has overly permissive mode "@ + octal(
        (mode & 0o777) as nat,
    ) + "; expected 0o600. Tighten with `chmod 600 "@ + path
        + "` and restart, or delete the file to regenerate."@
}

/// Checks the mode of the private key file: a key that the group or the world
/// can reach is refused.
pub fn check_private_mode(mode: u32, path: &str) -> (r: Result<(), String>)
    ensures
        match r {
            Ok(_) => is_private_mode(mode),
            Err(m) => !is_private_mode(mode) && m@ == loose_mode_message(path@, mode),
        },
{
    let bits: u32 = mode & 0o777;
    if bits & 0o077 == 0 {
        return Ok(());
    }
    let mut m = "Gateway identity key ".to_owned();
    m.append(path);
    m.append(" has overly permissive mode ");
    m.append(octal_string(bits).as_str());
    m.append("; expected 0o600. Tighten with `chmod 600 ");
    m.append(path);
    m.append("` and restart, or delete the file to regenerate.");
    Err(m)
}

// ---------------------------------------------------------------------------
// Laws of keys and signatures
// ---------------------------------------------------------------------------

/// A signature is good only under a well formed key, where it is Base64 of 64 bytes that the
/// scheme accepts; one of another length is not good, and one that is no Base64, or a key that
/// is none, is an error.
pub proof fn only_whole_signatures_are_good(
    public: Seq<u8>,
    message: Seq<u8>,
    signature: Seq<char>,
    bytes: Seq<u8>,
)
    ensures
        !is_ed25519_key(public) ==> verification(public, message, signature) == Err::<bool, _>(
            SignatureError::InvalidPublicKey,
        ),
        is_ed25519_key(public) && base64_bytes(signature) is None ==> verification(
            public,
            message,
            signature,
        ) == Err::<bool, _>(SignatureError::InvalidEncoding),
        is_ed25519_key(public) && base64_bytes(signature) == Some(bytes) ==> verification(
            public,
            message,
            signature,
        ) == Ok::<bool, SignatureError>(bytes.len() == 64 && ed25519_valid(public, message, bytes)),
{
}

/// A key file is private exactly where neither its group nor others may read, write or run
/// it.
pub proof fn private_files_are_the_owners_alone(mode: u32)
    ensures
        is_private_mode(mode) <==> mode & 0o040 == 0 && mode & 0o020 == 0 && mode & 0o010 == 0
            && mode & 0o004 == 0 && mode & 0o002 == 0 && mode & 0o001 == 0,
{
    assert(((mode & 0o777) & 0o077 == 0) <==> (mode & 0o040 == 0 && mode & 0o020 == 0 && mode
        & 0o010 == 0 && mode & 0o004 == 0 && mode & 0o002 == 0 && mode & 0o001 == 0))
        by (bit_vector);
}

/// What is said of a key file names it, and its length or its mode.
pub proof fn refused_key_files_are_named(path: Seq<char>, len: nat, mode: u32)
    ensures
        text::has_text(wrong_length_message(path, len), path),
        text::has_text(wrong_length_message(path, len), text::decimal(len)),
        text::has_text(loose_mode_message(path, mode), path),
        text::has_text(loose_mode_message(path, mode), octal((mode & 0o777) as nat)),
{
    let a = "Gateway identity key at "@;
    let b = " has wrong length ("@;
    let c = " bytes, expected 32). Refusing to operate on a malformed signing key."@;
    let n = text::decimal(len);
    lemma_two_parts(a, path, b, n, c);
    let d = "Gateway identity key "@;
    let e = " has overly permissive mode "@;
    let o = octal((mode & 0o777) as nat);
    let f = "; expected 0o600. Tighten with `chmod 600 "@;
    let g = "` and restart, or delete the file to regenerate."@;
    let rest = f + path + g;
    lemma_two_parts(d, path, e, o, rest);
    assert(d + path + e + o + rest =~= loose_mode_message(path, mode));
}

proof fn lemma_two_parts(a: Seq<char>, b: Seq<char>, c: Seq<char>, d: Seq<char>, e: Seq<char>)
    ensures
        text::has_text(a + b + c + d + e, b),
        text::has_text(a + b + c + d + e, d),
{
    let x = c + d + e;
    text::lemma_has_text_around(a, b, x);
    assert(a + b + x =~= a + b + c + d + e);
    text::lemma_has_text_around(a + b + c, d, e);
}

/// The digits of a number in octal stand for it, each eight times what the next does.
pub proof fn octal_digits_stand_for_the_number(n: nat, d: nat)
    requires
        d < 8,
    ensures
        octal(d) == seq![text::digit(d)],
        n > 0 ==> octal(8 * n + d) == octal(n).push(text::digit(d)),
{
    if n > 0 {
        assert((8 * n + d) / 8 == n && (8 * n + d) % 8 == d);
    }
}

} // verus!
