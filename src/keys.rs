use vstd::prelude::*;

verus! {

#[verifier::external_type_specification]
#[verifier::external_body]
pub struct ExSshKeyError(ssh_key::Error);

/// Why a key pair could not be written out.
#[derive(Clone, Copy, Debug, PartialEq, Eq, Structural)]
pub enum KeyError {
    /// The 64 bytes are not a secret key followed by its own public key.
    Invalid,
}

/// The unencrypted OpenSSH private-key text, with LF line endings, of the
/// Ed25519 key pair whose 32 secret bytes and 32 public bytes are `pair`.
pub uninterp spec fn openssh_text_of(pair: Seq<u8>) -> Seq<char>;

/// The Ed25519 public key (32 bytes) that belongs to the 32-byte secret key
/// `secret`.
pub uninterp spec fn ed25519_public_of(secret: Seq<u8>) -> Seq<u8>;

/// Relies on ssh_key's `Ed25519Keypair::from_bytes`, which fails exactly when
/// the public half differs from the public key it derives from the secret
/// half, and on `PrivateKey::from` and `PrivateKey::to_openssh`, which do not
/// fail on an Ed25519 pair and whose check integers derive from the key bytes,
/// so the text depends on the bytes alone.
#[verifier::external_body]
fn encode_openssh(pair: &[u8; 64]) -> (r: Result<String, ssh_key::Error>)
    ensures
        r is Ok <==> pair@.subrange(32, 64) == ed25519_public_of(pair@.subrange(0, 32)),
        r is Ok ==> r->Ok_0@ == openssh_text_of(pair@),
{
    let keypair = ssh_key::private::Ed25519Keypair::from_bytes(pair)?;
    let text = ssh_key::PrivateKey::from(keypair).to_openssh(ssh_key::LineEnding::LF)?;
    Ok(text.as_str().to_string())
}

/// The OpenSSH text of an Ed25519 key pair given as secret then public bytes,
/// as a client would load it; `Invalid` exactly where the public half is not
/// the public key of the secret half.
pub fn private_key_text(pair: &[u8; 64]) -> (r: Result<String, KeyError>)
    ensures
        r is Ok <==> pair@.subrange(32, 64) == ed25519_public_of(pair@.subrange(0, 32)),
        match r {
            Ok(text) => text@ == openssh_text_of(pair@),
            Err(e) => e == KeyError::Invalid,
        },
{
    match encode_openssh(pair) {
        Ok(text) => Ok(text),
        Err(_) => Err(KeyError::Invalid),
    }
}

} // verus!
