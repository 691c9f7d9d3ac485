//! The calls into the cryptographic and encoding crates. What is stated here
//! is believed, not proved.

use aes_gcm::aead::{Aead, KeyInit};
use rand::RngCore;
use vstd::prelude::*;
use zeroize::Zeroize;

verus! {

// ---------------------------------------------------------------------------
// AES-256-GCM
// ---------------------------------------------------------------------------

/// The opaque error of the `aead` crate.
#[verifier::external_type_specification]
#[verifier::external_body]
pub struct ExAeadError(aes_gcm::aead::Error);

/// The largest plaintext that AES-GCM takes, in bytes (`aes_gcm::P_MAX`).
pub const MAX_PLAINTEXT: u64 = 0x10_0000_0000;

/// AES-256-GCM encryption without associated data: the ciphertext followed by
/// the tag.
pub uninterp spec fn aes256gcm_seal(key: Seq<u8>, nonce: Seq<u8>, plaintext: Seq<u8>) -> Seq<u8>;

/// AES-256-GCM decryption without associated data: the plaintext, where the
/// tag at the end of the ciphertext is the right one.
pub uninterp spec fn aes256gcm_open(key: Seq<u8>, nonce: Seq<u8>, ciphertext: Seq<u8>) -> Option<
    Seq<u8>,
>;

/// `Aead::encrypt` of `Aes256Gcm`: it succeeds on every plaintext within the
/// limit; the result depends on key, nonce and plaintext alone, is 16 bytes
/// longer than the plaintext, and decrypts under the same key and nonce to the
/// plaintext.
#[verifier::external_body]
pub(crate) fn aead_encrypt(key: &[u8; 32], nonce: &[u8; 12], plaintext: &[u8]) -> (r: Result<
    Vec<u8>,
    aes_gcm::aead::Error,
>)
    requires
        plaintext@.len() <= MAX_PLAINTEXT,
        plaintext@.len() + 16 <= isize::MAX,
    ensures
        r is Ok,
        r matches Ok(c) ==> c@ == aes256gcm_seal(key@, nonce@, plaintext@),
        r matches Ok(c) ==> c@.len() == plaintext@.len() + 16,
        r matches Ok(c) ==> aes256gcm_open(key@, nonce@, c@) == Some(plaintext@),
{
    let cipher = aes_gcm::Aes256Gcm::new(key.into());
    cipher.encrypt(nonce.into(), plaintext)
}

/// `Aead::decrypt` of `Aes256Gcm`: the result depends on key, nonce and
/// ciphertext alone; a plaintext is 16 bytes shorter than its ciphertext.
#[verifier::external_body]
pub(crate) fn aead_decrypt(key: &[u8; 32], nonce: &[u8; 12], ciphertext: &[u8]) -> (r: Result<
    Vec<u8>,
    aes_gcm::aead::Error,
>)
    ensures
        r matches Ok(p) ==> aes256gcm_open(key@, nonce@, ciphertext@) == Some(p@),
        r matches Ok(p) ==> p@.len() + 16 == ciphertext@.len(),
        r is Err ==> aes256gcm_open(key@, nonce@, ciphertext@) is None,
{
    let cipher = aes_gcm::Aes256Gcm::new(key.into());
    cipher.decrypt(nonce.into(), ciphertext)
}

// ---------------------------------------------------------------------------
// Argon2
// ---------------------------------------------------------------------------

/// Why Argon2 refused its input.
#[derive(Clone, Copy, Debug, PartialEq, Eq, Structural)]
pub enum KdfError {
    /// The password has more bytes than a 32-bit length can say.
    PasswordTooLong,
    /// The salt has fewer than 8 bytes.
    SaltTooShort,
    /// The salt has more bytes than a 32-bit length can say.
    SaltTooLong,
    /// A parameter is out of range.
    Parameters,
}

/// The names under which the `argon2` crate knows its three variants.
pub open spec fn argon2_variant(name: Seq<char>) -> bool {
    name == "argon2d"@ || name == "argon2i"@ || name == "argon2id"@
}

/// Why Argon2 refuses a password and a salt of the given sizes, if it does.
pub open spec fn argon2_refusal(password: nat, salt: nat) -> Option<KdfError> {
    if password > u32::MAX {
        Some(KdfError::PasswordTooLong)
    } else if salt < 8 {
        Some(KdfError::SaltTooShort)
    } else if salt > u32::MAX {
        Some(KdfError::SaltTooLong)
    } else {
        None
    }
}

/// The 32 bytes that Argon2 derives.
pub uninterp spec fn argon2_output(
    variant: Seq<char>,
    version: u32,
    m_cost: u32,
    t_cost: u32,
    p_cost: u32,
    password: Seq<u8>,
    salt: Seq<u8>,
) -> Seq<u8>;

/// `Argon2::hash_password_into` on 32 bytes of output, with the variant,
/// version and costs given: on parameters in range it refuses a password of
/// more than `u32::MAX` bytes, and a salt of fewer than 8 or more than
/// `u32::MAX` bytes, in this order, and nothing else; the output depends on
/// the arguments alone.
#[verifier::external_body]
pub(crate) fn argon2_hash(
    variant: &str,
    version: u32,
    m_cost: u32,
    t_cost: u32,
    p_cost: u32,
    password: &[u8],
    salt: &[u8],
) -> (r: Result<[u8; 32], KdfError>)
    requires
        argon2_variant(variant@),
        version == 0x10 || version == 0x13,
        1 <= p_cost <= 0xff_ffff,
        8 * p_cost <= m_cost,
        1024 * m_cost <= isize::MAX,
        1 <= t_cost,
    ensures
        r matches Ok(out) ==> out@ == argon2_output(
            variant@,
            version,
            m_cost,
            t_cost,
            p_cost,
            password@,
            salt@,
        ),
        r is Err <==> argon2_refusal(password@.len(), salt@.len()) is Some,
        r matches Err(e) ==> argon2_refusal(password@.len(), salt@.len()) == Some(e),
{
    let mut out = [0u8; 32];
    argon2::Params::new(m_cost, t_cost, p_cost, Some(out.len()))
        .and_then(|params| {
            let variant = argon2::Algorithm::new(variant)?;
            let version = argon2::Version::try_from(version)?;
            argon2::Argon2::new(variant, version, params).hash_password_into(password, salt, &mut out)
        })
        .map_err(|e| match e {
            argon2::Error::PwdTooLong => KdfError::PasswordTooLong,
            argon2::Error::SaltTooShort => KdfError::SaltTooShort,
            argon2::Error::SaltTooLong => KdfError::SaltTooLong,
            _ => KdfError::Parameters,
        })
        .map(|_| out)
}

// ---------------------------------------------------------------------------
// Randomness
// ---------------------------------------------------------------------------

/// `OsRng::fill_bytes`: `N` bytes from the operating system. Nothing is said
/// of their values.
#[verifier::external_body]
pub(crate) fn os_random<const N: usize>() -> (r: [u8; N])
{
    let mut bytes = [0u8; N];
    aes_gcm::aead::OsRng.fill_bytes(&mut bytes);
    bytes
}

/// `ThreadRng::fill_bytes`: `N` bytes from the generator of the thread.
/// Nothing is said of their values.
#[verifier::external_body]
pub(crate) fn thread_random<const N: usize>() -> (r: [u8; N])
{
    let mut bytes = [0u8; N];
    rand::thread_rng().fill_bytes(&mut bytes);
    bytes
}

// ---------------------------------------------------------------------------
// Wiping
// ---------------------------------------------------------------------------

/// `Zeroize::zeroize` on an array: every byte becomes zero.
#[verifier::external_body]
pub(crate) fn zeroize_bytes<const N: usize>(bytes: &mut [u8; N])
    ensures
        forall|i: int| 0 <= i < N ==> #[trigger] final(bytes)@[i] == 0,
{
    bytes.zeroize();
}

/// `Zeroize::zeroize` on a `String`: the text is wiped and the string is left
/// empty.
#[verifier::external_body]
pub(crate) fn zeroize_string(s: &mut String)
    ensures
        final(s)@ == Seq::<char>::empty(),
{
    s.zeroize();
}

// ---------------------------------------------------------------------------
// Hexadecimal
// ---------------------------------------------------------------------------

/// The opaque error of the `hex` crate.
#[verifier::external_type_specification]
#[verifier::external_body]
pub struct ExFromHexError(hex::FromHexError);

/// A digit of a number below 16, in lower case.
pub open spec fn hex_digit(n: int) -> char {
    if n < 10 {
        (48 + n) as char
    } else {
        (87 + n) as char
    }
}

/// Two lower-case digits for each byte.
pub open spec fn hex_text(bytes: Seq<u8>) -> Seq<char> {
    Seq::new(
        2 * bytes.len(),
        |i: int| hex_digit(if i % 2 == 0 { bytes[i / 2] / 16 } else { bytes[i / 2] % 16 } as int),
    )
}

/// The number that a hexadecimal digit of either case stands for.
pub open spec fn hex_value(c: char) -> Option<u8> {
    if '0' <= c <= '9' {
        Some((c as u8 - 48) as u8)
    } else if 'a' <= c <= 'f' {
        Some((c as u8 - 87) as u8)
    } else if 'A' <= c <= 'F' {
        Some((c as u8 - 55) as u8)
    } else {
        None
    }
}

/// The bytes that a text of hexadecimal digits stands for.
pub open spec fn hex_bytes(s: Seq<char>) -> Option<Seq<u8>> {
    if s.len() % 2 == 0 && forall|i: int| 0 <= i < s.len() ==> hex_value(#[trigger] s[i]) is Some {
        Some(
            Seq::new(
                s.len() / 2,
                |i: int| (16 * hex_value(s[2 * i])->0 + hex_value(s[2 * i + 1])->0) as u8,
            ),
        )
    } else {
        None
    }
}

/// `hex::encode`: two lower-case digits for each byte.
#[verifier::external_body]
pub(crate) fn hex_encode(bytes: &[u8]) -> (r: String)
    requires
        2 * bytes@.len() <= isize::MAX,
    ensures
        r@ == hex_text(bytes@),
{
    hex::encode(bytes)
}

/// `hex::decode`: the bytes of an even number of digits of either case, and an
/// error on any other text.
#[verifier::external_body]
pub(crate) fn hex_decode(s: &str) -> (r: Result<Vec<u8>, hex::FromHexError>)
    ensures
        r matches Ok(b) ==> hex_bytes(s@) == Some(b@),
        r is Err ==> hex_bytes(s@) is None,
{
    hex::decode(s)
}

/// Decoding what was encoded gives the bytes back.
pub proof fn law_hex_gives_back_the_bytes(bytes: Seq<u8>)
    ensures
        hex_bytes(hex_text(bytes)) == Some(bytes),
{
    let s = hex_text(bytes);
    assert forall|i: int| 0 <= i < s.len() implies hex_value(#[trigger] s[i]) == Some(
        (if i % 2 == 0 {
            bytes[i / 2] / 16
        } else {
            bytes[i / 2] % 16
        }) as u8,
    ) by {
        lemma_hex_digit(
            if i % 2 == 0 {
                bytes[i / 2] / 16
            } else {
                bytes[i / 2] % 16
            },
        );
    }
    assert forall|i: int| 0 <= i < s.len() implies hex_value(#[trigger] s[i]) is Some by {}
    let back = hex_bytes(s)->0;
    assert forall|i: int| 0 <= i < bytes.len() implies back[i] == bytes[i] by {
        assert(hex_value(s[2 * i]) is Some && hex_value(s[2 * i + 1]) is Some);
        assert((2 * i) / 2 == i && (2 * i + 1) / 2 == i);
    }
    assert(back =~= bytes);
}

/// A digit has the value it was made for, and is no white space.
pub proof fn lemma_hex_digit(n: u8)
    requires
        n < 16,
    ensures
        hex_value(hex_digit(n as int)) == Some(n),
        '0' <= hex_digit(n as int) <= '9' || 'a' <= hex_digit(n as int) <= 'f',
{
}

} // verus!
