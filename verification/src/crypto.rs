//! Key derivation, encryption, and the recovery file.

use crate::primitives;
use crate::primitives::KdfError;
use crate::text;
use vstd::prelude::*;
use vstd::utf8::*;

verus! {

/// Nonce size for AES-256-GCM (96 bits).
pub const NONCE_SIZE: usize = 12;

/// Tag size for AES-256-GCM (128 bits).
pub const TAG_SIZE: usize = 16;

/// Salt size for the recovery file.
pub const SALT_SIZE: usize = 16;

/// What can go wrong with keys, ciphertexts and recovery files.
#[derive(Clone, Copy, Debug, PartialEq, Eq, Structural)]
pub enum CryptoError {
    /// No key could be derived from the response of the token.
    KeyDerivation(KdfError),
    /// No key could be derived from the passphrase.
    PassphraseKeyDerivation(KdfError),
    /// The plaintext is too large to be encrypted.
    EncryptionFailed,
    /// The ciphertext cannot even hold a nonce and a tag.
    CiphertextTooShort,
    /// The key is wrong or the ciphertext is not what was written.
    DecryptionFailed,
    /// The recovery file cannot even hold a salt, a nonce and a tag.
    RecoveryTooShort,
    /// The challenge does not fit the two bytes of its length.
    ChallengeTooLarge,
    /// The recovery bundle ends before its challenge does.
    BundleTruncated,
}

/// What is said of a refusal by Argon2.
pub open spec fn kdf_text(e: KdfError) -> Seq<char> {
    match e {
        KdfError::PasswordTooLong => "password is too long"@,
        KdfError::SaltTooShort => "salt is too short"@,
        KdfError::SaltTooLong => "salt is too long"@,
        KdfError::Parameters => "invalid parameters"@,
    }
}

/// What is said of an error.
pub open spec fn crypto_text(e: CryptoError) -> Seq<char> {
    match e {
        CryptoError::KeyDerivation(k) => "key derivation failed: "@ + kdf_text(k),
        CryptoError::PassphraseKeyDerivation(k) => "passphrase key derivation failed: "@
            + kdf_text(k),
        CryptoError::EncryptionFailed => "encryption failed: aead::Error"@,
        CryptoError::CiphertextTooShort => "ciphertext too short"@,
        CryptoError::DecryptionFailed =>
            "decryption failed (wrong key or corrupted data): aead::Error"@,
        CryptoError::RecoveryTooShort => "recovery file too short or corrupted"@,
        CryptoError::ChallengeTooLarge => "challenge too large"@,
        CryptoError::BundleTruncated => "recovery bundle truncated"@,
    }
}

fn kdf_message(e: KdfError) -> (r: &'static str)
    ensures
        r@ == kdf_text(e),
{
    match e {
        KdfError::PasswordTooLong => "password is too long",
        KdfError::SaltTooShort => "salt is too short",
        KdfError::SaltTooLong => "salt is too long",
        KdfError::Parameters => "invalid parameters",
    }
}

impl CryptoError {
    /// What is said of the error.
    pub fn message(&self) -> (r: String)
        ensures
            r@ == crypto_text(*self),
    {
        match self {
            CryptoError::KeyDerivation(k) => {
                let mut msg = "key derivation failed: ".to_owned();
                msg.append(kdf_message(*k));
                msg
            },
            CryptoError::PassphraseKeyDerivation(k) => {
                let mut msg = "passphrase key derivation failed: ".to_owned();
                msg.append(kdf_message(*k));
                msg
            },
            CryptoError::EncryptionFailed => "encryption failed: aead::Error".to_owned(),
            CryptoError::CiphertextTooShort => "ciphertext too short".to_owned(),
            CryptoError::DecryptionFailed =>
                "decryption failed (wrong key or corrupted data): aead::Error".to_owned(),
            CryptoError::RecoveryTooShort => "recovery file too short or corrupted".to_owned(),
            CryptoError::ChallengeTooLarge => "challenge too large".to_owned(),
            CryptoError::BundleTruncated => "recovery bundle truncated".to_owned(),
        }
    }
}

/// A 256-bit AES key.
pub struct Key {
    bytes: [u8; 32],
}

impl View for Key {
    type V = Seq<u8>;

    closed spec fn view(&self) -> Seq<u8> {
        self.bytes@
    }
}

impl Key {
    /// The key made of the given bytes.
    pub fn from_bytes(bytes: [u8; 32]) -> (r: Key)
        ensures
            r@ == bytes@,
    {
        Key { bytes }
    }
}

/// The views of an outcome whose success is a vector of bytes.
pub open spec fn bytes_result<E>(r: Result<Vec<u8>, E>) -> Result<Seq<u8>, E> {
    match r {
        Ok(v) => Ok(v@),
        Err(e) => Err(e),
    }
}

/// The views of an outcome whose success is a key.
pub open spec fn key_result<E>(r: Result<Key, E>) -> Result<Seq<u8>, E> {
    match r {
        Ok(k) => Ok(k@),
        Err(e) => Err(e),
    }
}

// ---------------------------------------------------------------------------
// Key derivation
// ---------------------------------------------------------------------------

/// The costs of an Argon2id derivation.
#[derive(Clone, Copy, Debug, PartialEq, Eq, Structural)]
pub struct KdfProfile {
    /// Memory in KiB.
    pub m_cost: u32,
    /// Iterations.
    pub t_cost: u32,
    /// Lanes.
    pub p_cost: u32,
}

/// Version 1.3 of Argon2.
pub const ARGON2_VERSION: u32 = 0x13;

/// The profile for the response of the token: 19 MiB, 2 iterations, 1 lane.
pub fn argon2_kdf() -> (r: KdfProfile)
    ensures
        r.m_cost == 19 * 1024,
        r.t_cost == 2,
        r.p_cost == 1,
{
    KdfProfile { m_cost: 19 * 1024, t_cost: 2, p_cost: 1 }
}

/// The stronger profile for human passphrases: 64 MiB, 4 iterations, 1 lane.
pub fn passphrase_argon2_kdf() -> (r: KdfProfile)
    ensures
        r.m_cost == 64 * 1024,
        r.t_cost == 4,
        r.p_cost == 1,
{
    KdfProfile { m_cost: 64 * 1024, t_cost: 4, p_cost: 1 }
}

/// The key that Argon2id derives under given costs.
pub open spec fn stretched(
    m_cost: u32,
    t_cost: u32,
    p_cost: u32,
    password: Seq<u8>,
    salt: Seq<u8>,
) -> Result<Seq<u8>, KdfError> {
    match primitives::argon2_refusal(password.len(), salt.len()) {
        Some(e) => Err(e),
        None => Ok(
            primitives::argon2_output(
                "argon2id"@,
                ARGON2_VERSION,
                m_cost,
                t_cost,
                p_cost,
                password,
                salt,
            ),
        ),
    }
}

/// The salt that separates token keys from any other use of Argon2id.
pub open spec fn token_salt() -> Seq<u8> {
    encode_utf8("cred-yubikey-v1\0"@)
}

/// The key for the response of the token.
pub open spec fn token_key(response: Seq<u8>) -> Result<Seq<u8>, CryptoError> {
    match stretched((19 * 1024) as u32, 2, 1, response, token_salt()) {
        Ok(k) => Ok(k),
        Err(e) => Err(CryptoError::KeyDerivation(e)),
    }
}

/// The key for a passphrase and a salt.
pub open spec fn passphrase_key(passphrase: Seq<char>, salt: Seq<u8>) -> Result<
    Seq<u8>,
    CryptoError,
> {
    match stretched((64 * 1024) as u32, 4, 1, encode_utf8(passphrase), salt) {
        Ok(k) => Ok(k),
        Err(e) => Err(CryptoError::PassphraseKeyDerivation(e)),
    }
}

/// The salt of the token key has 16 bytes.
pub proof fn lemma_token_salt()
    ensures
        token_salt().len() == 16,
{
    reveal_strlit("cred-yubikey-v1\0");
    is_ascii_chars_encode_utf8("cred-yubikey-v1\0"@);
}

fn stretch(profile: KdfProfile, password: &[u8], salt: &[u8]) -> (r: Result<Key, KdfError>)
    requires
        1 <= profile.p_cost <= 0xff_ffff,
        8 * profile.p_cost <= profile.m_cost,
        1024 * profile.m_cost <= isize::MAX,
        1 <= profile.t_cost,
    ensures
        key_result(r) == stretched(
            profile.m_cost,
            profile.t_cost,
            profile.p_cost,
            password@,
            salt@,
        ),
{
    match primitives::argon2_hash(
        "argon2id",
        ARGON2_VERSION,
        profile.m_cost,
        profile.t_cost,
        profile.p_cost,
        password,
        salt,
    ) {
        Ok(out) => {
            let mut key_bytes = out;
            let key = Key { bytes: key_bytes };
            primitives::zeroize_bytes(&mut key_bytes);
            Ok(key)
        },
        Err(e) => Err(e),
    }
}

/// Derives the AES key from the HMAC-SHA1 response of the token. It fails only
/// on a response of more than `u32::MAX` bytes.
pub fn derive_key_from_yubikey_response(hmac_response: &[u8]) -> (r: Result<Key, CryptoError>)
    ensures
        key_result(r) == token_key(hmac_response@),
        r is Ok <==> hmac_response@.len() <= u32::MAX,
{
    proof {
        lemma_token_salt();
    }
    match stretch(argon2_kdf(), hmac_response, "cred-yubikey-v1\0".as_bytes()) {
        Ok(key) => Ok(key),
        Err(e) => Err(CryptoError::KeyDerivation(e)),
    }
}

/// Derives the AES key from a recovery passphrase and the salt that is stored
/// beside the ciphertext.
pub fn derive_key_from_passphrase(passphrase: &str, salt: &[u8]) -> (r: Result<Key, CryptoError>)
    ensures
        key_result(r) == passphrase_key(passphrase@, salt@),
{
    match stretch(passphrase_argon2_kdf(), passphrase.as_bytes(), salt) {
        Ok(key) => Ok(key),
        Err(e) => Err(CryptoError::PassphraseKeyDerivation(e)),
    }
}

// ---------------------------------------------------------------------------
// Encryption
// ---------------------------------------------------------------------------

/// The sizes of a plaintext that can be encrypted.
pub open spec fn encryptable(size: nat) -> bool {
    size <= primitives::MAX_PLAINTEXT && size + NONCE_SIZE + TAG_SIZE <= isize::MAX
}

/// An encrypted plaintext: the nonce, then ciphertext and tag.
pub open spec fn encrypted(key: Seq<u8>, nonce: Seq<u8>, plaintext: Seq<u8>) -> Seq<u8> {
    nonce + primitives::aes256gcm_seal(key, nonce, plaintext)
}

/// What decryption gives for an encrypted plaintext.
pub open spec fn decrypted(key: Seq<u8>, data: Seq<u8>) -> Result<Seq<u8>, CryptoError> {
    if data.len() < NONCE_SIZE + TAG_SIZE {
        Err(CryptoError::CiphertextTooShort)
    } else {
        match primitives::aes256gcm_open(
            key,
            data.take(NONCE_SIZE as int),
            data.skip(NONCE_SIZE as int),
        ) {
            Some(p) => Ok(p),
            None => Err(CryptoError::DecryptionFailed),
        }
    }
}

/// Puts a head before a body.
pub fn prepend(head: &[u8], body: &[u8]) -> (r: Vec<u8>)
    ensures
        r@ == head@ + body@,
{
    let mut out: Vec<u8> = Vec::new();
    out.extend_from_slice(head);
    out.extend_from_slice(body);
    assert(out@ =~= head@ + body@);
    out
}

/// Encrypts under a nonce that the caller has never used with this key. What
/// comes out decrypts to the plaintext.
pub fn encrypt_with_nonce(key: &Key, nonce: &[u8; 12], plaintext: &[u8]) -> (r: Result<
    Vec<u8>,
    CryptoError,
>)
    ensures
        r is Ok <==> encryptable(plaintext@.len()),
        r matches Ok(out) ==> out@ == encrypted(key@, nonce@, plaintext@),
        r matches Ok(out) ==> out@.len() == NONCE_SIZE + plaintext@.len() + TAG_SIZE,
        r matches Ok(out) ==> decrypted(key@, out@) == Ok::<_, CryptoError>(plaintext@),
        r matches Err(e) ==> e == CryptoError::EncryptionFailed,
{
    let limit: usize = (isize::MAX as usize) - NONCE_SIZE - TAG_SIZE;
    if plaintext.len() as u64 > primitives::MAX_PLAINTEXT || plaintext.len() > limit {
        return Err(CryptoError::EncryptionFailed);
    }
    match primitives::aead_encrypt(&key.bytes, nonce, plaintext) {
        Ok(ciphertext) => {
            let out = prepend(nonce.as_slice(), ciphertext.as_slice());
            assert(out@.take(NONCE_SIZE as int) == nonce@);
            assert(out@.skip(NONCE_SIZE as int) == ciphertext@);
            Ok(out)
        },
        Err(_) => Err(CryptoError::EncryptionFailed),
    }
}

/// Encrypts with AES-256-GCM under a fresh random nonce. The result is the
/// nonce, then ciphertext and tag, and decrypts to the plaintext.
pub fn encrypt(key: &Key, plaintext: &[u8]) -> (r: Result<Vec<u8>, CryptoError>)
    ensures
        r is Ok <==> encryptable(plaintext@.len()),
        r matches Ok(out) ==> out@ == encrypted(
            key@,
            out@.take(NONCE_SIZE as int),
            plaintext@,
        ),
        r matches Ok(out) ==> out@.len() == NONCE_SIZE + plaintext@.len() + TAG_SIZE,
        r matches Ok(out) ==> decrypted(key@, out@) == Ok::<_, CryptoError>(plaintext@),
        r matches Err(e) ==> e == CryptoError::EncryptionFailed,
{
    let nonce: [u8; 12] = primitives::os_random::<12>();
    match encrypt_with_nonce(key, &nonce, plaintext) {
        Ok(out) => {
            assert(out@.take(NONCE_SIZE as int) =~= nonce@);
            Ok(out)
        },
        Err(e) => Err(e),
    }
}

/// The first 12 bytes.
fn nonce_of(data: &[u8]) -> (r: [u8; 12])
    requires
        data@.len() >= NONCE_SIZE,
    ensures
        r@ == data@.take(NONCE_SIZE as int),
{
    let mut nonce: [u8; 12] = [0u8; 12];
    let mut i: usize = 0;
    while i < 12
        invariant
            i <= 12,
            data@.len() >= NONCE_SIZE,
            nonce@.len() == 12,
            forall|j: int| 0 <= j < i ==> nonce@[j] == data@[j],
        decreases 12 - i,
    {
        nonce[i] = data[i];
        i += 1;
    }
    assert(nonce@ =~= data@.take(NONCE_SIZE as int));
    nonce
}

/// Decrypts what [`encrypt`] made. Input format: nonce, then ciphertext and
/// tag.
pub fn decrypt(key: &Key, data: &[u8]) -> (r: Result<Vec<u8>, CryptoError>)
    ensures
        bytes_result(r) == decrypted(key@, data@),
        r matches Ok(p) ==> p@.len() + NONCE_SIZE + TAG_SIZE == data@.len(),
{
    if data.len() < NONCE_SIZE + TAG_SIZE {
        return Err(CryptoError::CiphertextTooShort);
    }
    let nonce = nonce_of(data);
    let (_, ciphertext) = data.split_at(NONCE_SIZE);
    assert(ciphertext@ == data@.skip(NONCE_SIZE as int));
    match primitives::aead_decrypt(&key.bytes, &nonce, ciphertext) {
        Ok(p) => Ok(p),
        Err(_) => Err(CryptoError::DecryptionFailed),
    }
}

// ---------------------------------------------------------------------------
// The recovery file
// ---------------------------------------------------------------------------

/// What the recovery file holds, decrypted with a passphrase.
pub open spec fn recovered(passphrase: Seq<char>, data: Seq<u8>) -> Result<Seq<u8>, CryptoError> {
    if data.len() < SALT_SIZE + NONCE_SIZE + TAG_SIZE {
        Err(CryptoError::RecoveryTooShort)
    } else {
        match passphrase_key(passphrase, data.take(SALT_SIZE as int)) {
            Ok(key) => decrypted(key, data.skip(SALT_SIZE as int)),
            Err(e) => Err(e),
        }
    }
}

/// Why a recovery file cannot be made, if it cannot.
pub open spec fn recovery_refusal(passphrase: Seq<char>, size: nat) -> Option<CryptoError> {
    if encode_utf8(passphrase).len() > u32::MAX {
        Some(CryptoError::PassphraseKeyDerivation(KdfError::PasswordTooLong))
    } else if !encryptable(size) {
        Some(CryptoError::EncryptionFailed)
    } else {
        None
    }
}

/// What a recovery file that holds `content` is: the salt, the nonce, then
/// ciphertext and tag under the key for passphrase and salt.
pub open spec fn recovery_file(passphrase: Seq<char>, content: Seq<u8>, file: Seq<u8>) -> bool {
    let salt = file.take(SALT_SIZE as int);
    let rest = file.skip(SALT_SIZE as int);
    &&& file.len() == SALT_SIZE + NONCE_SIZE + content.len() + TAG_SIZE
    &&& passphrase_key(passphrase, salt) is Ok
    &&& rest == encrypted(
        passphrase_key(passphrase, salt)->Ok_0,
        rest.take(NONCE_SIZE as int),
        content,
    )
}

/// Encrypts the HMAC secret for the recovery file, with the given salt.
pub fn encrypt_recovery_with_salt(passphrase: &str, salt: &[u8; 16], hmac_secret: &[u8]) -> (r:
    Result<Vec<u8>, CryptoError>)
    ensures
        r is Ok <==> recovery_refusal(passphrase@, hmac_secret@.len()) is None,
        r matches Ok(out) ==> out@.take(SALT_SIZE as int) == salt@,
        r matches Ok(out) ==> recovery_file(passphrase@, hmac_secret@, out@),
        r matches Ok(out) ==> recovered(passphrase@, out@) == Ok::<_, CryptoError>(hmac_secret@),
        r matches Err(e) ==> recovery_refusal(passphrase@, hmac_secret@.len()) == Some(e),
{
    match derive_key_from_passphrase(passphrase, salt.as_slice()) {
        Ok(key) => match encrypt(&key, hmac_secret) {
            Ok(rest) => {
                let out = prepend(salt.as_slice(), rest.as_slice());
                assert(out@.take(SALT_SIZE as int) == salt@);
                assert(out@.skip(SALT_SIZE as int) == rest@);
                Ok(out)
            },
            Err(e) => Err(e),
        },
        Err(e) => Err(e),
    }
}

/// Encrypts the HMAC secret for the recovery file, under a fresh random salt.
pub fn encrypt_recovery(passphrase: &str, hmac_secret: &[u8]) -> (r: Result<Vec<u8>, CryptoError>)
    ensures
        r is Ok <==> recovery_refusal(passphrase@, hmac_secret@.len()) is None,
        r matches Ok(out) ==> recovery_file(passphrase@, hmac_secret@, out@),
        r matches Ok(out) ==> recovered(passphrase@, out@) == Ok::<_, CryptoError>(hmac_secret@),
        r matches Err(e) ==> recovery_refusal(passphrase@, hmac_secret@.len()) == Some(e),
{
    let salt: [u8; 16] = primitives::os_random::<16>();
    encrypt_recovery_with_salt(passphrase, &salt, hmac_secret)
}

/// Decrypts what a recovery file holds.
pub fn decrypt_recovery(passphrase: &str, data: &[u8]) -> (r: Result<Vec<u8>, CryptoError>)
    ensures
        bytes_result(r) == recovered(passphrase@, data@),
{
    if data.len() < SALT_SIZE + NONCE_SIZE + TAG_SIZE {
        return Err(CryptoError::RecoveryTooShort);
    }
    let (salt, rest) = data.split_at(SALT_SIZE);
    assert(salt@ == data@.take(SALT_SIZE as int));
    assert(rest@ == data@.skip(SALT_SIZE as int));
    match derive_key_from_passphrase(passphrase, salt) {
        Ok(key) => decrypt(&key, rest),
        Err(e) => Err(e),
    }
}

/// The first bytes of a bundle.
pub open spec fn magic() -> Seq<u8> {
    encode_utf8("CRv2"@)
}

/// The bundle of a challenge and an HMAC secret: the magic, the length of the
/// challenge in two bytes, low byte first, the challenge, the secret.
pub open spec fn bundle(challenge: Seq<u8>, hmac_secret: Seq<u8>) -> Seq<u8> {
    magic() + seq![(challenge.len() % 256) as u8, (challenge.len() / 256) as u8] + challenge
        + hmac_secret
}

/// Whether decrypted bytes are read as a bundle.
pub open spec fn is_bundle(d: Seq<u8>) -> bool {
    d.len() >= 6 && d.take(4) == magic()
}

/// The HMAC secret and, if there is one, the challenge in decrypted bytes.
pub open spec fn unbundled(d: Seq<u8>) -> Result<(Seq<u8>, Option<Seq<u8>>), CryptoError> {
    if is_bundle(d) {
        let n = d[4] + 256 * d[5];
        if d.len() < 6 + n {
            Err(CryptoError::BundleTruncated)
        } else {
            Ok((d.skip(6 + n), Some(d.subrange(6, 6 + n))))
        }
    } else {
        Ok((d, None))
    }
}

/// The views of a recovered secret and challenge.
pub open spec fn recovery_view(p: (Vec<u8>, Option<Vec<u8>>)) -> (Seq<u8>, Option<Seq<u8>>) {
    (
        p.0@,
        match p.1 {
            Some(c) => Some(c@),
            None => None,
        },
    )
}

/// The views of the outcome of a recovery.
pub open spec fn recovery_result(r: Result<(Vec<u8>, Option<Vec<u8>>), CryptoError>) -> Result<
    (Seq<u8>, Option<Seq<u8>>),
    CryptoError,
> {
    match r {
        Ok(p) => Ok(recovery_view(p)),
        Err(e) => Err(e),
    }
}

/// The magic has four bytes.
pub proof fn lemma_magic()
    ensures
        magic() == seq![0x43u8, 0x52u8, 0x76u8, 0x32u8],
{
    reveal_strlit("CRv2");
    is_ascii_chars_encode_utf8("CRv2"@);
    assert(magic() =~= seq![0x43u8, 0x52u8, 0x76u8, 0x32u8]);
}

/// Makes the bundle of a challenge and an HMAC secret.
pub fn make_bundle(challenge: &[u8], hmac_secret: &[u8]) -> (r: Result<Vec<u8>, CryptoError>)
    ensures
        r is Ok <==> challenge@.len() <= u16::MAX,
        r matches Ok(b) ==> b@ == bundle(challenge@, hmac_secret@),
        r matches Err(e) ==> e == CryptoError::ChallengeTooLarge,
{
    if challenge.len() > u16::MAX as usize {
        return Err(CryptoError::ChallengeTooLarge);
    }
    let mut out: Vec<u8> = Vec::new();
    out.extend_from_slice("CRv2".as_bytes());
    out.push((challenge.len() % 256) as u8);
    out.push((challenge.len() / 256) as u8);
    out.extend_from_slice(challenge);
    out.extend_from_slice(hmac_secret);
    proof {
        lemma_magic();
        assert(out@ =~= bundle(challenge@, hmac_secret@));
    }
    Ok(out)
}

/// Reads decrypted bytes: a bundle, or else an HMAC secret alone.
pub fn read_bundle(bytes: Vec<u8>) -> (r: Result<(Vec<u8>, Option<Vec<u8>>), CryptoError>)
    ensures
        recovery_result(r) == unbundled(bytes@),
{
    proof {
        lemma_magic();
    }
    if bytes.len() >= 6 && bytes[0] == 0x43 && bytes[1] == 0x52 && bytes[2] == 0x76 && bytes[3]
        == 0x32 {
        assert(bytes@.take(4) =~= magic());
        let n: usize = bytes[4] as usize + 256 * bytes[5] as usize;
        if bytes.len() < 6 + n {
            return Err(CryptoError::BundleTruncated);
        }
        let (head, secret) = bytes.as_slice().split_at(6 + n);
        let (_, challenge) = head.split_at(6);
        let c = vstd::slice::slice_to_vec(challenge);
        let s = vstd::slice::slice_to_vec(secret);
        assert(c@ =~= bytes@.subrange(6, 6 + n));
        assert(s@ =~= bytes@.skip(6 + n));
        Ok((s, Some(c)))
    } else {
        proof {
            if is_bundle(bytes@) {
                assert(bytes@.take(4)[0] == bytes@[0] && bytes@.take(4)[1] == bytes@[1]
                    && bytes@.take(4)[2] == bytes@[2] && bytes@.take(4)[3] == bytes@[3]);
            }
        }
        Ok((bytes, None))
    }
}

/// Why a recovery file with a challenge cannot be made, if it cannot.
pub open spec fn bundle_refusal(passphrase: Seq<char>, challenge: nat, hmac_secret: nat) -> Option<
    CryptoError,
> {
    if challenge > u16::MAX {
        Some(CryptoError::ChallengeTooLarge)
    } else {
        recovery_refusal(passphrase, 6 + challenge + hmac_secret)
    }
}

/// The content of a recovery file of either version.
pub open spec fn recovered_v2(passphrase: Seq<char>, data: Seq<u8>) -> Result<
    (Seq<u8>, Option<Seq<u8>>),
    CryptoError,
> {
    match recovered(passphrase, data) {
        Ok(d) => unbundled(d),
        Err(e) => Err(e),
    }
}

/// Bundles the HMAC secret with the challenge and encrypts the bundle for the
/// recovery file, which gives both back.
pub fn encrypt_recovery_v2(passphrase: &str, hmac_secret: &[u8], challenge: &[u8]) -> (r: Result<
    Vec<u8>,
    CryptoError,
>)
    ensures
        r is Ok <==> bundle_refusal(passphrase@, challenge@.len(), hmac_secret@.len()) is None,
        r matches Ok(out) ==> recovery_file(passphrase@, bundle(challenge@, hmac_secret@), out@),
        r matches Ok(out) ==> recovered(passphrase@, out@) == Ok::<_, CryptoError>(
            bundle(challenge@, hmac_secret@),
        ),
        r matches Ok(out) ==> recovered_v2(passphrase@, out@) == Ok::<_, CryptoError>(
            (hmac_secret@, Some(challenge@)),
        ),
        r matches Err(e) ==> bundle_refusal(passphrase@, challenge@.len(), hmac_secret@.len())
            == Some(e),
{
    proof {
        lemma_magic();
        if challenge@.len() <= u16::MAX {
            law_bundle_gives_back_both(challenge@, hmac_secret@);
        }
    }
    match make_bundle(challenge, hmac_secret) {
        Ok(b) => encrypt_recovery(passphrase, b.as_slice()),
        Err(e) => Err(e),
    }
}

/// Decrypts a recovery file of either version: the HMAC secret and, if the
/// file has one, the challenge.
pub fn decrypt_recovery_v2(passphrase: &str, data: &[u8]) -> (r: Result<
    (Vec<u8>, Option<Vec<u8>>),
    CryptoError,
>)
    ensures
        recovery_result(r) == recovered_v2(passphrase@, data@),
{
    match decrypt_recovery(passphrase, data) {
        Ok(d) => read_bundle(d),
        Err(e) => Err(e),
    }
}

/// A random 20-byte HMAC-SHA1 secret for programming the token. Its value is
/// up to the operating system.
pub fn generate_hmac_secret() -> (r: [u8; 20])
    ensures
        r@.len() == 20,
{
    primitives::os_random::<20>()
}

// ---------------------------------------------------------------------------
// Laws
// ---------------------------------------------------------------------------

/// Reading a bundle gives back the challenge and the secret it was made of.
pub proof fn law_bundle_gives_back_both(challenge: Seq<u8>, hmac_secret: Seq<u8>)
    requires
        challenge.len() <= u16::MAX,
    ensures
        unbundled(bundle(challenge, hmac_secret)) == Ok::<_, CryptoError>(
            (hmac_secret, Some(challenge)),
        ),
{
    lemma_magic();
    let b = bundle(challenge, hmac_secret);
    let n: int = challenge.len() as int;
    assert(b.take(4) =~= magic());
    assert(b[4] == (n % 256) as u8);
    assert(b[5] == (n / 256) as u8);
    assert(b[4] + 256 * b[5] == n);
    assert(b.subrange(6, 6 + n) =~= challenge);
    assert(b.skip(6 + n) =~= hmac_secret);
}

/// A secret that does not look like a bundle is read as it is, with no
/// challenge: files written without a challenge stay readable.
pub proof fn law_bare_secret_is_read_as_it_is(hmac_secret: Seq<u8>)
    requires
        !is_bundle(hmac_secret),
    ensures
        unbundled(hmac_secret) == Ok::<_, CryptoError>((hmac_secret, None::<Seq<u8>>)),
{
}

/// A recovery file that gives back a secret without a challenge gives it back
/// to the reader of either version.
pub proof fn law_v2_reads_v1(passphrase: Seq<char>, file: Seq<u8>, hmac_secret: Seq<u8>)
    requires
        recovered(passphrase, file) == Ok::<_, CryptoError>(hmac_secret),
        !is_bundle(hmac_secret),
    ensures
        recovered_v2(passphrase, file) == Ok::<_, CryptoError>((hmac_secret, None::<Seq<u8>>)),
{
    law_bare_secret_is_read_as_it_is(hmac_secret);
}

/// A secret of fewer than 6 bytes, or one that does not start with the magic,
/// is never taken for a bundle; a 20-byte secret is only when it starts with
/// the magic.
pub proof fn law_bundles_start_with_the_magic(d: Seq<u8>)
    ensures
        is_bundle(d) ==> d.len() >= 6 && d[0] == 0x43 && d[1] == 0x52 && d[2] == 0x76 && d[3]
            == 0x32,
{
    lemma_magic();
    if is_bundle(d) {
        assert(d.take(4)[0] == d[0] && d.take(4)[1] == d[1] && d.take(4)[2] == d[2] && d.take(
            4,
        )[3] == d[3]);
    }
}

/// The key for the response of a token is the output of Argon2id, version 1.3,
/// at 19 MiB, two iterations and one lane, over the response and the 16 bytes
/// `cred-yubikey-v1` and a zero.
pub proof fn law_how_token_keys_are_derived(response: Seq<u8>)
    requires
        response.len() <= u32::MAX,
    ensures
        token_key(response) == Ok::<_, CryptoError>(
            primitives::argon2_output(
                "argon2id"@,
                0x13u32,
                19_456u32,
                2u32,
                1u32,
                response,
                encode_utf8("cred-yubikey-v1\0"@),
            ),
        ),
        encode_utf8("cred-yubikey-v1\0"@).len() == 16,
{
    lemma_token_salt();
}

/// The key for a passphrase is the output of Argon2id, version 1.3, at 64 MiB,
/// four iterations and one lane, over the bytes of the passphrase and the salt;
/// a salt of fewer than 8 bytes is refused.
pub proof fn law_how_passphrase_keys_are_derived(passphrase: Seq<char>, salt: Seq<u8>)
    requires
        encode_utf8(passphrase).len() <= u32::MAX,
        salt.len() <= u32::MAX,
    ensures
        salt.len() >= 8 ==> passphrase_key(passphrase, salt) == Ok::<_, CryptoError>(
            primitives::argon2_output(
                "argon2id"@,
                0x13u32,
                65_536u32,
                4u32,
                1u32,
                encode_utf8(passphrase),
                salt,
            ),
        ),
        salt.len() < 8 ==> passphrase_key(passphrase, salt) == Err::<Seq<u8>, _>(
            CryptoError::PassphraseKeyDerivation(KdfError::SaltTooShort),
        ),
{
}

/// What is decrypted is the part behind the first 12 bytes, under those as the
/// nonce; with fewer than 28 bytes in all there is nothing to decrypt.
pub proof fn law_the_nonce_comes_first(key: Seq<u8>, nonce: Seq<u8>, rest: Seq<u8>)
    requires
        nonce.len() == 12,
    ensures
        rest.len() < 16 ==> decrypted(key, nonce + rest) == Err::<Seq<u8>, _>(
            CryptoError::CiphertextTooShort,
        ),
        rest.len() >= 16 ==> match primitives::aes256gcm_open(key, nonce, rest) {
            Some(p) => decrypted(key, nonce + rest) == Ok::<_, CryptoError>(p),
            None => decrypted(key, nonce + rest) == Err::<Seq<u8>, _>(
                CryptoError::DecryptionFailed,
            ),
        },
        forall|p: Seq<u8>| #[trigger]
            encrypted(key, nonce, p) == nonce + primitives::aes256gcm_seal(key, nonce, p),
{
    let data = nonce + rest;
    assert(data.take(12) =~= nonce);
    assert(data.skip(12) =~= rest);
}

/// A plaintext can be encrypted if it has no more than 64 GiB, and if
/// memory can hold the result.
pub proof fn law_what_can_be_encrypted(size: nat)
    ensures
        encryptable(size) <==> size <= 68_719_476_736 && size + 28 <= isize::MAX,
{
}

/// A recovery file has its salt in the first 16 bytes, and the rest is
/// decrypted under the key for the passphrase and that salt; a file of fewer
/// than 44 bytes is refused.
pub proof fn law_the_salt_comes_first(passphrase: Seq<char>, salt: Seq<u8>, rest: Seq<u8>)
    requires
        salt.len() == 16,
    ensures
        rest.len() < 28 ==> recovered(passphrase, salt + rest) == Err::<Seq<u8>, _>(
            CryptoError::RecoveryTooShort,
        ),
        rest.len() >= 28 ==> match passphrase_key(passphrase, salt) {
            Ok(key) => recovered(passphrase, salt + rest) == decrypted(key, rest),
            Err(e) => recovered(passphrase, salt + rest) == Err::<Seq<u8>, _>(e),
        },
{
    let data = salt + rest;
    assert(data.take(16) =~= salt);
    assert(data.skip(16) =~= rest);
}

/// A recovery file is its salt, then what the content is encrypted to under
/// the key for the passphrase and that salt; no other file is.
pub proof fn law_what_recovery_files_hold(
    passphrase: Seq<char>,
    salt: Seq<u8>,
    nonce: Seq<u8>,
    sealed: Seq<u8>,
    content: Seq<u8>,
)
    requires
        salt.len() == 16,
        nonce.len() == 12,
        sealed.len() == content.len() + 16,
    ensures
        recovery_file(passphrase, content, salt + nonce + sealed) <==> (passphrase_key(
            passphrase,
            salt,
        ) matches Ok(key) && sealed == primitives::aes256gcm_seal(key, nonce, content)),
{
    let file = salt + nonce + sealed;
    assert(file.take(16) =~= salt);
    let rest = file.skip(16);
    assert(rest =~= nonce + sealed);
    assert(rest.take(12) =~= nonce);
    assert(rest.skip(12) =~= sealed);
    match passphrase_key(passphrase, salt) {
        Ok(key) => {
            let want = primitives::aes256gcm_seal(key, nonce, content);
            if nonce + sealed == nonce + want {
                assert((nonce + want).skip(12) =~= want);
            }
        },
        Err(_) => {},
    }
}

/// A bundle that ends before its challenge is refused; any other gives back a
/// challenge of the length that it tells, and all that follows as the secret.
pub proof fn law_bundles_tell_the_length_of_the_challenge(low: u8, high: u8, rest: Seq<u8>)
    ensures
        ({
            let d = seq![0x43u8, 0x52u8, 0x76u8, 0x32u8, low, high] + rest;
            let n = low + 256 * high;
            &&& rest.len() < n ==> unbundled(d) == Err::<(Seq<u8>, Option<Seq<u8>>), _>(
                CryptoError::BundleTruncated,
            )
            &&& rest.len() >= n ==> unbundled(d) == Ok::<_, CryptoError>(
                (rest.skip(n), Some(rest.take(n))),
            )
        }),
{
    lemma_magic();
    let d = seq![0x43u8, 0x52u8, 0x76u8, 0x32u8, low, high] + rest;
    let n = low + 256 * high;
    assert(d.take(4) =~= magic());
    if rest.len() >= n {
        assert(d.skip(6 + n) =~= rest.skip(n));
        assert(d.subrange(6, 6 + n) =~= rest.take(n));
    }
}

/// A recovery file can be made for every passphrase and secret that Argon2 and
/// AES-GCM take, and with every challenge of up to 65535 bytes.
pub proof fn law_which_recovery_files_can_be_made(
    passphrase: Seq<char>,
    challenge: nat,
    hmac_secret: nat,
)
    ensures
        recovery_refusal(passphrase, hmac_secret) is None <==> encode_utf8(passphrase).len()
            <= u32::MAX && encryptable(hmac_secret),
        bundle_refusal(passphrase, challenge, hmac_secret) == Some(CryptoError::ChallengeTooLarge)
            <==> challenge > 65_535,
        bundle_refusal(passphrase, challenge, hmac_secret) is None <==> challenge <= 65_535
            && encode_utf8(passphrase).len() <= u32::MAX && encryptable(
            6 + challenge + hmac_secret,
        ),
{
}

/// What is said of an error starts with what failed.
pub proof fn law_errors_say_what_failed(e: CryptoError)
    ensures
        text::begins(
            crypto_text(e),
            match e {
                CryptoError::KeyDerivation(_) => "key derivation failed: "@,
                CryptoError::PassphraseKeyDerivation(_) => "passphrase key derivation failed: "@,
                CryptoError::EncryptionFailed => "encryption failed"@,
                CryptoError::CiphertextTooShort => "ciphertext too short"@,
                CryptoError::DecryptionFailed => "decryption failed"@,
                CryptoError::RecoveryTooShort => "recovery file too short"@,
                CryptoError::ChallengeTooLarge => "challenge too large"@,
                CryptoError::BundleTruncated => "recovery bundle truncated"@,
            },
        ),
{
    let t = crypto_text(e);
    match e {
        CryptoError::KeyDerivation(k) => {
            text::law_how_a_text_begins("key derivation failed: "@, kdf_text(k), t);
        },
        CryptoError::PassphraseKeyDerivation(k) => {
            text::law_how_a_text_begins("passphrase key derivation failed: "@, kdf_text(k), t);
        },
        CryptoError::EncryptionFailed => {
            reveal_strlit("encryption failed: aead::Error");
            reveal_strlit("encryption failed");
            assert(t.take("encryption failed"@.len() as int) =~= "encryption failed"@);
        },
        CryptoError::DecryptionFailed => {
            reveal_strlit("decryption failed (wrong key or corrupted data): aead::Error");
            reveal_strlit("decryption failed");
            assert(t.take("decryption failed"@.len() as int) =~= "decryption failed"@);
        },
        CryptoError::RecoveryTooShort => {
            reveal_strlit("recovery file too short or corrupted");
            reveal_strlit("recovery file too short");
            assert(t.take("recovery file too short"@.len() as int) =~= "recovery file too short"@);
        },
        _ => {
            assert(t.take(t.len() as int) =~= t);
        },
    }
}

/// A key that cannot be derived is told with the reason.
pub proof fn law_derivations_say_why_they_failed(k: KdfError)
    ensures
        crypto_text(CryptoError::KeyDerivation(k)) == "key derivation failed: "@ + kdf_text(k),
        crypto_text(CryptoError::PassphraseKeyDerivation(k)) == "passphrase key derivation failed: "@
            + kdf_text(k),
        text::begins(kdf_text(k), "password"@) <==> k is PasswordTooLong,
        text::begins(kdf_text(k), "salt"@) <==> k is SaltTooShort || k is SaltTooLong,
        kdf_text(k).len() == 17 <==> k is SaltTooShort,
{
    reveal_strlit("password is too long");
    reveal_strlit("salt is too short");
    reveal_strlit("salt is too long");
    reveal_strlit("invalid parameters");
    reveal_strlit("password");
    reveal_strlit("salt");
    let t = kdf_text(k);
    assert("password"@[0] == 'p' && "salt"@[0] == 's');
    assert(t[0] == t.take(8)[0] && t[0] == t.take(4)[0]);
    match k {
        KdfError::PasswordTooLong => {
            assert(t.take("password"@.len() as int) =~= "password"@);
            assert(t[0] == 'p');
        },
        KdfError::SaltTooShort => {
            assert(t.take("salt"@.len() as int) =~= "salt"@);
            assert(t[0] == 's');
        },
        KdfError::SaltTooLong => {
            assert(t.take("salt"@.len() as int) =~= "salt"@);
            assert(t[0] == 's');
        },
        KdfError::Parameters => {
            assert(t[0] == 'i');
        },
    }
}

/// A recovery file of either version is read by decrypting it, and reading what
/// comes out; what cannot be decrypted is refused for the same reason.
pub proof fn law_both_versions_are_decrypted_alike(passphrase: Seq<char>, file: Seq<u8>)
    ensures
        recovered(passphrase, file) matches Ok(d) ==> recovered_v2(passphrase, file) == unbundled(
            d,
        ),
        recovered(passphrase, file) matches Err(e) ==> recovered_v2(passphrase, file) == Err::<
            (Seq<u8>, Option<Seq<u8>>),
            _,
        >(e),
{
}

} // verus!
