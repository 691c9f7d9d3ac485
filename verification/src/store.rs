//! The store of secrets: how a value becomes the text that a backend holds, and
//! how it comes back.

use crate::clock;
use crate::clock::Timestamp;
use crate::crypto;
use crate::crypto::{CryptoError, Key};
use crate::primitives;
use crate::text;
use crate::types::{RawSecret, Secret, SecretValue};
use vstd::prelude::*;
use vstd::utf8::*;

verus! {

/// A store, unlocked if it has its key.
pub struct CredStore {
    master_key: Option<Key>,
}

impl View for CredStore {
    type V = Option<Seq<u8>>;

    closed spec fn view(&self) -> Option<Seq<u8>> {
        match self.master_key {
            Some(k) => Some(k@),
            None => None,
        }
    }
}

/// What can go wrong between a value and its ciphertext.
#[derive(Clone, Copy, Debug, PartialEq, Eq, Structural)]
pub enum StoreError {
    /// There is no key.
    Locked,
    /// The value could not be encrypted.
    Encryption(CryptoError),
    /// The ciphertext is not hexadecimal.
    InvalidHex,
    /// The ciphertext could not be decrypted.
    Decryption(CryptoError),
    /// What was encrypted is not a value.
    NotAValue,
}

/// What is said of an error.
pub open spec fn store_error_text(e: StoreError) -> Seq<char> {
    match e {
        StoreError::Locked => "no encryption key -- is the YubiKey plugged in?"@,
        StoreError::Encryption(c) => crypto::crypto_text(c),
        StoreError::InvalidHex => "invalid hex ciphertext"@,
        StoreError::Decryption(_) => "decryption failed"@,
        StoreError::NotAValue => "failed to deserialize secret value"@,
    }
}

impl StoreError {
    /// What is said of the error.
    pub fn message(&self) -> (r: String)
        ensures
            r@ == store_error_text(*self),
    {
        match self {
            StoreError::Locked => "no encryption key -- is the YubiKey plugged in?".to_owned(),
            StoreError::Encryption(c) => c.message(),
            StoreError::InvalidHex => "invalid hex ciphertext".to_owned(),
            StoreError::Decryption(_) => "decryption failed".to_owned(),
            StoreError::NotAValue => "failed to deserialize secret value".to_owned(),
        }
    }
}

// ---------------------------------------------------------------------------
// Values and ciphertexts
// ---------------------------------------------------------------------------

/// The plaintext of a ciphertext in hexadecimal.
pub open spec fn opened(key: Seq<u8>, ciphertext: Seq<char>) -> Result<Seq<u8>, StoreError> {
    match primitives::hex_bytes(ciphertext) {
        None => Err(StoreError::InvalidHex),
        Some(bytes) => match crypto::decrypted(key, bytes) {
            Ok(p) => Ok(p),
            Err(e) => Err(StoreError::Decryption(e)),
        },
    }
}

/// A value in JSON is small enough for its ciphertext to be written in
/// hexadecimal.
pub open spec fn writable(size: nat) -> bool {
    2 * (size + crypto::NONCE_SIZE + crypto::TAG_SIZE) <= isize::MAX
}

/// Encrypts the JSON of a value to hexadecimal ciphertext.
pub fn encrypt_secret_value(json: &str, key: &Key) -> (r: Result<String, StoreError>)
    requires
        writable(text::byte_len(json@)),
    ensures
        r is Ok <==> crypto::encryptable(text::byte_len(json@)),
        r matches Ok(t) ==> exists|nonce: Seq<u8>|
            nonce.len() == crypto::NONCE_SIZE && t@ == primitives::hex_text(
                #[trigger] crypto::encrypted(key@, nonce, encode_utf8(json@)),
            ),
        r matches Ok(t) ==> opened(key@, t@) == Ok::<_, StoreError>(encode_utf8(json@)),
        r matches Err(e) ==> e == StoreError::Encryption(CryptoError::EncryptionFailed),
{
    match crypto::encrypt(key, json.as_bytes()) {
        Ok(data) => {
            proof {
                primitives::law_hex_gives_back_the_bytes(data@);
                let nonce = data@.take(crypto::NONCE_SIZE as int);
                assert(data@ == crypto::encrypted(key@, nonce, encode_utf8(json@)));
            }
            Ok(primitives::hex_encode(data.as_slice()))
        },
        Err(e) => Err(StoreError::Encryption(e)),
    }
}

/// Decrypts hexadecimal ciphertext to the JSON of a value.
pub fn decrypt_ciphertext(ciphertext: &str, key: &Key) -> (r: Result<Vec<u8>, StoreError>)
    ensures
        crypto::bytes_result(r) == opened(key@, ciphertext@),
{
    match primitives::hex_decode(ciphertext) {
        Err(_) => Err(StoreError::InvalidHex),
        Ok(bytes) => match crypto::decrypt(key, bytes.as_slice()) {
            Ok(p) => Ok(p),
            Err(e) => Err(StoreError::Decryption(e)),
        },
    }
}

/// The secret that a backend holds, with its value read: the time of creation
/// counts if it is in RFC 3339.
pub open spec fn is_secret_of(raw: RawSecret, value: SecretValue, s: Secret) -> bool {
    &&& s.service@ == raw.service@
    &&& s.key@ == raw.key@
    &&& s.value == value
    &&& s.engram_id == Some(raw.id)
    &&& clock::timestamp_option(s.created_at) == match raw.created_at {
        Some(t) => clock::rfc3339_instant(t@),
        None => None,
    }
}

/// Makes the secret that a backend holds out of its value, which is `None` if
/// it could not be read.
pub fn assemble(raw: &RawSecret, value: Option<SecretValue>) -> (r: Result<Secret, StoreError>)
    ensures
        r is Ok <==> value is Some,
        r matches Ok(s) ==> is_secret_of(*raw, value->0, s),
        r matches Err(e) ==> e == StoreError::NotAValue,
{
    match value {
        Some(v) => Ok(
            Secret {
                service: raw.service.clone(),
                key: raw.key.clone(),
                value: v,
                engram_id: Some(raw.id),
                created_at: match &raw.created_at {
                    Some(t) => Timestamp::parse_rfc3339(t.as_str()),
                    None => None,
                },
            },
        ),
        None => Err(StoreError::NotAValue),
    }
}

/// The secrets of the first `n` that a backend holds, in order, without those
/// whose value could not be read.
pub open spec fn are_secrets_of(
    raws: Seq<RawSecret>,
    values: Seq<Option<SecretValue>>,
    n: int,
    secrets: Seq<Secret>,
) -> bool
    decreases n,
{
    if n <= 0 {
        secrets.len() == 0
    } else {
        match values[n - 1] {
            Some(v) => secrets.len() > 0 && is_secret_of(raws[n - 1], v, secrets.last())
                && are_secrets_of(raws, values, n - 1, secrets.drop_last()),
            None => are_secrets_of(raws, values, n - 1, secrets),
        }
    }
}

/// Makes the secrets that a backend holds out of their values. Those whose
/// value could not be read are left out.
pub fn assemble_all(raws: &Vec<RawSecret>, values: Vec<Option<SecretValue>>) -> (r: Vec<Secret>)
    requires
        raws@.len() == values@.len(),
    ensures
        are_secrets_of(raws@, values@, raws@.len() as int, r@),
{
    let ghost all = values@;
    let mut out: Vec<Secret> = Vec::new();
    let n: usize = raws.len();
    let mut i: usize = 0;
    for v in it: values
        invariant
            n == raws@.len(),
            it.seq() == all,
            raws@.len() == all.len(),
            i == it.index(),
            are_secrets_of(raws@, all, i as int, out@),
    {
        let ghost before = out@;
        match assemble(&raws[i], v) {
            Ok(s) => {
                out.push(s);
                assert(out@.drop_last() =~= before);
            },
            Err(_) => {},
        }
        assert(i < n);
        i += 1;
    }
    out
}

impl CredStore {
    /// A store with its key.
    pub fn new(master_key: Key) -> (r: CredStore)
        ensures
            r@ == Some(master_key@),
    {
        CredStore { master_key: Some(master_key) }
    }

    /// A store without its key.
    pub fn locked() -> (r: CredStore)
        ensures
            r@ is None,
    {
        CredStore { master_key: None }
    }

    /// The key, if the store has it.
    pub fn require_key(&self) -> (r: Result<&Key, StoreError>)
        ensures
            r is Ok <==> self@ is Some,
            r matches Ok(k) ==> self@ == Some(k@),
            r matches Err(e) ==> e == StoreError::Locked,
    {
        match &self.master_key {
            Some(k) => Ok(k),
            None => Err(StoreError::Locked),
        }
    }

    /// The ciphertext that a backend is to hold for the JSON of a value, in
    /// hexadecimal. The store gives the JSON back from it.
    pub fn seal(&self, json: &str) -> (r: Result<String, StoreError>)
        requires
            writable(text::byte_len(json@)),
        ensures
            r is Ok <==> self@ is Some && crypto::encryptable(text::byte_len(json@)),
            r matches Ok(t) ==> exists|nonce: Seq<u8>|
                nonce.len() == crypto::NONCE_SIZE && t@ == primitives::hex_text(
                    #[trigger] crypto::encrypted(self@->0, nonce, encode_utf8(json@)),
                ),
            r matches Ok(t) ==> opened(self@->0, t@) == Ok::<_, StoreError>(encode_utf8(json@)),
            r matches Err(e) ==> e == if self@ is None {
                StoreError::Locked
            } else {
                StoreError::Encryption(CryptoError::EncryptionFailed)
            },
    {
        match self.require_key() {
            Ok(key) => encrypt_secret_value(json, key),
            Err(e) => Err(e),
        }
    }

    /// The JSON of the value that a backend holds.
    pub fn open(&self, raw: &RawSecret) -> (r: Result<Vec<u8>, StoreError>)
        ensures
            self@ is None ==> r is Err && r->Err_0 == StoreError::Locked,
            self@ matches Some(key) ==> crypto::bytes_result(r) == opened(key, raw.ciphertext@),
    {
        match self.require_key() {
            Ok(key) => decrypt_ciphertext(raw.ciphertext.as_str(), key),
            Err(e) => Err(e),
        }
    }

    /// The JSON of each value that a backend holds, and `None` for those that
    /// cannot be decrypted.
    pub fn open_all(&self, raws: &Vec<RawSecret>) -> (r: Result<Vec<Option<Vec<u8>>>, StoreError>)
        ensures
            r is Ok <==> self@ is Some,
            r matches Err(e) ==> e == StoreError::Locked,
            r matches Ok(v) ==> v@.len() == raws@.len() && forall|i: int|
                0 <= i < raws@.len() ==> match #[trigger] v@[i] {
                    Some(p) => opened(self@->0, raws@[i].ciphertext@) == Ok::<_, StoreError>(p@),
                    None => opened(self@->0, raws@[i].ciphertext@) is Err,
                },
    {
        let key = match self.require_key() {
            Ok(key) => key,
            Err(e) => {
                return Err(e);
            },
        };
        let mut out: Vec<Option<Vec<u8>>> = Vec::new();
        let mut i: usize = 0;
        while i < raws.len()
            invariant
                self@ == Some(key@),
                i <= raws@.len(),
                out@.len() == i,
                forall|j: int|
                    0 <= j < i ==> match #[trigger] out@[j] {
                        Some(p) => opened(key@, raws@[j].ciphertext@) == Ok::<_, StoreError>(p@),
                        None => opened(key@, raws@[j].ciphertext@) is Err,
                    },
            decreases raws@.len() - i,
        {
            match decrypt_ciphertext(raws[i].ciphertext.as_str(), key) {
                Ok(p) => {
                    out.push(Some(p));
                },
                Err(_) => {
                    out.push(None);
                },
            }
            i += 1;
        }
        Ok(out)
    }
}

// ---------------------------------------------------------------------------
// What a backend answers
// ---------------------------------------------------------------------------

/// What looking for one row gave.
pub enum Lookup {
    /// The row.
    Row(RawSecret),
    /// There is none.
    NoRow,
    /// The database failed.
    Failed(String),
}

/// What is said of a secret that is not there.
pub open spec fn not_found_text(service: Seq<char>, key: Seq<char>) -> Seq<char> {
    "secret not found: "@ + service + "/"@ + key
}

/// What is said of a secret that is not there.
pub fn not_found(service: &str, key: &str) -> (r: String)
    ensures
        r@ == not_found_text(service@, key@),
{
    let mut msg = "secret not found: ".to_owned();
    msg.append(service);
    msg.append("/");
    msg.append(key);
    msg
}

/// The row that was looked for, or why there is none.
pub fn looked_up(found: Lookup, service: &str, key: &str) -> (r: Result<RawSecret, String>)
    ensures
        match found {
            Lookup::Row(raw) => r == Ok::<_, String>(raw),
            Lookup::NoRow => r is Err && r->Err_0@ == not_found_text(service@, key@),
            Lookup::Failed(e) => r is Err && r->Err_0@ == "sqlite error: "@ + e@,
        },
{
    match found {
        Lookup::Row(raw) => Ok(raw),
        Lookup::NoRow => Err(not_found(service, key)),
        Lookup::Failed(e) => {
            let mut msg = "sqlite error: ".to_owned();
            msg.append(e.as_str());
            Err(msg)
        },
    }
}

/// What is said of a deletion that affected that many rows, if it deleted
/// nothing.
pub open spec fn deletion_refusal(affected: nat, service: Seq<char>, key: Seq<char>) -> Option<
    Seq<char>,
> {
    if affected == 0 {
        Some(not_found_text(service, key))
    } else {
        None
    }
}

/// Whether a deletion that affected that many rows deleted the secret.
pub fn deleted(affected: usize, service: &str, key: &str) -> (r: Result<(), String>)
    ensures
        r is Ok <==> deletion_refusal(affected as nat, service@, key@) is None,
        r matches Err(msg) ==> deletion_refusal(affected as nat, service@, key@) == Some(msg@),
{
    if affected == 0 {
        Err(not_found(service, key))
    } else {
        Ok(())
    }
}

// ---------------------------------------------------------------------------
// Laws
// ---------------------------------------------------------------------------

/// A secret that was stored comes back: where the row holds what was sealed
/// under the names of the secret, and the JSON of its value is read as that
/// value, what is opened and assembled from the row has the names and the value
/// of the secret, and the number of the row.
pub proof fn law_a_stored_secret_comes_back(
    master_key: Seq<u8>,
    stored: Secret,
    json: Seq<char>,
    ciphertext: Seq<char>,
    row: RawSecret,
    read: spec_fn(Seq<u8>) -> Option<SecretValue>,
    got: Secret,
)
    requires
        opened(master_key, ciphertext) == Ok::<_, StoreError>(encode_utf8(json)),
        row.service@ == stored.service@,
        row.key@ == stored.key@,
        row.ciphertext@ == ciphertext,
        read(encode_utf8(json)) == Some(stored.value),
        opened(master_key, row.ciphertext@) matches Ok(p) ==> (read(p) matches Some(v)
            ==> is_secret_of(row, v, got)),
    ensures
        opened(master_key, row.ciphertext@) is Ok,
        got.service@ == stored.service@,
        got.key@ == stored.key@,
        got.value == stored.value,
        got.engram_id == Some(row.id),
{
}

/// A row has these names.
pub open spec fn named(row: RawSecret, service: Seq<char>, key: Seq<char>) -> bool {
    row.service@ == service && row.key@ == key
}

/// The rows that are left when those with given names are taken out.
pub open spec fn without(rows: Seq<RawSecret>, service: Seq<char>, key: Seq<char>) -> Seq<
    RawSecret,
> {
    rows.filter(|r: RawSecret| !named(r, service, key))
}

/// Where taking out the rows with given names is what a deletion does, it
/// succeeds exactly if there was such a row; then none is left, and every other
/// row stays. If it fails, the secret is said not to be found, and the rows are
/// as before.
pub proof fn law_a_deletion_takes_out_one_secret(
    rows: Seq<RawSecret>,
    service: Seq<char>,
    key: Seq<char>,
)
    ensures
        ({
            let left = without(rows, service, key);
            let refusal = deletion_refusal((rows.len() - left.len()) as nat, service, key);
            &&& refusal is None <==> exists|i: int|
                0 <= i < rows.len() && named(#[trigger] rows[i], service, key)
            &&& refusal is Some ==> refusal == Some(not_found_text(service, key)) && left == rows
            &&& left.len() <= rows.len()
            &&& forall|i: int|
                0 <= i < left.len() ==> !named(#[trigger] left[i], service, key) && rows.contains(
                    left[i],
                )
            &&& forall|i: int|
                0 <= i < rows.len() && !named(#[trigger] rows[i], service, key) ==> left.contains(
                    rows[i],
                )
        }),
    decreases rows.len(),
{
    let p = |r: RawSecret| !named(r, service, key);
    let left = without(rows, service, key);
    if rows.len() == 0 {
        reveal(Seq::filter);
    } else {
        let head = rows.drop_last();
        let last = rows.last();
        let rest = without(head, service, key);
        law_a_deletion_takes_out_one_secret(head, service, key);
        assert(rows =~= head.push(last));
        head.lemma_filter_push(last, p);
        assert(left == if p(last) {
            rest.push(last)
        } else {
            rest
        });
        assert(rows[rows.len() - 1] == last);
        assert forall|i: int| 0 <= i < left.len() implies !named(
            #[trigger] left[i],
            service,
            key,
        ) && rows.contains(left[i]) by {
            if i < rest.len() {
                assert(left[i] == rest[i]);
                let j = choose|j: int| 0 <= j < head.len() && head[j] == rest[i];
                assert(rows[j] == left[i]);
            } else {
                assert(rows[rows.len() - 1] == left[i]);
            }
        }
        assert forall|i: int|
            0 <= i < rows.len() && !named(#[trigger] rows[i], service, key) implies left.contains(
            rows[i],
        ) by {
            if i < head.len() {
                assert(head[i] == rows[i]);
                let j = choose|j: int| 0 <= j < rest.len() && rest[j] == rows[i];
                assert(left[j] == rows[i]);
            } else {
                assert(left[left.len() - 1] == rows[i]);
            }
        }
        if rows.len() == left.len() {
            assert(p(last));
            assert(rest == head);
            assert forall|i: int| 0 <= i < rows.len() implies !named(
                #[trigger] rows[i],
                service,
                key,
            ) by {
                if i < head.len() {
                    assert(head[i] == rows[i]);
                }
            }
        } else if p(last) {
            let i = choose|i: int| 0 <= i < head.len() && named(#[trigger] head[i], service, key);
            assert(rows[i] == head[i]);
        }
    }
}

/// A listing has at most one secret for each row, and one for every row if all
/// values could be read.
pub proof fn law_listing_is_no_longer_than_its_rows(
    raws: Seq<RawSecret>,
    values: Seq<Option<SecretValue>>,
    n: int,
    secrets: Seq<Secret>,
)
    requires
        0 <= n,
        are_secrets_of(raws, values, n, secrets),
    ensures
        secrets.len() <= n,
        (forall|i: int| 0 <= i < n ==> (#[trigger] values[i]) is Some) ==> secrets.len() == n,
    decreases n,
{
    if n > 0 {
        match values[n - 1] {
            Some(_) => {
                law_listing_is_no_longer_than_its_rows(raws, values, n - 1, secrets.drop_last());
            },
            None => {
                law_listing_is_no_longer_than_its_rows(raws, values, n - 1, secrets);
            },
        }
    }
}

/// Whatever the rows and values, the secrets of a listing are, in order, those
/// of the rows whose values could be read, each with the names, the number and
/// the time of its own row, and its own value. The rows are given back.
pub proof fn law_each_secret_is_that_of_its_row(
    raws: Seq<RawSecret>,
    values: Seq<Option<SecretValue>>,
    n: int,
    secrets: Seq<Secret>,
) -> (rows: Seq<int>)
    requires
        0 <= n <= raws.len(),
        raws.len() == values.len(),
        are_secrets_of(raws, values, n, secrets),
    ensures
        rows.len() == secrets.len(),
        forall|k: int|
            0 <= k < rows.len() ==> {
                let i = #[trigger] rows[k];
                &&& 0 <= i < n
                &&& values[i] == Some(secrets[k].value)
                &&& secrets[k].service@ == raws[i].service@
                &&& secrets[k].key@ == raws[i].key@
                &&& secrets[k].engram_id == Some(raws[i].id)
                &&& raws[i].created_at is None ==> secrets[k].created_at is None
                &&& raws[i].created_at is Some ==> clock::timestamp_option(secrets[k].created_at)
                    == clock::rfc3339_instant(raws[i].created_at->0@)
            },
        forall|j: int, k: int|
            0 <= j < k < rows.len() ==> (#[trigger] rows[j]) < (#[trigger] rows[k]),
        forall|i: int| 0 <= i < n && (#[trigger] values[i]) is Some ==> rows.contains(i),
    decreases n,
{
    if n == 0 {
        Seq::empty()
    } else {
        match values[n - 1] {
            None => {
                let rows = law_each_secret_is_that_of_its_row(raws, values, n - 1, secrets);
                assert forall|i: int| 0 <= i < n && (#[trigger] values[i]) is Some implies
                    rows.contains(i) by {
                    assert(i < n - 1);
                }
                rows
            },
            Some(v) => {
                let front = secrets.drop_last();
                let before = law_each_secret_is_that_of_its_row(raws, values, n - 1, front);
                let rows = before.push(n - 1);
                assert forall|k: int| 0 <= k < rows.len() implies ({
                    let i = #[trigger] rows[k];
                    &&& 0 <= i < n
                    &&& values[i] == Some(secrets[k].value)
                    &&& secrets[k].service@ == raws[i].service@
                    &&& secrets[k].key@ == raws[i].key@
                    &&& secrets[k].engram_id == Some(raws[i].id)
                    &&& raws[i].created_at is None ==> secrets[k].created_at is None
                    &&& raws[i].created_at is Some ==> clock::timestamp_option(
                        secrets[k].created_at,
                    ) == clock::rfc3339_instant(raws[i].created_at->0@)
                }) by {
                    if k < before.len() {
                        assert(rows[k] == before[k]);
                        assert(secrets[k] == front[k]);
                    } else {
                        assert(secrets[k] == secrets.last());
                    }
                }
                assert forall|j: int, k: int| 0 <= j < k < rows.len() implies (#[trigger] rows[j])
                    < (#[trigger] rows[k]) by {
                    assert(rows[j] == before[j]);
                    if k < before.len() {
                        assert(rows[k] == before[k]);
                    }
                }
                assert forall|i: int| 0 <= i < n && (#[trigger] values[i]) is Some implies
                    rows.contains(i) by {
                    if i < n - 1 {
                        let k = choose|k: int| 0 <= k < before.len() && before[k] == i;
                        assert(rows[k] == i);
                    } else {
                        assert(rows[before.len() as int] == i);
                    }
                }
                rows
            },
        }
    }
}

/// If all values could be read, the secret in each place of a listing is that
/// of the row in the same place.
pub proof fn law_a_readable_vault_is_listed_row_by_row(
    raws: Seq<RawSecret>,
    values: Seq<Option<SecretValue>>,
    secrets: Seq<Secret>,
    i: int,
)
    requires
        raws.len() == values.len(),
        are_secrets_of(raws, values, raws.len() as int, secrets),
        forall|j: int| 0 <= j < values.len() ==> (#[trigger] values[j]) is Some,
        0 <= i < raws.len(),
    ensures
        secrets.len() == raws.len(),
        secrets[i].service@ == raws[i].service@,
        secrets[i].key@ == raws[i].key@,
        secrets[i].engram_id == Some(raws[i].id),
        Some(secrets[i].value) == values[i],
{
    let rows = law_each_secret_is_that_of_its_row(raws, values, raws.len() as int, secrets);
    law_listing_is_no_longer_than_its_rows(raws, values, raws.len() as int, secrets);
    lemma_rising(rows, i);
}

/// Numbers below their count that rise in order are each in their own place.
proof fn lemma_rising(rows: Seq<int>, i: int)
    requires
        forall|k: int| 0 <= k < rows.len() ==> 0 <= #[trigger] rows[k] < rows.len(),
        forall|j: int, k: int|
            0 <= j < k < rows.len() ==> (#[trigger] rows[j]) < (#[trigger] rows[k]),
        0 <= i < rows.len(),
    ensures
        rows[i] == i,
{
    lemma_rising_from_below(rows, i);
    lemma_rising_to_the_end(rows, i);
}

proof fn lemma_rising_from_below(rows: Seq<int>, i: int)
    requires
        forall|k: int| 0 <= k < rows.len() ==> 0 <= #[trigger] rows[k] < rows.len(),
        forall|j: int, k: int|
            0 <= j < k < rows.len() ==> (#[trigger] rows[j]) < (#[trigger] rows[k]),
        0 <= i < rows.len(),
    ensures
        rows[i] >= i,
    decreases i,
{
    if i > 0 {
        lemma_rising_from_below(rows, i - 1);
        assert(rows[i - 1] < rows[i]);
    }
}

proof fn lemma_rising_to_the_end(rows: Seq<int>, i: int)
    requires
        forall|k: int| 0 <= k < rows.len() ==> 0 <= #[trigger] rows[k] < rows.len(),
        forall|j: int, k: int|
            0 <= j < k < rows.len() ==> (#[trigger] rows[j]) < (#[trigger] rows[k]),
        0 <= i < rows.len(),
    ensures
        rows[i] <= i,
    decreases rows.len() - i,
{
    if i < rows.len() - 1 {
        lemma_rising_to_the_end(rows, i + 1);
        assert(rows[i] < rows[i + 1]);
    }
}

/// A ciphertext is opened exactly if it is an even number of hexadecimal digits
/// and its bytes can be decrypted; which of the two fails is told apart.
pub proof fn law_what_can_be_opened(master_key: Seq<u8>, bytes: Seq<u8>, ciphertext: Seq<char>)
    ensures
        crypto::decrypted(master_key, bytes) matches Ok(p) ==> opened(
            master_key,
            primitives::hex_text(bytes),
        ) == Ok::<_, StoreError>(p),
        crypto::decrypted(master_key, bytes) matches Err(e) ==> opened(
            master_key,
            primitives::hex_text(bytes),
        ) == Err::<Seq<u8>, _>(StoreError::Decryption(e)),
        opened(master_key, ciphertext) == Err::<Seq<u8>, _>(StoreError::InvalidHex)
            <==> ciphertext.len() % 2 != 0 || exists|i: int|
            0 <= i < ciphertext.len() && !({
                ||| '0' <= #[trigger] ciphertext[i] <= '9'
                ||| 'a' <= ciphertext[i] <= 'f'
                ||| 'A' <= ciphertext[i] <= 'F'
            }),
{
    primitives::law_hex_gives_back_the_bytes(bytes);
}

/// A deletion that affected no row says that the secret is not there, with its
/// names; any other deleted it.
pub proof fn law_deletions_that_affect_nothing_fail(
    affected: nat,
    service: Seq<char>,
    key: Seq<char>,
)
    ensures
        deletion_refusal(affected, service, key) is None <==> affected > 0,
        deletion_refusal(affected, service, key) matches Some(msg) ==> text::begins(
            msg,
            "secret not found"@,
        ) && text::holds(msg, service + "/"@ + key),
{
    let h = "secret not found: "@;
    assert(text::begins(h, "secret not found"@)) by {
        reveal_strlit("secret not found: ");
        reveal_strlit("secret not found");
        assert(h.take("secret not found"@.len() as int) =~= "secret not found"@);
    }
    let t = not_found_text(service, key);
    let n = "secret not found"@.len() as int;
    assert(t.take(n) =~= h.take(n));
    assert(t =~= h + (service + "/"@ + key) + Seq::<char>::empty());
    text::law_what_a_text_holds(h, service + "/"@ + key, Seq::empty());
}

/// What is said of an error tells whether the key is missing, the value could
/// not be encrypted, or the ciphertext is not hexadecimal, could not be
/// decrypted, or holds no value.
pub proof fn law_store_errors_are_told_apart(e: StoreError)
    ensures
        e matches StoreError::Encryption(c) ==> store_error_text(e) == crypto::crypto_text(c),
        e is Locked ==> text::begins(store_error_text(e), "no encryption key"@),
        e is InvalidHex ==> text::begins(store_error_text(e), "invalid hex"@),
        e is Decryption ==> text::begins(store_error_text(e), "decryption failed"@),
        e is NotAValue ==> text::begins(store_error_text(e), "failed to deserialize"@),
{
    let t = store_error_text(e);
    match e {
        StoreError::Locked => {
            reveal_strlit("no encryption key -- is the YubiKey plugged in?");
            reveal_strlit("no encryption key");
            assert(t.take("no encryption key"@.len() as int) =~= "no encryption key"@);
        },
        StoreError::InvalidHex => {
            reveal_strlit("invalid hex ciphertext");
            reveal_strlit("invalid hex");
            assert(t.take("invalid hex"@.len() as int) =~= "invalid hex"@);
        },
        StoreError::Decryption(_) => {
            assert(t.take(t.len() as int) =~= t);
        },
        StoreError::NotAValue => {
            reveal_strlit("failed to deserialize secret value");
            reveal_strlit("failed to deserialize");
            assert(t.take("failed to deserialize"@.len() as int) =~= "failed to deserialize"@);
        },
        StoreError::Encryption(_) => {},
    }
}

/// A value can be written if twice the bytes of its ciphertext fit in memory.
pub proof fn law_what_can_be_written(size: nat)
    ensures
        writable(size) <==> size + 28 <= isize::MAX / 2,
{
}

} // verus!
