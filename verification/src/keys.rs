//! API-key secrets: minting a fresh secret, hashing it for storage, and
//! checking a presented secret against the stored hashes.  The hashing is
//! argon2's; its outcome is named, not restated, and everything around the
//! calls — which row matches first, what the caller learns — is proved.

use vstd::prelude::*;

use argon2::{Argon2, PasswordHasher, PasswordVerifier};
use rand::Rng;

use crate::dectext::digit_char;

verus! {

/// Whether argon2 accepts `secret` against the password-hash string
/// `hash`.  The outcome depends on the two arguments alone.
pub uninterp spec fn argon2_verifies(secret: Seq<char>, hash: Seq<char>) -> bool;

/// Hashing a secret failed inside the hashing algorithm.
#[derive(Debug)]
pub enum KeyError {
    /// The hash could not be produced.
    Hash,
}

/// Relies on argon2's `hash_password` and `verify_password`: hashing draws
/// a fresh salt and yields a password-hash string that verifies the very
/// secret it was made from.
#[verifier::external_body]
fn hash_secret(secret: &str) -> (r: Result<String, KeyError>)
    ensures
        r is Ok ==> argon2_verifies(secret@, r->Ok_0@),
{
    match Argon2::default().hash_password(secret.as_bytes()) {
        Ok(h) => Ok(h.to_string()),
        Err(_) => Err(KeyError::Hash),
    }
}

/// Relies on argon2's `verify_password` on a password-hash string: it
/// recomputes the hash under the string's own parameters and compares.
#[verifier::external_body]
fn verify_secret(secret: &str, hash: &str) -> (r: bool)
    ensures
        r == argon2_verifies(secret@, hash@),
{
    PasswordVerifier::<str>::verify_password(
        &Argon2::default(),
        secret.as_bytes(),
        hash,
    ).is_ok()
}

/// Relies on the thread-local generator's `fill_bytes`: the whole buffer
/// is filled; nothing can be said of the values.
#[verifier::external_body]
fn random_secret_bytes() -> (r: Vec<u8>)
    ensures
        r@.len() == 32,
{
    let mut raw = [0u8; 32];
    rand::rng().fill_bytes(&mut raw);
    raw.to_vec()
}

/// The lowercase hexadecimal digit of a value below sixteen.
pub open spec fn hex_digit(d: int) -> char {
    if d < 10 {
        digit_char(d)
    } else if d == 10 {
        'a'
    } else if d == 11 {
        'b'
    } else if d == 12 {
        'c'
    } else if d == 13 {
        'd'
    } else if d == 14 {
        'e'
    } else {
        'f'
    }
}

/// The lowercase hexadecimal text of a byte string: two digits per byte,
/// high nibble first.
pub open spec fn hex_of(bytes: Seq<u8>) -> Seq<char>
    decreases bytes.len(),
{
    if bytes.len() == 0 {
        Seq::empty()
    } else {
        hex_of(bytes.drop_last()) + seq![
            hex_digit(bytes.last() as int / 16),
            hex_digit(bytes.last() as int % 16),
        ]
    }
}

/// Relies on `hex::encode`: each byte becomes two lowercase hexadecimal
/// digits, in order.
#[verifier::external_body]
fn hex_encode(bytes: &Vec<u8>) -> (r: String)
    ensures
        r@ == hex_of(bytes@),
{
    hex::encode(bytes)
}

/// Hexadecimal text is twice as long as its bytes, and made of hex digits.
pub proof fn lemma_hex_of_shape(bytes: Seq<u8>)
    ensures
        hex_of(bytes).len() == 2 * bytes.len(),
        forall|i: int|
            0 <= i < hex_of(bytes).len() ==> is_hex_char(#[trigger] hex_of(bytes)[i]),
    decreases bytes.len(),
{
    if bytes.len() > 0 {
        lemma_hex_of_shape(bytes.drop_last());
        let h = hex_of(bytes);
        let pre = hex_of(bytes.drop_last());
        assert forall|i: int| 0 <= i < h.len() implies is_hex_char(#[trigger] h[i]) by {
            if i < pre.len() {
                assert(h[i] == pre[i]);
            } else if i == pre.len() {
                assert(h[i] == hex_digit(bytes.last() as int / 16));
            } else {
                assert(h[i] == hex_digit(bytes.last() as int % 16));
            }
        }
    }
}

/// A lowercase hexadecimal digit character.
pub open spec fn is_hex_char(c: char) -> bool {
    crate::dectext::is_digit(c) || ('a' as u32 <= c as u32 <= 'f' as u32)
}

/// A fresh API-key secret: 64 lowercase hexadecimal characters encoding 32
/// random bytes.
pub fn create_api_key_secret() -> (r: String)
    ensures
        r@.len() == 64,
        forall|i: int| 0 <= i < r@.len() ==> is_hex_char(#[trigger] r@[i]),
{
    let raw = random_secret_bytes();
    let secret = hex_encode(&raw);
    proof {
        lemma_hex_of_shape(raw@);
    }
    secret
}

/// A fresh key: the secret to hand out once, and the hash to store.  The
/// stored hash verifies exactly the secret that was minted with it.
pub fn mint_api_key() -> (r: Result<(String, String), KeyError>)
    ensures
        r is Ok ==> r->Ok_0.0@.len() == 64,
        r is Ok ==> forall|i: int|
            0 <= i < r->Ok_0.0@.len() ==> is_hex_char(#[trigger] r->Ok_0.0@[i]),
        r is Ok ==> argon2_verifies(r->Ok_0.0@, r->Ok_0.1@),
{
    let secret = create_api_key_secret();
    match hash_secret(secret.as_str()) {
        Ok(hash) => Ok((secret, hash)),
        Err(e) => Err(e),
    }
}

/// Abstract value of one stored key row.
pub ghost struct KeyRowV {
    pub id: Seq<char>,
    pub token_hash: Seq<char>,
    pub scope: Seq<char>,
}

/// One stored key: its identifier, its secret's hash, and its scope.
pub struct ApiKeyRow {
    pub id: String,
    pub token_hash: String,
    pub scope: String,
}

impl View for ApiKeyRow {
    type V = KeyRowV;

    open spec fn view(&self) -> KeyRowV {
        KeyRowV { id: self.id@, token_hash: self.token_hash@, scope: self.scope@ }
    }
}

/// The views of the stored rows.
pub open spec fn row_views(rows: Seq<ApiKeyRow>) -> Seq<KeyRowV> {
    rows.map_values(|r: ApiKeyRow| r@)
}

/// The first stored key whose hash verifies the presented secret: its
/// identifier and scope, or nothing when no key matches.
pub fn verify_api_key(rows: &Vec<ApiKeyRow>, secret: &str) -> (r: Option<(String, String)>)
    ensures
        match r {
            Some(found) => exists|i: int|
                {
                    &&& 0 <= i < row_views(rows@).len()
                    &&& argon2_verifies(secret@, #[trigger] row_views(rows@)[i].token_hash)
                    &&& found.0@ == row_views(rows@)[i].id
                    &&& found.1@ == row_views(rows@)[i].scope
                    &&& forall|j: int|
                        0 <= j < i ==> !argon2_verifies(
                            secret@,
                            #[trigger] row_views(rows@)[j].token_hash,
                        )
                },
            None => forall|j: int|
                0 <= j < row_views(rows@).len() ==> !argon2_verifies(
                    secret@,
                    #[trigger] row_views(rows@)[j].token_hash,
                ),
        },
{
    let ghost views = row_views(rows@);
    proof {
        assert(forall|k: int| 0 <= k < views.len() ==> views[k] == rows@[k]@);
    }
    let n = rows.len();
    let mut i: usize = 0;
    while i < n
        invariant
            i <= n == rows@.len(),
            views == row_views(rows@),
            forall|k: int| 0 <= k < views.len() ==> views[k] == rows@[k]@,
            forall|j: int|
                0 <= j < i ==> !argon2_verifies(secret@, #[trigger] views[j].token_hash),
        decreases n - i,
    {
        let row = &rows[i];
        if verify_secret(secret, row.token_hash.as_str()) {
            let found = (row.id.clone(), row.scope.clone());
            proof {
                assert(argon2_verifies(secret@, views[i as int].token_hash));
            }
            return Some(found);
        }
        i += 1;
    }
    None
}

} // verus!
