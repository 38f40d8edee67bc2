//! Crypto primitives: passphrase hashing and verification (through bcrypt),
//! and the symmetric encryption of a record's password field.
//!
//! Each encryption carries a key check: a salted bcrypt hash of the
//! passphrase, made fresh per call. The check makes decryption under a wrong
//! key detectable without revealing the key — the hash is one-way — and its
//! embedded random salt doubles as the per-record nonce that keys the
//! stream, so two encryptions of one record differ.

use vstd::prelude::*;

use crate::errors::VaultError;
use crate::records::{Credentials, CredentialsView, EncryptedCredentials, EncryptedCredentialsView};

verus! {

/// The name of what `pwhash::bcrypt::verify` returns: whether the
/// passphrase matches the bcrypt hash string. Deterministic in its
/// arguments alone.
pub uninterp spec fn bcrypt_verifies(pass: Seq<char>, hash: Seq<char>) -> bool;

/// Whether a hash string is made only of characters its decoder accepts
/// without danger. The decoder indexes a 96-entry table by `char - 0x20`:
/// a character below U+0020 underflows and U+0080 lands one past the table,
/// so both stay out; everything else in this range is rejected cleanly or
/// decoded.
pub open spec fn hash_text_ok(h: Seq<char>) -> bool {
    forall|i: int| 0 <= i < h.len() ==> 0x20 <= #[trigger] (h[i] as u32) <= 0x7F
}

#[verifier::external_type_specification]
#[verifier::external_body]
pub struct ExPwhashError(pwhash::error::Error);

/// Relies on `pwhash::bcrypt::hash`: a bcrypt hash of the passphrase under
/// a fresh random salt. In this version it never errs — its salt comes from
/// the operating system's generator, which aborts rather than errs — so the
/// result is always `Ok`; the hash text is `$`, digits, and the bcrypt
/// base64 alphabet, all between U+0020 and U+007F; and the crate's own
/// `verify` accepts the passphrase against the returned hash (both sides
/// truncate and terminate the passphrase identically).
#[verifier::external_body]
fn bcrypt_hash(pass: &str) -> (r: Result<String, pwhash::error::Error>)
    ensures
        r is Ok,
        bcrypt_verifies(pass@, r.unwrap()@),
        hash_text_ok(r.unwrap()@),
{
    pwhash::bcrypt::hash(pass)
}

/// Relies on `pwhash::bcrypt::verify`: recomputes the hash from the salt and
/// cost carried in the hash string, a function of the two arguments alone.
/// Its base64 decoder panics on a hash character below U+0020 or equal to
/// U+0080, so such hashes are excluded here and rejected by the caller.
#[verifier::external_body]
fn bcrypt_verify(pass: &str, hash: &str) -> (r: bool)
    requires
        hash_text_ok(hash@),
    ensures
        r == bcrypt_verifies(pass@, hash@),
{
    pwhash::bcrypt::verify(pass, hash)
}

/// Whether every character of `s` is acceptable to the hash decoder.
fn hash_text_check(s: &str) -> (r: bool)
    ensures
        r == hash_text_ok(s@),
{
    let n: usize = s.unicode_len();
    let mut i: usize = 0;
    while i < n
        invariant
            n == s@.len(),
            i <= n,
            forall|k: int| 0 <= k < i ==> 0x20 <= #[trigger] (s@[k] as u32) <= 0x7F,
        decreases n - i,
    {
        let v = s.get_char(i) as u32;
        if v < 0x20 || v > 0x7F {
            return false;
        }
        i += 1;
    }
    true
}

/// Hashes a passphrase one-way under a fresh salt. The passphrase itself is
/// never recoverable from the result; the result verifies against the
/// passphrase that produced it.
pub fn hash_passphrase(passphrase: &str) -> (r: String)
    ensures
        bcrypt_verifies(passphrase@, r@),
        hash_text_ok(r@),
{
    match bcrypt_hash(passphrase) {
        Ok(h) => h,
        Err(_) => unreached(),
    }
}

/// Verifies a passphrase against a stored hash; never returns or logs the
/// passphrase. A hash the decoder cannot safely read is rejected outright.
pub fn verify_passphrase(passphrase: &str, stored_hash: &str) -> (r: bool)
    ensures
        r == (hash_text_ok(stored_hash@) && bcrypt_verifies(passphrase@, stored_hash@)),
{
    if !hash_text_check(stored_hash) {
        false
    } else {
        bcrypt_verify(passphrase, stored_hash)
    }
}

/// The key derived from a passphrase: one code per passphrase character.
pub open spec fn key_of(p: Seq<char>) -> Seq<u32> {
    Seq::new(p.len(), |i: int| p[i] as u32)
}

/// The keystream code at position `i` of the password: key material mixed
/// with the record's nonce characters.
pub open spec fn stream_at(key: Seq<u32>, nonce: Seq<char>, i: int) -> u32 {
    (if key.len() == 0 {
        0u32
    } else {
        key[i % key.len() as int]
    }) ^ (if nonce.len() == 0 {
        0u32
    } else {
        (nonce[i % nonce.len() as int] as u32)
    })
}

/// The ciphertext of a password under a key and nonce.
pub open spec fn cipher_of(key: Seq<u32>, nonce: Seq<char>, pw: Seq<char>) -> Seq<u32> {
    Seq::new(pw.len(), |i: int| (pw[i] as u32) ^ stream_at(key, nonce, i))
}

/// The scalar value of a character.
pub open spec fn code_of(c: char) -> u32 {
    c as u32
}

/// Whether a code is the scalar value of some character.
pub open spec fn is_char_code(v: u32) -> bool {
    exists|c: char| #[trigger] code_of(c) == v
}

/// The character whose scalar value is `v` (meaningful when `is_char_code(v)`).
pub open spec fn char_of_code(v: u32) -> char {
    choose|c: char| #[trigger] code_of(c) == v
}

/// Whether `e` is an encryption of `r` under `p`: service and username stay
/// in the clear; the check is a bcrypt hash that accepts `p` (one-way, so
/// `p` is not recoverable from it; salted fresh per call, so it differs from
/// every other encryption); the ciphertext is the password streamed under
/// the key and that check.
pub open spec fn encrypts(e: EncryptedCredentialsView, r: CredentialsView, p: Seq<char>) -> bool {
    &&& e.service == r.service
    &&& e.username == r.username
    &&& hash_text_ok(e.check)
    &&& bcrypt_verifies(p, e.check)
    &&& e.cipher == cipher_of(key_of(p), e.check, r.password)
}

/// What `decrypt` returns: the record when the key check accepts the
/// passphrase and every code decodes to a character; `Corrupt` when the
/// check text is unreadable or some code is no character;
/// `IncorrectPassphrase` when the check rejects the passphrase.
pub open spec fn decrypt_spec(e: EncryptedCredentialsView, p: Seq<char>) -> Result<
    CredentialsView,
    VaultError,
> {
    let key = key_of(p);
    if !hash_text_ok(e.check) {
        Err(VaultError::Corrupt)
    } else if !bcrypt_verifies(p, e.check) {
        Err(VaultError::IncorrectPassphrase)
    } else if exists|i: int|
        0 <= i < e.cipher.len() && !is_char_code(e.cipher[i] ^ stream_at(key, e.check, i)) {
        Err(VaultError::Corrupt)
    } else {
        Ok(
            CredentialsView {
                service: e.service,
                username: e.username,
                password: Seq::new(
                    e.cipher.len(),
                    |i: int| char_of_code(e.cipher[i] ^ stream_at(key, e.check, i)),
                ),
            },
        )
    }
}

/// The value of a decryption result.
pub open spec fn decrypt_result_view(r: Result<Credentials, VaultError>) -> Result<
    CredentialsView,
    VaultError,
> {
    match r {
        Ok(c) => Ok(c@),
        Err(e) => Err(e),
    }
}

/// A symmetric key, derived deterministically from the passphrase alone,
/// so the same passphrase always opens previously stored records.
pub struct Key {
    pub codes: Vec<u32>,
}

impl View for Key {
    type V = Seq<u32>;

    open spec fn view(&self) -> Seq<u32> {
        self.codes@
    }
}

/// Derives the symmetric key for a passphrase.
pub fn derive_key(passphrase: &str) -> (r: Key)
    ensures
        r@ == key_of(passphrase@),
{
    let n = passphrase.unicode_len();
    let mut codes: Vec<u32> = Vec::new();
    let mut i: usize = 0;
    while i < n
        invariant
            n == passphrase@.len(),
            i <= n,
            codes@ == key_of(passphrase@).subrange(0, i as int),
        decreases n - i,
    {
        let c = passphrase.get_char(i);
        codes.push(c as u32);
        proof {
            assert(codes@ =~= key_of(passphrase@).subrange(0, i + 1 as int));
        }
        i += 1;
    }
    proof {
        assert(codes@ =~= key_of(passphrase@));
    }
    Key { codes }
}

/// The keystream code at position `i`.
fn stream_code(key: &Key, nonce: &str, nonce_len: usize, i: usize) -> (r: u32)
    requires
        nonce_len == nonce@.len(),
    ensures
        r == stream_at(key@, nonce@, i as int),
{
    let k: u32 = if key.codes.len() == 0 {
        0u32
    } else {
        key.codes[i % key.codes.len()]
    };
    let s: u32 = if nonce_len == 0 {
        0u32
    } else {
        nonce.get_char(i % nonce_len) as u32
    };
    k ^ s
}

/// Relies on `char::from_u32` of core: `Some` exactly on the scalar value of
/// a character, and then that character.
pub assume_specification[ char::from_u32 ](v: u32) -> (r: Option<char>)
    ensures
        r is Some <==> is_char_code(v),
        r is Some ==> r == Some(char_of_code(v)),
;

/// Relies on `String::push` of std: appends exactly the given character.
#[verifier::external_body]
pub(crate) fn push_char(s: &mut String, c: char)
    ensures
        final(s)@ == old(s)@ + seq![c],
{
    s.push(c)
}

/// Encrypts the password field of a record under a passphrase; service and
/// username stay searchable plaintext. Every call salts its key check
/// afresh, so repeated encryptions of one record differ at rest.
pub fn encrypt(creds: &Credentials, passphrase: &str) -> (r: EncryptedCredentials)
    ensures
        encrypts(r@, creds@, passphrase@),
{
    let check = hash_passphrase(passphrase);
    let check_str: &str = check.as_str();
    let check_len: usize = check_str.unicode_len();
    let key = derive_key(passphrase);
    let pw: &str = creds.password.as_str();
    let n = pw.unicode_len();
    let mut cipher: Vec<u32> = Vec::new();
    let mut i: usize = 0;
    while i < n
        invariant
            pw@ == creds.password@,
            check_str@ == check@,
            check_len == check@.len(),
            n == creds.password@.len(),
            i <= n,
            key@ == key_of(passphrase@),
            cipher@ == cipher_of(key_of(passphrase@), check@, creds.password@).subrange(
                0,
                i as int,
            ),
        decreases n - i,
    {
        let c = pw.get_char(i);
        let v = (c as u32) ^ stream_code(&key, check_str, check_len, i);
        cipher.push(v);
        proof {
            assert(cipher@ =~= cipher_of(key_of(passphrase@), check@, creds.password@).subrange(
                0,
                i + 1 as int,
            ));
        }
        i += 1;
    }
    let r = EncryptedCredentials {
        service: creds.service.clone(),
        username: creds.username.clone(),
        cipher,
        check,
    };
    proof {
        assert(r.cipher@ =~= cipher_of(key_of(passphrase@), r.check@, creds.password@));
    }
    r
}

/// Decrypts a record's password under a passphrase. Fails with `Corrupt`
/// when the key check text is unreadable or the ciphertext decodes to no
/// character, and with `IncorrectPassphrase` when the key check rejects the
/// passphrase; never silently returns garbage plaintext.
pub fn decrypt(enc: &EncryptedCredentials, passphrase: &str) -> (r: Result<
    Credentials,
    VaultError,
>)
    ensures
        decrypt_result_view(r) == decrypt_spec(enc@, passphrase@),
{
    let check_str: &str = enc.check.as_str();
    if !hash_text_check(check_str) {
        return Err(VaultError::Corrupt);
    }
    if !bcrypt_verify(passphrase, check_str) {
        return Err(VaultError::IncorrectPassphrase);
    }
    let check_len: usize = check_str.unicode_len();
    let key = derive_key(passphrase);
    let ghost spec_pw = Seq::new(
        enc.cipher@.len(),
        |i: int|
            char_of_code(enc.cipher@[i] ^ stream_at(key_of(passphrase@), enc.check@, i)),
    );
    let mut pw = String::new();
    let mut i: usize = 0;
    while i < enc.cipher.len()
        invariant
            i <= enc.cipher.len(),
            key@ == key_of(passphrase@),
            check_str@ == enc.check@,
            check_len == enc.check@.len(),
            hash_text_ok(enc.check@),
            bcrypt_verifies(passphrase@, enc.check@),
            spec_pw == Seq::new(
                enc.cipher@.len(),
                |k: int|
                    char_of_code(enc.cipher@[k] ^ stream_at(key_of(passphrase@), enc.check@, k)),
            ),
            forall|k: int|
                0 <= k < i ==> is_char_code(
                    #[trigger] (enc.cipher@[k] ^ stream_at(key_of(passphrase@), enc.check@, k)),
                ),
            pw@ == spec_pw.subrange(0, i as int),
        decreases enc.cipher.len() - i,
    {
        let v = enc.cipher[i] ^ stream_code(&key, check_str, check_len, i);
        match char::from_u32(v) {
            None => {
                proof {
                    assert(!is_char_code(enc.cipher@[i as int] ^ stream_at(
                        key_of(passphrase@),
                        enc.check@,
                        i as int,
                    )));
                }
                return Err(VaultError::Corrupt);
            },
            Some(c) => {
                proof {
                    assert(c == char_of_code(v));
                }
                push_char(&mut pw, c);
                proof {
                    assert(pw@ =~= spec_pw.subrange(0, i + 1 as int));
                }
            },
        }
        i += 1;
    }
    proof {
        assert(pw@ =~= spec_pw);
    }
    let r = Credentials {
        service: enc.service.clone(),
        username: enc.username.clone(),
        password: pw,
    };
    proof {
        assert(r@ =~= decrypt_spec(enc@, passphrase@).unwrap());
    }
    Ok(r)
}

/// Encrypts every record of a batch under one passphrase, keeping order.
pub fn encrypt_all(master_pwd: &str, credentials: &Vec<Credentials>) -> (r: Vec<
    EncryptedCredentials,
>)
    ensures
        r@.len() == credentials@.len(),
        forall|i: int|
            0 <= i < r@.len() ==> encrypts(#[trigger] r@[i]@, credentials@[i]@, master_pwd@),
{
    let mut out: Vec<EncryptedCredentials> = Vec::new();
    let mut i: usize = 0;
    while i < credentials.len()
        invariant
            i <= credentials.len(),
            out@.len() == i,
            forall|k: int|
                0 <= k < i ==> encrypts(#[trigger] out@[k]@, credentials@[k]@, master_pwd@),
        decreases credentials.len() - i,
    {
        out.push(encrypt(&credentials[i], master_pwd));
        i += 1;
    }
    out
}

/// Round trip: decrypting an encryption under the passphrase that made it
/// returns the original record.
pub proof fn lemma_round_trip(e: EncryptedCredentialsView, r: CredentialsView, p: Seq<char>)
    requires
        encrypts(e, r, p),
    ensures
        decrypt_spec(e, p) == Ok::<CredentialsView, VaultError>(r),
{
    let key = key_of(p);
    assert(e.cipher == cipher_of(key, e.check, r.password));
    assert(e.cipher.len() == r.password.len());
    assert forall|i: int| 0 <= i < e.cipher.len() implies #[trigger] (e.cipher[i] ^ stream_at(
        key,
        e.check,
        i,
    )) == r.password[i] as u32 by {
        assert(e.cipher[i] == (r.password[i] as u32) ^ stream_at(key, e.check, i));
        let a = r.password[i] as u32;
        let b = stream_at(key, e.check, i);
        assert((a ^ b) ^ b == a) by (bit_vector);
    }
    assert forall|i: int| 0 <= i < e.cipher.len() implies is_char_code(
        #[trigger] (e.cipher[i] ^ stream_at(key, e.check, i)),
    ) by {
        assert(code_of(r.password[i]) == e.cipher[i] ^ stream_at(key, e.check, i));
    }
    let d = decrypt_spec(e, p);
    assert(d is Ok);
    assert forall|i: int| 0 <= i < e.cipher.len() implies #[trigger] char_of_code(
        e.cipher[i] ^ stream_at(key, e.check, i),
    ) == r.password[i] by {
        let v = e.cipher[i] ^ stream_at(key, e.check, i);
        assert(code_of(r.password[i]) == v);
        let cc = char_of_code(v);
        assert(code_of(cc) == v);
        vstd::utf8::char_u32_cast(cc, v);
        vstd::utf8::char_u32_cast(r.password[i], v);
    }
    assert(d.unwrap().password =~= r.password);
    assert(d.unwrap() =~= r);
}

/// Wrong key detection: whenever the one-way key check rejects a passphrase
/// — which it does for every passphrase but the one that made the
/// encryption, short of a bcrypt collision — decryption under it is reported
/// as `IncorrectPassphrase`, never a silently different plaintext.
pub proof fn lemma_wrong_key_detected(
    e: EncryptedCredentialsView,
    r: CredentialsView,
    p1: Seq<char>,
    p2: Seq<char>,
)
    requires
        encrypts(e, r, p1),
        !bcrypt_verifies(p2, e.check),
    ensures
        decrypt_spec(e, p2) == Err::<CredentialsView, VaultError>(VaultError::IncorrectPassphrase),
{
}

} // verus!
