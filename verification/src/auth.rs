//! Password login and bearer tokens.
//!
//! Only a SHA-256 of each issued token is stored, so the database alone
//! cannot be replayed against the API; the password itself is never stored,
//! only its Argon2 hash.

use vstd::prelude::*;
use argon2::password_hash::{PasswordHasher, PasswordVerifier, Salt, SaltString};
use crate::chars::{to_chars, from_chars, extend_chars, trim, trim_chars, slice_chars, starts_with};
use crate::error::AppError;
use crate::settings::has_prefix;
use vstd::string::StringSliceAdditionalSpecFns;

verus! {

// ---------------------------------------------------------------------------
// Outside computations
// ---------------------------------------------------------------------------

/// SHA-256 of `data`, as the `sha2` crate computes it.
pub uninterp spec fn sha256_of(data: Seq<u8>) -> Seq<u8>;

/// `<sha2::Sha256 as Digest>::digest`: the SHA-256 digest of `data`, which
/// is 32 bytes long.
#[verifier::external_body]
fn sha256(data: &[u8]) -> (r: Vec<u8>)
    ensures
        r@ == sha256_of(data@),
        r@.len() == 32,
{
    <sha2::Sha256 as sha2::Digest>::digest(data).to_vec()
}

/// Lowercase hexadecimal digit for `d < 16`.
pub open spec fn hex_digit(d: int) -> char {
    if d < 10 {
        (48 + d) as char
    } else {
        (87 + d) as char
    }
}

/// Two lowercase hex digits per byte, high nibble first.
pub open spec fn hex_text(bytes: Seq<u8>) -> Seq<char>
    decreases bytes.len(),
{
    if bytes.len() == 0 {
        Seq::empty()
    } else {
        hex_text(bytes.drop_last()) + seq![
            hex_digit(bytes.last() as int / 16),
            hex_digit(bytes.last() as int % 16),
        ]
    }
}

/// `hex::encode`: every byte as two lowercase hex digits, in order.
#[verifier::external_body]
fn hex_encode(bytes: &[u8]) -> (r: String)
    ensures
        r@ == hex_text(bytes@),
{
    hex::encode(bytes)
}

/// Lowercase hexadecimal digits only.
pub open spec fn is_lower_hex(s: Seq<char>) -> bool {
    forall|i: int| 0 <= i < s.len() ==> ('0' <= #[trigger] s[i] && s[i] <= '9') || ('a' <= s[i] && s[i] <= 'f')
}

/// Every byte becomes two lowercase hex digits.
pub proof fn lemma_hex_text(b: Seq<u8>)
    ensures
        hex_text(b).len() == 2 * b.len(),
        is_lower_hex(hex_text(b)),
    decreases b.len(),
{
    if b.len() > 0 {
        lemma_hex_text(b.drop_last());
        let h = hex_text(b);
        let p = hex_text(b.drop_last());
        let x = b.last() as int;
        assert(0 <= x / 16 < 16 && 0 <= x % 16 < 16);
        assert forall|i: int| 0 <= i < h.len() implies ('0' <= #[trigger] h[i] && h[i] <= '9') || ('a' <= h[i]
            && h[i] <= 'f') by {
            if i < p.len() {
                assert(h[i] == p[i]);
            }
        }
    }
}

/// A UUID's hyphenated form: its 32 hex digits grouped 8-4-4-4-12.
pub open spec fn hyphenated_text(b: Seq<u8>) -> Seq<char> {
    let h = hex_text(b);
    h.subrange(0, 8) + seq!['-'] + h.subrange(8, 12) + seq!['-'] + h.subrange(12, 16) + seq!['-']
        + h.subrange(16, 20) + seq!['-'] + h.subrange(20, 32)
}

/// Whether 16 octets are a UUID of the given version with the RFC 4122
/// variant: the version in the high nibble of octet 6, `10` in the top two
/// bits of octet 8.
pub open spec fn uuid_shaped(b: Seq<u8>, version: int) -> bool {
    &&& b.len() == 16
    &&& b[6] as int / 16 == version
    &&& b[8] as int / 64 == 2
}

/// `uuid::Uuid::new_v4`, as its 16 octets: random bytes from the operating
/// system's CSPRNG with the version (4) and variant bits set. Nothing is
/// promised of the other bits.
#[verifier::external_body]
pub(crate) fn new_v4() -> (r: [u8; 16])
    ensures
        uuid_shaped(r@, 4),
{
    *uuid::Uuid::new_v4().as_bytes()
}

/// `uuid::Uuid::now_v7`, as its 16 octets: a time-ordered UUID for the
/// current time, with the version (7) and variant bits set. Nothing is
/// promised of the time or counter bits.
#[verifier::external_body]
pub(crate) fn now_v7() -> (r: [u8; 16])
    ensures
        uuid_shaped(r@, 7),
{
    *uuid::Uuid::now_v7().as_bytes()
}

/// `Uuid::from_bytes(bytes).simple()` as text: each byte as two lowercase
/// hex digits, high nibble first, as the crate's formatter writes them.
#[verifier::external_body]
pub(crate) fn uuid_simple(bytes: &[u8; 16]) -> (r: String)
    ensures
        r@ == hex_text(bytes@),
{
    uuid::Uuid::from_bytes(*bytes).simple().to_string()
}

/// `Uuid::from_bytes(bytes).to_string()`: the same hex digits, grouped
/// 8-4-4-4-12 with hyphens.
#[verifier::external_body]
pub(crate) fn uuid_hyphenated(bytes: &[u8; 16]) -> (r: String)
    ensures
        r@ == hyphenated_text(bytes@),
{
    uuid::Uuid::from_bytes(*bytes).to_string()
}

/// What `SaltString::encode_b64` makes of `bytes`: their unpadded B64 text.
pub uninterp spec fn b64_of(bytes: Seq<u8>) -> Seq<char>;

/// `SaltString::encode_b64`, as the salt's text: the bytes in B64. The salt
/// holds up to 64 characters, so encoding fails only for more than 48 bytes
/// (`base64ct` refuses only output that does not fit); what an error says is
/// left unsaid.
#[verifier::external_body]
fn encode_salt(bytes: &[u8]) -> (r: Result<String, String>)
    ensures
        r matches Ok(text) ==> text@ == b64_of(bytes@),
        bytes@.len() <= 48 ==> r is Ok,
{
    SaltString::encode_b64(bytes).map(|salt| salt.as_str().to_owned()).map_err(|err| err.to_string())
}

/// Whether `phc` is a PHC string `argon2` can read.
pub uninterp spec fn phc_valid(phc: Seq<char>) -> bool;

/// Whether Argon2 accepts `plain` for the PHC string `phc`.
pub uninterp spec fn argon2_accepts(plain: Seq<char>, phc: Seq<char>) -> bool;

/// `Argon2::default().hash_password(..).to_string()` with the salt given by
/// its B64 text: the password hashed with the default parameters (Argon2id
/// v19), as a PHC string. As the crate documents, the string parses back and
/// accepts the password it was made from. With a salt that is the B64 text
/// of 8 to 48 bytes, the crate's source refuses only a password longer than
/// `0xFFFF_FFFF` bytes. Which string it is (it embeds the salt) and what an
/// error says are left unsaid.
#[verifier::external_body]
fn argon2_hash(plain: &str, salt: &str) -> (r: Result<String, String>)
    ensures
        r matches Ok(h) ==> phc_valid(h@) && argon2_accepts(plain@, h@),
        (exists|b: Seq<u8>| 8 <= b.len() <= 48 && salt@ == #[trigger] b64_of(b)) ==> (r is Ok <==> plain.spec_bytes().len()
            <= 0xFFFF_FFFF),
{
    let salt = Salt::from_b64(salt).map_err(|err| err.to_string())?;
    argon2::Argon2::default()
        .hash_password(plain.as_bytes(), salt)
        .map(|hash| hash.to_string())
        .map_err(|err| err.to_string())
}

/// `PasswordHash::new` then `Argon2::default().verify_password`: nothing when
/// `phc` is not a PHC string, otherwise whether the password matches it.
#[verifier::external_body]
fn argon2_verify(plain: &str, phc: &str) -> (r: Option<bool>)
    ensures
        r is Some == phc_valid(phc@),
        r matches Some(ok) ==> ok == argon2_accepts(plain@, phc@),
{
    match argon2::PasswordHash::new(phc) {
        Ok(parsed) => Some(argon2::Argon2::default().verify_password(plain.as_bytes(), &parsed).is_ok()),
        Err(_) => None,
    }
}

// ---------------------------------------------------------------------------
// Passwords and tokens
// ---------------------------------------------------------------------------

/// Hashes a password for storage. The salt is the 16 bytes of a random v4
/// UUID, straight from the OS CSPRNG, which is exactly what a salt needs.
/// Only a password longer than Argon2 takes (`0xFFFF_FFFF` bytes) is refused.
pub fn hash_password(plain: &str) -> (r: Result<String, String>)
    ensures
        r is Ok <==> plain.spec_bytes().len() <= 0xFFFF_FFFF,
        r matches Ok(h) ==> phc_valid(h@) && argon2_accepts(plain@, h@),
        r matches Err(m) ==> has_prefix(m@, "failed to hash password: "@),
{
    let salt_bytes = new_v4();
    let salt = match encode_salt(salt_bytes.as_slice()) {
        Ok(salt) => salt,
        Err(err) => {
            let mut msg = to_chars("failed to encode password salt: ");
            extend_chars(&mut msg, &to_chars(err.as_str()));
            return Err(from_chars(&msg));
        },
    };
    assert(8 <= salt_bytes@.len() <= 48 && salt@ == b64_of(salt_bytes@));
    match argon2_hash(plain, salt.as_str()) {
        Ok(hash) => Ok(hash),
        Err(err) => {
            let prefix = to_chars("failed to hash password: ");
            let mut msg = to_chars("failed to hash password: ");
            extend_chars(&mut msg, &to_chars(err.as_str()));
            assert(msg@.take(prefix@.len() as int) =~= prefix@);
            Err(from_chars(&msg))
        },
    }
}

/// Whether `plain` is the password `phc` was made from. A configured hash that
/// is not a valid PHC string accepts nothing.
pub fn verify_password(plain: &str, phc: &str) -> (ok: bool)
    ensures
        ok == (phc_valid(phc@) && argon2_accepts(plain@, phc@)),
{
    match argon2_verify(plain, phc) {
        Some(ok) => ok,
        None => false,
    }
}

/// A fresh bearer token: 64 lowercase hex characters from two random v4
/// UUIDs, about 244 bits.
pub fn new_token() -> (t: String)
    ensures
        t@.len() == 64,
        is_lower_hex(t@),
        exists|a: Seq<u8>, b: Seq<u8>|
            uuid_shaped(a, 4) && uuid_shaped(b, 4) && t@ == #[trigger] hex_text(a) + #[trigger] hex_text(b),
{
    let first_bytes = new_v4();
    let second_bytes = new_v4();
    proof {
        lemma_hex_text(first_bytes@);
        lemma_hex_text(second_bytes@);
    }
    let mut out = to_chars(uuid_simple(&first_bytes).as_str());
    let second = to_chars(uuid_simple(&second_bytes).as_str());
    extend_chars(&mut out, &second);
    assert forall|i: int| 0 <= i < out@.len() implies ('0' <= #[trigger] out@[i] && out@[i] <= '9') || (
    'a' <= out@[i] && out@[i] <= 'f') by {
        if i >= 32 {
            assert(out@[i] == second@[i - 32]);
        }
    }
    assert(out@ == hex_text(first_bytes@) + hex_text(second_bytes@));
    from_chars(&out)
}

/// What is stored for a token: the hex SHA-256 of its UTF-8 bytes.
pub fn token_hash(token: &str) -> (h: String)
    ensures
        h@ == hex_text(sha256_of(token.spec_bytes())),
{
    hex_encode(sha256(token.as_bytes()).as_slice())
}

// ---------------------------------------------------------------------------
// Request rules
// ---------------------------------------------------------------------------

/// The token an `Authorization` header carries: what follows `Bearer `,
/// trimmed, when anything is left.
pub open spec fn bearer_of(header: Option<Seq<char>>) -> Option<Seq<char>> {
    match header {
        Some(h) => if has_prefix(h, "Bearer "@) && trim(h.skip(7)).len() > 0 {
            Some(trim(h.skip(7)))
        } else {
            None
        },
        None => None,
    }
}

pub fn bearer_token(header: Option<&str>) -> (r: Option<String>)
    ensures
        match r {
            Some(t) => bearer_of(match header {
                Some(h) => Some(h@),
                None => None,
            }) == Some(t@),
            None => bearer_of(match header {
                Some(h) => Some(h@),
                None => None,
            }) is None,
        },
{
    match header {
        None => None,
        Some(h) => {
            let v = to_chars(h);
            let prefix = to_chars("Bearer ");
            proof {
                reveal_strlit("Bearer ");
            }
            if !starts_with(&v, &prefix) {
                return None;
            }
            let rest = slice_chars(&v, 7, v.len());
            assert(v@.subrange(7, v@.len() as int) == v@.skip(7));
            let token = trim_chars(&rest);
            if token.len() == 0 {
                return None;
            }
            Some(from_chars(&token))
        },
    }
}

/// The password hash from the configuration, when one is configured; a blank
/// one means the owner sets the password through the web client instead.
pub fn configured_hash(config_hash: &str) -> (r: Option<String>)
    ensures
        match r {
            Some(h) => trim(config_hash@).len() > 0 && h@ == config_hash@,
            None => trim(config_hash@).len() == 0,
        },
{
    let v = to_chars(config_hash);
    if trim_chars(&v).len() > 0 {
        Some(from_chars(&v))
    } else {
        None
    }
}

/// Whether a first-time setup may set this password. The length is checked
/// first, in characters, not bytes.
pub fn setup_check(password: &str, initialized: bool) -> (r: Result<(), AppError>)
    ensures
        password@.len() < 8 ==> (r matches Err(AppError::BadRequest(m)) && m@ == "密码至少需要 8 个字符"@),
        password@.len() >= 8 && initialized ==> (r matches Err(AppError::BadRequest(m)) && m@
            == "密码已经设置，请直接登录"@),
        password@.len() >= 8 && !initialized ==> r is Ok,
{
    if to_chars(password).len() < 8 {
        return Err(AppError::BadRequest(String::from_str("密码至少需要 8 个字符")));
    }
    if initialized {
        return Err(AppError::BadRequest(String::from_str("密码已经设置，请直接登录")));
    }
    Ok(())
}

/// The password row is written only if none exists; losing that race means a
/// password was set in the meantime.
pub fn setup_stored(rows_affected: u64) -> (r: Result<(), AppError>)
    ensures
        rows_affected == 0 ==> (r matches Err(AppError::BadRequest(m)) && m@ == "密码已经设置，请直接登录"@),
        rows_affected > 0 ==> r is Ok,
{
    if rows_affected == 0 {
        Err(AppError::BadRequest(String::from_str("密码已经设置，请直接登录")))
    } else {
        Ok(())
    }
}

/// Whether a login with `password` succeeds against the stored hash.
pub fn login_check(stored_hash: Option<&str>, password: &str) -> (r: Result<(), AppError>)
    ensures
        match stored_hash {
            None => r matches Err(AppError::BadRequest(m)) && m@ == "尚未设置密码，请先打开 Web 端完成初始化"@,
            Some(h) => if phc_valid(h@) && argon2_accepts(password@, h@) {
                r is Ok
            } else {
                r == Err::<(), AppError>(AppError::Unauthorized)
            },
        },
{
    match stored_hash {
        None => Err(AppError::BadRequest(String::from_str("尚未设置密码，请先打开 Web 端完成初始化"))),
        Some(h) => if verify_password(password, h) {
            Ok(())
        } else {
            Err(AppError::Unauthorized)
        },
    }
}

} // verus!
