//! The credential service: password hashing and verification, token
//! issuance and verification.
//!
//! Tokens carry subject id, username, issued-at and an expiry seven days
//! after issuance, signed with a symmetric secret. Verification fails
//! closed with a uniform `Unauthorized` classification.

use vstd::prelude::*;

use crate::errors::AppError;

verus! {

/// Seconds in the seven-day token lifetime.
pub const TOKEN_LIFETIME_SECONDS: u64 = 604800;

/// The issued-at instant a token minted "now" carries: the clock reading,
/// clamped to the epoch if it reads earlier.
pub open spec fn iat_of(now: i64) -> int {
    if now >= 0 {
        now as int
    } else {
        0
    }
}

/// The identity a verified token yields.
pub struct Claims {
    /// Subject: the user's identifier.
    pub sub: i32,
    pub username: String,
    /// Expiry, seconds since the Unix epoch.
    pub exp: u64,
    /// Issued-at, seconds since the Unix epoch.
    pub iat: u64,
}

/// The signed token that encoding the given claims with the given secret
/// produces. Named, not spelled out: the encoding (header, JSON claims,
/// HMAC signature, base64) is the outside crate's business; it depends on
/// these arguments alone.
pub uninterp spec fn token_of(
    sub: int,
    username: Seq<char>,
    exp: int,
    iat: int,
    secret: Seq<char>,
) -> Seq<char>;

/// Whether a password verifies against a stored hash. Named, not spelled
/// out: it stands for the outside hashing scheme's verification relation,
/// a pure function of the two strings.
pub uninterp spec fn password_matches(password: Seq<char>, hash: Seq<char>) -> bool;

#[verifier::external_type_specification]
#[verifier::external_body]
pub struct ExBcryptError(bcrypt::BcryptError);

#[verifier::external_type_specification]
#[verifier::external_body]
pub struct ExJwtError(jsonwebtoken::errors::Error);

/// Hash a password, salted, at the hashing crate's default cost.
///
/// Relies on `bcrypt::hash`: a returned hash embeds its salt and cost, and
/// `bcrypt::verify` of the same password against it re-derives the digest
/// and reports a match.
#[verifier::external_body]
pub fn hash_password(password: &str) -> (r: Result<String, bcrypt::BcryptError>)
    ensures
        r is Ok ==> password_matches(password@, r->Ok_0@),
{
    bcrypt::hash(password, bcrypt::DEFAULT_COST)
}

/// Check a password against a stored hash.
///
/// Relies on `bcrypt::verify`, a pure function of the password and the
/// hash (the salt and cost come out of the hash string): `password_matches`
/// names the outcome "it returned `Ok(true)`", so a parse failure of the
/// hash or a digest mismatch both fall on the `false` side.
#[verifier::external_body]
pub fn verify_password(password: &str, hash: &str) -> (r: Result<bool, bcrypt::BcryptError>)
    ensures
        (r is Ok && r->Ok_0 == true) == password_matches(password@, hash@),
{
    bcrypt::verify(password, hash)
}

/// Relies on `jsonwebtoken::encode` with the default (HS256) header over
/// an HMAC secret: the token is a deterministic function of the claims and
/// the secret, which `token_of` names. For this construction the call
/// cannot fail: the header's algorithm family matches the key's, the
/// header and the claims object always serialize, and the HMAC signature
/// is total.
#[verifier::external_body]
fn jwt_encode(sub: i32, username: &str, exp: u64, iat: u64, secret: &str) -> (r: Result<
    String,
    jsonwebtoken::errors::Error,
>)
    ensures
        r is Ok,
        r->Ok_0@ == token_of(sub as int, username@, exp as int, iat as int, secret@),
{
    let mut claims = serde_json::Map::new();
    claims.insert("sub".to_string(), serde_json::Value::from(sub));
    claims.insert("username".to_string(), serde_json::Value::from(username));
    claims.insert("exp".to_string(), serde_json::Value::from(exp));
    claims.insert("iat".to_string(), serde_json::Value::from(iat));
    jsonwebtoken::encode(
        &jsonwebtoken::Header::default(),
        &claims,
        &jsonwebtoken::EncodingKey::from_secret(secret.as_bytes()),
    )
}

/// Relies on `jsonwebtoken::decode` with signature checking on and expiry
/// checking off: a token encoded from given claims under the same secret
/// decodes back to exactly those claims (they are embedded in the token's
/// own payload bytes, which the signature covers).
#[verifier::external_body]
fn jwt_decode_noexp(token: &str, secret: &str) -> (r: Option<Claims>)
    ensures
        forall|sub: int, username: Seq<char>, exp: int, iat: int|
            #[trigger] token_of(sub, username, exp, iat, secret@) == token@ && i32::MIN <= sub
                <= i32::MAX && 0 <= exp <= u64::MAX && 0 <= iat <= u64::MAX ==> r is Some
                && r->0.sub == sub && r->0.username@ == username && r->0.exp == exp && r->0.iat
                == iat,
{
    let mut validation = jsonwebtoken::Validation::default();
    validation.validate_exp = false;
    validation.required_spec_claims.clear();
    let key = jsonwebtoken::DecodingKey::from_secret(secret.as_bytes());
    let data = jsonwebtoken::decode::<serde_json::Value>(token, &key, &validation).ok()?;
    let c = data.claims;
    Some(Claims {
        sub: i32::try_from(c.get("sub")?.as_i64()?).ok()?,
        username: c.get("username")?.as_str()?.to_string(),
        exp: c.get("exp")?.as_u64()?,
        iat: c.get("iat")?.as_u64()?,
    })
}

/// Relies on `time::OffsetDateTime::now_utc`: the current instant, as
/// whole seconds since the Unix epoch. Nothing is assumed of the clock.
#[verifier::external_body]
fn now_unix() -> i64 {
    time::OffsetDateTime::now_utc().unix_timestamp()
}

/// Relies on `jsonwebtoken`'s error kinds to manufacture the uniform
/// rejection value; nothing is assumed of it.
#[verifier::external_body]
fn invalid_token_error() -> jsonwebtoken::errors::Error {
    jsonwebtoken::errors::ErrorKind::InvalidToken.into()
}

/// Issue a signed token for the user, minted at `iat` and expiring seven
/// days later.
pub fn issue_token_at(user_id: i32, username: &str, iat: u64, secret: &str) -> (r: Result<
    String,
    jsonwebtoken::errors::Error,
>)
    requires
        iat + TOKEN_LIFETIME_SECONDS <= u64::MAX,
    ensures
        r is Ok,
        r->Ok_0@ == token_of(
            user_id as int,
            username@,
            iat + TOKEN_LIFETIME_SECONDS,
            iat as int,
            secret@,
        ),
{
    jwt_encode(user_id, username, iat + TOKEN_LIFETIME_SECONDS, iat, secret)
}

/// Check a bearer token against the secret at an explicit instant. A token
/// issued by [`issue_token_at`] verifies exactly as long as `now` has not
/// passed its expiry; every rejection is the uniform `Unauthorized`.
pub fn verify_token_at(token: &str, secret: &str, now: u64) -> (r: Result<Claims, AppError>)
    ensures
        r is Err ==> r->Err_0 is Unauthorized,
        r is Ok ==> now <= r->Ok_0.exp,
        forall|sub: int, username: Seq<char>, exp: int, iat: int|
            #[trigger] token_of(sub, username, exp, iat, secret@) == token@ && i32::MIN <= sub
                <= i32::MAX && 0 <= exp <= u64::MAX && 0 <= iat <= u64::MAX ==> ((r is Ok <==> now
                <= exp) && (r is Ok ==> r->Ok_0.sub == sub && r->Ok_0.username@ == username
                && r->Ok_0.exp == exp && r->Ok_0.iat == iat)),
{
    match jwt_decode_noexp(token, secret) {
        Some(c) => {
            if now <= c.exp {
                Ok(c)
            } else {
                Err(AppError::Unauthorized("Invalid token".to_string()))
            }
        },
        None => Err(AppError::Unauthorized("Invalid token".to_string())),
    }
}

/// Issue a token for the user, minted at the current instant (clamped to
/// the epoch if the clock reads earlier) and expiring seven days later.
pub fn create_jwt(user_id: i32, username: String, secret: &str) -> (r: Result<
    String,
    jsonwebtoken::errors::Error,
>)
    ensures
        r is Ok,
        exists|iat: int, exp: int|
            0 <= iat && exp == iat + TOKEN_LIFETIME_SECONDS && r->Ok_0@ == #[trigger] token_of(
                user_id as int,
                username@,
                exp,
                iat,
                secret@,
            ),
{
    let now = now_unix();
    let iat: u64 = if now >= 0 {
        now as u64
    } else {
        0
    };
    issue_token_at(user_id, username.as_str(), iat, secret)
}

/// Verify a token against the current instant (clamped to the epoch if the
/// clock reads earlier): of a token issued for given claims only those
/// claims can come back.
pub fn verify_jwt(token: &str, secret: &str) -> (r: Result<Claims, jsonwebtoken::errors::Error>)
    ensures
        forall|sub: int, username: Seq<char>, exp: int, iat: int|
            #[trigger] token_of(sub, username, exp, iat, secret@) == token@ && i32::MIN <= sub
                <= i32::MAX && 0 <= exp <= u64::MAX && 0 <= iat <= u64::MAX ==> (r is Ok ==> r->Ok_0.sub
                == sub && r->Ok_0.username@ == username && r->Ok_0.exp == exp && r->Ok_0.iat
                == iat),
{
    let now = now_unix();
    let at: u64 = if now >= 0 {
        now as u64
    } else {
        0
    };
    match verify_token_at(token, secret, at) {
        Ok(c) => Ok(c),
        Err(_) => Err(invalid_token_error()),
    }
}

} // verus!

