use vstd::prelude::*;

use crate::error::AppError;

verus! {

/// How long an issued token stays valid, in seconds.
pub const TOKEN_TTL_SECS: u64 = 86400;

/// The claims carried by a bearer token: the user it identifies and the
/// absolute time (seconds since the epoch) at which it stops being valid.
#[derive(Debug)]
pub struct Claims {
    pub sub: i32,
    pub exp: u64,
}

/// The identity resolved from a verified token, handed to every order
/// handler; handlers never take a user id from the request itself.
#[derive(Clone, Copy, Debug)]
pub struct AuthContext {
    pub user_id: i32,
}

pub open spec fn invalid_credentials_msg() -> Seq<char> {
    "Invalid username or password"@
}

pub open spec fn missing_header_msg() -> Seq<char> {
    "Missing authorization header"@
}

pub open spec fn invalid_header_msg() -> Seq<char> {
    "Invalid authorization header"@
}

pub open spec fn invalid_token_msg() -> Seq<char> {
    "Invalid token"@
}

pub open spec fn token_encode_err_msg() -> Seq<char> {
    "Token encoding error"@
}

pub open spec fn password_check_err_msg() -> Seq<char> {
    "Password verification error"@
}

/// The token that signing `{sub, exp}` with `secret` produces; it is a
/// function of the three values alone.
pub uninterp spec fn jwt_token(secret: Seq<char>, sub: i32, exp: u64) -> Seq<char>;

/// The claims that decoding `token` against `secret` yields, with the
/// signature checked but the expiry left to the caller; `None` when the
/// token is malformed or its signature does not match.
pub uninterp spec fn jwt_claims(secret: Seq<char>, token: Seq<char>) -> Option<(i64, u64)>;

/// Whether bcrypt accepts `password` against the salted hash `hash`;
/// `None` when `hash` is not a well-formed bcrypt hash.
pub uninterp spec fn bcrypt_check(password: Seq<char>, hash: Seq<char>) -> Option<bool>;

/// Relies on jsonwebtoken::encode with an HS256 header and a symmetric
/// secret: the token it returns is determined by the secret and the
/// claims, and decoding it with the same secret yields those claims back.
/// Signing cannot fail here — the key family matches the algorithm,
/// serializing the fixed header and the two numeric claims is total, and
/// HMAC accepts any key and message — so the result is always present.
#[verifier::external_body]
fn jwt_encode(secret: &str, claims: &Claims) -> (r: Option<String>)
    ensures
        r is Some,
        r matches Some(t) ==> t@ == jwt_token(secret@, claims.sub, claims.exp) && jwt_claims(
            secret@,
            t@,
        ) == Some((claims.sub as i64, claims.exp)),
{
    let mut map = serde_json::Map::new();
    map.insert("sub".to_owned(), serde_json::Value::from(claims.sub));
    map.insert("exp".to_owned(), serde_json::Value::from(claims.exp));
    let key = jsonwebtoken::EncodingKey::from_secret(secret.as_bytes());
    jsonwebtoken::encode(&jsonwebtoken::Header::default(), &serde_json::Value::Object(map), &key)
        .ok()
}

/// Relies on jsonwebtoken::decode with HS256 and expiry validation turned
/// off: the outcome is determined by the secret and the token alone, and
/// is `None` whenever the token is malformed or wrongly signed.
#[verifier::external_body]
fn jwt_decode(secret: &str, token: &str) -> (r: Option<(i64, u64)>)
    ensures
        r == jwt_claims(secret@, token@),
{
    let mut validation = jsonwebtoken::Validation::new(jsonwebtoken::Algorithm::HS256);
    validation.validate_exp = false;
    let key = jsonwebtoken::DecodingKey::from_secret(secret.as_bytes());
    let data = jsonwebtoken::decode::<serde_json::Value>(token, &key, &validation).ok()?;
    let sub = data.claims.get("sub").and_then(serde_json::Value::as_i64)?;
    let exp = data.claims.get("exp").and_then(serde_json::Value::as_u64)?;
    Some((sub, exp))
}

/// Relies on bcrypt::verify: whether `password` matches the salted hash
/// `hash`; the result depends on the two arguments alone.
#[verifier::external_body]
pub(crate) fn bcrypt_verify(password: &str, hash: &str) -> (r: Option<bool>)
    ensures
        r == bcrypt_check(password@, hash@),
{
    bcrypt::verify(password, hash).ok()
}

/// A token is accepted at time `now` when it decodes against the secret,
/// its subject fits a user id, and its expiry lies strictly in the future.
pub open spec fn token_accepted(secret: Seq<char>, token: Seq<char>, now: u64) -> bool {
    &&& jwt_claims(secret, token) is Some
    &&& i32::MIN as i64 <= jwt_claims(secret, token).unwrap().0 <= i32::MAX as i64
    &&& now < jwt_claims(secret, token).unwrap().1
}

/// The user id named by a token that decodes.
pub open spec fn token_subject(secret: Seq<char>, token: Seq<char>) -> i64 {
    jwt_claims(secret, token).unwrap().0
}

/// Issues a signed token for `user_id` that expires `TOKEN_TTL_SECS`
/// after `now`.  Issuance is owed: with a symmetric secret, signing
/// cannot fail, so the result is the token itself, a function of the
/// secret, the subject and the expiry alone.
pub fn generate_token(secret: &str, user_id: i32, now: u64) -> (r: Result<String, AppError>)
    requires
        now + TOKEN_TTL_SECS <= u64::MAX,
    ensures
        r is Ok,
        r matches Ok(t) ==> (t@ == jwt_token(secret@, user_id, (now + TOKEN_TTL_SECS) as u64)
            && jwt_claims(secret@, t@) == Some((user_id as i64, (now + TOKEN_TTL_SECS) as u64))
            && token_accepted(secret@, t@, now) && token_subject(secret@, t@) == user_id as i64),
{
    let claims = Claims { sub: user_id, exp: now + TOKEN_TTL_SECS };
    let token = jwt_encode(secret, &claims).unwrap();
    Ok(token)
}

/// Checks signature and expiry and returns the token's subject.  Any
/// failure — bad signature, malformed structure, or expiry — collapses
/// into one authentication error, so a caller cannot tell them apart.
pub fn verify_token(secret: &str, token: &str, now: u64) -> (r: Result<i32, AppError>)
    ensures
        token_accepted(secret@, token@, now) ==> (r matches Ok(uid) && uid as i64
            == token_subject(secret@, token@)),
        !token_accepted(secret@, token@, now) ==> (r matches Err(e) && e
            matches AppError::AuthError(m) && m@ == invalid_token_msg()),
{
    match jwt_decode(secret, token) {
        Some((sub, exp)) => {
            if now < exp && i32::MIN as i64 <= sub && sub <= i32::MAX as i64 {
                Ok(sub as i32)
            } else {
                Err(AppError::AuthError("Invalid token".to_owned()))
            }
        },
        None => Err(AppError::AuthError("Invalid token".to_owned())),
    }
}

/// An expired token and a token that does not decode at all fare the
/// same: neither is accepted, so `verify_token` returns the identical
/// authentication error for both.
pub proof fn lemma_expired_like_malformed(
    secret: Seq<char>,
    expired: Seq<char>,
    malformed: Seq<char>,
    now: u64,
)
    requires
        jwt_claims(secret, expired) matches Some(c) && c.1 <= now,
        jwt_claims(secret, malformed) is None,
    ensures
        !token_accepted(secret, expired, now),
        !token_accepted(secret, malformed, now),
{
}

/// A well-formed authorization header is exactly the scheme `Bearer `
/// (case-sensitive, with the single space) followed by the token.
pub open spec fn bearer_wellformed(h: Seq<char>) -> bool {
    h.len() >= 7 && h.subrange(0, 7) == "Bearer "@
}

/// The token part of a well-formed authorization header.
pub open spec fn bearer_token(h: Seq<char>) -> Seq<char> {
    h.subrange(7, h.len() as int)
}

/// Strips the `Bearer ` scheme off an authorization header, rejecting
/// any other shape with an authentication error.
pub fn extract_bearer(header: &str) -> (r: Result<String, AppError>)
    ensures
        bearer_wellformed(header@) ==> (r matches Ok(t) && t@ == bearer_token(header@)),
        !bearer_wellformed(header@) ==> (r matches Err(e) && e matches AppError::AuthError(m)
            && m@ == invalid_header_msg()),
{
    proof {
        reveal_strlit("Bearer ");
    }
    let n = header.unicode_len();
    if n < 7 {
        return Err(AppError::AuthError("Invalid authorization header".to_owned()));
    }
    if header.get_char(0) != 'B' || header.get_char(1) != 'e' || header.get_char(2) != 'a'
        || header.get_char(3) != 'r' || header.get_char(4) != 'e' || header.get_char(5) != 'r'
        || header.get_char(6) != ' ' {
        proof {
            if bearer_wellformed(header@) {
                assert forall|i: int| 0 <= i < 7 implies header@[i] == "Bearer "@[i] by {
                    assert(header@.subrange(0, 7)[i] == header@[i]);
                }
            }
        }
        return Err(AppError::AuthError("Invalid authorization header".to_owned()));
    }
    proof {
        assert forall|i: int| 0 <= i < 7 implies header@.subrange(0, 7)[i] == "Bearer "@[i] by {
            assert(header@.subrange(0, 7)[i] == header@[i]);
        }
        assert(header@.subrange(0, 7) =~= "Bearer "@);
    }
    let token = header.substring_char(7, n);
    Ok(token.to_owned())
}

/// The whole per-request authentication path: header present, scheme
/// well-formed, token verified; on success the resolved identity, on any
/// failure the corresponding authentication error.  The store is never
/// consulted: a request without a header is rejected on this evidence
/// alone.
pub fn authenticate(secret: &str, header: Option<&String>, now: u64) -> (r: Result<
    AuthContext,
    AppError,
>)
    ensures
        header is None ==> (r matches Err(e) && e matches AppError::AuthError(m) && m@
            == missing_header_msg()),
        header matches Some(h) ==> ({
            let tok = bearer_token(h@);
            &&& !bearer_wellformed(h@) ==> (r matches Err(e) && e matches AppError::AuthError(m)
                && m@ == invalid_header_msg())
            &&& bearer_wellformed(h@) && token_accepted(secret@, tok, now) ==> (r matches Ok(ctx)
                && ctx.user_id as i64 == token_subject(secret@, tok))
            &&& bearer_wellformed(h@) && !token_accepted(secret@, tok, now) ==> (r matches Err(e)
                && e matches AppError::AuthError(m) && m@ == invalid_token_msg())
        }),
{
    let h = match header {
        Some(h) => h,
        None => return Err(AppError::AuthError("Missing authorization header".to_owned())),
    };
    let token = match extract_bearer(h.as_str()) {
        Ok(t) => t,
        Err(e) => return Err(e),
    };
    let uid = match verify_token(secret, token.as_str(), now) {
        Ok(u) => u,
        Err(e) => return Err(e),
    };
    Ok(AuthContext { user_id: uid })
}

} // verus!
