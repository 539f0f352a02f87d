//! Authentication support: roles, login payloads, token claims, and
//! the trusted bridges to the password-hashing and token libraries.
//!
//! The decisions — which header carries the token, how claims are
//! built, how failures map to the library's own errors — are verified;
//! the cryptography itself is delegated and trusted.

use crate::strutil::str_eq;
use argon2::PasswordHasher;
use argon2::PasswordVerifier;
use vstd::prelude::*;
use vstd::string::StrSliceExecFns;
use vstd::string::StringExecFns;

verus! {

/// What a user is allowed to do.
#[derive(Clone, Copy, Debug, PartialEq, Eq, Structural)]
pub enum UserRole {
    Admin,
    User,
    Guest,
}

impl UserRole {
    /// The canonical display name of a role.
    pub open spec fn label_spec(self) -> Seq<char> {
        match self {
            UserRole::Admin => "Admin"@,
            UserRole::User => "User"@,
            UserRole::Guest => "Guest"@,
        }
    }

    /// Returns the display name of this role.
    pub fn label(&self) -> (r: String)
        ensures
            r@ == self.label_spec(),
    {
        match self {
            UserRole::Admin => String::from_str("Admin"),
            UserRole::User => String::from_str("User"),
            UserRole::Guest => String::from_str("Guest"),
        }
    }

    /// The role denoted by `s`, accepting the capitalised and the
    /// lower-case spelling of each name.
    pub open spec fn from_str_spec(s: Seq<char>) -> Result<UserRole, ()> {
        if s == "Admin"@ || s == "admin"@ {
            Ok(UserRole::Admin)
        } else if s == "User"@ || s == "user"@ {
            Ok(UserRole::User)
        } else if s == "Guest"@ || s == "guest"@ {
            Ok(UserRole::Guest)
        } else {
            Err(())
        }
    }

    /// Parses a role name.
    pub fn from_str(s: &str) -> (r: Result<UserRole, ()>)
        ensures
            r == UserRole::from_str_spec(s@),
    {
        if str_eq(s, "Admin") || str_eq(s, "admin") {
            Ok(UserRole::Admin)
        } else if str_eq(s, "User") || str_eq(s, "user") {
            Ok(UserRole::User)
        } else if str_eq(s, "Guest") || str_eq(s, "guest") {
            Ok(UserRole::Guest)
        } else {
            Err(())
        }
    }
}

/// The payload of a login request.
#[derive(Debug, PartialEq)]
pub struct LoginUserSchema {
    pub email: String,
    pub password: String,
}

/// The claims carried by a session token: issue time, subject, and
/// expiry, all times in seconds since the epoch.
#[derive(Debug, PartialEq)]
pub struct TokenClaims {
    pub iat: u64,
    pub sub: String,
    pub exp: u64,
}

impl Clone for TokenClaims {
    fn clone(&self) -> (r: Self)
        ensures
            r == *self,
    {
        TokenClaims { iat: self.iat, sub: self.sub.clone(), exp: self.exp }
    }
}

/// Why a token could not be made or read.
#[derive(Clone, Copy, Debug, PartialEq, Eq, Structural)]
pub enum TokenError {
    /// The subject is empty, or the token did not decode to a subject.
    InvalidSubject,
    /// The token library failed to sign the claims.
    EncodingFailed,
}

/// The expiry that a token issued at `iat` with a lifetime of
/// `expires_in_seconds` minutes carries: `iat + 60 * expires`, clamped
/// into the unsigned 64-bit range.
pub open spec fn token_exp_spec(iat: u64, expires_in_seconds: i64) -> u64 {
    let e = iat + 60 * expires_in_seconds;
    if e < 0 {
        0u64
    } else if e > u64::MAX {
        u64::MAX
    } else {
        e as u64
    }
}

/// Builds the claims of a session token.
///
/// Fails with `InvalidSubject` exactly when the subject is empty.
pub fn token_claims(user_id: &str, iat: u64, expires_in_seconds: i64) -> (r: Result<
    TokenClaims,
    TokenError,
>)
    ensures
        user_id@.len() == 0 ==> r == Err::<TokenClaims, TokenError>(TokenError::InvalidSubject),
        user_id@.len() > 0 ==> (r matches Ok(c) && c.sub@ == user_id@ && c.iat == iat && c.exp
            == token_exp_spec(iat, expires_in_seconds)),
{
    if user_id.is_empty() {
        return Err(TokenError::InvalidSubject);
    }
    let delta: i128 = 60i128 * (expires_in_seconds as i128);
    let e: i128 = (iat as i128) + delta;
    let exp: u64 = if e < 0 {
        0
    } else if e > u64::MAX as i128 {
        u64::MAX
    } else {
        e as u64
    };
    Ok(TokenClaims { iat, sub: user_id.to_owned(), exp })
}

/// The signed compact form that the token library produces for these
/// claims under this secret. HMAC signing is a pure function of its
/// inputs, so the result is determined by them.
pub uninterp spec fn jwt_of(iat: u64, sub: Seq<char>, exp: u64, secret: Seq<u8>) -> Seq<char>;

/// Relies on `jsonwebtoken::encode` with the default HS256 header: the
/// signed compact serialization of the claims, a pure function of
/// claims and secret.
#[verifier::external_body]
fn encode_claims(claims: &TokenClaims, secret: &[u8]) -> (r: Result<
    String,
    jsonwebtoken::errors::Error,
>)
    ensures
        r matches Ok(t) ==> t@ == jwt_of(claims.iat, claims.sub@, claims.exp, secret@),
{
    let mut m = serde_json::Map::new();
    m.insert("iat".to_string(), serde_json::Value::from(claims.iat));
    m.insert("sub".to_string(), serde_json::Value::from(claims.sub.as_str()));
    m.insert("exp".to_string(), serde_json::Value::from(claims.exp));
    jsonwebtoken::encode(
        &jsonwebtoken::Header::default(),
        &serde_json::Value::Object(m),
        &jsonwebtoken::EncodingKey::from_secret(secret),
    )
}

/// The token library's error type, carried through unopened.
#[verifier::external_type_specification]
#[verifier::external_body]
pub struct ExJwtError(jsonwebtoken::errors::Error);

/// Relies on `jsonwebtoken::decode`: verifies the HS256 signature and
/// the standard claims (including expiry against the current clock)
/// and hands back the token's subject. Validation depends on the time
/// of the call, so nothing is promised of the outcome.
#[verifier::external_body]
fn decode_sub(token: &str, secret: &[u8]) -> (r: Result<String, jsonwebtoken::errors::Error>) {
    let data = jsonwebtoken::decode::<std::collections::HashMap<String, serde_json::Value>>(
        token,
        &jsonwebtoken::DecodingKey::from_secret(secret),
        &jsonwebtoken::Validation::new(jsonwebtoken::Algorithm::HS256),
    )?;
    match data.claims.get("sub").and_then(|v| v.as_str()) {
        Some(s) => Ok(s.to_string()),
        None => Err(jsonwebtoken::errors::ErrorKind::InvalidSubject.into()),
    }
}

/// Issues a session token for `user_id`, valid for
/// `expires_in_seconds` minutes from now.
///
/// Fails with `InvalidSubject` exactly when the subject is empty, and
/// with `EncodingFailed` when the token library refuses to sign.
pub fn create_token(user_id: &str, secret: &[u8], expires_in_seconds: i64) -> (r: Result<
    String,
    TokenError,
>)
    ensures
        (r == Err::<String, TokenError>(TokenError::InvalidSubject)) == (user_id@.len() == 0),
        r matches Ok(t) ==> exists|iat: u64|
            t@ == jwt_of(iat, user_id@, token_exp_spec(iat, expires_in_seconds), secret@),
{
    if user_id.is_empty() {
        return Err(TokenError::InvalidSubject);
    }
    let t = crate::runtime::now_ts();
    let iat: u64 = if t < 0 {
        0
    } else {
        t as u64
    };
    let claims = match token_claims(user_id, iat, expires_in_seconds) {
        Ok(c) => c,
        Err(e) => {
            proof {
                assert(false);
            }
            return Err(TokenError::EncodingFailed);
        },
    };
    match encode_claims(&claims, secret) {
        Ok(tok) => {
            proof {
                assert(tok@ == jwt_of(iat, user_id@, token_exp_spec(iat, expires_in_seconds), secret@));
            }
            Ok(tok)
        },
        Err(_) => Err(TokenError::EncodingFailed),
    }
}

/// Reads the subject out of a session token, mapping every failure of
/// the token library to `InvalidSubject`. Whether decoding succeeds
/// depends on the signature and on the clock at the time of the call.
pub fn decode_token(token: &str, secret: &[u8]) -> (r: Result<String, TokenError>)
    ensures
        r is Err ==> r == Err::<String, TokenError>(TokenError::InvalidSubject),
{
    match decode_sub(token, secret) {
        Ok(sub) => Ok(sub),
        Err(_) => Err(TokenError::InvalidSubject),
    }
}

/// Whether a session whose expiry is `expiry_ts` has expired at
/// `now_ts`.
pub fn has_token_expired(expiry_ts: i64, now_ts: i64) -> (r: bool)
    ensures
        r == (expiry_ts < now_ts),
{
    expiry_ts < now_ts
}

/// Whether `hashed` is an Argon2 PHC hash of `password`; a pure
/// function of the two strings, since the salt and the parameters are
/// part of the hash string.
pub uninterp spec fn password_verifies(password: Seq<char>, hash: Seq<char>) -> bool;

/// Relies on `Argon2::verify_password` (the default Argon2id
/// configuration): whether the PHC hash string matches the password.
#[verifier::external_body]
pub fn compare_password(password: &str, hashed_password: &str) -> (r: bool)
    ensures
        r == password_verifies(password@, hashed_password@),
{
    argon2::Argon2::default().verify_password(password.as_bytes(), hashed_password).is_ok()
}

/// Relies on `Argon2::hash_password` (the default Argon2id
/// configuration, random 16-byte salt): a PHC hash string of the
/// password. The salt is random, so only this much is promised: a
/// returned hash verifies against the password that produced it.
#[verifier::external_body]
pub fn hash_password(password: &str) -> (r: Option<String>)
    ensures
        r matches Some(h) ==> password_verifies(password@, h@),
{
    match argon2::Argon2::default().hash_password(password.as_bytes()) {
        Ok(h) => Some(h.to_string()),
        Err(_) => None,
    }
}

/// The 128-bit value that the UUID library reads out of `s` after
/// trimming surrounding whitespace, or nothing when `s` is not a
/// well-formed UUID; a pure function of the string.
pub uninterp spec fn uuid_of(s: Seq<char>) -> Option<u128>;

/// Relies on `uuid::Uuid::parse_str`, applied to the trimmed string.
#[verifier::external_body]
fn parse_uuid(s: &str) -> (r: Option<u128>)
    ensures
        r == uuid_of(s@),
{
    match uuid::Uuid::parse_str(s.trim()) {
        Ok(u) => Some(u.as_u128()),
        Err(_) => None,
    }
}

/// Decodes a session token and resolves its subject to a user
/// identifier, as the request guard does: a token whose subject is
/// not a well-formed UUID is rejected like an undecodable one.
pub fn authenticate_token(token: &str, secret: &[u8]) -> (r: Result<u128, TokenError>)
    ensures
        r is Err ==> r == Err::<u128, TokenError>(TokenError::InvalidSubject),
{
    let sub = match decode_token(token, secret) {
        Ok(s) => s,
        Err(_) => {
            return Err(TokenError::InvalidSubject);
        },
    };
    match parse_uuid(sub.as_str()) {
        Some(id) => Ok(id),
        None => Err(TokenError::InvalidSubject),
    }
}

/// The token carried by an Authorization header: whatever follows the
/// `Bearer ` prefix.
pub open spec fn bearer_token_spec(s: Seq<char>) -> Option<Seq<char>> {
    if s.len() >= 7 && s.subrange(0, 7) == "Bearer "@ {
        Some(s.subrange(7, s.len() as int))
    } else {
        None
    }
}

/// Extracts the bearer token from an Authorization header value.
pub fn bearer_token_of(header: &str) -> (r: Option<String>)
    ensures
        match r {
            Some(t) => bearer_token_spec(header@) == Some(t@),
            None => bearer_token_spec(header@) is None,
        },
{
    let n = header.unicode_len();
    if n < 7 {
        return None;
    }
    let prefix = header.substring_char(0, 7);
    if !str_eq(prefix, "Bearer ") {
        return None;
    }
    let token = header.substring_char(7, n);
    Some(token.to_owned())
}

// ---------------------------------------------------------------------------
// Cookie parsing
// ---------------------------------------------------------------------------

/// `s` without leading spaces.
pub open spec fn trim_front(s: Seq<char>) -> Seq<char>
    decreases s.len(),
{
    if s.len() > 0 && s[0] == ' ' {
        trim_front(s.drop_first())
    } else {
        s
    }
}

/// `s` without trailing spaces.
pub open spec fn trim_back(s: Seq<char>) -> Seq<char>
    decreases s.len(),
{
    if s.len() > 0 && s.last() == ' ' {
        trim_back(s.drop_last())
    } else {
        s
    }
}

/// `s` without surrounding spaces.
pub open spec fn trim_spaces(s: Seq<char>) -> Seq<char> {
    trim_back(trim_front(s))
}

/// The position of the first `;` of `s`, or `s.len()` when there is
/// none.
pub open spec fn first_semi_at(s: Seq<char>) -> int
    decreases s.len(),
{
    if s.len() == 0 {
        0
    } else if s[0] == ';' {
        0
    } else {
        1 + first_semi_at(s.drop_first())
    }
}

proof fn lemma_first_semi_at_bounds(s: Seq<char>)
    ensures
        0 <= first_semi_at(s) <= s.len(),
    decreases s.len(),
{
    if s.len() > 0 && s[0] != ';' {
        lemma_first_semi_at_bounds(s.drop_first());
    }
}

/// `first_semi_at` names the least position holding a `;`.
proof fn lemma_first_semi_at_is(s: Seq<char>, k: int)
    requires
        0 <= k <= s.len(),
        forall|j: int| 0 <= j < k ==> s[j] != ';',
        k < s.len() ==> s[k] == ';',
    ensures
        first_semi_at(s) == k,
    decreases s.len(),
{
    if s.len() == 0 {
    } else if s[0] == ';' {
        assert(k == 0);
    } else {
        let sd = s.drop_first();
        assert(forall|j: int| 0 <= j < sd.len() ==> sd[j] == s[j + 1]);
        lemma_first_semi_at_is(sd, k - 1);
    }
}

/// The token set by one `name=value` cookie pair, if its trimmed form
/// starts with `token=`.
pub open spec fn cookie_pair_token(part: Seq<char>) -> Option<Seq<char>> {
    let t = trim_spaces(part);
    if t.len() >= 6 && t.subrange(0, 6) == "token="@ {
        Some(t.subrange(6, t.len() as int))
    } else {
        None
    }
}

/// The value of the first `token=` pair in a `;`-separated Cookie
/// header, with surrounding spaces of each pair ignored.
pub open spec fn cookie_token_spec(s: Seq<char>) -> Option<Seq<char>>
    decreases s.len(),
    via cookie_token_spec_decreases
{
    let i = first_semi_at(s);
    if i >= s.len() {
        cookie_pair_token(s)
    } else {
        match cookie_pair_token(s.subrange(0, i)) {
            Some(t) => Some(t),
            None => cookie_token_spec(s.subrange(i + 1, s.len() as int)),
        }
    }
}

#[via_fn]
proof fn cookie_token_spec_decreases(s: Seq<char>) {
    lemma_first_semi_at_bounds(s);
}

/// Removes leading spaces.
fn trim_front_str<'a>(s: &'a str) -> (r: &'a str)
    ensures
        r@ == trim_front(s@),
    decreases s@.len(),
{
    let n = s.unicode_len();
    if n > 0 && s.get_char(0) == ' ' {
        let rest = s.substring_char(1, n);
        proof {
            assert(rest@ =~= s@.drop_first());
        }
        trim_front_str(rest)
    } else {
        s
    }
}

/// Removes trailing spaces.
fn trim_back_str<'a>(s: &'a str) -> (r: &'a str)
    ensures
        r@ == trim_back(s@),
    decreases s@.len(),
{
    let n = s.unicode_len();
    if n > 0 && s.get_char(n - 1) == ' ' {
        let rest = s.substring_char(0, n - 1);
        proof {
            assert(rest@ =~= s@.drop_last());
        }
        trim_back_str(rest)
    } else {
        s
    }
}

/// The position of the first `;`, or the length when there is none.
fn find_semi(s: &str) -> (r: usize)
    ensures
        r == first_semi_at(s@),
        r <= s@.len(),
{
    let n = s.unicode_len();
    let mut i: usize = 0;
    while i < n
        invariant
            0 <= i <= n == s@.len(),
            forall|j: int| 0 <= j < i ==> s@[j] != ';',
        decreases n - i,
    {
        if s.get_char(i) == ';' {
            proof {
                lemma_first_semi_at_is(s@, i as int);
            }
            return i;
        }
        i = i + 1;
    }
    proof {
        lemma_first_semi_at_is(s@, n as int);
    }
    n
}

/// The token of one cookie pair, if it sets one.
fn cookie_pair_token_str(part: &str) -> (r: Option<String>)
    ensures
        match r {
            Some(t) => cookie_pair_token(part@) == Some(t@),
            None => cookie_pair_token(part@) is None,
        },
{
    let t = trim_back_str(trim_front_str(part));
    let n = t.unicode_len();
    if n < 6 {
        return None;
    }
    let prefix = t.substring_char(0, 6);
    if !str_eq(prefix, "token=") {
        return None;
    }
    Some(t.substring_char(6, n).to_owned())
}

/// Extracts the value of the first `token=` cookie from a Cookie
/// header value, as the request guard's fallback does.
pub fn cookie_token_of(cookie: &str) -> (r: Option<String>)
    ensures
        match r {
            Some(t) => cookie_token_spec(cookie@) == Some(t@),
            None => cookie_token_spec(cookie@) is None,
        },
    decreases cookie@.len(),
{
    let n = cookie.unicode_len();
    let i = find_semi(cookie);
    if i >= n {
        proof {
            assert(cookie@.subrange(0, n as int) =~= cookie@);
        }
        return cookie_pair_token_str(cookie);
    }
    let part = cookie.substring_char(0, i);
    match cookie_pair_token_str(part) {
        Some(t) => Some(t),
        None => {
            let rest = cookie.substring_char(i + 1, n);
            cookie_token_of(rest)
        },
    }
}

/// Where a request's session token comes from: the Authorization
/// header's bearer token when it carries one, else the `token` cookie.
pub open spec fn request_token_spec(auth: Option<Seq<char>>, cookie: Option<Seq<char>>) -> Option<
    Seq<char>,
> {
    let from_auth = match auth {
        Some(a) => bearer_token_spec(a),
        None => None,
    };
    match from_auth {
        Some(t) => Some(t),
        None => match cookie {
            Some(cs) => cookie_token_spec(cs),
            None => None,
        },
    }
}

/// Picks the session token out of a request's Authorization and
/// Cookie header values.
pub fn extract_request_token(auth_header: Option<&str>, cookie_header: Option<&str>) -> (r: Option<
    String,
>)
    ensures
        match r {
            Some(t) => request_token_spec(
                match auth_header {
                    Some(a) => Some(a@),
                    None => None,
                },
                match cookie_header {
                    Some(c) => Some(c@),
                    None => None,
                },
            ) == Some(t@),
            None => request_token_spec(
                match auth_header {
                    Some(a) => Some(a@),
                    None => None,
                },
                match cookie_header {
                    Some(c) => Some(c@),
                    None => None,
                },
            ) is None,
        },
{
    if let Some(a) = auth_header {
        if let Some(t) = bearer_token_of(a) {
            return Some(t);
        }
    }
    match cookie_header {
        Some(c) => cookie_token_of(c),
        None => None,
    }
}

} // verus!
