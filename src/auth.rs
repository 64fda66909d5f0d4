//! Session tokens of the control API: issuing one for the right password, and
//! reading the identity back out of a presented one.
use vstd::prelude::*;

verus! {

/// The body of a token request.
#[derive(Debug)]
pub struct LoginDTO {
    pub password: String,
}

/// A token handed back to a client.
#[derive(Debug)]
pub struct LoginResponse {
    pub token: String,
}

/// Why no token was issued.
#[derive(Clone, Copy, Debug, PartialEq, Eq, Structural)]
pub enum AuthError {
    WrongPassword,
    SigningFailed,
}

impl AuthError {
    /// The HTTP status that answers the request.
    pub fn status_code(&self) -> (r: u16)
        ensures
            r == match *self {
                AuthError::WrongPassword => 401u16,
                AuthError::SigningFailed => 500u16,
            },
    {
        match self {
            AuthError::WrongPassword => 401,
            AuthError::SigningFailed => 500,
        }
    }
}

/// The HMAC-SHA256 signed token whose claims map `sub` to `subject`, under
/// `secret`, or `None` where signing fails.
pub uninterp spec fn signed_token(secret: Seq<char>, subject: Seq<char>) -> Option<Seq<char>>;

/// The `sub` claim of `token` if its HMAC-SHA256 signature under `secret` is
/// valid and its claims hold one.
pub uninterp spec fn token_subject(secret: Seq<char>, token: Seq<char>) -> Option<Seq<char>>;

/// Relies on hmac's `Hmac::<Sha256>::new_from_slice` (any key length is taken)
/// and jwt's `SignWithKey` on a claims map holding `sub`: the outcome is a function
/// of the secret and the subject, and a token it signs verifies under the same
/// secret (jwt's `VerifyWithKey`) back to that subject.
#[verifier::external_body]
fn sign_subject(secret: &str, subject: &str) -> (r: Option<String>)
    ensures
        match r {
            Some(t) => signed_token(secret@, subject@) == Some(t@) && token_subject(secret@, t@) == Some(
                subject@,
            ),
            None => signed_token(secret@, subject@) is None,
        },
{
    let key: hmac::Hmac<sha2::Sha256> = hmac::Mac::new_from_slice(secret.as_bytes()).ok()?;
    let mut claims = std::collections::BTreeMap::new();
    claims.insert("sub", subject);
    jwt::SignWithKey::sign_with_key(claims, &key).ok()
}

/// Relies on hmac's `Hmac::<Sha256>::new_from_slice` and jwt's `VerifyWithKey`
/// into a map of string claims: the outcome is a function of the secret and the
/// token.
#[verifier::external_body]
fn verify_subject(secret: &str, token: &str) -> (r: Option<String>)
    ensures
        match r {
            Some(s) => token_subject(secret@, token@) == Some(s@),
            None => token_subject(secret@, token@) is None,
        },
{
    let key: hmac::Hmac<sha2::Sha256> = hmac::Mac::new_from_slice(secret.as_bytes()).ok()?;
    let claims: std::collections::BTreeMap<String, String> = jwt::VerifyWithKey::verify_with_key(token, &key).ok()?;
    claims.get("sub").cloned()
}

/// The principal that every issued token names.
pub open spec fn principal() -> Seq<char> {
    seq!['z', 'i', 'o', 'c', 'e', 'c', 'i', 'o']
}

/// Issues a token for the principal when `login` carries `expected_password`:
/// the signed token, which verifies under `secret` back to the principal, or
/// `SigningFailed` where signing fails.
pub fn get_token(expected_password: &String, login: &LoginDTO, secret: &String) -> (r: Result<String, AuthError>)
    ensures
        expected_password@ != login.password@ ==> r == Err::<String, AuthError>(AuthError::WrongPassword),
        expected_password@ == login.password@ ==> match signed_token(secret@, principal()) {
            Some(t) => r matches Ok(x) && x@ == t,
            None => r == Err::<String, AuthError>(AuthError::SigningFailed),
        },
        r matches Ok(t) ==> token_subject(secret@, t@) == Some(principal()),
{
    if *expected_password != login.password {
        return Err(AuthError::WrongPassword);
    }
    proof {
        reveal_strlit("ziocecio");
    }
    let subject: &str = "ziocecio";
    assert(subject@ == principal());
    match sign_subject(secret.as_str(), subject) {
        Some(t) => Ok(t),
        None => Err(AuthError::SigningFailed),
    }
}

/// The identity carried by the `authToken` cookie, if one was presented and it
/// verifies under `secret`.
pub fn extract_token(cookie: Option<&String>, secret: &String) -> (r: Option<String>)
    ensures
        match cookie {
            None => r is None,
            Some(c) => match r {
                Some(s) => token_subject(secret@, c@) == Some(s@),
                None => token_subject(secret@, c@) is None,
            },
        },
{
    match cookie {
        None => None,
        Some(c) => verify_subject(secret.as_str(), c.as_str()),
    }
}

/// Whether a protected route may be served to the identity `sub`.
pub fn protect_api(sub: &Option<String>) -> (r: bool)
    ensures
        r == sub.is_some(),
{
    sub.is_some()
}

/// Which home page a visitor sees.
#[derive(Clone, Copy, Debug, PartialEq, Eq, Structural)]
pub enum HomePage {
    App,
    Login,
}

/// The application page for an identified visitor, the login page otherwise.
pub fn get_home_page(sub: &Option<String>) -> (r: HomePage)
    ensures
        r == (if sub.is_some() { HomePage::App } else { HomePage::Login }),
{
    if sub.is_some() {
        HomePage::App
    } else {
        HomePage::Login
    }
}

} // verus!
