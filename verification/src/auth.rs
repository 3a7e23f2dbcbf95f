//! Accounts and sign-in: the request and response bodies, the password
//! check, and the settings of the session tokens.

use vstd::prelude::*;

verus! {

broadcast use vstd::string::group_string_axioms;

/// The body of a sign-in request.
pub struct LoginRequest {
    pub email: String,
    pub password: String,
}

/// The user returned by a successful sign-in.
pub struct UserResponse {
    pub id: String,
    pub email: String,
}

/// The body of a registration request.
pub struct RegisterRequest {
    pub email: String,
    pub password: String,
}

/// The OpenAPI description of the API.
pub struct ApiDoc;

/// A JSON body whose rejection is answered as an API error.
pub struct TypedJson<T>(pub T);

/// What `bcrypt::verify` answers for a password and a stored hash: whether
/// they match, `None` where it reports an error (a malformed hash).
pub uninterp spec fn bcrypt_verdict(password: Seq<char>, hash: Seq<char>) -> Option<bool>;

/// `bcrypt::verify` of `password` against `hash`. Trusted: the answer is
/// the one `bcrypt_verdict` names for these two texts, `None` where bcrypt
/// reports an error.
#[verifier::external_body]
fn bcrypt_verify(password: &str, hash: &str) -> (r: Option<bool>)
    ensures
        r == bcrypt_verdict(password@, hash@),
{
    bcrypt::verify(password, hash).ok()
}

/// What the user lookup of a sign-in found.
pub enum UserLookup {
    /// The database could not be asked.
    Failed,
    /// No user has that email address.
    Missing,
    /// The user exists; its stored password hash.
    Found(String),
}

/// The answer to a sign-in, given what the lookup found and the password
/// given: a failed lookup is 500 `DB error`, an unknown address 401
/// `User not found`, a hash that bcrypt cannot read 500 `Verify error`, a
/// wrong password 401 `Wrong password`.
pub open spec fn sign_in_outcome(lookup: UserLookup, password: Seq<char>) -> Result<(), (u16, Seq<char>)> {
    match lookup {
        UserLookup::Failed => Err((500, "DB error"@)),
        UserLookup::Missing => Err((401, "User not found"@)),
        UserLookup::Found(hash) => match bcrypt_verdict(password, hash@) {
            None => Err((500, "Verify error"@)),
            Some(false) => Err((401, "Wrong password"@)),
            Some(true) => Ok(()),
        },
    }
}

/// Decides a sign-in (`UserService::authenticate` once the user is looked
/// up).
pub fn authenticate(lookup: UserLookup, password: &str) -> (r: Result<(), (u16, String)>)
    ensures
        match r {
            Ok(()) => sign_in_outcome(lookup, password@) is Ok,
            Err(e) => sign_in_outcome(lookup, password@) == Err::<(), (u16, Seq<char>)>((e.0, e.1@)),
        },
{
    match lookup {
        UserLookup::Failed => Err((500, "DB error".to_string())),
        UserLookup::Missing => Err((401, "User not found".to_string())),
        UserLookup::Found(hash) => match bcrypt_verify(password, hash.as_str()) {
            None => Err((500, "Verify error".to_string())),
            Some(false) => Err((401, "Wrong password".to_string())),
            Some(true) => Ok(()),
        },
    }
}

/// Signs and checks session tokens with a secret; tokens last
/// `expiration_hours`.
#[derive(Clone)]
pub struct JwtManager {
    secret: String,
    expiration_hours: u64,
}

impl JwtManager {
    /// The signing secret.
    pub closed spec fn secret_view(&self) -> Seq<char> {
        self.secret@
    }

    /// How many hours a token lasts.
    pub closed spec fn hours(&self) -> u64 {
        self.expiration_hours
    }

    /// A manager with the given secret and token lifetime.
    pub fn new(secret: String, expiration_hours: u64) -> (r: Self)
        ensures
            r.secret_view() == secret@,
            r.hours() == expiration_hours,
    {
        JwtManager { secret, expiration_hours }
    }

    /// The signing secret.
    pub fn secret(&self) -> (r: &str)
        ensures
            r@ == self.secret_view(),
    {
        self.secret.as_str()
    }

    /// How many hours a token lasts.
    pub fn expiration_hours(&self) -> (r: u64)
        ensures
            r == self.hours(),
    {
        self.expiration_hours
    }
}

} // verus!
