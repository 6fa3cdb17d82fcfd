use vstd::prelude::*;

verus! {

/// Who made a request, once their credentials were checked.
pub struct AuthInfo {
    pub name: String,
}

/// Which of the two tokens did not check out.
pub enum InvalidAuthTokenData {
    Access,
    Key,
}

/// Why credentials were refused.
pub enum InvalidAuthData {
    Token(InvalidAuthTokenData),
    MismatchedKeys,
}

/// The outcome of checking a request's credentials; fixed for the life of
/// a session.
pub enum Auth {
    Valid { info: AuthInfo },
    Invalid(InvalidAuthData),
}

/// The signing secrets of the two tokens.
pub struct Keys {
    pub access: String,
    pub key: String,
}

/// The two tokens a client presents: the access token names the user, and
/// both carry the same random key.
pub struct Tokens {
    pub access: String,
    pub key: String,
}

/// What the access token states.
pub struct AccessClaims {
    pub name: String,
    pub key: String,
    pub exp: usize,
}

/// What the key token states.
pub struct KeyClaims {
    pub key: String,
    pub exp: usize,
}

/// Holds the secrets that tokens are signed and checked with.
pub struct AuthValidator {
    pub keys: Keys,
}

impl Auth {
    /// The identity, or why there is none.
    pub fn as_result(&self) -> (r: Result<&AuthInfo, InvalidAuthData>)
        ensures
            match *self {
                Auth::Valid { info } => r == Ok::<&AuthInfo, InvalidAuthData>(&info),
                Auth::Invalid(d) => r is Err && r->Err_0 == d,
            },
    {
        match self {
            Auth::Valid { info } => Ok(info),
            Auth::Invalid(data) => Err(data.copied()),
        }
    }

    /// The outcome of a check whose two tokens decoded to `access` and `key`
    /// (`None` where a token failed to decode or verify): valid where both
    /// decoded and carry the same key, naming the access token's user.
    pub fn from_claims(access: Option<AccessClaims>, key: Option<KeyClaims>) -> (r: Auth)
        ensures
            access is None ==> r == Auth::Invalid(InvalidAuthData::Token(InvalidAuthTokenData::Access)),
            access is Some && key is None ==> r == Auth::Invalid(
                InvalidAuthData::Token(InvalidAuthTokenData::Key),
            ),
            access is Some && key is Some && access->0.key@ != key->0.key@ ==> r == Auth::Invalid(
                InvalidAuthData::MismatchedKeys,
            ),
            access is Some && key is Some && access->0.key@ == key->0.key@ ==> r == (Auth::Valid {
                info: AuthInfo { name: access->0.name },
            }),
    {
        let access = match access {
            None => {
                return Auth::Invalid(InvalidAuthData::Token(InvalidAuthTokenData::Access));
            },
            Some(a) => a,
        };
        let key = match key {
            None => {
                return Auth::Invalid(InvalidAuthData::Token(InvalidAuthTokenData::Key));
            },
            Some(k) => k,
        };
        if key.key != access.key {
            return Auth::Invalid(InvalidAuthData::MismatchedKeys);
        }
        Auth::Valid { info: AuthInfo { name: access.name } }
    }
}

impl InvalidAuthData {
    /// A copy of this reason.
    pub fn copied(&self) -> (r: InvalidAuthData)
        ensures
            r == *self,
    {
        match self {
            InvalidAuthData::Token(InvalidAuthTokenData::Access) => InvalidAuthData::Token(
                InvalidAuthTokenData::Access,
            ),
            InvalidAuthData::Token(InvalidAuthTokenData::Key) => InvalidAuthData::Token(
                InvalidAuthTokenData::Key,
            ),
            InvalidAuthData::MismatchedKeys => InvalidAuthData::MismatchedKeys,
        }
    }
}

impl AuthValidator {
    pub fn new(keys: &Keys) -> (r: AuthValidator)
        ensures
            r.keys.access@ == keys.access@,
            r.keys.key@ == keys.key@,
    {
        AuthValidator { keys: Keys { access: keys.access.clone(), key: keys.key.clone() } }
    }
}

impl Tokens {
    pub fn new(access: String, key: String) -> (r: Tokens)
        ensures
            r.access == access,
            r.key == key,
    {
        Tokens { access, key }
    }
}

/// What a client may learn of its own session.
pub enum AuthMe {
    Valid { name: String },
    Invalid,
}

impl AuthMe {
    pub fn from_auth(auth: &Auth) -> (r: AuthMe)
        ensures
            match *auth {
                Auth::Valid { info } => r == (AuthMe::Valid { name: info.name }),
                Auth::Invalid(_) => r == AuthMe::Invalid,
            },
    {
        match auth {
            Auth::Valid { info } => AuthMe::Valid { name: info.name.clone() },
            Auth::Invalid(_) => AuthMe::Invalid,
        }
    }
}

/// What a client may learn of its own session, with the reason where its
/// credentials were refused.
pub enum AuthPublic {
    Valid { name: String },
    Invalid { reason: String },
}

impl InvalidAuthData {
    /// A short account of the refusal.
    pub fn reason(&self) -> (r: String) {
        match self {
            InvalidAuthData::Token(InvalidAuthTokenData::Access) => "access token".to_string(),
            InvalidAuthData::Token(InvalidAuthTokenData::Key) => "key token".to_string(),
            InvalidAuthData::MismatchedKeys => "Keys don't match".to_string(),
        }
    }
}

impl AuthPublic {
    pub fn from_auth(auth: &Auth) -> (r: AuthPublic)
        ensures
            match *auth {
                Auth::Valid { info } => r == (AuthPublic::Valid { name: info.name }),
                Auth::Invalid(_) => r is Invalid,
            },
    {
        match auth {
            Auth::Valid { info } => AuthPublic::Valid { name: info.name.clone() },
            Auth::Invalid(data) => AuthPublic::Invalid { reason: data.reason() },
        }
    }
}

} // verus!
