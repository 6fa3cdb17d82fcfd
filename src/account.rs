use vstd::prelude::*;
use crate::errors::Error;

verus! {

/// The most blocks that one page of a channel's blocks holds.
pub const QUERY_LIMIT: i64 = 30;

/// A character that a user name may hold: an ASCII letter, a digit or `_`.
pub open spec fn is_name_char(c: char) -> bool {
    ('a' <= c && c <= 'z') || ('A' <= c && c <= 'Z') || ('0' <= c && c <= '9') || c == '_'
}

/// An account: its name, its email, the hash of its password, the groups
/// it belongs to and the id of its activity table.
pub struct User {
    pub name: String,
    pub email: String,
    pub password_hash: String,
    pub groups: Vec<String>,
    pub activity_table: String,
}

/// Why a registration was refused.
pub enum RegisterError {
    InvaildNameChars,
    BadNameLength,
    TooShortPassword,
    TooLongPassword,
    General(Error),
    NameTaken,
    EmailTaken,
    /// The tokens could not be issued; the text says why.
    InfoAsTokens(String),
    /// The password could not be hashed; the text says why.
    Hashing(String),
}

/// Why a login was refused.
pub enum LoginError {
    /// The tokens could not be issued; the text says why.
    InfoAsTokens(String),
    General(Error),
    InvalidCredentials,
}

/// Whether an existing account already uses the name or the email asked for.
pub struct CredentialUniqueness {
    pub name: bool,
    pub email: bool,
}

impl Default for CredentialUniqueness {
    fn default() -> (r: CredentialUniqueness)
        ensures
            r.name && r.email,
    {
        CredentialUniqueness { name: true, email: true }
    }
}

impl CredentialUniqueness {
    /// Uniqueness of `name` and `email` given the account that the store found
    /// under either (its name and email), if any.
    pub fn of(found: Option<(&String, &String)>, name: &String, email: &String) -> (r: CredentialUniqueness)
        ensures
            found is None ==> r.name && r.email,
            found is Some ==> ({
                let (found_name, found_email) = found->0;
                r.name == (found_name@ != name@) && r.email == (found_email@ != email@)
            }),
    {
        match found {
            None => CredentialUniqueness::default(),
            Some((found_name, found_email)) => CredentialUniqueness {
                email: *found_email != *email,
                name: *found_name != *name,
            },
        }
    }
}

/// Checks a new account's name and password, in this order: the name holds
/// only name characters, the name is 3 to 20 long, and the password is 7 to
/// 50 bytes long.
pub fn validate_registration(name: &str, password: &str) -> (r: Result<(), RegisterError>)
    ensures
        !(forall|i: int| 0 <= i < name@.len() ==> is_name_char(#[trigger] name@[i])) ==> r is Err
            && r->Err_0 is InvaildNameChars,
        (forall|i: int| 0 <= i < name@.len() ==> is_name_char(#[trigger] name@[i])) ==> ({
            let n = name@.len();
            let p = password.len();
            &&& (n < 3 || n > 20) ==> r is Err && r->Err_0 is BadNameLength
            &&& 3 <= n <= 20 && p < 7 ==> r is Err && r->Err_0 is TooShortPassword
            &&& 3 <= n <= 20 && p > 50 ==> r is Err && r->Err_0 is TooLongPassword
            &&& 3 <= n <= 20 && 7 <= p <= 50 ==> r is Ok
        }),
{
    let n = name.unicode_len();
    let mut i: usize = 0;
    while i < n
        invariant
            0 <= i <= n,
            n == name@.len(),
            forall|j: int| 0 <= j < i ==> is_name_char(#[trigger] name@[j]),
        decreases n - i,
    {
        let c = name.get_char(i);
        if !(('a' <= c && c <= 'z') || ('A' <= c && c <= 'Z') || ('0' <= c && c <= '9') || c == '_') {
            return Err(RegisterError::InvaildNameChars);
        }
        i += 1;
    }
    if n < 3 || n > 20 {
        return Err(RegisterError::BadNameLength);
    }
    let p = password.len();
    if p < 7 {
        return Err(RegisterError::TooShortPassword);
    }
    if p > 50 {
        return Err(RegisterError::TooLongPassword);
    }
    Ok(())
}

/// A character that a bcrypt hash may hold: printable ASCII or DEL.
pub open spec fn is_hash_char(c: char) -> bool {
    ' ' <= c && c <= '\x7f'
}

/// Whether bcrypt accepts `password` for the stored hash `hash`.
pub uninterp spec fn bcrypt_accepts(password: Seq<char>, hash: Seq<char>) -> bool;

/// Relies on pwhash::bcrypt::verify: it hashes `password` again with the
/// variant, cost and salt that `hash` names and compares the two, and gives
/// false where `hash` does not parse. Everything it uses comes from the two
/// strings, so the outcome is a function of them. Its salt decoder looks each
/// character up in a table that covers the codes from space to DEL only, so
/// hashes with any other character are kept out.
#[verifier::external_body]
fn bcrypt_verify(password: &str, hash: &str) -> (r: bool)
    requires
        forall|i: int| 0 <= i < hash@.len() ==> is_hash_char(#[trigger] hash@[i]),
    ensures
        r == bcrypt_accepts(password@, hash@),
{
    pwhash::bcrypt::verify(password, hash)
}

/// Checks `password` against the stored hash of `user`. A stored hash that
/// holds a control character or a non-ASCII character is refused outright:
/// bcrypt never writes one.
pub fn check_password(password: &str, user: &User) -> (r: Result<(), LoginError>)
    ensures
        (forall|i: int| 0 <= i < user.password_hash@.len() ==> is_hash_char(
            #[trigger] user.password_hash@[i],
        )) ==> (r is Ok <==> bcrypt_accepts(password@, user.password_hash@)),
        !(forall|i: int| 0 <= i < user.password_hash@.len() ==> is_hash_char(
            #[trigger] user.password_hash@[i],
        )) ==> r is Err,
        r is Err ==> r->Err_0 is InvalidCredentials,
{
    let hash = user.password_hash.as_str();
    let n = hash.unicode_len();
    let mut i: usize = 0;
    while i < n
        invariant
            0 <= i <= n,
            n == hash@.len(),
            hash@ == user.password_hash@,
            forall|j: int| 0 <= j < i ==> is_hash_char(#[trigger] hash@[j]),
        decreases n - i,
    {
        let c = hash.get_char(i);
        if ' ' > c || c > '\x7f' {
            return Err(LoginError::InvalidCredentials);
        }
        i += 1;
    }
    if bcrypt_verify(password, hash) {
        Ok(())
    } else {
        Err(LoginError::InvalidCredentials)
    }
}

/// Refuses an account whose email or name is taken, the email first.
pub fn check_uniqueness(u: &CredentialUniqueness) -> (r: Result<(), RegisterError>)
    ensures
        !u.email ==> r is Err && r->Err_0 is EmailTaken,
        u.email && !u.name ==> r is Err && r->Err_0 is NameTaken,
        u.email && u.name ==> r is Ok,
{
    if !u.email {
        return Err(RegisterError::EmailTaken);
    }
    if !u.name {
        return Err(RegisterError::NameTaken);
    }
    Ok(())
}

/// The page size for a request of a channel's blocks: the one asked for,
/// kept between 0 and the limit, or the limit.
pub fn query_limit(limit: Option<i64>) -> (r: i64)
    ensures
        limit is None ==> r == QUERY_LIMIT,
        limit is Some ==> r == if limit->0 < 0 {
            0
        } else if limit->0 > QUERY_LIMIT {
            QUERY_LIMIT
        } else {
            limit->0
        },
{
    match limit {
        None => QUERY_LIMIT,
        Some(l) => if l < 0 {
            0
        } else if l > QUERY_LIMIT {
            QUERY_LIMIT
        } else {
            l
        },
    }
}

} // verus!
