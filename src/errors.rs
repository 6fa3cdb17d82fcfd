use vstd::prelude::*;

verus! {

/// What the document store reports when a call fails.
pub enum DbError {
    /// The record asked for does not exist.
    NotFound,
    /// The store could not carry out the call (connection, encoding).
    Query(String),
}

/// The failures shared by every session operation.
pub enum Error {
    Db(DbError),
    /// No valid identity, or an identity that lacks the capability; the text
    /// says which operation was refused.
    Unauthorized(String),
}

/// The failures of an operation that resolves a role: those of [`Error`],
/// and a cycle in the role graph, named by the role id at which it closed.
pub enum RoleWrappedError {
    Recursion(String),
    General(Error),
}

/// The failures of role creation.
pub enum CreateRoleError {
    General(Error),
    /// A role named in `extends` could not be fetched.
    RoleDoesNotExist(String, DbError),
}

impl From<DbError> for Error {
    fn from(e: DbError) -> (r: Error) {
        Error::Db(e)
    }
}

impl vstd::std_specs::convert::FromSpecImpl<DbError> for Error {
    open spec fn obeys_from_spec() -> bool {
        true
    }

    open spec fn from_spec(e: DbError) -> Error {
        Error::Db(e)
    }
}

impl From<Error> for RoleWrappedError {
    fn from(e: Error) -> (r: RoleWrappedError) {
        RoleWrappedError::General(e)
    }
}

impl vstd::std_specs::convert::FromSpecImpl<Error> for RoleWrappedError {
    open spec fn obeys_from_spec() -> bool {
        true
    }

    open spec fn from_spec(e: Error) -> RoleWrappedError {
        RoleWrappedError::General(e)
    }
}

impl From<DbError> for RoleWrappedError {
    fn from(e: DbError) -> (r: RoleWrappedError) {
        RoleWrappedError::General(Error::Db(e))
    }
}

impl vstd::std_specs::convert::FromSpecImpl<DbError> for RoleWrappedError {
    open spec fn obeys_from_spec() -> bool {
        true
    }

    open spec fn from_spec(e: DbError) -> RoleWrappedError {
        RoleWrappedError::General(Error::Db(e))
    }
}

} // verus!
