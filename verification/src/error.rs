//! Errors of the service and the status that a request is answered with.
use vstd::prelude::*;
use vstd::string::*;
use crate::text::{concat2, i64_text, int_text};

verus! {

/// The errors of the service. An error that comes from an outside library
/// carries that error's debug text (`{:?}`).
#[derive(Debug)]
pub enum CliError {
    EntityNotFound { entity: &'static str, id: i64 },
    Er(String),
    FailedToCreatePool(String),
    PE(String),
    RError(String),
    GlobalDefaultError(String),
    DBError(String),
}

/// The human-readable message of an error.
pub open spec fn error_message(e: CliError) -> Seq<char> {
    match e {
        CliError::EntityNotFound { entity, id } => "Entity '"@ + entity@ + "' with id "@ + int_text(
            id as int,
        ) + " not found"@,
        CliError::DBError(_) => "unknown data store error"@,
        _ => "Entity  not found"@,
    }
}

impl CliError {
    /// The error's message, as its `Display` gives it.
    pub fn message(&self) -> (s: String)
        ensures
            s@ == error_message(*self),
    {
        match self {
            CliError::EntityNotFound { entity, id } => {
                let mut s = concat2("Entity '", entity);
                s.append("' with id ");
                let n = i64_text(*id);
                s.append(n.as_str());
                s.append(" not found");
                s
            },
            CliError::DBError(_) => String::from_str("unknown data store error"),
            _ => String::from_str("Entity  not found"),
        }
    }
}

/// The debug text (`{:?}`) of a string: in double quotes, with the characters
/// that `str::escape_debug` escapes escaped.
pub uninterp spec fn str_debug(s: Seq<char>) -> Seq<char>;

/// The debug text of a string (`format!("{:?}", s)`); the contract names the
/// result and does not state the escaping.
#[verifier::external_body]
fn debug_text(s: &str) -> (r: String)
    ensures
        r@ == str_debug(s@),
{
    format!("{:?}", s)
}

/// The debug text of an error, as its derived `Debug` writes it: the
/// variant's name, then its fields; an outside error is shown by the debug
/// text it carries.
pub open spec fn error_debug(e: CliError) -> Seq<char> {
    match e {
        CliError::EntityNotFound { entity, id } => "EntityNotFound { entity: "@ + str_debug(entity@)
            + ", id: "@ + int_text(id as int) + " }"@,
        CliError::Er(s) => "Er("@ + s@ + ")"@,
        CliError::FailedToCreatePool(s) => "FailedToCreatePool("@ + str_debug(s@) + ")"@,
        CliError::PE(s) => "PE("@ + s@ + ")"@,
        CliError::RError(s) => "RError("@ + s@ + ")"@,
        CliError::GlobalDefaultError(s) => "GlobalDefaultError("@ + s@ + ")"@,
        CliError::DBError(s) => "DBError("@ + s@ + ")"@,
    }
}

/// The status codes with which requests are answered.
#[derive(Debug, Clone, Copy, PartialEq, Eq, Structural)]
pub enum RpcCode {
    InvalidArgument,
    NotFound,
    Internal,
    Unavailable,
    FailedPrecondition,
    ResourceExhausted,
    Aborted,
    AlreadyExists,
    PermissionDenied,
    DeadlineExceeded,
    DataLoss,
    OutOfRange,
    Unknown,
}

/// A failed request's status: a code and a message.
#[derive(Debug)]
pub struct RpcStatus {
    pub code: RpcCode,
    pub message: String,
}

/// The status that answers a request failed with an error: an invalid
/// argument, with the error's debug text.
pub fn error_status(e: &CliError) -> (st: RpcStatus)
    ensures
        st.code == RpcCode::InvalidArgument,
        st.message@ == error_debug(*e),
{
    let message = match e {
        CliError::EntityNotFound { entity, id } => {
            let mut m = String::from_str("EntityNotFound { entity: ");
            let d = debug_text(entity);
            m.append(d.as_str());
            m.append(", id: ");
            let n = i64_text(*id);
            m.append(n.as_str());
            m.append(" }");
            m
        },
        CliError::Er(s) => wrapped("Er(", s.as_str()),
        CliError::FailedToCreatePool(s) => {
            let d = debug_text(s.as_str());
            wrapped("FailedToCreatePool(", d.as_str())
        },
        CliError::PE(s) => wrapped("PE(", s.as_str()),
        CliError::RError(s) => wrapped("RError(", s.as_str()),
        CliError::GlobalDefaultError(s) => wrapped("GlobalDefaultError(", s.as_str()),
        CliError::DBError(s) => wrapped("DBError(", s.as_str()),
    };
    RpcStatus { code: RpcCode::InvalidArgument, message }
}

/// `head`, then `inner`, then a closing bracket.
fn wrapped(head: &str, inner: &str) -> (r: String)
    ensures
        r@ == head@ + inner@ + ")"@,
{
    let mut m = concat2(head, inner);
    m.append(")");
    m
}

/// Builds a status from a code and a message.
pub fn rpc_status(code: RpcCode, message: &str) -> (s: RpcStatus)
    ensures
        s.code == code,
        s.message@ == message@,
{
    RpcStatus { code, message: message.to_owned() }
}

} // verus!
