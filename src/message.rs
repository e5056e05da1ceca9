//! Wire-level values exchanged with clients: error codes, typed results,
//! client descriptions and rejection messages.

use vstd::prelude::*;

use crate::geometry::{Color, Stroke};
use crate::ids::{ClientID, ItemID, PathID, SessionID};

verus! {

/// A generic error code that indicates a problem with a request.
#[derive(PartialEq, Eq, Structural, Debug, Clone, Copy)]
pub enum ErrorCode {
    /// The request touched a resource that another client is using.
    NotAvailable,
    /// An internal server error happened.
    Internal,
    /// The requested resource does not exist.
    NotFound,
    /// The path was not created because it has no nodes.
    EmptyPath,
    /// Data provided is incompatible with the target operation.
    BadData,
}

/// An error code with an optional explanation.
#[derive(Debug)]
pub struct Error {
    /// The error code.
    pub code: ErrorCode,
    /// The error explanation.
    pub msg: Option<String>,
}

impl Clone for Error {
    fn clone(&self) -> (r: Self)
        ensures
            r == *self,
    {
        let msg = match &self.msg {
            Some(m) => Some(m.clone()),
            None => None,
        };
        Error { code: self.code, msg }
    }
}

impl Error {
    /// Preset for internal errors.
    pub fn internal() -> (r: Self)
        ensures
            r.code == ErrorCode::Internal,
            r.msg is None,
    {
        Error { code: ErrorCode::Internal, msg: None }
    }

    /// An error made of a code alone.
    pub fn code(code: ErrorCode) -> (r: Self)
        ensures
            r.code == code,
            r.msg is None,
    {
        Error { code, msg: None }
    }
}

/// The error of a given code and no explanation.
pub open spec fn error_of(code: ErrorCode) -> Error {
    Error { code, msg: None }
}

/// The typed outcome of a request, as it is written on the wire.
#[derive(Debug)]
pub enum Result<T, E> {
    /// Success; written `Ok` on the wire.
    Success(T),
    /// Failure; written `Err` on the wire.
    Failure(E),
}

impl<T, E> Result<T, E> {
    /// Converts from the standard result type.
    pub fn from_std(value: core::result::Result<T, E>) -> (r: Self)
        ensures
            value is Ok ==> r == Result::<T, E>::Success(value->Ok_0),
            value is Err ==> r == Result::<T, E>::Failure(value->Err_0),
    {
        match value {
            core::result::Result::Ok(v) => Result::Success(v),
            core::result::Result::Err(e) => Result::Failure(e),
        }
    }
}

/// The information describing a client.
#[derive(Debug)]
pub struct ClientInfo {
    /// The client's name.
    pub name: String,
}

impl Clone for ClientInfo {
    fn clone(&self) -> (r: Self)
        ensures
            r == *self,
    {
        ClientInfo { name: self.name.clone() }
    }
}

/// Identification handed to a client when its session is created.
#[derive(PartialEq, Eq, Structural, Debug, Clone, Copy)]
pub struct ConnectionInfo {
    /// The client's public ID.
    pub client_id: ClientID,
    /// The client's private session ID.
    pub session_id: SessionID,
}

/// The edits that can be made to several items at the same time.
#[derive(Debug)]
pub struct BatchChanges {
    /// The new fill color for the items.
    pub fill: Option<Color>,
    /// The new stroke for the items.
    pub stroke: Option<Stroke>,
}

/// The severity of a rejection.
#[derive(PartialEq, Eq, Structural, Debug, Clone, Copy)]
pub enum RejectLevel {
    /// The problem does not obstruct the rest of the request.
    Warning,
    /// The problem aborts the request; sent instead of a response.
    Error,
}

/// Category of a rejection.
#[derive(Debug)]
pub enum RejectReason {
    /// An ID that names nothing.
    NonExistentID { id_type: &'static str, value: u32 },
    /// A value of the wrong kind.
    IncorrectType { key: Option<String>, expected: &'static str, received: String },
    /// A message that could not be read.
    MalformedMessage { location: String },
    /// A resource that the client does not own.
    ResourceNotOwned { resource_type: &'static str, target_id: u32 },
}

/// A rejection of a request.
#[derive(Debug)]
pub struct RejectMessage {
    /// The name of the rejected request.
    pub request_protocol: &'static str,
    /// The ID of the request, if it had one.
    pub request_id: Option<u32>,
    /// Whether the rejection aborts the request.
    pub level: RejectLevel,
    /// Why the request was bad.
    pub reason: RejectReason,
}

/// An ID naming some kind of resource on the server.
pub trait ResourceType {
    /// The name of the resource kind.
    spec fn kind() -> &'static str;

    /// The numeric value of the ID.
    spec fn spec_value(&self) -> u32;

    /// The name of the resource kind.
    fn name() -> (r: &'static str)
        ensures
            r == Self::kind();

    /// The numeric value of the ID.
    fn value(&self) -> (r: u32)
        ensures
            r == self.spec_value();
}

impl ResourceType for ItemID {
    open spec fn kind() -> &'static str {
        "Item"
    }

    open spec fn spec_value(&self) -> u32 {
        self.0
    }

    fn name() -> (r: &'static str) {
        "Item"
    }

    fn value(&self) -> (r: u32) {
        self.0
    }
}

impl ResourceType for PathID {
    open spec fn kind() -> &'static str {
        "Path"
    }

    open spec fn spec_value(&self) -> u32 {
        self.0
    }

    fn name() -> (r: &'static str) {
        "Path"
    }

    fn value(&self) -> (r: u32) {
        self.0
    }
}

impl ResourceType for ClientID {
    open spec fn kind() -> &'static str {
        "Client"
    }

    open spec fn spec_value(&self) -> u32 {
        self.0
    }

    fn name() -> (r: &'static str) {
        "Client"
    }

    fn value(&self) -> (r: u32) {
        self.0
    }
}

/// The rejection for a resource `res` that the client does not own.
pub open spec fn not_owned_reason<T: ResourceType>(res: T) -> RejectReason {
    RejectReason::ResourceNotOwned { resource_type: T::kind(), target_id: res.spec_value() }
}

/// The rejection for an ID `res` that names nothing.
pub open spec fn non_existent_reason<T: ResourceType>(res: T) -> RejectReason {
    RejectReason::NonExistentID { id_type: T::kind(), value: res.spec_value() }
}

/// Shorthand for a `ResourceNotOwned` rejection.
pub fn resource_not_owned<T: ResourceType>(res: T) -> (r: RejectReason)
    ensures
        r == not_owned_reason(res),
{
    RejectReason::ResourceNotOwned { resource_type: T::name(), target_id: res.value() }
}

/// Shorthand for a `NonExistentID` rejection.
pub fn non_existent_id<T: ResourceType>(res: T) -> (r: RejectReason)
    ensures
        r == non_existent_reason(res),
{
    RejectReason::NonExistentID { id_type: T::name(), value: res.value() }
}

/// The decimal digit character of `d`.
pub open spec fn digit_char(d: nat) -> char {
    if d == 0 { '0' } else if d == 1 { '1' } else if d == 2 { '2' } else if d == 3 { '3' }
    else if d == 4 { '4' } else if d == 5 { '5' } else if d == 6 { '6' } else if d == 7 { '7' }
    else if d == 8 { '8' } else { '9' }
}

/// The decimal representation of `n`, without leading zeros.
pub open spec fn decimal(n: nat) -> Seq<char>
    decreases n,
{
    if n < 10 {
        seq![digit_char(n)]
    } else {
        decimal(n / 10).push(digit_char(n % 10))
    }
}

/// Relies on `u32`'s `ToString`: the decimal representation of the number.
#[verifier::external_body]
pub(crate) fn decimal_string(n: u32) -> (r: String)
    ensures
        r@ == decimal(n as nat),
{
    n.to_string()
}

} // verus!
