use vstd::prelude::*;

verus! {

/// The error kinds of the library. Each carries the message that was given
/// when it was raised.
#[derive(Debug, Clone, PartialEq, Eq)]
pub enum KohakuError {
    DatabaseError(String),
    DatabaseConnectionError(String),
    NotFound(String),
    ValidationError(String),
    Unauthorized(String),
    ExternalServiceError(String),
    InternalServerError(String),
    WebsocketError(String),
    OperationError { operation: String, source: String },
}

/// HTTP status of each error kind.
pub open spec fn status_of(e: KohakuError) -> u16 {
    match e {
        KohakuError::NotFound(_) => 404,
        KohakuError::ValidationError(_) => 400,
        KohakuError::Unauthorized(_) => 401,
        KohakuError::ExternalServiceError(_) => 502,
        _ => 500,
    }
}

/// Client-facing kinds (4xx) surface their own message; every other kind is
/// replaced by a generic text so that internal causes never reach a client.
pub open spec fn public_message_of(e: KohakuError) -> Seq<char> {
    match e {
        KohakuError::NotFound(m) => m@,
        KohakuError::ValidationError(m) => m@,
        KohakuError::Unauthorized(m) => m@,
        KohakuError::DatabaseConnectionError(_) => "Service temporarily unavailable"@,
        KohakuError::ExternalServiceError(_) => "External service error"@,
        _ => "Internal server error"@,
    }
}

/// Name of the error kind that a client sees.
pub open spec fn kind_of(e: KohakuError) -> Seq<char> {
    match e {
        KohakuError::NotFound(_) => "NotFound"@,
        KohakuError::ValidationError(_) => "ValidationError"@,
        KohakuError::Unauthorized(_) => "Unauthorized"@,
        KohakuError::ExternalServiceError(_) => "ExternalServiceError"@,
        KohakuError::DatabaseConnectionError(_) => "ConnectionError"@,
        KohakuError::WebsocketError(_) => "ConnectionError"@,
        _ => "InternalError"@,
    }
}

impl KohakuError {
    /// Name of the error kind that a client sees.
    pub fn kind(&self) -> (r: &'static str)
        ensures
            r@ == kind_of(*self),
    {
        match self {
            KohakuError::NotFound(_) => "NotFound",
            KohakuError::ValidationError(_) => "ValidationError",
            KohakuError::Unauthorized(_) => "Unauthorized",
            KohakuError::ExternalServiceError(_) => "ExternalServiceError",
            KohakuError::DatabaseConnectionError(_) => "ConnectionError",
            KohakuError::WebsocketError(_) => "ConnectionError",
            _ => "InternalError",
        }
    }

    /// The message and status that a client may see for this error.
    pub fn details(&self) -> (r: (String, u16))
        ensures
            r.0@ == public_message_of(*self),
            r.1 == status_of(*self),
    {
        match self {
            KohakuError::DatabaseConnectionError(_) => (
                String::from_str("Service temporarily unavailable"),
                500,
            ),
            KohakuError::ExternalServiceError(_) => (String::from_str("External service error"), 502),
            KohakuError::NotFound(msg) => (msg.clone(), 404),
            KohakuError::ValidationError(msg) => (msg.clone(), 400),
            KohakuError::Unauthorized(msg) => (msg.clone(), 401),
            _ => (String::from_str("Internal server error"), 500),
        }
    }

    /// The HTTP status of this error.
    pub fn status_code(&self) -> (r: u16)
        ensures
            r == status_of(*self),
    {
        let (_, status) = self.details();
        status
    }
}

} // verus!
