//! HTTP error codes and the standardized error response.
use vstd::prelude::*;
use crate::text::{concat_str, owned};
use crate::metadata::opt_view;

verus! {

/// Error codes for HTTP responses.
#[derive(Debug, Clone, Copy, PartialEq, Eq, Structural, Hash)]
pub enum ErrorCode {
    BadRequest,
    Unauthorized,
    Forbidden,
    NotFound,
    Conflict,
    InternalServerError,
    NotImplemented,
    ServiceUnavailable,
    GatewayTimeout,
    InsufficientStorage,
}

/// The name of a code (its `Display` text and its `Debug` text).
pub open spec fn code_name(c: ErrorCode) -> Seq<char> {
    match c {
        ErrorCode::BadRequest => "BadRequest"@,
        ErrorCode::Unauthorized => "Unauthorized"@,
        ErrorCode::Forbidden => "Forbidden"@,
        ErrorCode::NotFound => "NotFound"@,
        ErrorCode::Conflict => "Conflict"@,
        ErrorCode::InternalServerError => "InternalServerError"@,
        ErrorCode::NotImplemented => "NotImplemented"@,
        ErrorCode::ServiceUnavailable => "ServiceUnavailable"@,
        ErrorCode::GatewayTimeout => "GatewayTimeout"@,
        ErrorCode::InsufficientStorage => "InsufficientStorage"@,
    }
}

/// The code that a name parses to: the code of that name, or `InternalServerError` for
/// any other text.
pub open spec fn code_of_name(s: Seq<char>) -> ErrorCode {
    if s == "BadRequest"@ {
        ErrorCode::BadRequest
    } else if s == "Unauthorized"@ {
        ErrorCode::Unauthorized
    } else if s == "Forbidden"@ {
        ErrorCode::Forbidden
    } else if s == "NotFound"@ {
        ErrorCode::NotFound
    } else if s == "Conflict"@ {
        ErrorCode::Conflict
    } else if s == "InternalServerError"@ {
        ErrorCode::InternalServerError
    } else if s == "NotImplemented"@ {
        ErrorCode::NotImplemented
    } else if s == "ServiceUnavailable"@ {
        ErrorCode::ServiceUnavailable
    } else if s == "GatewayTimeout"@ {
        ErrorCode::GatewayTimeout
    } else if s == "InsufficientStorage"@ {
        ErrorCode::InsufficientStorage
    } else {
        ErrorCode::InternalServerError
    }
}

/// The HTTP status that a code maps to.
pub open spec fn status_of(c: ErrorCode) -> u16 {
    match c {
        ErrorCode::BadRequest => 400,
        ErrorCode::Unauthorized => 401,
        ErrorCode::Forbidden => 403,
        ErrorCode::NotFound => 404,
        ErrorCode::Conflict => 409,
        ErrorCode::InternalServerError => 500,
        ErrorCode::NotImplemented => 501,
        ErrorCode::ServiceUnavailable => 503,
        ErrorCode::GatewayTimeout => 504,
        ErrorCode::InsufficientStorage => 507,
    }
}

impl ErrorCode {
    /// The HTTP status code for this error code.
    pub fn status_code(&self) -> (r: u16)
        ensures
            r == status_of(*self),
    {
        match self {
            ErrorCode::BadRequest => 400,
            ErrorCode::Unauthorized => 401,
            ErrorCode::Forbidden => 403,
            ErrorCode::NotFound => 404,
            ErrorCode::Conflict => 409,
            ErrorCode::InternalServerError => 500,
            ErrorCode::NotImplemented => 501,
            ErrorCode::ServiceUnavailable => 503,
            ErrorCode::GatewayTimeout => 504,
            ErrorCode::InsufficientStorage => 507,
        }
    }

    /// The name of the code (what `Display` shows).
    pub fn name(&self) -> (r: &'static str)
        ensures
            r@ == code_name(*self),
    {
        match self {
            ErrorCode::BadRequest => "BadRequest",
            ErrorCode::Unauthorized => "Unauthorized",
            ErrorCode::Forbidden => "Forbidden",
            ErrorCode::NotFound => "NotFound",
            ErrorCode::Conflict => "Conflict",
            ErrorCode::InternalServerError => "InternalServerError",
            ErrorCode::NotImplemented => "NotImplemented",
            ErrorCode::ServiceUnavailable => "ServiceUnavailable",
            ErrorCode::GatewayTimeout => "GatewayTimeout",
            ErrorCode::InsufficientStorage => "InsufficientStorage",
        }
    }

    /// The name of the code as an owned string (what `Display` shows).
    pub fn to_display_string(&self) -> (r: String)
        ensures
            r@ == code_name(*self),
    {
        owned(self.name())
    }

    /// Parses a code name; unknown names become `InternalServerError`.
    pub fn from_name(s: &str) -> (r: ErrorCode)
        ensures
            r == code_of_name(s@),
    {
        if crate::path::same_text(s, "BadRequest") {
            ErrorCode::BadRequest
        } else if crate::path::same_text(s, "Unauthorized") {
            ErrorCode::Unauthorized
        } else if crate::path::same_text(s, "Forbidden") {
            ErrorCode::Forbidden
        } else if crate::path::same_text(s, "NotFound") {
            ErrorCode::NotFound
        } else if crate::path::same_text(s, "Conflict") {
            ErrorCode::Conflict
        } else if crate::path::same_text(s, "InternalServerError") {
            ErrorCode::InternalServerError
        } else if crate::path::same_text(s, "NotImplemented") {
            ErrorCode::NotImplemented
        } else if crate::path::same_text(s, "ServiceUnavailable") {
            ErrorCode::ServiceUnavailable
        } else if crate::path::same_text(s, "GatewayTimeout") {
            ErrorCode::GatewayTimeout
        } else if crate::path::same_text(s, "InsufficientStorage") {
            ErrorCode::InsufficientStorage
        } else {
            ErrorCode::InternalServerError
        }
    }
}

/// Parsing a code's name gives the code back: the name and the parse are inverse.
pub proof fn lemma_code_name_roundtrip(c: ErrorCode)
    ensures
        code_of_name(code_name(c)) == c,
{
    reveal_strlit("BadRequest");
    reveal_strlit("Unauthorized");
    reveal_strlit("Forbidden");
    reveal_strlit("NotFound");
    reveal_strlit("Conflict");
    reveal_strlit("InternalServerError");
    reveal_strlit("NotImplemented");
    reveal_strlit("ServiceUnavailable");
    reveal_strlit("GatewayTimeout");
    reveal_strlit("InsufficientStorage");
    match c {
        ErrorCode::BadRequest => {},
        ErrorCode::Unauthorized => {
            assert("Unauthorized"@ != "BadRequest"@) by {
                assert("Unauthorized"@[0] != "BadRequest"@[0]);
            }
        },
        ErrorCode::Forbidden => {
            assert("Forbidden"@ != "BadRequest"@) by { assert("Forbidden"@[0] != "BadRequest"@[0]); }
            assert("Forbidden"@ != "Unauthorized"@) by { assert("Forbidden"@[0] != "Unauthorized"@[0]); }
        },
        ErrorCode::NotFound => {
            assert("NotFound"@ != "BadRequest"@) by { assert("NotFound"@[0] != "BadRequest"@[0]); }
            assert("NotFound"@ != "Unauthorized"@) by { assert("NotFound"@[0] != "Unauthorized"@[0]); }
            assert("NotFound"@ != "Forbidden"@) by { assert("NotFound"@[0] != "Forbidden"@[0]); }
        },
        ErrorCode::Conflict => {
            assert("Conflict"@ != "BadRequest"@) by { assert("Conflict"@[0] != "BadRequest"@[0]); }
            assert("Conflict"@ != "Unauthorized"@) by { assert("Conflict"@[0] != "Unauthorized"@[0]); }
            assert("Conflict"@ != "Forbidden"@) by { assert("Conflict"@[0] != "Forbidden"@[0]); }
            assert("Conflict"@ != "NotFound"@) by { assert("Conflict"@[0] != "NotFound"@[0]); }
        },
        ErrorCode::InternalServerError => {
            assert("InternalServerError"@ != "BadRequest"@) by { assert("InternalServerError"@[0] != "BadRequest"@[0]); }
            assert("InternalServerError"@ != "Unauthorized"@) by { assert("InternalServerError"@[0] != "Unauthorized"@[0]); }
            assert("InternalServerError"@ != "Forbidden"@) by { assert("InternalServerError"@[0] != "Forbidden"@[0]); }
            assert("InternalServerError"@ != "NotFound"@) by { assert("InternalServerError"@[0] != "NotFound"@[0]); }
            assert("InternalServerError"@ != "Conflict"@) by { assert("InternalServerError"@[0] != "Conflict"@[0]); }
        },
        ErrorCode::NotImplemented => {
            assert("NotImplemented"@ != "BadRequest"@) by { assert("NotImplemented"@[0] != "BadRequest"@[0]); }
            assert("NotImplemented"@ != "Unauthorized"@) by { assert("NotImplemented"@[0] != "Unauthorized"@[0]); }
            assert("NotImplemented"@ != "Forbidden"@) by { assert("NotImplemented"@[0] != "Forbidden"@[0]); }
            assert("NotImplemented"@ != "NotFound"@) by { assert("NotImplemented"@[3] != "NotFound"@[3]); }
            assert("NotImplemented"@ != "Conflict"@) by { assert("NotImplemented"@[0] != "Conflict"@[0]); }
            assert("NotImplemented"@ != "InternalServerError"@) by { assert("NotImplemented"@[0] != "InternalServerError"@[0]); }
        },
        ErrorCode::ServiceUnavailable => {
            assert("ServiceUnavailable"@ != "BadRequest"@) by { assert("ServiceUnavailable"@[0] != "BadRequest"@[0]); }
            assert("ServiceUnavailable"@ != "Unauthorized"@) by { assert("ServiceUnavailable"@[0] != "Unauthorized"@[0]); }
            assert("ServiceUnavailable"@ != "Forbidden"@) by { assert("ServiceUnavailable"@[0] != "Forbidden"@[0]); }
            assert("ServiceUnavailable"@ != "NotFound"@) by { assert("ServiceUnavailable"@[0] != "NotFound"@[0]); }
            assert("ServiceUnavailable"@ != "Conflict"@) by { assert("ServiceUnavailable"@[0] != "Conflict"@[0]); }
            assert("ServiceUnavailable"@ != "InternalServerError"@) by { assert("ServiceUnavailable"@[0] != "InternalServerError"@[0]); }
            assert("ServiceUnavailable"@ != "NotImplemented"@) by { assert("ServiceUnavailable"@[0] != "NotImplemented"@[0]); }
        },
        ErrorCode::GatewayTimeout => {
            assert("GatewayTimeout"@ != "BadRequest"@) by { assert("GatewayTimeout"@[0] != "BadRequest"@[0]); }
            assert("GatewayTimeout"@ != "Unauthorized"@) by { assert("GatewayTimeout"@[0] != "Unauthorized"@[0]); }
            assert("GatewayTimeout"@ != "Forbidden"@) by { assert("GatewayTimeout"@[0] != "Forbidden"@[0]); }
            assert("GatewayTimeout"@ != "NotFound"@) by { assert("GatewayTimeout"@[0] != "NotFound"@[0]); }
            assert("GatewayTimeout"@ != "Conflict"@) by { assert("GatewayTimeout"@[0] != "Conflict"@[0]); }
            assert("GatewayTimeout"@ != "InternalServerError"@) by { assert("GatewayTimeout"@[0] != "InternalServerError"@[0]); }
            assert("GatewayTimeout"@ != "NotImplemented"@) by { assert("GatewayTimeout"@[0] != "NotImplemented"@[0]); }
            assert("GatewayTimeout"@ != "ServiceUnavailable"@) by { assert("GatewayTimeout"@[0] != "ServiceUnavailable"@[0]); }
        },
        ErrorCode::InsufficientStorage => {
            assert("InsufficientStorage"@ != "BadRequest"@) by { assert("InsufficientStorage"@[0] != "BadRequest"@[0]); }
            assert("InsufficientStorage"@ != "Unauthorized"@) by { assert("InsufficientStorage"@[0] != "Unauthorized"@[0]); }
            assert("InsufficientStorage"@ != "Forbidden"@) by { assert("InsufficientStorage"@[0] != "Forbidden"@[0]); }
            assert("InsufficientStorage"@ != "NotFound"@) by { assert("InsufficientStorage"@[0] != "NotFound"@[0]); }
            assert("InsufficientStorage"@ != "Conflict"@) by { assert("InsufficientStorage"@[0] != "Conflict"@[0]); }
            assert("InsufficientStorage"@ != "InternalServerError"@) by { assert("InsufficientStorage"@[2] != "InternalServerError"@[2]); }
            assert("InsufficientStorage"@ != "NotImplemented"@) by { assert("InsufficientStorage"@[0] != "NotImplemented"@[0]); }
            assert("InsufficientStorage"@ != "ServiceUnavailable"@) by { assert("InsufficientStorage"@[0] != "ServiceUnavailable"@[0]); }
            assert("InsufficientStorage"@ != "GatewayTimeout"@) by { assert("InsufficientStorage"@[0] != "GatewayTimeout"@[0]); }
        },
    }
}

/// Standardized HTTP error response.
#[derive(Debug, Clone)]
pub struct HttpErrorResponse {
    /// Error code
    pub code: ErrorCode,
    /// Human-readable error message
    pub message: String,
    /// Optional context (e.g. operation and path) for debugging
    pub detail: Option<String>,
}

impl HttpErrorResponse {
    /// Create a new error response without detail.
    pub fn new(code: ErrorCode, message: &str) -> (r: Self)
        ensures
            r.code == code,
            r.message@ == message@,
            r.detail is None,
    {
        HttpErrorResponse { code, message: owned(message), detail: None }
    }

    /// Create an error response with context detail.
    pub fn new_with_detail(code: ErrorCode, message: &str, detail: &str) -> (r: Self)
        ensures
            r.code == code,
            r.message@ == message@,
            opt_view(r.detail) == Some(detail@),
    {
        HttpErrorResponse { code, message: owned(message), detail: Some(owned(detail)) }
    }

    /// Create a bad request error.
    pub fn bad_request(message: &str) -> (r: Self)
        ensures
            r.code == ErrorCode::BadRequest,
            r.message@ == message@,
            r.detail is None,
    {
        Self::new(ErrorCode::BadRequest, message)
    }

    /// Create a not found error.
    pub fn not_found(message: &str) -> (r: Self)
        ensures
            r.code == ErrorCode::NotFound,
            r.message@ == message@,
            r.detail is None,
    {
        Self::new(ErrorCode::NotFound, message)
    }

    /// Create an internal server error.
    pub fn internal(message: &str) -> (r: Self)
        ensures
            r.code == ErrorCode::InternalServerError,
            r.message@ == message@,
            r.detail is None,
    {
        Self::new(ErrorCode::InternalServerError, message)
    }

    /// `CODE: message`, then ` (detail)` when there is detail.
    pub open spec fn display_text(&self) -> Seq<char> {
        let head = code_name(self.code) + ": "@ + self.message@;
        match self.detail {
            Some(d) => head + " ("@ + d@ + ")"@,
            None => head,
        }
    }

    /// What `Display` shows.
    pub fn to_display_string(&self) -> (r: String)
        ensures
            r@ == self.display_text(),
    {
        let mut out = concat_str(self.code.name(), ": ");
        out.append(self.message.as_str());
        match &self.detail {
            Some(d) => {
                out.append(" (");
                out.append(d.as_str());
                out.append(")");
            },
            None => {},
        }
        out
    }
}

} // verus!
