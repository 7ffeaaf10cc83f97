//! Error handling: the library's error type, the element error messages it
//! becomes, and the flow errors it stops a stream with.

use vstd::prelude::*;

verus! {

/// The resource error kinds element errors are posted with.
#[derive(Debug, Clone, Copy, PartialEq, Eq, Structural)]
pub enum ResourceErrorKind {
    Failed,
    Read,
    Write,
    OpenRead,
    OpenWrite,
    Settings,
}

/// The domain and kind of an element error.
#[derive(Debug, Clone, Copy, PartialEq, Eq, Structural)]
pub enum ErrorDomain {
    /// A resource error of the given kind.
    Resource(ResourceErrorKind),
    /// A core error (an element-internal failure).
    CoreFailed,
    /// A stream error raised while decoding data.
    StreamDecode,
    /// A core error about a pad.
    CorePad,
}

/// An element error: its domain and its text.
#[derive(Debug, Clone)]
pub struct ErrorMessage {
    pub domain: ErrorDomain,
    pub text: String,
}

/// Why a data flow stopped.
#[derive(Debug, Clone, Copy, PartialEq, Eq, Structural)]
pub enum FlowError {
    /// The element is flushing.
    Flushing,
    /// A fatal error.
    Error,
    /// The format or session could not be negotiated.
    NotNegotiated,
}

/// Custom error type for Zenoh operations. The Zenoh error behind a variant is
/// held as its text.
#[derive(Debug, Clone)]
pub enum ZenohError {
    /// Error initializing Zenoh session
    Init { reason: String },
    /// Error with key expression
    KeyExpr { key_expr: String, reason: String },
    /// Error publishing data
    Publish { key_expr: String, reason: String },
}

/// The text of an error: a prefix and the detail.
fn two(a: &str, b: &str) -> (s: String)
    ensures
        s@ == a@ + b@,
{
    let mut s = String::from_str(a);
    s.append(b);
    s
}

/// The text of an error with two details.
fn four(a: &str, b: &str, c: &str, d: &str) -> (s: String)
    ensures
        s@ == a@ + b@ + c@ + d@,
{
    let mut s = String::from_str(a);
    s.append(b);
    s.append(c);
    s.append(d);
    s
}

/// The text of an error: the prefix, the detail and the suffix.
fn three(a: &str, b: &str, c: &str) -> (s: String)
    ensures
        s@ == a@ + b@ + c@,
{
    let mut s = String::from_str(a);
    s.append(b);
    s.append(c);
    s
}

/// The text of an error with two details.
fn five(a: &str, b: &str, c: &str, d: &str, e: &str) -> (s: String)
    ensures
        s@ == a@ + b@ + c@ + d@ + e@,
{
    let mut s = String::from_str(a);
    s.append(b);
    s.append(c);
    s.append(d);
    s.append(e);
    s
}

/// What an error says.
pub open spec fn zenoh_error_text(e: ZenohError) -> Seq<char> {
    match e {
        ZenohError::Init { reason } => "Failed to initialize Zenoh session: "@ + reason@,
        ZenohError::KeyExpr { key_expr, reason } => "Invalid key expression '"@ + key_expr@
            + "': "@ + reason@,
        ZenohError::Publish { key_expr, reason } => "Failed to publish to '"@ + key_expr@ + "': "@
            + reason@,
    }
}

/// The element error an error becomes.
pub open spec fn error_message_of(e: ZenohError) -> (ErrorDomain, Seq<char>) {
    match e {
        ZenohError::Init { reason } => (
            ErrorDomain::Resource(ResourceErrorKind::OpenRead),
            "Zenoh session initialization failed: "@ + reason@
                + ". Check network connectivity and Zenoh configuration."@,
        ),
        ZenohError::KeyExpr { key_expr, reason } => (
            ErrorDomain::Resource(ResourceErrorKind::Settings),
            "Invalid Zenoh key expression '"@ + key_expr@ + "': "@ + reason@
                + ". Key expressions must be valid Zenoh paths (e.g., 'demo/video' or 'sensors/**')."@,
        ),
        ZenohError::Publish { key_expr, reason } => (
            ErrorDomain::Resource(ResourceErrorKind::Write),
            "Failed to publish data to '"@ + key_expr@ + "': "@ + reason@
                + ". This may indicate network issues or session problems."@,
        ),
    }
}

/// The flow error an error stops a stream with.
pub open spec fn flow_error_of(e: ZenohError) -> FlowError {
    match e {
        ZenohError::Init { .. } => FlowError::NotNegotiated,
        ZenohError::KeyExpr { .. } => FlowError::NotNegotiated,
        ZenohError::Publish { .. } => FlowError::Error,
    }
}

impl ZenohError {
    /// The error's text.
    pub fn message(&self) -> (s: String)
        ensures
            s@ == zenoh_error_text(*self),
    {
        match self {
            ZenohError::Init { reason } => two(
                "Failed to initialize Zenoh session: ",
                reason.as_str(),
            ),
            ZenohError::KeyExpr { key_expr, reason } => four(
                "Invalid key expression '",
                key_expr.as_str(),
                "': ",
                reason.as_str(),
            ),
            ZenohError::Publish { key_expr, reason } => four(
                "Failed to publish to '",
                key_expr.as_str(),
                "': ",
                reason.as_str(),
            ),
        }
    }
}

/// Conversion of an error into an element error message.
pub trait ErrorHandling {
    /// Convert to an element error message
    fn to_error_message(&self) -> ErrorMessage;
}

impl ErrorHandling for ZenohError {
    fn to_error_message(&self) -> (m: ErrorMessage)
        ensures
            (m.domain, m.text@) == error_message_of(*self),
    {
        match self {
            ZenohError::Init { reason } => ErrorMessage {
                domain: ErrorDomain::Resource(ResourceErrorKind::OpenRead),
                text: three(
                    "Zenoh session initialization failed: ",
                    reason.as_str(),
                    ". Check network connectivity and Zenoh configuration.",
                ),
            },
            ZenohError::KeyExpr { key_expr, reason } => ErrorMessage {
                domain: ErrorDomain::Resource(ResourceErrorKind::Settings),
                text: five(
                    "Invalid Zenoh key expression '",
                    key_expr.as_str(),
                    "': ",
                    reason.as_str(),
                    ". Key expressions must be valid Zenoh paths (e.g., 'demo/video' or 'sensors/**').",
                ),
            },
            ZenohError::Publish { key_expr, reason } => ErrorMessage {
                domain: ErrorDomain::Resource(ResourceErrorKind::Write),
                text: five(
                    "Failed to publish data to '",
                    key_expr.as_str(),
                    "': ",
                    reason.as_str(),
                    ". This may indicate network issues or session problems.",
                ),
            },
        }
    }
}

/// Conversion of an error into a flow error.
pub trait FlowErrorHandling {
    /// Convert to a flow error
    fn to_flow_error(&self) -> FlowError;
}

impl FlowErrorHandling for ZenohError {
    fn to_flow_error(&self) -> (f: FlowError)
        ensures
            f == flow_error_of(*self),
    {
        match self {
            ZenohError::Init { .. } => FlowError::NotNegotiated,
            ZenohError::KeyExpr { .. } => FlowError::NotNegotiated,
            ZenohError::Publish { .. } => FlowError::Error,
        }
    }
}

/// An element error with a fixed text.
pub fn error_message(domain: ErrorDomain, text: &str) -> (m: ErrorMessage)
    ensures
        m.domain == domain,
        m.text@ == text@,
{
    ErrorMessage { domain, text: String::from_str(text) }
}

} // verus!
