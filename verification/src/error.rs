//! Error taxonomy of the engine: which failures may be retried, how
//! severe each one is, and what a user is told.

use vstd::prelude::*;
use vstd::string::StringExecFns;

verus! {

/// Main error type of the matching engine.
///
/// Infrastructure failures (`Redis`, `StreamProcessing`, `ViewEmission`,
/// `Ledger`) are retryable; validation and logic failures are not.
#[derive(Debug)]
pub enum EngineError {
    /// An order book operation failed.
    OrderBook(String),
    /// The transport used for the command log or projections failed.
    Redis(String),
    /// A payload could not be encoded or decoded.
    Json(String),
    /// An order broke a business rule.
    OrderValidation(String),
    /// The order type tag was not recognised.
    InvalidOrderType(String),
    /// A required field was missing from a message.
    MissingField(String),
    /// A message had the wrong shape.
    InvalidMessage(String),
    /// Appending to or reading from the ledger failed.
    Ledger(String),
    /// Reading the command stream failed.
    StreamProcessing(String),
    /// The process configuration is unusable.
    Configuration(String),
    /// Matching failed for one order.
    OrderExecution { reason: String, order_id: Option<String> },
    /// Capturing or installing a snapshot failed.
    Snapshot(String),
    /// Publishing a read-side projection failed.
    ViewEmission(String),
    /// A command carried an unknown type tag.
    UnknownEventType(String),
    /// An unclassified internal failure.
    Internal(String),
}

/// Severity of an error, for surfacing and monitoring.
#[derive(Debug, Clone, Copy, PartialEq, Eq, Structural)]
pub enum ErrorSeverity {
    /// Expected errors, validation failures.
    Low,
    /// Temporary failures, network issues.
    Medium,
    /// Business logic failures that need attention.
    High,
    /// System failures requiring immediate action.
    Critical,
}

/// Whether a failed command should stay pending and be redelivered.
pub open spec fn spec_retryable(e: EngineError) -> bool {
    match e {
        EngineError::Redis(_) => true,
        EngineError::StreamProcessing(_) => true,
        EngineError::ViewEmission(_) => true,
        EngineError::Ledger(_) => true,
        _ => false,
    }
}

/// The severity assigned to each error class.
pub open spec fn spec_severity(e: EngineError) -> ErrorSeverity {
    match e {
        EngineError::Configuration(_) => ErrorSeverity::Critical,
        EngineError::Internal(_) => ErrorSeverity::Critical,
        EngineError::OrderBook(_) => ErrorSeverity::High,
        EngineError::OrderExecution { .. } => ErrorSeverity::High,
        EngineError::Ledger(_) => ErrorSeverity::High,
        EngineError::Redis(_) => ErrorSeverity::Medium,
        EngineError::StreamProcessing(_) => ErrorSeverity::Medium,
        EngineError::OrderValidation(_) => ErrorSeverity::Low,
        EngineError::InvalidOrderType(_) => ErrorSeverity::Low,
        EngineError::MissingField(_) => ErrorSeverity::Low,
        EngineError::InvalidMessage(_) => ErrorSeverity::Low,
        EngineError::UnknownEventType(_) => ErrorSeverity::Low,
        _ => ErrorSeverity::Medium,
    }
}

/// The user-facing message for each error.
pub open spec fn spec_user_message(e: EngineError) -> Seq<char> {
    match e {
        EngineError::OrderValidation(msg) => "Order validation failed: "@ + msg@,
        EngineError::InvalidOrderType(t) => "Invalid order type: "@ + t@,
        EngineError::OrderExecution { reason, order_id } => match order_id {
            Some(id) => "Order "@ + id@ + " failed: "@ + reason@,
            None => "Order execution failed: "@ + reason@,
        },
        _ => "An internal error occurred. Please try again later."@,
    }
}

impl EngineError {
    /// True exactly for the infrastructure errors, which may be retried.
    pub fn is_retryable(&self) -> (r: bool)
        ensures
            r == spec_retryable(*self),
    {
        match self {
            EngineError::Redis(_) => true,
            EngineError::StreamProcessing(_) => true,
            EngineError::ViewEmission(_) => true,
            EngineError::Ledger(_) => true,
            _ => false,
        }
    }

    /// The severity of this error, for surfacing and monitoring.
    pub fn severity(&self) -> (r: ErrorSeverity)
        ensures
            r == spec_severity(*self),
    {
        match self {
            EngineError::Configuration(_) => ErrorSeverity::Critical,
            EngineError::Internal(_) => ErrorSeverity::Critical,
            EngineError::OrderBook(_) => ErrorSeverity::High,
            EngineError::OrderExecution { .. } => ErrorSeverity::High,
            EngineError::Ledger(_) => ErrorSeverity::High,
            EngineError::Redis(_) => ErrorSeverity::Medium,
            EngineError::StreamProcessing(_) => ErrorSeverity::Medium,
            EngineError::OrderValidation(_) => ErrorSeverity::Low,
            EngineError::InvalidOrderType(_) => ErrorSeverity::Low,
            EngineError::MissingField(_) => ErrorSeverity::Low,
            EngineError::InvalidMessage(_) => ErrorSeverity::Low,
            EngineError::UnknownEventType(_) => ErrorSeverity::Low,
            _ => ErrorSeverity::Medium,
        }
    }

    /// A user-facing description of this error.
    pub fn user_message(&self) -> (r: String)
        ensures
            r@ == spec_user_message(*self),
    {
        match self {
            EngineError::OrderValidation(msg) => {
                String::from_str("Order validation failed: ").concat(msg.as_str())
            },
            EngineError::InvalidOrderType(t) => {
                String::from_str("Invalid order type: ").concat(t.as_str())
            },
            EngineError::OrderExecution { reason, order_id } => match order_id {
                Some(id) => {
                    let r = String::from_str("Order ").concat(id.as_str());
                    let r = r.concat(" failed: ");
                    let r = r.concat(reason.as_str());
                    proof {
                        assert(r@ == "Order "@ + id@ + " failed: "@ + reason@);
                    }
                    r
                },
                None => String::from_str("Order execution failed: ").concat(reason.as_str()),
            },
            _ => String::from_str("An internal error occurred. Please try again later."),
        }
    }
}

impl ErrorSeverity {
    /// A short label for logs.
    pub fn as_str(&self) -> (r: &'static str)
        ensures
            self is Low ==> r@ == "LOW"@,
            self is Medium ==> r@ == "MEDIUM"@,
            self is High ==> r@ == "HIGH"@,
            self is Critical ==> r@ == "CRITICAL"@,
    {
        match self {
            ErrorSeverity::Low => "LOW",
            ErrorSeverity::Medium => "MEDIUM",
            ErrorSeverity::High => "HIGH",
            ErrorSeverity::Critical => "CRITICAL",
        }
    }
}

/// Result type alias for engine operations.
pub type EngineResult<T> = Result<T, EngineError>;

} // verus!
