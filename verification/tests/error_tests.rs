use matching_engine::EngineError;
use matching_engine::ErrorSeverity;

#[test]
fn test_error_retryability() {
    let redis_error = EngineError::Redis(String::from("Connection failed"));
    assert!(redis_error.is_retryable());

    let validation_error = EngineError::OrderValidation("Invalid price".to_string());
    assert!(!validation_error.is_retryable());
}

#[test]
fn test_error_severity() {
    let config_error = EngineError::Configuration("Missing config".to_string());
    assert_eq!(config_error.severity(), ErrorSeverity::Critical);

    let validation_error = EngineError::OrderValidation("Invalid price".to_string());
    assert_eq!(validation_error.severity(), ErrorSeverity::Low);
}

#[test]
fn test_user_message() {
    let order_error = EngineError::OrderExecution {
        reason: "Insufficient funds".to_string(),
        order_id: Some("ORDER-123".to_string()),
    };
    assert!(order_error.user_message().contains("ORDER-123"));
    assert!(order_error.user_message().contains("Insufficient funds"));
}

#[test]
fn test_ledger_and_stream_errors_are_retryable() {
    assert!(EngineError::Ledger("append failed".to_string()).is_retryable());
    assert!(EngineError::StreamProcessing("read failed".to_string()).is_retryable());
    assert!(EngineError::ViewEmission("publish failed".to_string()).is_retryable());
    assert!(!EngineError::UnknownEventType("order.weird".to_string()).is_retryable());
    assert!(!EngineError::Configuration("bad url".to_string()).is_retryable());
}

#[test]
fn test_severity_labels() {
    assert_eq!(ErrorSeverity::Low.as_str(), "LOW");
    assert_eq!(ErrorSeverity::Medium.as_str(), "MEDIUM");
    assert_eq!(ErrorSeverity::High.as_str(), "HIGH");
    assert_eq!(ErrorSeverity::Critical.as_str(), "CRITICAL");
}

#[test]
fn test_generic_user_message() {
    let e = EngineError::Internal("boom".to_string());
    assert_eq!(
        e.user_message(),
        "An internal error occurred. Please try again later."
    );
}
