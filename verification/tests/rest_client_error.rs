use task_manager::rest::client_error::ClientError;
use task_manager::rest::error::TaskError;
use task_manager::rest::json::{JsonNumber, JsonValue};

#[test]
fn categories_preserve_details_and_sources() {
    let details = JsonValue::Object(vec![(String::from("id"), JsonValue::Number(JsonNumber::PosInt(7)))]);
    let api = ClientError::api(404, "not_found", "missing", Some(details));
    let (status, code, message, details) = api.api_details().expect("API details");
    assert_eq!((status, code, message), (404, "not_found", "missing"));
    assert_eq!(details.expect("API detail").get("id").and_then(JsonValue::as_i64), Some(7));

    let malformed = ClientError::unexpected_response("wrong shape");
    assert_eq!(malformed.unexpected_response_message(), Some("wrong shape"));

    let connection = ClientError::connection("offline", true);
    assert!(connection.is_connection());
    assert!(connection.is_timeout());
    assert!(matches!(&connection, ClientError::Connection { source, .. } if source == "offline"));

    let internal = ClientError::internal("encode", "invalid value");
    assert!(matches!(&internal, ClientError::Internal { source, .. } if source == "invalid value"));
}

#[test]
fn client_errors_wrap_core_errors() {
    let wrapped = ClientError::from(TaskError::validation("title", "bad"));
    assert_eq!(wrapped.validation_details(), Some(("title", "bad")));
    assert_eq!(wrapped.task_error().and_then(TaskError::validation_details), Some(("title", "bad")));
    assert_eq!(wrapped.message(), "bad");
    let config = ClientError::configuration("timeout", "timeout must be positive and finite");
    assert_eq!(config.configuration_details(), Some(("timeout", "timeout must be positive and finite")));
    assert_eq!(config.validation_details(), None);
    assert!(!config.is_connection());
    assert_eq!(ClientError::api(500, "internal_error", "x", None).message(), "API returned 500 internal_error: x");
    assert_eq!(ClientError::connection("refused", false).message(), "request failed");
    assert!(!ClientError::connection("refused", false).is_timeout());
}
