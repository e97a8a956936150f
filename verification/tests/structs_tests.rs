use swir::structs::{BackendStatusCodes, HttpMethod, HTTPMethodConversionError};

#[test]
fn http_method_parses_known_names() {
    assert_eq!(HttpMethod::from_str("POST"), Ok(HttpMethod::POST));
    assert_eq!(HttpMethod::from_str("GET"), Ok(HttpMethod::GET));
    assert_eq!(HttpMethod::from_str("DELETE"), Ok(HttpMethod::DELETE));
    assert_eq!(HttpMethod::from_str("PUT"), Ok(HttpMethod::PUT));
}

#[test]
fn http_method_rejects_unknown_names() {
    assert_eq!(HttpMethod::from_str("post"), Err(HTTPMethodConversionError::InvalidMethod));
    assert_eq!(HttpMethod::from_str(""), Err(HTTPMethodConversionError::InvalidMethod));
}

#[test]
fn backend_status_text() {
    assert_eq!(BackendStatusCodes::OK("fine".to_string()).to_string(), "BackendStatusCodes::Ok fine");
    assert_eq!(BackendStatusCodes::Error("bad".to_string()).to_string(), "BackendStatusCodes::ERR bad");
}
