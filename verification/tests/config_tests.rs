use order_backend::config::parse_port;
use order_backend::config::AppConfig;
use order_backend::error::AppError;

#[test]
fn parse_port_reads_decimal() {
    assert_eq!(parse_port("8000"), Some(8000));
    assert_eq!(parse_port("0"), Some(0));
    assert_eq!(parse_port("65535"), Some(65535));
}

#[test]
fn parse_port_rejects_bad_input() {
    assert_eq!(parse_port(""), None);
    assert_eq!(parse_port("65536"), None);
    assert_eq!(parse_port("99999999999999999999"), None);
    assert_eq!(parse_port("80a0"), None);
    assert_eq!(parse_port("-1"), None);
    assert_eq!(parse_port(" 8000"), None);
}

#[test]
fn config_holds_what_it_was_given() {
    let c = AppConfig::new(
        "postgres://localhost/orders".to_string(),
        "signing secret".to_string(),
        "127.0.0.1".to_string(),
        8000,
    );
    assert_eq!(c.database_url, "postgres://localhost/orders");
    assert_eq!(c.jwt_secret, "signing secret");
    assert_eq!(c.app_host, "127.0.0.1");
    assert_eq!(c.app_port, 8000);
}

#[test]
fn error_status_codes() {
    assert_eq!(AppError::AuthError("x".to_string()).status_code(), 401);
    assert_eq!(AppError::DatabaseError("x".to_string()).status_code(), 500);
    assert_eq!(AppError::ValidationError("x".to_string()).status_code(), 400);
    assert_eq!(AppError::NotFound("x".to_string()).status_code(), 404);
    assert_eq!(AppError::InternalError("x".to_string()).status_code(), 500);
}

#[test]
fn error_messages_surface_verbatim() {
    let e = AppError::NotFound("Order not found".to_string());
    assert_eq!(e.message(), "Order not found");
}
