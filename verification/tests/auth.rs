use messenger_server::auth::bearer_token;
use messenger_server::config::{parse_port, Config};
use messenger_server::error::{AppError, INTERNAL_SERVER_ERROR};

fn unauthorized<T: std::fmt::Debug>(r: Result<T, AppError>) -> bool {
    match r {
        Err(e) => e.status == 401 && e.message == "Нужна авторизация",
        Ok(_) => false,
    }
}

#[test]
fn bearer_token_is_the_trimmed_rest_of_the_header() {
    assert_eq!(bearer_token(Some("Bearer abc")).unwrap(), "abc");
    assert_eq!(bearer_token(Some("Bearer   abc def  ")).unwrap(), "abc def");
    assert!(unauthorized(bearer_token(None)));
    assert!(unauthorized(bearer_token(Some(""))));
    assert!(unauthorized(bearer_token(Some("Bearer"))));
    assert!(unauthorized(bearer_token(Some("Bearer "))));
    assert!(unauthorized(bearer_token(Some("Bearer \t "))));
    assert!(unauthorized(bearer_token(Some("bearer abc"))));
    assert!(unauthorized(bearer_token(Some("Basic abc"))));
    assert!(unauthorized(bearer_token(Some(" Bearer abc"))));
}

#[test]
fn internal_errors_keep_their_details_on_the_server() {
    let e = AppError::internal("disk on fire");
    assert_eq!(e.status, INTERNAL_SERVER_ERROR);
    assert!(e.is_internal());
    assert_eq!(e.public_message(), "Внутренняя ошибка сервера");
    let e = AppError::new(409, "Логин занят");
    assert!(!e.is_internal());
    assert_eq!(e.public_message(), "Логин занят");
}

#[test]
fn port_parses_like_u16() {
    assert_eq!(parse_port("8080"), Some(8080));
    assert_eq!(parse_port("0"), Some(0));
    assert_eq!(parse_port("+80"), Some(80));
    assert_eq!(parse_port("00443"), Some(443));
    assert_eq!(parse_port("65535"), Some(65535));
    assert_eq!(parse_port("65536"), None);
    assert_eq!(parse_port("99999999999999999999"), None);
    assert_eq!(parse_port(""), None);
    assert_eq!(parse_port("+"), None);
    assert_eq!(parse_port("-1"), None);
    assert_eq!(parse_port(" 80"), None);
    assert_eq!(parse_port("80a"), None);
    for s in ["1", "22", "8080", "65535", "65536", "+7", "x", ""] {
        assert_eq!(parse_port(s), s.parse::<u16>().ok());
    }
}

#[test]
fn settings_fall_back_to_defaults() {
    let c = Config::from_env_values(None, None);
    assert_eq!((c.port, c.database_path.as_str()), (8080, "data/chat.db"));
    let c = Config::from_env_values(Some("not a port".to_string()), Some("/tmp/x.db".to_string()));
    assert_eq!((c.port, c.database_path.as_str()), (8080, "/tmp/x.db"));
    let c = Config::from_env_values(Some("3000".to_string()), None);
    assert_eq!(c.port, 3000);
}
