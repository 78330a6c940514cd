use consensource_api::cors::{cors_batches_route, cors_users_auth_route, cors_users_route, CORS};
use consensource_api::metrics::{increment_action, increment_http_req, increment_signin, Metrics};
use consensource_api::vault::Key;

#[test]
fn cors_routes_reply_with_their_greeting() {
    assert_eq!(cors_users_route(), "Hello from CORS /api/users");
    assert_eq!(cors_users_auth_route(), "Hello from CORS /api/users/authenticate");
    assert_eq!(cors_batches_route(), "Hello from CORS /batches");
}

#[test]
fn test_method_options() {
    let change = CORS.on_response(true, false);
    let find = |name: &str| change.headers.iter().find(|h| h.name == name).map(|h| h.value.clone());
    assert_eq!(find("Access-Control-Allow-Origin"), Some("*".to_string()));
    assert_eq!(find("Access-Control-Allow-Methods"), Some("POST, GET, OPTIONS, PATCH".to_string()));
    assert_eq!(find("Access-Control-Allow-Credentials"), Some("true".to_string()));
    assert_eq!(find("Access-Control-Allow-Headers"), Some("Content-Type, Authentication".to_string()));
    assert!(change.plain_empty_body);
}

#[test]
fn test_method_json() {
    let change = CORS.on_response(false, true);
    let find = |name: &str| change.headers.iter().find(|h| h.name == name).map(|h| h.value.clone());
    assert_eq!(find("Access-Control-Allow-Origin"), Some("*".to_string()));
    assert_eq!(find("Access-Control-Allow-Methods"), Some("POST, GET, OPTIONS, PATCH".to_string()));
    assert_eq!(find("Access-Control-Allow-Credentials"), Some("true".to_string()));
    assert!(!change.plain_empty_body);
}

#[test]
fn plain_response_gets_no_cors_headers() {
    let change = CORS.on_response(false, false);
    assert!(change.headers.is_empty());
    assert!(!change.plain_empty_body);
}

#[test]
fn test_get_metrics_http() {
    let mut m = Metrics::new();
    assert_eq!(m.http_requests(), 0);
    increment_http_req(&mut m);
    assert_eq!(m.http_requests(), 1);
    increment_http_req(&mut m);
    assert_eq!(m.http_requests(), 2);
}

#[test]
fn test_get_metrics_action() {
    let mut m = Metrics::new();
    let action = "create agent".to_string();
    let user = "test".to_string();
    increment_action(&mut m, &action, &user);
    increment_action(&mut m, &action, &user);
    increment_action(&mut m, &"update organization".to_string(), &user);
    assert_eq!(m.action_count(&action, &user), 2);
    assert_eq!(m.action_count(&"update organization".to_string(), &user), 1);
    assert_eq!(m.action_count(&action, &"someone else".to_string()), 0);
    assert_eq!(m.http_requests(), 0);
}

#[test]
fn test_get_metrics_signin() {
    let mut m = Metrics::new();
    let user = "testuser".to_string();
    increment_signin(&mut m, &user);
    assert_eq!(m.signin_count(&user), 1);
    increment_signin(&mut m, &user);
    increment_signin(&mut m, &"other".to_string());
    assert_eq!(m.signin_count(&user), 2);
    assert_eq!(m.signin_count(&"other".to_string()), 1);
    assert_eq!(m.signin_count(&"nobody".to_string()), 0);
}

#[test]
fn key_holds_the_private_key() {
    let k = Key { private_key: "test_private_key".to_string() };
    assert_eq!(k.private_key, "test_private_key");
}
