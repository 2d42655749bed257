use routines::auth::{google_auth, oauth_client};
use routines::state::Env;

fn env_with(auth_url: &str, token_url: &str, redirect_url: &str) -> Env {
    Env {
        database_path: "routines.db".to_owned(),
        port: 8000,
        client_id: "client-1".to_owned(),
        client_secret: "SECRET-REDACTED".to_owned(),
        client_url: "https://example.com".to_owned(),
        redirect_url: redirect_url.to_owned(),
        auth_url: auth_url.to_owned(),
        token_url: token_url.to_owned(),
    }
}

#[test]
fn oauth_client_accepts_valid_endpoints() {
    let env = env_with(
        "https://accounts.example.com/o/oauth2/v2/auth",
        "https://oauth2.example.com/token",
        "https://example.com/auth/authorized",
    );
    let client = oauth_client(&env).expect("valid configuration");
    assert_eq!(client.client_id, env.client_id);
    assert_eq!(client.auth_url, env.auth_url);
    assert_eq!(client.token_url, env.token_url);
    assert_eq!(client.redirect_url, env.redirect_url);
}

#[test]
fn oauth_client_rejects_malformed_endpoint() {
    let env = env_with("not a url", "https://oauth2.example.com/token", "https://example.com/cb");
    assert!(oauth_client(&env).is_err());
    let env = env_with("https://a.example.com/auth", "::::", "https://example.com/cb");
    assert!(oauth_client(&env).is_err());
    let env = env_with("https://a.example.com/auth", "https://t.example.com/token", "");
    assert!(oauth_client(&env).is_err());
}

#[test]
fn authorize_url_carries_fresh_state() {
    let env = env_with(
        "https://accounts.example.com/o/oauth2/v2/auth",
        "https://oauth2.example.com/token",
        "https://example.com/auth/authorized",
    );
    let client = oauth_client(&env).expect("valid configuration");
    let (url_a, csrf_a) = google_auth(&client);
    let (url_b, csrf_b) = google_auth(&client);
    assert!(!csrf_a.is_empty());
    assert!(!csrf_b.is_empty());
    assert_ne!(csrf_a, csrf_b);
    assert!(url_a.contains("state="));
    assert!(url_a.contains("scope=profile"));
    assert!(url_a.starts_with("https://accounts.example.com/o/oauth2/v2/auth"));
    assert_ne!(url_a, url_b);
}
