use getman::domain::{EnvVariable, Environment, ResolveRequestPayload};
use getman::envres::{build_variable_map, interpolate, resolve_request};
use getman::strmap::StringMap;

fn make_var(key: &str, value: &str) -> EnvVariable {
    EnvVariable {
        id: key.to_string(),
        key: key.to_string(),
        value: value.to_string(),
        enabled: true,
    }
}

#[test]
fn test_interpolate_basic() {
    let mut vars = StringMap::new();
    vars.insert("host".to_string(), "example.com".to_string());
    vars.insert("port".to_string(), "8080".to_string());

    let result = interpolate("https://{{host}}:{{port}}/api", &vars);
    assert_eq!(result, "https://example.com:8080/api");
}

#[test]
fn test_interpolate_no_match() {
    let vars = StringMap::new();
    let result = interpolate("https://example.com/api", &vars);
    assert_eq!(result, "https://example.com/api");
}

#[test]
fn test_interpolate_unresolved_vars() {
    let vars = StringMap::new();
    let result = interpolate("https://{{host}}/api", &vars);
    assert_eq!(result, "https://{{host}}/api");
}

#[test]
fn test_build_variable_map_global_only() {
    let globals = vec![
        make_var("host", "global.example.com"),
        make_var("token", "abc123"),
    ];
    let map = build_variable_map(&globals, None);
    assert_eq!(map.get("host").unwrap(), "global.example.com");
    assert_eq!(map.get("token").unwrap(), "abc123");
}

#[test]
fn test_build_variable_map_env_overrides_global() {
    let globals = vec![
        make_var("host", "global.example.com"),
        make_var("token", "global-token"),
    ];
    let env = Environment {
        id: "env1".to_string(),
        name: "dev".to_string(),
        variables: vec![make_var("host", "dev.example.com")],
    };
    let map = build_variable_map(&globals, Some(&env));
    assert_eq!(map.get("host").unwrap(), "dev.example.com");
    assert_eq!(map.get("token").unwrap(), "global-token");
}

#[test]
fn test_build_variable_map_disabled_vars_excluded() {
    let globals = vec![EnvVariable {
        id: "1".to_string(),
        key: "host".to_string(),
        value: "example.com".to_string(),
        enabled: false,
    }];
    let map = build_variable_map(&globals, None);
    assert!(map.get("host").is_none());
}

#[test]
fn test_resolve_request_full() {
    let globals = vec![
        make_var("base_url", "https://api.example.com"),
        make_var("auth_token", "global-token"),
    ];
    let envs = vec![Environment {
        id: "env1".to_string(),
        name: "staging".to_string(),
        variables: vec![make_var("auth_token", "staging-token")],
    }];

    let headers = vec![(
        "Authorization".to_string(),
        "Bearer {{auth_token}}".to_string(),
    )];

    let payload = ResolveRequestPayload {
        url: "{{base_url}}/users".to_string(),
        method: "GET".to_string(),
        headers,
        body: Some("{\"key\": \"{{auth_token}}\"}".to_string()),
        environment_id: Some("env1".to_string()),
    };

    let resolved = resolve_request(&payload, &globals, &envs);
    assert_eq!(resolved.url, "https://api.example.com/users");
    let auth = resolved
        .headers
        .iter()
        .find(|(k, _)| k == "Authorization")
        .map(|(_, v)| v.clone())
        .unwrap();
    assert_eq!(auth, "Bearer staging-token");
    assert_eq!(resolved.body.unwrap(), "{\"key\": \"staging-token\"}");
}
