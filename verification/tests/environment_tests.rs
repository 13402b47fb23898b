use getman::environment::{Environment, EnvironmentManager, Variable, VariableScope};
use getman::strmap::StringMap;

#[test]
fn resolve_collection_vars_only() {
    let mgr = EnvironmentManager::default();
    let mut collection = StringMap::new();
    collection.insert("host".into(), "localhost".into());

    let resolved = mgr.resolve(&collection);
    assert_eq!(resolved.get("host").unwrap(), "localhost");
}

#[test]
fn resolve_env_overrides_collection() {
    let mgr = EnvironmentManager {
        globals: vec![],
        environments: vec![Environment {
            name: "dev".into(),
            variables: vec![Variable {
                key: "host".into(),
                value: "dev.example.com".into(),
                scope: VariableScope::Environment,
                enabled: true,
            }],
        }],
        active_environment: Some("dev".into()),
    };

    let mut collection = StringMap::new();
    collection.insert("host".into(), "localhost".into());

    let resolved = mgr.resolve(&collection);
    assert_eq!(resolved.get("host").unwrap(), "dev.example.com");
}

#[test]
fn resolve_global_overrides_env() {
    let mgr = EnvironmentManager {
        globals: vec![Variable {
            key: "host".into(),
            value: "global.example.com".into(),
            scope: VariableScope::Global,
            enabled: true,
        }],
        environments: vec![Environment {
            name: "dev".into(),
            variables: vec![Variable {
                key: "host".into(),
                value: "dev.example.com".into(),
                scope: VariableScope::Environment,
                enabled: true,
            }],
        }],
        active_environment: Some("dev".into()),
    };

    let resolved = mgr.resolve(&StringMap::new());
    assert_eq!(resolved.get("host").unwrap(), "global.example.com");
}

#[test]
fn resolve_disabled_vars_ignored() {
    let mgr = EnvironmentManager {
        globals: vec![Variable {
            key: "secret".into(),
            value: "hidden".into(),
            scope: VariableScope::Global,
            enabled: false,
        }],
        environments: vec![],
        active_environment: None,
    };

    let resolved = mgr.resolve(&StringMap::new());
    assert!(resolved.get("secret").is_none());
}

#[test]
fn interpolate_replaces_placeholders() {
    let mgr = EnvironmentManager::default();
    let mut vars = StringMap::new();
    vars.insert("host".into(), "api.example.com".into());
    vars.insert("port".into(), "8080".into());

    let result = mgr.interpolate("https://{{host}}:{{port}}/api", &vars);
    assert_eq!(result, "https://api.example.com:8080/api");
}

#[test]
fn interpolate_leaves_unknown_placeholders() {
    let mgr = EnvironmentManager::default();
    let vars = StringMap::new();

    let result = mgr.interpolate("{{unknown}}", &vars);
    assert_eq!(result, "{{unknown}}");
}
