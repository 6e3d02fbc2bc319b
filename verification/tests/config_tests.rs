use kv_fetch::config::build_config;
use kv_fetch::config::ConfigError;

fn some(s: &str) -> Option<String> {
    Some(s.to_string())
}

#[test]
fn missing_account_id_fails_first() {
    let r = build_config(None, some("ns"), some("tok"), None);
    match r {
        Err(ConfigError::MissingAccountId) => {},
        _ => panic!("expected the account id to be reported missing"),
    }
}

#[test]
fn missing_namespace_id_fails() {
    let r = build_config(some("acc"), None, some("tok"), None);
    match r {
        Err(ConfigError::MissingNamespaceId) => {},
        _ => panic!("expected the namespace id to be reported missing"),
    }
}

#[test]
fn missing_auth_token_fails() {
    let r = build_config(some("acc"), some("ns"), None, None);
    match r {
        Err(ConfigError::MissingAuthToken) => {},
        _ => panic!("expected the auth token to be reported missing"),
    }
}

#[test]
fn all_missing_reports_account_id_first() {
    let r = build_config(None, None, None, None);
    match r {
        Err(ConfigError::MissingAccountId) => {},
        _ => panic!("expected the account id to be reported first"),
    }
}

#[test]
fn error_names_its_variable() {
    assert_eq!(ConfigError::MissingAccountId.variable(), "ACCOUNT_ID");
    assert_eq!(ConfigError::MissingNamespaceId.variable(), "NAMESPACE_ID");
    assert_eq!(ConfigError::MissingAuthToken.variable(), "AUTH_TOKEN");
}

#[test]
fn complete_configuration_is_kept_verbatim() {
    let r = build_config(some("acc"), some("ns"), some("tok"), some("alpha"));
    match r {
        Ok(c) => {
            assert_eq!(c.credentials.account_id, "acc");
            assert_eq!(c.credentials.namespace_id, "ns");
            assert_eq!(c.credentials.auth_token, "tok");
            assert_eq!(c.filter, "alpha");
        },
        Err(_) => panic!("expected a complete configuration to succeed"),
    }
}

#[test]
fn absent_filter_argument_becomes_empty_filter() {
    let r = build_config(some("acc"), some("ns"), some("tok"), None);
    match r {
        Ok(c) => assert_eq!(c.filter, ""),
        Err(_) => panic!("expected a complete configuration to succeed"),
    }
}
