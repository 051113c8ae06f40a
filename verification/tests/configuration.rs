use serde_json::Value;
use trow::configuration::{
    de_retention_days, de_unwrap_or_default, default_untagged_manifest_retention_days,
    normalize_path_prefix, ConfigError, ConfigFile, GarbageCollectionConfig, ImageValidationConfig,
    RawConfigFile, RawGarbageCollection, RawRegistryProxies, RawRegistryProxy,
    RegistryProxiesConfig, RegistryProxyConfigs, SingleRegistryProxyConfig,
};

fn text(value: &Value) -> Option<String> {
    value.as_str().map(|s| s.to_string())
}

fn read_proxy(value: &Value) -> RawRegistryProxy {
    RawRegistryProxy {
        host: text(&value["host"]).unwrap(),
        path_prefix: text(&value["path_prefix"]),
        insecure: value["insecure"].as_bool(),
        username: text(&value["username"]),
        password: text(&value["password"]),
    }
}

fn read_config(json: &str) -> RawConfigFile {
    let value: Value = serde_json::from_str(json).unwrap();
    RawConfigFile {
        registry_proxies: value["registry_proxies"].as_object().map(|_| {
            let section = &value["registry_proxies"];
            RawRegistryProxies {
                registries: section["registries"]
                    .as_array()
                    .map(|all| all.iter().map(read_proxy).collect()),
                offline: section["offline"].as_bool(),
                max_size: section["max_size"].as_i64(),
            }
        }),
        image_validation: None,
        garbage_collection: value["garbage_collection"]
            .as_object()
            .map(|section| RawGarbageCollection {
                untagged_manifest_retention_days: section
                    .get("untagged_manifest_retention_days")
                    .and_then(|days| days.as_u64())
                    .map(|days| days as u32),
            }),
    }
}

fn proxy(host: &str, prefix: Option<&str>, username: &str) -> SingleRegistryProxyConfig {
    SingleRegistryProxyConfig {
        host: host.to_string(),
        path_prefix: prefix.map(|p| p.to_string()),
        username: Some(username.to_string()),
        ..Default::default()
    }
}

fn used_for(proxies: &RegistryProxyConfigs, registry: &str, repo: &str) -> Option<String> {
    proxies
        .get_for(registry, repo)
        .map(|p| p.username.clone().unwrap())
}

#[test]
fn test_garbage_collection_defaults_when_absent() {
    // Whether the section is missing entirely or present but empty.
    for json in [
        r#"{"registry_proxies": null}"#,
        r#"{"registry_proxies": null, "garbage_collection": {}}"#,
    ] {
        let config: ConfigFile = read_config(json).resolve().unwrap();
        assert_eq!(
            config.garbage_collection.untagged_manifest_retention_days, 7,
            "did not default: {json}"
        );
    }
}

/// 0 reads as "off" but would mean "collect every untagged manifest on the next pass", so it
/// is rejected rather than quietly obeyed.
#[test]
fn test_garbage_collection_rejects_zero_retention() {
    let err = read_config(
        r#"{"registry_proxies": null,
            "garbage_collection": {"untagged_manifest_retention_days": 0}}"#,
    )
    .resolve()
    .unwrap_err();
    assert_eq!(err, ConfigError::ZeroRetention);
    assert!(
        err.message().contains("must be at least 1"),
        "unhelpful error: {}",
        err.message()
    );

    let config: ConfigFile = read_config(
        r#"{"registry_proxies": null,
            "garbage_collection": {"untagged_manifest_retention_days": 1}}"#,
    )
    .resolve()
    .unwrap();
    assert_eq!(
        config.garbage_collection.untagged_manifest_retention_days,
        1
    );
}

#[test]
fn test_registry_proxy_deserialize_path_prefix() {
    let json = r#"{"host": "registry.example.com", "path_prefix": "/org/sub/"}"#;
    let proxy_config: SingleRegistryProxyConfig =
        read_proxy(&serde_json::from_str(json).unwrap()).resolve();
    assert_eq!(proxy_config.path_prefix.unwrap(), "org/sub");

    let json = r#"{"host": "registry.example.com", "path_prefix": "/"}"#;
    let proxy_config: SingleRegistryProxyConfig =
        read_proxy(&serde_json::from_str(json).unwrap()).resolve();
    assert_eq!(proxy_config.path_prefix, None);
}

#[test]
fn test_registry_proxy_configs_path_prefix_longest_match_wins() {
    let config = RegistryProxiesConfig {
        registries: vec![
            SingleRegistryProxyConfig {
                host: "registry.example.com".to_string(),
                username: Some("default".to_string()),
                ..Default::default()
            },
            SingleRegistryProxyConfig {
                host: "registry.example.com".to_string(),
                path_prefix: Some("org".to_string()),
                username: Some("org-token".to_string()),
                ..Default::default()
            },
            SingleRegistryProxyConfig {
                host: "registry.example.com".to_string(),
                path_prefix: Some("org/sub".to_string()),
                username: Some("org-sub-token".to_string()),
                ..Default::default()
            },
        ]
        .into(),
        ..Default::default()
    };
    // "org/sub/app" matches both, but "org/sub" is longer
    let proxy = config
        .registries
        .get_for("registry.example.com", "org/sub/app");
    assert_eq!(proxy.unwrap().username, Some("org-sub-token".to_string()));

    // "org/other" matches only "org"
    let proxy = config
        .registries
        .get_for("registry.example.com", "org/other");
    assert_eq!(proxy.unwrap().username, Some("org-token".to_string()));

    // no path_prefix match
    let proxy = config
        .registries
        .get_for("registry.example.com", "outta-this-world");
    assert_eq!(proxy.unwrap().username, Some("default".to_string()));

    // doesn't match path prefix across '/' boundary
    let proxy = config
        .registries
        .get_for("registry.example.com", "org_b/app");
    assert_eq!(proxy.unwrap().username, Some("default".to_string()));
}

#[test]
fn another_host_is_not_used() {
    let proxies: RegistryProxyConfigs = vec![proxy("ghcr.io", None, "gh")].into();
    assert_eq!(used_for(&proxies, "docker.io", "library/alpine"), None);
    assert_eq!(used_for(&proxies, "ghcr.io", "library/alpine").unwrap(), "gh");
    let empty: RegistryProxyConfigs = Vec::new().into();
    assert_eq!(used_for(&empty, "ghcr.io", "library/alpine"), None);
}

#[test]
fn an_empty_host_is_a_host() {
    let proxies: RegistryProxyConfigs = vec![proxy("", None, "nobody")].into();
    assert_eq!(used_for(&proxies, "", "app").unwrap(), "nobody");
    assert_eq!(used_for(&proxies, "ghcr.io", "app"), None);
}

#[test]
fn the_last_of_equally_long_prefixes_is_used() {
    let proxies: RegistryProxyConfigs = vec![
        proxy("h", Some("org"), "first"),
        proxy("h", Some("org"), "second"),
        proxy("h", None, "third"),
    ]
    .into();
    assert_eq!(used_for(&proxies, "h", "org/app").unwrap(), "second");
    let proxies: RegistryProxyConfigs =
        vec![proxy("h", None, "first"), proxy("h", None, "second")].into();
    assert_eq!(used_for(&proxies, "h", "app").unwrap(), "second");
}

#[test]
fn a_prefix_takes_in_the_repository_of_that_name() {
    let proxies: RegistryProxyConfigs = vec![proxy("h", Some("org"), "org")].into();
    assert_eq!(used_for(&proxies, "h", "org").unwrap(), "org");
    assert_eq!(used_for(&proxies, "h", "org/a/b").unwrap(), "org");
    assert_eq!(used_for(&proxies, "h", "or"), None);
    assert_eq!(used_for(&proxies, "h", "orga"), None);
    assert_eq!(used_for(&proxies, "h", ""), None);
}

#[test]
fn prefixes_may_hold_any_character() {
    let proxies: RegistryProxyConfigs = vec![
        proxy("h", Some("équipe/é"), "long"),
        proxy("h", Some("équipe"), "short"),
    ]
    .into();
    assert_eq!(used_for(&proxies, "h", "équipe/é/app").unwrap(), "long");
    assert_eq!(used_for(&proxies, "h", "équipe/e").unwrap(), "short");
    assert_eq!(used_for(&proxies, "h", "équipeé"), None);
}

#[test]
fn an_empty_prefix_takes_in_only_what_begins_with_a_slash() {
    let proxies: RegistryProxyConfigs = vec![proxy("h", Some(""), "root")].into();
    assert_eq!(used_for(&proxies, "h", "app"), None);
    assert_eq!(used_for(&proxies, "h", "/app").unwrap(), "root");
    assert_eq!(used_for(&proxies, "h", "").unwrap(), "root");
}

#[test]
fn path_prefixes_are_normalized() {
    let normal = |s: &str| normalize_path_prefix(Some(s.to_string()));
    assert_eq!(normal("//a//b//").unwrap(), "a//b");
    assert_eq!(normal("a").unwrap(), "a");
    assert_eq!(normal("/é/").unwrap(), "é");
    assert_eq!(normal("///"), None);
    assert_eq!(normal(""), None);
    assert_eq!(normalize_path_prefix(None), None);
    assert_eq!(normalize_path_prefix(normal("/org/sub/")), normal("org/sub"));
}

#[test]
fn a_retention_has_to_be_at_least_a_day() {
    assert_eq!(de_retention_days(0), Err(ConfigError::ZeroRetention));
    assert_eq!(de_retention_days(1), Ok(1));
    assert_eq!(de_retention_days(u32::MAX), Ok(u32::MAX));
    assert_eq!(default_untagged_manifest_retention_days(), 7);
}

#[test]
fn retention_is_counted_in_seconds() {
    let days = |n: u32| GarbageCollectionConfig {
        untagged_manifest_retention_days: n,
    };
    assert_eq!(days(7).untagged_manifest_retention_secs(), 604_800);
    assert_eq!(days(1).untagged_manifest_retention_secs(), 86_400);
    assert_eq!(
        days(u32::MAX).untagged_manifest_retention_secs(),
        371_085_174_288_000
    );
}

#[test]
fn a_section_left_out_takes_its_default() {
    let gc: GarbageCollectionConfig = de_unwrap_or_default(None);
    assert_eq!(gc.untagged_manifest_retention_days, 7);
    let proxies: RegistryProxiesConfig = de_unwrap_or_default(None);
    assert!(proxies.offline);
    let kept: GarbageCollectionConfig = de_unwrap_or_default(Some(GarbageCollectionConfig {
        untagged_manifest_retention_days: 3,
    }));
    assert_eq!(kept.untagged_manifest_retention_days, 3);
    let file = ConfigFile::default();
    assert!(file.registry_proxies.offline);
    assert!(file.image_validation.is_none());
    assert_eq!(file.garbage_collection.untagged_manifest_retention_days, 7);
}

#[test]
fn a_registry_is_offline_without_its_section_and_online_with_it() {
    let config = read_config(r#"{"registry_proxies": null}"#).resolve().unwrap();
    assert!(config.registry_proxies.offline);
    assert_eq!(config.registry_proxies.max_size, None);

    let config = read_config(r#"{"registry_proxies": {}}"#).resolve().unwrap();
    assert!(!config.registry_proxies.offline);
    assert!(config.registry_proxies.registries.0.is_empty());

    let config = read_config(
        r#"{"registry_proxies": {"offline": true, "max_size": 1000, "registries": [
            {"host": "a", "path_prefix": "/x/", "insecure": true, "username": "u", "password": "p"},
            {"host": "b"}]}}"#,
    )
    .resolve()
    .unwrap();
    assert!(config.registry_proxies.offline);
    assert_eq!(config.registry_proxies.max_size, Some(1000));
    assert_eq!(
        config.registry_proxies.registries.0,
        vec![
            SingleRegistryProxyConfig {
                host: "a".to_string(),
                path_prefix: Some("x".to_string()),
                insecure: true,
                username: Some("u".to_string()),
                password: Some("p".to_string()),
            },
            SingleRegistryProxyConfig {
                host: "b".to_string(),
                ..Default::default()
            },
        ]
    );
}

#[test]
fn image_validation_is_passed_on() {
    let mut raw = read_config(r#"{"registry_proxies": null}"#);
    raw.image_validation = Some(ImageValidationConfig {
        default: "Deny".to_string(),
        allow: vec!["trow.test/".to_string()],
        deny: Vec::new(),
    });
    let validation = raw.resolve().unwrap().image_validation.unwrap();
    assert_eq!(validation.default, "Deny");
    assert_eq!(validation.allow, vec!["trow.test/"]);
    assert!(validation.deny.is_empty());
}
