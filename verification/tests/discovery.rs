use openshell_inspect::discovery::{
    discover_from_profile, discover_with_spec, CredentialProfile, DiscoveredProvider,
    DiscoveryContext, DiscoveryProfile, EnvSnapshot, ProviderDiscoverySpec, ProviderError,
    ProviderTypeProfile,
};
use openshell_inspect::string_map::StringMap;

fn env(vars: &[(&str, &str)]) -> EnvSnapshot {
    let mut map = StringMap::new();
    for (key, value) in vars {
        map.insert_if_absent((*key).to_string(), (*value).to_string());
    }
    EnvSnapshot::new(map)
}

fn credential(name: &str, env_vars: &[&str]) -> CredentialProfile {
    CredentialProfile {
        name: name.to_string(),
        env_vars: env_vars.iter().map(|v| (*v).to_string()).collect(),
    }
}

fn profile() -> ProviderTypeProfile {
    ProviderTypeProfile {
        id: "custom".to_string(),
        credentials: vec![
            credential("api_key", &["CUSTOM_API_KEY", "CUSTOM_API_TOKEN"]),
            credential("secondary", &["CUSTOM_API_KEY"]),
        ],
        discovery: DiscoveryProfile {
            credentials: vec!["api_key".to_string(), "secondary".to_string()],
        },
    }
}

fn keys_of(found: &DiscoveredProvider, keys: &[&str]) -> Vec<Option<String>> {
    keys.iter().map(|k| found.credentials.get(k).cloned()).collect()
}

#[test]
fn profile_discovery_scans_referenced_credential_env_vars() {
    let ctx = env(&[("CUSTOM_API_TOKEN", "secret-token")]);

    let discovered = discover_from_profile(&profile(), &ctx)
        .expect("discovery should succeed")
        .expect("provider should be discovered");

    assert_eq!(
        discovered.credentials.get("CUSTOM_API_TOKEN"),
        Some(&"secret-token".to_string())
    );
    assert!(!discovered.credentials.contains_key("CUSTOM_API_KEY"));
}

#[test]
fn profile_discovery_ignores_empty_values_and_returns_none_when_empty() {
    let ctx = env(&[("CUSTOM_API_KEY", "   ")]);

    let discovered = discover_from_profile(&profile(), &ctx).expect("discovery should succeed");

    assert!(discovered.is_none());
}

#[test]
fn profile_discovery_rejects_unknown_credential_references() {
    let mut profile = profile();
    profile.discovery.credentials = vec!["missing".to_string()];

    let err = discover_from_profile(&profile, &env(&[]))
        .expect_err("unknown discovery credential should fail");

    assert!(matches!(
        err,
        ProviderError::UnknownDiscoveryCredential {
            profile_id,
            credential_name
        } if profile_id == "custom" && credential_name == "missing"
    ));
}

#[test]
fn profile_discovery_trims_references_names_and_variables() {
    let profile = ProviderTypeProfile {
        id: "padded".to_string(),
        credentials: vec![credential("  token\t", &[" A ", "   ", "B", "A"])],
        discovery: DiscoveryProfile { credentials: vec!["\u{a0}token ".to_string()] },
    };
    let found = discover_from_profile(&profile, &env(&[("A", " a "), ("B", "b"), ("", "x")]))
        .unwrap()
        .unwrap();
    assert_eq!(
        keys_of(&found, &["A", "B", ""]),
        vec![Some(" a ".to_string()), Some("b".to_string()), None]
    );
    assert_eq!(found.credentials.len(), 2);
}

#[test]
fn profile_discovery_uses_the_first_credential_of_a_name() {
    let profile = ProviderTypeProfile {
        id: "twice".to_string(),
        credentials: vec![credential("token", &["FIRST"]), credential(" token ", &["SECOND"])],
        discovery: DiscoveryProfile { credentials: vec!["token".to_string()] },
    };
    let found = discover_from_profile(&profile, &env(&[("FIRST", "1"), ("SECOND", "2")]))
        .unwrap()
        .unwrap();
    assert!(found.credentials.contains_key("FIRST"));
    assert!(!found.credentials.contains_key("SECOND"));
}

#[test]
fn profile_discovery_names_the_first_unknown_reference() {
    let mut profile = profile();
    profile.discovery.credentials =
        vec!["api_key".to_string(), " gone ".to_string(), "lost".to_string()];
    let err = discover_from_profile(&profile, &env(&[("CUSTOM_API_KEY", "k")])).unwrap_err();
    assert_eq!(
        err,
        ProviderError::UnknownDiscoveryCredential {
            profile_id: "custom".to_string(),
            credential_name: "gone".to_string(),
        }
    );
}

#[test]
fn spec_discovery_collects_usable_variables() {
    let spec = ProviderDiscoverySpec {
        id: "acme",
        credential_env_vars: &["ACME_KEY", "ACME_BLANK", "ACME_UNSET", "ACME_TOKEN"],
    };
    let ctx = env(&[("ACME_KEY", "k"), ("ACME_BLANK", " \n"), ("ACME_TOKEN", "t"), ("OTHER", "o")]);
    let found = discover_with_spec(&spec, &ctx).unwrap().unwrap();
    assert_eq!(found.credentials.len(), 2);
    assert_eq!(
        keys_of(&found, &["ACME_KEY", "ACME_TOKEN", "ACME_BLANK", "ACME_UNSET", "OTHER"]),
        vec![Some("k".to_string()), Some("t".to_string()), None, None, None]
    );
}

#[test]
fn spec_discovery_finds_nothing_without_usable_variables() {
    let spec = ProviderDiscoverySpec { id: "acme", credential_env_vars: &["ACME_KEY"] };
    assert!(discover_with_spec(&spec, &env(&[("ACME_KEY", "")])).unwrap().is_none());
    assert!(discover_with_spec(&spec, &env(&[])).unwrap().is_none());
}

#[test]
fn spec_discovery_does_not_depend_on_order_or_repetition() {
    let ctx = env(&[("A", "1"), ("B", "2")]);
    let one = ProviderDiscoverySpec { id: "x", credential_env_vars: &["A", "B", "A", "C"] };
    let two = ProviderDiscoverySpec { id: "x", credential_env_vars: &["C", "B", "A"] };
    let a = discover_with_spec(&one, &ctx).unwrap().unwrap();
    let b = discover_with_spec(&two, &ctx).unwrap().unwrap();
    assert!(a.credentials == b.credentials);
    assert_eq!(a.credentials.len(), 2);
}

#[test]
fn snapshot_answers_for_its_variables() {
    let ctx = env(&[("A", "1"), ("A", "2")]);
    assert_eq!(ctx.env_var("A"), Some("1".to_string()));
    assert_eq!(ctx.env_var("a"), None);
    assert!(DiscoveredProvider::default().is_empty());
}

#[test]
fn string_map_keeps_the_first_value_of_a_key() {
    let mut map = StringMap::new();
    assert!(map.is_empty());
    map.insert_if_absent("k".to_string(), "1".to_string());
    map.insert_if_absent("k".to_string(), "2".to_string());
    map.insert_if_absent("l".to_string(), "3".to_string());
    assert_eq!(map.len(), 2);
    assert_eq!(map.get("k"), Some(&"1".to_string()));
    assert!(map.clone() == map);
    let mut other = StringMap::new();
    other.insert_if_absent("l".to_string(), "3".to_string());
    assert!(other != map);
    other.insert_if_absent("k".to_string(), "1".to_string());
    assert!(other == map);
}
