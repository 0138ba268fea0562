use codex_administrator::credential::{
    bind_provider_credential, resolve_bound_provider_credential, CredentialError,
};
use sha2::{Digest, Sha256};

const BASE: &str = "https://api.x.ai/v1";
const ACTION: &str = "/responses";

fn fingerprint(base: &str, action: &str) -> String {
    let mut hasher = Sha256::new();
    hasher.update((base.len() as u64).to_le_bytes());
    hasher.update(base.as_bytes());
    hasher.update((action.len() as u64).to_le_bytes());
    hasher.update(action.as_bytes());
    format!("{:x}", hasher.finalize())
}

#[test]
fn binding_prefixes_the_secret_with_the_endpoint_fingerprint() {
    let stored = bind_provider_credential(BASE, ACTION, "xai-secret").unwrap();
    assert_eq!(stored, format!("v1:{}:xai-secret", fingerprint(BASE, ACTION)));
}

#[test]
fn a_bound_secret_resolves_only_for_its_endpoint() {
    let stored = bind_provider_credential(BASE, ACTION, "xai-secret").unwrap();
    assert_eq!(
        resolve_bound_provider_credential(BASE, ACTION, &stored),
        Ok(Some("xai-secret".to_string()))
    );
    assert_eq!(
        resolve_bound_provider_credential("https://other.example/v1", ACTION, &stored),
        Ok(None)
    );
    assert_eq!(resolve_bound_provider_credential(BASE, ACTION, "legacy-secret"), Ok(None));
}

#[test]
fn secrets_with_colons_survive_binding() {
    let stored = bind_provider_credential(BASE, ACTION, "a:b:c").unwrap();
    assert_eq!(
        resolve_bound_provider_credential(BASE, ACTION, &stored),
        Ok(Some("a:b:c".to_string()))
    );
}

#[test]
fn invalid_components_and_bindings_are_refused() {
    assert_eq!(
        bind_provider_credential(" https://api.x.ai/v1", ACTION, "s"),
        Err(CredentialError::InvalidBaseUrl)
    );
    assert_eq!(
        bind_provider_credential(BASE, "", "s"),
        Err(CredentialError::InvalidActionPath)
    );
    assert_eq!(
        bind_provider_credential(BASE, ACTION, "bad\nsecret"),
        Err(CredentialError::InvalidSecret)
    );
    assert_eq!(
        bind_provider_credential(BASE, ACTION, &"s".repeat(2300)),
        Err(CredentialError::InvalidSecret)
    );
    assert_eq!(
        resolve_bound_provider_credential(BASE, ACTION, "v1:nothex:secret"),
        Err(CredentialError::InvalidBinding)
    );
    assert_eq!(
        resolve_bound_provider_credential(BASE, ACTION, "v1:abc"),
        Err(CredentialError::InvalidBinding)
    );
}
