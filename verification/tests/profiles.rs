use aws_cred::{AWSCredentials, Credentials, CredentialsSetter, Error, ProfileStore};

fn sample(id: &str, secret: &str, token: Option<&str>) -> Credentials {
    Credentials {
        access_key_id: id.to_string(),
        secret_access_key: secret.to_string(),
        session_token: token.map(|t| t.to_string()),
    }
}

#[test]
fn new_store_is_empty_and_bound_to_its_path() {
    let credentials = AWSCredentials::new("some/path");
    assert_eq!(credentials.file_path(), "some/path");
    assert!(!credentials.profile_exists("default"));
    assert!(credentials.get_profile("default").is_none());
    assert_eq!(credentials.serialize(), "");
}

#[test]
fn with_profile_creates_a_missing_profile_with_unset_fields() {
    let mut credentials = AWSCredentials::new("p");
    credentials.with_profile("new");
    let held = credentials.get_profile("new").unwrap();
    assert_eq!(held.access_key_id, "");
    assert_eq!(held.secret_access_key, "");
    assert_eq!(held.session_token, None);
}

#[test]
fn with_profile_then_setters_give_the_values_set() {
    let mut credentials = AWSCredentials::new("p");
    credentials
        .with_profile("new")
        .set_access_key_id("A")
        .set_secret_access_key("B");
    let held = credentials.get_profile("new").unwrap();
    assert_eq!(held.access_key_id, "A");
    assert_eq!(held.secret_access_key, "B");
    assert_eq!(held.session_token, None);
}

#[test]
fn with_profile_keeps_a_profile_that_is_there() {
    let mut credentials = AWSCredentials::new("p");
    credentials.set_profile("old", &sample("A", "S", Some("T")));
    credentials.with_profile("old").set_access_key_id("A2");
    let held = credentials.get_profile("old").unwrap();
    assert_eq!(held.access_key_id, "A2");
    assert_eq!(held.secret_access_key, "S");
    assert_eq!(held.session_token, Some("T".to_string()));
}

#[test]
fn session_token_can_be_set_and_cleared() {
    let mut credentials = AWSCredentials::new("p");
    credentials
        .with_profile("s")
        .set_session_token(Some("T".to_string()));
    assert_eq!(
        credentials.get_profile("s").unwrap().session_token,
        Some("T".to_string())
    );
    credentials.with_profile("s").set_session_token(None);
    assert_eq!(credentials.get_profile("s").unwrap().session_token, None);
    credentials
        .with_profile("s")
        .set_session_token(Some("U".to_string()))
        .clear_session_token();
    assert_eq!(credentials.get_profile("s").unwrap().session_token, None);
}

#[test]
fn setter_of_a_missing_profile_changes_nothing() {
    let mut credentials = AWSCredentials::new("p");
    credentials.set_profile("here", &sample("A", "S", None));
    let before = credentials.serialize();
    {
        let mut setter = CredentialsSetter {
            aws_credentials: &mut credentials,
            profile_name: "gone".to_string(),
        };
        let setter = setter.set_access_key_id("X");
        let setter = setter.set_secret_access_key("Y");
        let setter = setter.set_session_token(Some("Z".to_string()));
        setter.clear_session_token();
    }
    assert!(!credentials.profile_exists("gone"));
    assert_eq!(credentials.serialize(), before);
}

#[test]
fn set_profile_inserts_and_overwrites() {
    let mut credentials = AWSCredentials::new("p");
    credentials.set_profile("a", &sample("A1", "S1", Some("T1")));
    credentials.set_profile("b", &sample("B", "SB", None));
    credentials.set_profile("a", &sample("A2", "S2", None));
    let held = credentials.get_profile("a").unwrap();
    assert_eq!(held.access_key_id, "A2");
    assert_eq!(held.secret_access_key, "S2");
    assert_eq!(held.session_token, None);
    assert_eq!(
        credentials.serialize(),
        "[a]\naws_access_key_id = A2\naws_secret_access_key = S2\n\n\
         [b]\naws_access_key_id = B\naws_secret_access_key = SB\n\n"
    );
}

#[test]
fn get_profile_hands_out_a_copy() {
    let mut credentials = AWSCredentials::new("p");
    credentials.set_profile("a", &sample("A", "S", None));
    let mut copy = credentials.get_profile("a").unwrap();
    copy.access_key_id = "changed".to_string();
    assert_eq!(credentials.get_profile("a").unwrap().access_key_id, "A");
}

#[test]
fn get_profile_mut_changes_the_store() {
    let mut credentials = AWSCredentials::new("p");
    credentials.set_profile("a", &sample("A", "S", None));
    credentials.set_profile("b", &sample("B", "SB", None));
    {
        let held = credentials.get_profile_mut("b").unwrap();
        held.secret_access_key = "new".to_string();
        held.session_token = Some("T".to_string());
    }
    assert!(credentials.get_profile_mut("c").is_none());
    let held = credentials.get_profile("b").unwrap();
    assert_eq!(held.access_key_id, "B");
    assert_eq!(held.secret_access_key, "new");
    assert_eq!(held.session_token, Some("T".to_string()));
    assert_eq!(credentials.get_profile("a").unwrap().secret_access_key, "S");
}

#[test]
fn removal_returns_the_profile_once() {
    let mut credentials = AWSCredentials::new("p");
    credentials.set_profile("default", &sample("A", "S", Some("T")));
    credentials.set_profile("other", &sample("O", "OS", None));
    let removed = credentials.remove_profile("default").unwrap();
    assert_eq!(removed.access_key_id, "A");
    assert_eq!(removed.secret_access_key, "S");
    assert_eq!(removed.session_token, Some("T".to_string()));
    assert!(!credentials.profile_exists("default"));
    let after = credentials.serialize();
    assert!(credentials.remove_profile("default").is_none());
    assert_eq!(credentials.serialize(), after);
    assert_eq!(
        after,
        "[other]\naws_access_key_id = O\naws_secret_access_key = OS\n\n"
    );
}

#[test]
fn removal_keeps_the_order_of_the_others() {
    let mut store = ProfileStore::new();
    store.insert("a", sample("1", "", None));
    store.insert("b", sample("2", "", None));
    store.insert("c", sample("3", "", None));
    assert!(store.contains("b"));
    assert_eq!(store.remove("b").unwrap().access_key_id, "2");
    assert!(!store.contains("b"));
    assert_eq!(store.len(), 2);
    assert_eq!(store.name_at(0), "a");
    assert_eq!(store.name_at(1), "c");
    assert_eq!(store.credentials_at(1).access_key_id, "3");
    store.insert("b", sample("4", "", None));
    assert_eq!(store.len(), 3);
    assert_eq!(store.name_at(2), "b");
    assert_eq!(store.get("b").unwrap().access_key_id, "4");
    assert!(store.get("d").is_none());
    store.get_mut("a").unwrap().access_key_id = "5".to_string();
    assert_eq!(store.credentials_at(0).access_key_id, "5");
    assert!(store.get_mut("d").is_none());
}

#[test]
fn default_credentials_are_unset() {
    let fresh = Credentials::default();
    assert_eq!(fresh.access_key_id, "");
    assert_eq!(fresh.secret_access_key, "");
    assert_eq!(fresh.session_token, None);
}

#[test]
fn clone_copies_every_field() {
    let copy = sample("A", "S", Some("T")).clone();
    assert_eq!(copy.access_key_id, "A");
    assert_eq!(copy.secret_access_key, "S");
    assert_eq!(copy.session_token, Some("T".to_string()));
}

#[test]
fn session_credentials_hold_their_token() {
    let held = Credentials::from_session("S".to_string(), "A".to_string(), "T".to_string());
    assert_eq!(held.secret_access_key, "S");
    assert_eq!(held.access_key_id, "A");
    assert_eq!(held.session_token, Some("T".to_string()));
}

#[test]
fn optional_values_need_both_keys() {
    let held = Credentials::from_optional(Some("S".to_string()), Some("A".to_string()), None)
        .unwrap();
    assert_eq!(held.secret_access_key, "S");
    assert_eq!(held.access_key_id, "A");
    assert_eq!(held.session_token, None);
    let held = Credentials::from_optional(
        Some("S".to_string()),
        Some("A".to_string()),
        Some("T".to_string()),
    )
    .unwrap();
    assert_eq!(held.session_token, Some("T".to_string()));
    assert_eq!(
        Credentials::from_optional(None, Some("A".to_string()), None).unwrap_err(),
        "Missing secret access key"
    );
    assert_eq!(
        Credentials::from_optional(Some("S".to_string()), None, None).unwrap_err(),
        "Missing access key id"
    );
    assert_eq!(
        Credentials::from_optional(None, None, Some("T".to_string())).unwrap_err(),
        "Missing secret access key"
    );
}

#[test]
fn error_messages_are_exact() {
    assert_eq!(
        Error::FileNotFound("/a/b".to_string()).message(),
        "File not found: /a/b"
    );
    assert_eq!(Error::FailedToParse.message(), "Failed to parse");
    assert_eq!(
        Error::WriteFailed("/a/b".to_string()).message(),
        "Failed to write: /a/b"
    );
    assert_eq!(Error::HomeDirNotFound.message(), "Home directory not found");
}
