use aws_cred::codec::{parse, serialize};
use aws_cred::{AWSCredentials, Credentials, Error};

const PATH: &str = "/home/alice/.aws/credentials";

fn load(text: &str) -> AWSCredentials {
    AWSCredentials::load_from_contents(PATH, Some(text.to_string())).unwrap()
}

#[test]
fn can_load_credentials() {
    let text = r#"
[default]
aws_access_key_id = ACCESS_KEY
aws_secret_access_key = SECRET_KEY
"#;
    let credentials = AWSCredentials::load_from_contents(PATH, Some(text.to_string())).unwrap();
    let default_profile = credentials.get_profile("default").unwrap();
    assert_eq!(default_profile.access_key_id, "ACCESS_KEY");
    assert_eq!(default_profile.secret_access_key, "SECRET_KEY");
}

#[test]
fn can_write_credentials() {
    let mut credentials = AWSCredentials::new(PATH);
    credentials
        .with_profile("default")
        .set_access_key_id("ACCESS_KEY")
        .set_secret_access_key("SECRET_KEY")
        .set_session_token(Some("SESSION_TOKEN".to_string()));
    let written = credentials.serialize();

    let credentials = AWSCredentials::load_from_contents(PATH, Some(written)).unwrap();
    let default_profile = credentials.get_profile("default").unwrap();
    assert_eq!(default_profile.access_key_id, "ACCESS_KEY");
    assert_eq!(default_profile.secret_access_key, "SECRET_KEY");
    assert_eq!(
        default_profile.session_token,
        Some("SESSION_TOKEN".to_string())
    );
}

#[test]
fn concrete_scenario_has_exactly_one_profile() {
    let store = parse(
        "\n[default]\naws_access_key_id = ACCESS_KEY\naws_secret_access_key = SECRET_KEY\n",
    )
    .unwrap();
    assert_eq!(store.len(), 1);
    assert_eq!(store.name_at(0), "default");
    let held = store.credentials_at(0);
    assert_eq!(held.access_key_id, "ACCESS_KEY");
    assert_eq!(held.secret_access_key, "SECRET_KEY");
    assert_eq!(held.session_token, None);
}

#[test]
fn loaded_credentials_keep_the_path() {
    let credentials = load("[a]\n");
    assert_eq!(credentials.file_path(), PATH);
}

#[test]
fn unreadable_file_is_reported_with_its_path() {
    match AWSCredentials::load_from_contents("/nonexistent/path", None) {
        Err(Error::FileNotFound(path)) => assert_eq!(path, "/nonexistent/path"),
        other => panic!("unexpected outcome: {:?}", other),
    }
}

#[test]
fn serialized_text_is_exact() {
    let mut credentials = AWSCredentials::new(PATH);
    credentials
        .with_profile("default")
        .set_access_key_id("ACCESS_KEY")
        .set_secret_access_key("SECRET_KEY")
        .set_session_token(Some("SESSION_TOKEN".to_string()));
    credentials
        .with_profile("other")
        .set_access_key_id("OTHER_KEY")
        .set_secret_access_key("OTHER_SECRET");
    assert_eq!(
        credentials.serialize(),
        "[default]\n\
         aws_access_key_id = ACCESS_KEY\n\
         aws_secret_access_key = SECRET_KEY\n\
         aws_session_token = SESSION_TOKEN\n\
         \n\
         [other]\n\
         aws_access_key_id = OTHER_KEY\n\
         aws_secret_access_key = OTHER_SECRET\n\
         \n"
    );
}

#[test]
fn empty_store_serializes_to_nothing() {
    assert_eq!(AWSCredentials::new(PATH).serialize(), "");
    assert_eq!(parse("").unwrap().len(), 0);
}

#[test]
fn round_trip_gives_the_same_profiles_in_the_same_order() {
    let mut credentials = AWSCredentials::new(PATH);
    credentials.set_profile(
        "first",
        &Credentials {
            access_key_id: "A=1".to_string(),
            secret_access_key: "[S]".to_string(),
            session_token: Some("T 1".to_string()),
        },
    );
    credentials.set_profile(
        "second one",
        &Credentials {
            access_key_id: String::new(),
            secret_access_key: "#S".to_string(),
            session_token: None,
        },
    );
    credentials.set_profile("", &Credentials::default());
    let store = parse(&credentials.serialize()).unwrap();
    assert_eq!(store.len(), 3);
    assert_eq!(store.name_at(0), "first");
    assert_eq!(store.credentials_at(0).access_key_id, "A=1");
    assert_eq!(store.credentials_at(0).secret_access_key, "[S]");
    assert_eq!(store.credentials_at(0).session_token, Some("T 1".to_string()));
    assert_eq!(store.name_at(1), "second one");
    assert_eq!(store.credentials_at(1).access_key_id, "");
    assert_eq!(store.credentials_at(1).secret_access_key, "#S");
    assert_eq!(store.credentials_at(1).session_token, None);
    assert_eq!(store.name_at(2), "");
    assert_eq!(store.credentials_at(2).access_key_id, "");
    assert_eq!(store.credentials_at(2).secret_access_key, "");
    assert_eq!(store.credentials_at(2).session_token, None);
}

#[test]
fn saving_twice_gives_the_same_text() {
    let mut credentials = AWSCredentials::new(PATH);
    credentials
        .with_profile("default")
        .set_access_key_id("ACCESS_KEY")
        .set_secret_access_key("SECRET_KEY");
    credentials
        .with_profile("session")
        .set_access_key_id("K")
        .set_secret_access_key("S")
        .set_session_token(Some("T".to_string()));
    let first = credentials.serialize();
    let second = load(&first).serialize();
    assert_eq!(first, second);
}

#[test]
fn white_space_around_a_value_does_not_survive() {
    let mut credentials = AWSCredentials::new(PATH);
    credentials.with_profile("p").set_access_key_id(" A ");
    let again = load(&credentials.serialize());
    assert_eq!(again.get_profile("p").unwrap().access_key_id, "A");
}

#[test]
fn unknown_key_leaves_no_trace() {
    let with = load("[p]\naws_access_key_id = A\nfoo = bar\naws_secret_access_key = S\n");
    let without = load("[p]\naws_access_key_id = A\naws_secret_access_key = S\n");
    assert_eq!(with.serialize(), without.serialize());
    assert_eq!(
        with.serialize(),
        "[p]\naws_access_key_id = A\naws_secret_access_key = S\n\n"
    );
}

#[test]
fn comments_and_blank_lines_are_passed_over() {
    let with = load(
        "# a comment\n\n[p]\n   \n# aws_access_key_id = NO\naws_access_key_id = A\n\t\n#\naws_secret_access_key = S\n\n# end",
    );
    let without = load("[p]\naws_access_key_id = A\naws_secret_access_key = S");
    assert_eq!(with.serialize(), without.serialize());
    let held = with.get_profile("p").unwrap();
    assert_eq!(held.access_key_id, "A");
    assert_eq!(held.secret_access_key, "S");
    assert_eq!(held.session_token, None);
}

#[test]
fn missing_fields_are_unset() {
    let credentials = load("[p]\naws_access_key_id = A\n");
    let held = credentials.get_profile("p").unwrap();
    assert_eq!(held.access_key_id, "A");
    assert_eq!(held.secret_access_key, "");
    assert_eq!(held.session_token, None);
}

#[test]
fn section_without_settings_is_a_profile() {
    let credentials = load("[empty]");
    let held = credentials.get_profile("empty").unwrap();
    assert_eq!(held.access_key_id, "");
    assert_eq!(held.secret_access_key, "");
    assert_eq!(held.session_token, None);
}

#[test]
fn later_section_replaces_the_earlier_one() {
    let credentials = load(
        "[default]\naws_access_key_id = A1\naws_secret_access_key = S1\naws_session_token = T1\n\
         [other]\naws_access_key_id = O\n\
         [default]\naws_access_key_id = A2\n",
    );
    let held = credentials.get_profile("default").unwrap();
    assert_eq!(held.access_key_id, "A2");
    assert_eq!(held.secret_access_key, "");
    assert_eq!(held.session_token, None);
    assert_eq!(credentials.get_profile("other").unwrap().access_key_id, "O");
    assert_eq!(
        credentials.serialize(),
        "[default]\naws_access_key_id = A2\naws_secret_access_key = \n\n\
         [other]\naws_access_key_id = O\naws_secret_access_key = \n\n"
    );
}

#[test]
fn later_setting_replaces_the_earlier_one() {
    let credentials = load("[p]\naws_access_key_id = A1\naws_access_key_id = A2\n");
    assert_eq!(credentials.get_profile("p").unwrap().access_key_id, "A2");
}

#[test]
fn settings_before_any_section_are_dropped() {
    let credentials = load("aws_access_key_id = A\n[p]\naws_secret_access_key = S\n");
    let held = credentials.get_profile("p").unwrap();
    assert_eq!(held.access_key_id, "");
    assert_eq!(held.secret_access_key, "S");
    assert_eq!(parse("aws_access_key_id = A\n").unwrap().len(), 0);
}

#[test]
fn lines_are_trimmed_and_split_at_the_first_equals_sign() {
    let credentials = load(
        "  [ p ]  \r\n\taws_access_key_id=A=B \r\n aws_secret_access_key   =   S  S  \r\naws_session_token =\r\n",
    );
    assert!(!credentials.profile_exists("p"));
    let held = credentials.get_profile(" p ").unwrap();
    assert_eq!(held.access_key_id, "A=B");
    assert_eq!(held.secret_access_key, "S  S");
    assert_eq!(held.session_token, Some(String::new()));
}

#[test]
fn unicode_white_space_is_trimmed() {
    let credentials = load("\u{3000}[p]\u{a0}\n\u{2003}aws_access_key_id\u{2028}=\u{85}A\u{1680}\n");
    assert_eq!(credentials.get_profile("p").unwrap().access_key_id, "A");
}

#[test]
fn header_comes_before_comment_and_setting() {
    let credentials = load("[#a=b]\naws_access_key_id = A\n");
    assert_eq!(credentials.get_profile("#a=b").unwrap().access_key_id, "A");
}

#[test]
fn comment_that_holds_an_equals_sign_is_a_comment() {
    let credentials = load("[p]\n#aws_access_key_id = A\n");
    assert_eq!(credentials.get_profile("p").unwrap().access_key_id, "");
}

#[test]
fn brackets_that_do_not_close_are_no_header() {
    let store = parse("[\n]\n[p\np]\n[] \n").unwrap();
    assert_eq!(store.len(), 1);
    assert_eq!(store.name_at(0), "");
}

#[test]
fn keys_are_case_sensitive_and_exact() {
    let credentials = load(
        "[p]\nAWS_ACCESS_KEY_ID = A\naws_access_key_id2 = B\naws_access_key = C\naws access key id = D\n",
    );
    assert_eq!(credentials.get_profile("p").unwrap().access_key_id, "");
}

#[test]
fn profile_names_are_case_sensitive() {
    let credentials = load("[Default]\naws_access_key_id = A\n[default]\naws_access_key_id = B\n");
    assert_eq!(credentials.get_profile("Default").unwrap().access_key_id, "A");
    assert_eq!(credentials.get_profile("default").unwrap().access_key_id, "B");
}

#[test]
fn parse_and_serialize_work_on_a_store() {
    let store = parse("[a]\naws_access_key_id = 1\n[b]\naws_session_token = t\n").unwrap();
    assert_eq!(
        serialize(&store),
        "[a]\naws_access_key_id = 1\naws_secret_access_key = \n\n\
         [b]\naws_access_key_id = \naws_secret_access_key = \naws_session_token = t\n\n"
    );
}

#[test]
fn what_was_loaded_is_written_and_loaded_unchanged() {
    let loaded = load(
        "junk\n  [ b ]\naws_access_key_id =  B = 1 \nfoo = bar\n[a]\n# c\naws_session_token=T\n[ b ]\naws_secret_access_key = S\r\n",
    );
    let written = loaded.serialize();
    assert_eq!(
        written,
        "[ b ]\naws_access_key_id = \naws_secret_access_key = S\n\n\
         [a]\naws_access_key_id = \naws_secret_access_key = \naws_session_token = T\n\n"
    );
    let again = load(&written);
    assert_eq!(again.serialize(), written);
    assert_eq!(again.get_profile(" b ").unwrap().secret_access_key, "S");
    assert_eq!(
        again.get_profile("a").unwrap().session_token,
        Some("T".to_string())
    );
}
