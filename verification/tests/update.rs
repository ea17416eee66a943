use voice_inputter::update::{
    check, judge, newer, parse_version, release_path, repo_slug, slug_of, CheckError, Updates,
};

#[test]
fn version_compare() {
    assert!(newer("0.9.1", "0.9.0"));
    assert!(newer("0.10.0", "0.9.9"));
    assert!(newer("1.0.0", "0.9.0"));
    assert!(!newer("0.9.0", "0.9.0"));
    assert!(!newer("0.8.9", "0.9.0"));
    assert!(!newer("", "0.9.0"));
    assert!(newer("1.0.0-beta", "0.9.0"));
    assert!(newer("0.9.0", "0.8.0"));
}

#[test]
fn slug_from_cargo_metadata() {
    assert_eq!(repo_slug().as_deref(), Some("sashape/voice-inputter"));
}

#[test]
fn versions_are_compared_number_by_number() {
    assert_eq!(parse_version("1.10.0-beta"), vec![1, 10, 0]);
    assert!(newer("1.0", "0.9.9"));
    assert!(!newer("1.0", "1.0.0"));
    assert!(newer("1.0.1", "1.0"));
    assert!(!newer("x", "0.0.0"));
}

#[test]
fn slugs() {
    assert_eq!(slug_of("https://github.com/a/b/").as_deref(), Some("a/b"));
    assert_eq!(slug_of("https://github.com/a"), None);
    assert_eq!(slug_of("https://github.com/a/b/c"), None);
    assert_eq!(slug_of("https://example.com/a/b"), None);
    assert_eq!(release_path("a/b"), "/repos/a/b/releases/latest");
}

#[test]
fn an_answer_about_a_newer_release() {
    let body = "{\"tag_name\": \"v1.2.0\", \"html_url\": \"https://example.com/r\", \"id\": 1}";
    let found = check(body, "a/b", "0.9.0").unwrap().unwrap();
    assert_eq!(found.version, "1.2.0");
    assert_eq!(found.url, "https://example.com/r");
    assert_eq!(check(body, "a/b", "1.2.0"), Ok(None));
    let bare = "{\"tag_name\": \"v1.2.0\", \"html_url\": 5}";
    let found = check(bare, "a/b", "0.9.0").unwrap().unwrap();
    assert_eq!(found.url, "https://github.com/a/b/releases/latest");
}

#[test]
fn answers_that_are_no_good() {
    assert_eq!(check("{\"name\": 1}", "a/b", "0.9.0"), Err(CheckError::NoTag));
    assert_eq!(check("{\"tag_name\": \"\"}", "a/b", "0.9.0"), Err(CheckError::NoTag));
    assert_eq!(check("[1]", "a/b", "0.9.0"), Err(CheckError::NoTag));
    assert_eq!(CheckError::NoTag.message(), "в ответе нет tag_name");
    match check("no json", "a/b", "0.9.0") {
        Err(CheckError::BadReply(why)) => {
            assert_eq!(
                CheckError::BadReply(why.clone()).message(),
                format!("ответ не разобран: {why}")
            );
            assert_eq!(why, serde_json::from_str::<serde_json::Value>("no json").unwrap_err().to_string());
        }
        other => panic!("{other:?}"),
    }
}

#[test]
fn only_a_found_update_is_kept() {
    let mut u = Updates::new();
    assert_eq!(u.available(), None);
    assert!(!u.record(Ok(None)));
    assert!(!u.record(Err(CheckError::NoTag)));
    assert_eq!(u.available(), None);
    assert!(u.record(judge(Some("v2.0.0".to_string()), None, "a/b", "1.0.0")));
    assert!(!u.record(Ok(None)));
    assert_eq!(u.available().unwrap().version, "2.0.0");
}
