use zot::config::checked_key;
use zot::config::env_set;
use zot::config::mask_key;
use zot::config::run_set_key;
use zot::config::run_show;
use zot::config::Config;
use zot::output::HumanDisplay;

#[test]
fn the_environment_wins_over_the_stored_key() {
    let cfg = Config { api_key: Some("stored".to_string()), user_id: None };
    assert_eq!(cfg.resolve_api_key(Some("env")).as_deref(), Some("env"));
    assert_eq!(cfg.resolve_api_key(Some("  ")).as_deref(), Some("stored"));
    assert_eq!(cfg.resolve_api_key(None).as_deref(), Some("stored"));
    assert_eq!(Config::default().resolve_api_key(None), None);
    assert!(env_set(Some("x")) && !env_set(Some(" \t")) && !env_set(None));
}

#[test]
fn a_key_is_stored_trimmed_and_forgets_the_user() {
    let cfg = Config { api_key: None, user_id: Some(7) };
    let stored = run_set_key(cfg, " SECRETSECRET \n").unwrap();
    assert_eq!(stored.api_key.as_deref(), Some("SECRETSECRET"));
    assert_eq!(stored.user_id, None);
    assert!(run_set_key(Config::default(), "   ").is_err());
    assert_eq!(checked_key("\tKEY ").unwrap(), "KEY");
    assert_eq!(checked_key(" \n").unwrap_err().message, "API key is empty");
}

#[test]
fn a_shown_key_is_masked() {
    let cfg = Config { api_key: Some("ABCDEFGHIJKLMNOP".to_string()), user_id: Some(7) };
    let masked = mask_key("ABCDEFGHIJKLMNOP").unwrap();
    assert_eq!(masked, "ABC...NOP");
    let out = run_show(&cfg, "/cfg", Some("env"));
    assert_eq!(out.api_key.as_deref(), Some(masked.as_str()));
    assert!(out.env_override);
    let shown = out.human_display();
    assert!(shown.contains("/cfg") && shown.contains(&masked), "{shown}");
    assert!(!shown.contains("ABCDEFGHIJKLMNOP"), "{shown}");
}
