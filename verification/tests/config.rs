use toodles::config::{
    config_path, env_bool, parse_allowed_user_ids_csv, parse_draft_mode, Config, ConfigError,
    DraftMode, Environment, FileConfig, FileGeminiConfig, DEFAULT_SYSTEM_PROMPT,
};

fn test_config(allowed: Vec<u64>) -> Config {
    Config {
        telegram_bot_token: "test_token".to_string(),
        allowed_user_ids: allowed,
        gemini_cli_command: "gemini --acp".to_string(),
        gemini_working_dir: None,
        gemini_yolo: true,
        openai_api_key: None,
        use_local_transcription: false,
        models_dir: "/tmp/models".to_string(),
        system_prompt: None,
        draft_mode: DraftMode::Verbose,
        thread_rename_every: 4,
        warm_session_pool_size: 1,
    }
}

#[test]
fn empty_allowlist_permits_everyone() {
    let config = test_config(vec![]);
    assert!(config.is_user_allowed(12345));
    assert!(config.is_user_allowed(99999));
    assert!(config.is_user_allowed(0));
}

#[test]
fn allowlist_permits_listed_users() {
    let config = test_config(vec![100, 200, 300]);
    assert!(config.is_user_allowed(100));
    assert!(config.is_user_allowed(200));
    assert!(config.is_user_allowed(300));
}

#[test]
fn allowlist_rejects_unlisted_users() {
    let config = test_config(vec![100, 200]);
    assert!(!config.is_user_allowed(999));
    assert!(!config.is_user_allowed(0));
    assert!(!config.is_user_allowed(101));
}

#[test]
fn single_user_allowlist() {
    let config = test_config(vec![42]);
    assert!(config.is_user_allowed(42));
    assert!(!config.is_user_allowed(43));
}

#[test]
fn parse_allowed_ids_csv() {
    assert_eq!(parse_allowed_user_ids_csv("1,2,3"), vec![1, 2, 3]);
    assert_eq!(parse_allowed_user_ids_csv(" 10 , bad, 30"), vec![10, 30]);
    assert_eq!(parse_allowed_user_ids_csv(""), Vec::<u64>::new());
}

#[test]
fn env_bool_parser() {
    assert_eq!(env_bool(Some("true")), Some(true));
    assert_eq!(env_bool(Some("0")), Some(false));
    assert_eq!(env_bool(Some("maybe")), None);
    assert_eq!(env_bool(None), None);
}

#[test]
fn parse_draft_mode_values() {
    assert_eq!(parse_draft_mode("compact"), Some(DraftMode::Compact));
    assert_eq!(parse_draft_mode("VERBOSE"), Some(DraftMode::Verbose));
    assert_eq!(parse_draft_mode("unknown"), None);
}

fn nothing() -> Environment {
    Environment {
        telegram_bot_token: None,
        allowed_user_ids: None,
        gemini_cli_path: None,
        gemini_cli_command: None,
        gemini_working_dir: None,
        gemini_yolo: None,
        openai_api_key: None,
        use_local_transcription: None,
        models_dir: None,
        system_prompt: None,
        draft_mode: None,
        thread_rename_every: None,
        warm_session_pool_size: None,
        home: Some("/home/u".to_string()),
    }
}

fn text(s: &str) -> Option<String> {
    Some(s.to_string())
}

#[test]
fn token_is_required() {
    let error = Config::from_env(&nothing(), None).expect_err("no token");
    assert_eq!(error, ConfigError::MissingBotToken);
    assert_eq!(error.message(), "TELEGRAM_BOT_TOKEN must be set");
}

#[test]
fn defaults_apply_where_nothing_is_set() {
    let mut env = nothing();
    env.telegram_bot_token = text("T");
    let c = Config::from_env(&env, None).expect("a token");
    assert_eq!(c.telegram_bot_token, "T");
    assert!(c.allowed_user_ids.is_empty());
    assert_eq!(c.gemini_cli_command, "gemini --acp");
    assert_eq!(c.gemini_working_dir, None);
    assert!(c.gemini_yolo);
    assert_eq!(c.openai_api_key, None);
    assert!(!c.use_local_transcription);
    assert_eq!(c.models_dir, "/home/u/.toodles/models");
    assert_eq!(c.system_prompt.as_deref(), Some(DEFAULT_SYSTEM_PROMPT));
    assert_eq!(c.draft_mode, DraftMode::Verbose);
    assert_eq!(c.thread_rename_every, 4);
    assert_eq!(c.warm_session_pool_size, 1);
}

#[test]
fn file_applies_where_the_environment_is_silent() {
    let mut file = FileConfig::empty();
    file.bot_token = text("old");
    file.gemini_cli_path = text("/bin/g");
    file.allowed_user_ids = Some(vec![4, 5]);
    file.models_dir = text("~/m");
    file.draft_mode = text("compact");
    file.thread_rename_every = Some(9);
    file.gemini = Some(FileGeminiConfig {
        cmd: None,
        working_dir: None,
        cwd: text("/w"),
        yolo: Some(false),
    });
    let c = Config::from_env(&nothing(), Some(&file)).expect("a token");
    assert_eq!(c.telegram_bot_token, "old");
    assert_eq!(c.gemini_cli_command, "/bin/g --acp");
    assert_eq!(c.gemini_working_dir.as_deref(), Some("/w"));
    assert!(!c.gemini_yolo);
    assert_eq!(c.allowed_user_ids, vec![4, 5]);
    assert_eq!(c.models_dir, "~/m");
    assert_eq!(c.draft_mode, DraftMode::Compact);
    assert_eq!(c.thread_rename_every, 9);

    file.telegram_bot_token = text("new");
    let mut env = nothing();
    env.allowed_user_ids = text("1");
    env.gemini_cli_command = text("agent");
    env.gemini_yolo = text("on");
    env.models_dir = text("~/x");
    env.draft_mode = text("nonsense");
    env.thread_rename_every = text(" 2 ");
    env.warm_session_pool_size = text("many");
    let c = Config::from_env(&env, Some(&file)).expect("a token");
    assert_eq!(c.telegram_bot_token, "new");
    assert_eq!(c.allowed_user_ids, vec![1]);
    assert_eq!(c.gemini_cli_command, "agent");
    assert!(c.gemini_yolo);
    assert_eq!(c.models_dir, "/home/u/x");
    assert_eq!(c.draft_mode, DraftMode::Compact);
    assert_eq!(c.thread_rename_every, 2);
    assert_eq!(c.warm_session_pool_size, 1);
}

#[test]
fn switches_have_many_spellings() {
    for on in ["1", " TRUE ", "Yes", "on"] {
        assert_eq!(env_bool(Some(on)), Some(true));
    }
    for off in ["0", "false", "NO", "Off\n"] {
        assert_eq!(env_bool(Some(off)), Some(false));
    }
    assert_eq!(env_bool(Some("")), None);
    assert_eq!(parse_draft_mode(" Compact "), Some(DraftMode::Compact));
}

#[test]
fn user_ids_are_numbers_that_fit() {
    assert_eq!(
        parse_allowed_user_ids_csv("+7, 18446744073709551615, 18446744073709551616, -1, 1.5"),
        vec![7, u64::MAX]
    );
}

#[test]
fn file_is_looked_for_in_two_places() {
    assert_eq!(
        config_path(Some("~/c.toml"), Some("/home/u"), Some("/cfg")).as_deref(),
        Some("/home/u/c.toml")
    );
    assert_eq!(
        config_path(None, Some("/home/u"), Some("/cfg")).as_deref(),
        Some("/cfg/toodles/config.toml")
    );
    assert_eq!(config_path(None, Some("/home/u"), None), None);
}
