use std::sync::Arc;

use toodles::config::{Config, DraftMode};
use toodles::manager::{normalize_for_title, SessionManager, SessionSource};

fn config(pool: usize) -> Arc<Config> {
    Arc::new(Config {
        telegram_bot_token: "t".to_string(),
        allowed_user_ids: vec![],
        gemini_cli_command: "gemini --acp".to_string(),
        gemini_working_dir: None,
        gemini_yolo: true,
        openai_api_key: None,
        use_local_transcription: false,
        models_dir: "/m".to_string(),
        system_prompt: None,
        draft_mode: DraftMode::Compact,
        thread_rename_every: 4,
        warm_session_pool_size: pool,
    })
}

#[test]
fn session_is_created_installed_and_kept() {
    let mut m = SessionManager::new(config(0));
    let key = (1, None);
    assert!(!m.has_session(&key));
    assert_eq!(m.get_or_create(key), SessionSource::Create);
    let installed = m.install(key, 7);
    assert_eq!((installed.session, installed.is_new, installed.refill), (7, true, false));
    assert!(m.has_session(&key));
    assert_eq!(m.get_or_create(key), SessionSource::Existing(7));
    let second = m.install(key, 8);
    assert_eq!((second.session, second.is_new, second.refill), (7, false, false));
    assert_eq!(m.session_count(), 1);
    assert_eq!(m.get_or_create((1, Some(3))), SessionSource::Create);
}

#[test]
fn pool_is_filled_by_one_and_used_from_the_end() {
    let mut m = SessionManager::new(config(2));
    assert!(m.ensure_warm_pool_background());
    assert!(!m.ensure_warm_pool_background());
    assert!(m.warm_pool_lacks());
    m.add_warm(10);
    m.add_warm(11);
    assert!(!m.warm_pool_lacks());
    assert_eq!(m.warm_pool_ready_count(), 2);
    m.finish_warm_refill();
    assert_eq!(m.get_or_create((5, None)), SessionSource::Warm(11));
    assert_eq!(m.warm_pool_ready_count(), 1);
    let installed = m.install((5, None), 11);
    assert!(installed.is_new && installed.refill);
    assert!(!m.ensure_warm_pool_background());
}

#[test]
fn no_pool_is_filled_where_none_is_wanted() {
    let mut m = SessionManager::new(config(0));
    assert!(!m.ensure_warm_pool_background());
    assert!(!m.warm_pool_lacks());
    assert_eq!(m.reset(&(1, None)), (None, false));
}

#[test]
fn reset_forgets_the_chat_alone() {
    let mut m = SessionManager::new(config(1));
    m.install((1, None), 1);
    m.install((2, None), 2);
    m.record_user_message_for_thread_title(&(1, None), "one");
    m.record_user_message_for_thread_title(&(2, None), "two");
    m.finish_warm_refill();
    assert_eq!(m.reset(&(1, None)), (Some(1), true));
    assert!(!m.has_session(&(1, None)));
    assert_eq!(m.message_count(&(1, None)), 0);
    assert_eq!(m.message_count(&(2, None)), 1);
    assert_eq!(m.session_count(), 1);
    let data = m.record_user_message_for_thread_title(&(1, None), "new");
    assert_eq!((data.total_messages, data.context_snippet.as_str()), (1, "new"));
    let data = m.record_user_message_for_thread_title(&(2, None), "more");
    assert_eq!(
        (data.total_messages, data.context_snippet.as_str()),
        (2, "two · more")
    );
}

#[test]
fn blank_messages_count_but_are_not_remembered() {
    let mut m = SessionManager::new(config(0));
    let data = m.record_user_message_for_thread_title(&(1, None), " \n ");
    assert_eq!((data.total_messages, data.context_snippet.as_str()), (1, ""));
    m.record_user_message_for_thread_title(&(1, None), "  a \t b ");
    let data = m.record_user_message_for_thread_title(&(1, None), "");
    assert_eq!((data.total_messages, data.context_snippet.as_str()), (3, "a b"));
}

#[test]
fn snippet_holds_the_last_five_messages() {
    let mut m = SessionManager::new(config(0));
    let mut last = String::new();
    for i in 1..=20 {
        last = m
            .record_user_message_for_thread_title(&(1, None), &format!("m{i}"))
            .context_snippet;
    }
    assert_eq!(last, "m16 · m17 · m18 · m19 · m20");
}

#[test]
fn snippet_stays_within_its_length() {
    let mut m = SessionManager::new(config(0));
    let long = "y".repeat(200);
    m.record_user_message_for_thread_title(&(1, None), &long);
    let data = m.record_user_message_for_thread_title(&(1, None), &"z".repeat(81));
    assert_eq!(data.context_snippet.chars().count(), 96 + 3 + 81);
    let data = m.record_user_message_for_thread_title(&(1, None), "w");
    assert_eq!(data.context_snippet, format!("{} · w", "z".repeat(81)));
}

#[test]
fn messages_are_compacted_and_cut() {
    assert_eq!(normalize_for_title("  hello\n\n world  "), "hello world");
    assert_eq!(normalize_for_title("\u{a0}\u{2003}x"), "x");
    assert_eq!(normalize_for_title(&"ж".repeat(97)), "ж".repeat(96));
    assert_eq!(normalize_for_title(""), "");
}

#[test]
fn sessions_have_numbers_of_their_own() {
    let mut m = SessionManager::new(config(2));
    let made: Vec<usize> = (0..3).map(|_| m.reserve().expect("a number")).collect();
    assert_eq!(made, vec![0, 1, 2]);
    m.add_warm(made[0]);
    m.add_warm(made[1]);
    let (a, b) = ((1, None), (2, None));
    assert_eq!(m.get_or_create(a), SessionSource::Warm(1));
    assert_eq!(m.get_or_create(b), SessionSource::Warm(0));
    assert!(m.install(a, 1).is_new && m.install(b, 0).is_new);
    assert_eq!(m.get_or_create(a), SessionSource::Existing(1));
    assert_eq!(m.get_or_create(b), SessionSource::Existing(0));
    assert_eq!(m.session_count(), 2);
    m.reset(&a);
    m.reset(&a);
    assert_eq!(m.session_count(), 1);
    assert_eq!(m.get_or_create(a), SessionSource::Create);
    assert_eq!(m.session_count(), 1);
    assert_eq!(m.reserve(), Some(3));
    assert_eq!(m.get_or_create(b), SessionSource::Existing(0));
}

#[test]
fn title_takes_as_many_messages_as_fit() {
    let mut m = SessionManager::new(config(0));
    let key = (1, None);
    let texts = ["a".repeat(90), "b".repeat(50), "c".repeat(60), "d".repeat(64)];
    let mut last = String::new();
    for text in &texts {
        m.record_user_message_for_thread_title(&(2, None), "elsewhere");
        last = m.record_user_message_for_thread_title(&key, text).context_snippet;
    }
    assert_eq!(last, texts[1..].join(" · "));
    assert_eq!(last.chars().count(), 180);
    let data = m.record_user_message_for_thread_title(&key, " ");
    assert_eq!((data.total_messages, data.context_snippet), (5, last));
    let data = m.record_user_message_for_thread_title(&key, "e");
    assert_eq!(data.context_snippet, format!("{} · {} · e", texts[2], texts[3]));
    m.reset(&key);
    let data = m.record_user_message_for_thread_title(&key, "f");
    assert_eq!((data.total_messages, data.context_snippet.as_str()), (1, "f"));
}
