use toodles::commands::{
    command_handler, status_text, topic_created, topic_failed, Command, CommandStep, TopicStep,
};
use toodles::config::{Config, DraftMode};
use toodles::job::{JobStep, QueryJob};
use toodles::messages::{
    check_sender, handle_document, handle_photo, handle_text, photo_upload, temp_dir, Admission,
    Document, DocumentStep, PhotoStep, TextStep,
};
use toodles::voice::{
    handle_voice, session_failure, transcribed, Backend, TranscriptStep, VoiceAnswer, VoiceStep,
};

const REFUSAL: &str = "⛔ You are not authorised to use this bot.";

fn config(key: Option<&str>) -> Config {
    Config {
        telegram_bot_token: "t".to_string(),
        allowed_user_ids: vec![5],
        gemini_cli_command: "gemini --acp".to_string(),
        gemini_working_dir: None,
        gemini_yolo: true,
        openai_api_key: key.map(|k| k.to_string()),
        use_local_transcription: false,
        models_dir: "/m".to_string(),
        system_prompt: None,
        draft_mode: DraftMode::Compact,
        thread_rename_every: 6,
        warm_session_pool_size: 0,
    }
}

#[test]
fn senders_are_checked() {
    let c = config(None);
    assert!(matches!(check_sender(&c, None), Admission::Ignore));
    assert!(matches!(check_sender(&c, Some(5)), Admission::Admit));
    assert!(matches!(check_sender(&c, Some(6)), Admission::Refuse(t) if t == REFUSAL));
}

#[test]
fn text_is_pushed_unless_it_is_a_command() {
    let c = config(None);
    assert!(matches!(
        handle_text(&c, Some(5), Some("hello /x")),
        TextStep::Push(part) if part.text == "hello /x"
    ));
    assert!(matches!(handle_text(&c, Some(5), Some("/x")), TextStep::Ignore));
    assert!(matches!(handle_text(&c, Some(5), None), TextStep::Ignore));
    assert!(matches!(handle_text(&c, None, Some("hi")), TextStep::Ignore));
    assert!(matches!(
        handle_text(&c, Some(1), Some("/x")),
        TextStep::Refuse(t) if t == REFUSAL
    ));
}

#[test]
fn documents_are_named_and_described() {
    let c = config(None);
    let document = Document {
        unique_id: "U1".to_string(),
        file_name: Some("a.pdf".to_string()),
    };
    match handle_document(&c, Some(5), Some(&document), Some("read it"), Some("/home/u")) {
        DocumentStep::Download(upload) => {
            assert_eq!(upload.path, "/home/u/.gemini/tmp/toodles/toodles_U1_a.pdf");
            assert_eq!(
                upload.part.text,
                "User sent a file: a.pdf (saved at /home/u/.gemini/tmp/toodles/toodles_U1_a.pdf)\n\nread it"
            );
        }
        other => panic!("{other:?}"),
    }
    let nameless = Document {
        unique_id: "U2".to_string(),
        file_name: None,
    };
    match handle_document(&c, Some(5), Some(&nameless), None, None) {
        DocumentStep::Download(upload) => {
            assert_eq!(upload.path, "/tmp/.gemini/tmp/toodles/toodles_U2_unknown_file");
            assert!(upload.part.text.ends_with(
                "\n\nNo caption provided. Describe the file contents and ask what I should do."
            ));
        }
        other => panic!("{other:?}"),
    }
    assert!(matches!(
        handle_document(&c, Some(5), None, None, None),
        DocumentStep::Ignore
    ));
    assert!(matches!(
        handle_document(&c, Some(9), Some(&nameless), None, None),
        DocumentStep::Refuse(t) if t == REFUSAL
    ));
    assert!(matches!(
        handle_document(&c, None, Some(&nameless), None, None),
        DocumentStep::Ignore
    ));
    assert_eq!(temp_dir(Some("/")), "/.gemini/tmp/toodles");
}

#[test]
fn photos_are_taken_in_their_largest_size() {
    let c = config(None);
    assert!(matches!(handle_photo(&c, Some(5), 3), PhotoStep::Download(2)));
    assert!(matches!(handle_photo(&c, Some(5), 0), PhotoStep::Ignore));
    assert!(matches!(handle_photo(&c, None, 3), PhotoStep::Ignore));
    assert!(matches!(handle_photo(&c, Some(4), 3), PhotoStep::Refuse(t) if t == REFUSAL));
}

#[test]
fn photos_keep_their_extension() {
    let upload = photo_upload(Some("/h"), 42, "photos/file.0.png", Some("what?"));
    assert_eq!(upload.path, "/h/.gemini/tmp/toodles/toodles_photo_42.png");
    assert_eq!(upload.part.text, "what?");
    let upload = photo_upload(None, 7, "noext", None);
    assert_eq!(upload.path, "/tmp/.gemini/tmp/toodles/toodles_photo_7.noext");
    assert_eq!(upload.part.text, "What's in this image?");
    let upload = photo_upload(None, 7, "dot.", None);
    assert_eq!(upload.path, "/tmp/.gemini/tmp/toodles/toodles_photo_7.");
}

#[test]
fn voice_needs_something_that_transcribes() {
    let with_key = config(Some("k"));
    let without = config(None);
    assert!(matches!(
        handle_voice(&without, Some(5), true, false),
        VoiceStep::Reply(t)
            if t == "🎙 Voice messages require `OPENAI_API_KEY` to be set for Whisper transcription."
    ));
    for (c, local, first) in [
        (&without, true, Backend::Local),
        (&with_key, true, Backend::Local),
        (&with_key, false, Backend::Cloud),
    ] {
        match handle_voice(c, Some(5), true, local) {
            VoiceStep::Transcribe { status, backend } => {
                assert_eq!(status, "🎙 Transcribing voice message…");
                assert_eq!(backend, first);
            }
            other => panic!("{other:?}"),
        }
    }
    assert!(matches!(handle_voice(&with_key, Some(5), false, true), VoiceStep::Ignore));
    assert!(matches!(handle_voice(&with_key, None, true, true), VoiceStep::Ignore));
    assert!(matches!(
        handle_voice(&with_key, Some(1), true, true),
        VoiceStep::Reply(t) if t == REFUSAL
    ));
}

#[test]
fn cloud_is_tried_when_the_local_model_fails() {
    let failed = || Err("boom".to_string());
    assert!(matches!(
        transcribed(Backend::Local, true, failed()),
        TranscriptStep::Retry(Backend::Cloud)
    ));
    for (backend, cloud) in [(Backend::Local, false), (Backend::Cloud, true)] {
        assert!(matches!(
            transcribed(backend, cloud, failed()),
            TranscriptStep::Stop(t) if t == "❌ Transcription failed: boom"
        ));
    }
}

#[test]
fn transcripts_are_shown_and_asked() {
    match transcribed(Backend::Cloud, true, Ok("hi there".to_string())) {
        TranscriptStep::Ask { shown, prompt } => {
            assert_eq!(shown, "🎙 *Transcript:* hi there");
            assert_eq!(prompt, "hi there");
        }
        other => panic!("{other:?}"),
    }
    assert!(matches!(
        transcribed(Backend::Local, true, Ok(String::new())),
        TranscriptStep::Stop(t) if t == "🎙 Could not transcribe audio (empty result)."
    ));
    assert_eq!(session_failure("e"), "❌ Could not start gemini-cli: e");
}

#[test]
fn voice_answers_are_lines() {
    let mut a = VoiceAnswer::new(0);
    assert_eq!(a.final_text(), "_(no response)_");
    assert_eq!(a.preview(u128::MAX), None);
    a.on_line("one");
    a.on_line("");
    a.on_line("two");
    assert_eq!(a.preview(499_999_999), None);
    assert_eq!(a.preview(500_000_000).as_deref(), Some("one\ntwo"));
    a.shown(500_000_000);
    assert_eq!(a.preview(900_000_000), None);
    assert_eq!(a.preview(0), None);
    assert_eq!(a.final_text(), "one\ntwo");
    a.on_line(&"x".repeat(5000));
    assert_eq!(a.final_text().chars().count(), 4096);
}

fn command(user: Option<u64>, command: Command) -> CommandStep {
    command_handler(&config(None), user, command, (-100, Some(7)), 3)
}

#[test]
fn commands_are_obeyed() {
    match command(Some(5), Command::Start) {
        CommandStep::Reply(t) => {
            assert!(t.starts_with("🐩 Woof! I'm Toodles, your AI assistant.\n\nJust write me anything"));
            assert!(t.ends_with("\n/help — All commands"));
        }
        other => panic!("{other:?}"),
    }
    match command(Some(5), Command::New) {
        CommandStep::ResetAndReply { key, reply } => {
            assert_eq!(key, (-100, Some(7)));
            assert_eq!(reply, "Done! Starting fresh.");
        }
        other => panic!("{other:?}"),
    }
    assert!(matches!(
        command(Some(5), Command::Status),
        CommandStep::Reply(t)
            if t == "📊 Active sessions: 3\n🧵 Thread: 7\n🤖 Agent: gemini-cli\n📝 Draft mode: compact\n🏷 Rename topic every: 6 msgs"
    ));
    assert!(matches!(
        command(Some(5), Command::Thread),
        CommandStep::CreateTopic { name, color: 0x6FB9F0 } if name == "Новая сессия"
    ));
    assert!(matches!(command(Some(5), Command::Help), CommandStep::ListCommands));
}

#[test]
fn commands_of_strangers_are_refused() {
    for c in [
        Command::Start,
        Command::New,
        Command::Status,
        Command::Thread,
        Command::Help,
    ] {
        assert!(matches!(command(Some(6), c), CommandStep::Reply(t) if t == REFUSAL));
        assert!(matches!(command(None, c), CommandStep::Ignore));
    }
}

#[test]
fn status_names_the_thread_and_the_mode() {
    assert_eq!(
        status_text(0, None, DraftMode::Verbose, 0),
        "📊 Active sessions: 0\n🧵 Thread: none\n🤖 Agent: gemini-cli\n📝 Draft mode: verbose\n🏷 Rename topic every: 0 msgs"
    );
}

#[test]
fn topics_are_announced() {
    match topic_created(-1, 9, "T") {
        TopicStep::Created { key, welcome, reply } => {
            assert_eq!(key, (-1, Some(9)));
            assert!(welcome.starts_with("🐩 Thread is ready."));
            assert_eq!(
                reply,
                "🧵 Forum thread created: `T`. I also sent a welcome message into that topic."
            );
        }
        other => panic!("{other:?}"),
    }
    assert!(matches!(
        topic_failed("no rights"),
        TopicStep::Failed(t)
            if t == "⚠️ Could not create thread: no rights. Make sure this is a forum-enabled supergroup and bot has admin rights for topics."
    ));
}

#[test]
fn job_shows_a_notice_where_a_session_is_made() {
    let mut job = QueryJob::new();
    assert!(matches!(job.begin(true), JobStep::Connect));
    assert!(matches!(
        job.begin(false),
        JobStep::SendNotice(t) if t == "⏳ Подключаю Gemini-сессию…"
    ));
    assert!(matches!(job.connected(None), JobStep::Stream { placeholder: None }));
    assert!(matches!(job.notice_sent(Some(3)), JobStep::Connect));
    assert!(matches!(
        job.connected(None),
        JobStep::Stream { placeholder: Some(3) }
    ));
}

#[test]
fn job_reports_a_failure_in_the_place_of_the_notice() {
    let failure = "❌ Не удалось запустить gemini-cli ACP сессию.\nПроверь `GEMINI_CLI_COMMAND` (или `GEMINI_CLI_PATH`) в конфиге.\nError: e";
    let mut job = QueryJob::new();
    assert!(matches!(job.connected(Some("e")), JobStep::Send(t) if t == failure));
    job.notice_sent(Some(8));
    match job.connected(Some("e")) {
        JobStep::Edit { message_id, text } => {
            assert_eq!(message_id, 8);
            assert_eq!(text, failure);
        }
        other => panic!("{other:?}"),
    }
    job.notice_sent(None);
    assert!(matches!(job.connected(Some("e")), JobStep::Send(_)));
}
