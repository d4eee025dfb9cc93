//! The commands of the bot.
use vstd::prelude::*;
use vstd::string::*;

use crate::config::{Config, DraftMode};
use crate::messages;
use crate::session::SessionKey;
use crate::text;

verus! {

/// What `/start` replies.
pub const START_TEXT: &'static str = "🐩 Woof! I'm Toodles, your AI assistant.\n\nJust write me anything and I'll respond! Ask questions, get help with code, translations — anything.\n\n🎙 I understand voice messages — I'll transcribe and reply.\n📄 Send me files too — I'll figure them out!\n\n/thread — Create a new forum thread\n/new — Start fresh\n/help — All commands";

/// What `/new` replies.
pub const NEW_TEXT: &'static str = "Done! Starting fresh.";

/// The name of a topic that `/thread` creates.
pub const TOPIC_NAME: &'static str = "Новая сессия";

/// The color of the icon of such a topic; Telegram allows only a fixed set.
pub const TOPIC_ICON_COLOR: u32 = 0x6FB9F0;

/// What is sent into a topic that `/thread` has created.
pub const TOPIC_WELCOME_TEXT: &'static str = "🐩 Thread is ready. Send your prompt here and I'll keep context isolated for this topic.";

/// A command.
#[derive(Debug, Clone, Copy, PartialEq, Eq, Structural)]
pub enum Command {
    Start,
    New,
    Status,
    Thread,
    Help,
}

/// What is done about a command.
#[derive(Debug)]
pub enum CommandStep {
    Ignore,
    /// Reply with this.
    Reply(String),
    /// Reset the session, then reply with this.
    ResetAndReply { key: SessionKey, reply: String },
    /// Create a topic with this name and color.
    CreateTopic { name: String, color: u32 },
    /// Reply with the list of commands.
    ListCommands,
}

/// The name of a draft mode.
pub open spec fn mode_name(mode: DraftMode) -> Seq<char> {
    match mode {
        DraftMode::Compact => "compact"@,
        DraftMode::Verbose => "verbose"@,
    }
}

/// The name of a thread.
pub open spec fn thread_name(thread_id: Option<i32>) -> Seq<char> {
    match thread_id {
        Some(id) => text::signed_decimal(id as int),
        None => "none"@,
    }
}

/// What `/status` replies.
pub open spec fn status_of(
    sessions: nat,
    thread_id: Option<i32>,
    mode: DraftMode,
    rename_every: nat,
) -> Seq<char> {
    "📊 Active sessions: "@ + text::decimal(sessions) + "\n🧵 Thread: "@ + thread_name(thread_id)
        + "\n🤖 Agent: gemini-cli\n📝 Draft mode: "@ + mode_name(mode)
        + "\n🏷 Rename topic every: "@ + text::decimal(rename_every) + " msgs"@
}

/// What `/status` replies.
pub fn status_text(
    sessions: usize,
    thread_id: Option<i32>,
    draft_mode: DraftMode,
    rename_every: usize,
) -> (r: String)
    ensures
        r@ == status_of(sessions as nat, thread_id, draft_mode, rename_every as nat),
{
    let mut r = "📊 Active sessions: ".to_owned();
    text::push_decimal(&mut r, sessions as u128);
    r.append("\n🧵 Thread: ");
    match thread_id {
        Some(id) => {
            text::push_signed(&mut r, id as i64);
        },
        None => {
            r.append("none");
        },
    }
    r.append("\n🤖 Agent: gemini-cli\n📝 Draft mode: ");
    r.append(
        match draft_mode {
            DraftMode::Compact => "compact",
            DraftMode::Verbose => "verbose",
        },
    );
    r.append("\n🏷 Rename topic every: ");
    text::push_decimal(&mut r, rename_every as u128);
    r.append(" msgs");
    r
}

/// Whether `r` is what is done about a command of a user who may give it.
pub open spec fn obeys(
    r: CommandStep,
    command: Command,
    key: SessionKey,
    sessions: nat,
    config: Config,
) -> bool {
    match command {
        Command::Start => r matches CommandStep::Reply(t) && t@ == START_TEXT@,
        Command::New => r matches CommandStep::ResetAndReply { key: k, reply } && k == key
            && reply@ == NEW_TEXT@,
        Command::Status => r matches CommandStep::Reply(t) && t@ == status_of(
            sessions,
            key.1,
            config.draft_mode,
            config.thread_rename_every as nat,
        ),
        Command::Thread => r matches CommandStep::CreateTopic { name, color } && name@
            == TOPIC_NAME@ && color == TOPIC_ICON_COLOR,
        Command::Help => r is ListCommands,
    }
}

/// Handle a command that was given in a chat; `sessions` are active.
pub fn command_handler(
    config: &Config,
    user_id: Option<u64>,
    command: Command,
    key: SessionKey,
    sessions: usize,
) -> (r: CommandStep)
    ensures
        match user_id {
            None => r is Ignore,
            Some(id) => if config.allows(id) {
                obeys(r, command, key, sessions as nat, *config)
            } else {
                r matches CommandStep::Reply(t) && t@ == messages::NOT_AUTHORISED_TEXT@
            },
        },
{
    match messages::check_sender(config, user_id) {
        messages::Admission::Ignore => CommandStep::Ignore,
        messages::Admission::Refuse(t) => CommandStep::Reply(t),
        messages::Admission::Admit => match command {
            Command::Start => CommandStep::Reply(START_TEXT.to_owned()),
            Command::New => CommandStep::ResetAndReply { key, reply: NEW_TEXT.to_owned() },
            Command::Status => CommandStep::Reply(
                status_text(sessions, key.1, config.draft_mode, config.thread_rename_every),
            ),
            Command::Thread => CommandStep::CreateTopic {
                name: TOPIC_NAME.to_owned(),
                color: TOPIC_ICON_COLOR,
            },
            Command::Help => CommandStep::ListCommands,
        },
    }
}

/// What follows the creation of a topic.
#[derive(Debug)]
pub enum TopicStep {
    /// Begin the topic anew, make its session ahead, send the welcome into it, and
    /// reply.
    Created { key: SessionKey, welcome: String, reply: String },
    /// Reply.
    Failed(String),
}

/// What is said of a topic that has been created.
pub open spec fn created_reply(name: Seq<char>) -> Seq<char> {
    "🧵 Forum thread created: `"@ + name
        + "`. I also sent a welcome message into that topic."@
}

/// A topic has been created.
pub fn topic_created(chat_id: i64, thread_id: i32, name: &str) -> (r: TopicStep)
    ensures
        r matches TopicStep::Created { key, welcome, reply } && key == (chat_id, Some(thread_id))
            && welcome@ == TOPIC_WELCOME_TEXT@ && reply@ == created_reply(name@),
{
    let mut reply = "🧵 Forum thread created: `".to_owned();
    reply.append(name);
    reply.append("`. I also sent a welcome message into that topic.");
    TopicStep::Created {
        key: (chat_id, Some(thread_id)),
        welcome: TOPIC_WELCOME_TEXT.to_owned(),
        reply,
    }
}

/// A topic could not be created.
pub fn topic_failed(error: &str) -> (r: TopicStep)
    ensures
        r matches TopicStep::Failed(t) && t@ == "⚠️ Could not create thread: "@ + error@
            + ". Make sure this is a forum-enabled supergroup and bot has admin rights for topics."@,
{
    let mut t = "⚠️ Could not create thread: ".to_owned();
    t.append(error);
    t.append(
        ". Make sure this is a forum-enabled supergroup and bot has admin rights for topics.",
    );
    TopicStep::Failed(t)
}

/// Only `/new` resets a session, and only that of the chat in which it is given.
pub proof fn law_only_new_resets(
    r: CommandStep,
    command: Command,
    key: SessionKey,
    sessions: nat,
    config: Config,
)
    requires
        obeys(r, command, key, sessions, config),
    ensures
        r is ResetAndReply <==> command == Command::New,
        r matches CommandStep::ResetAndReply { key: k, .. } ==> k == key,
{
}

/// The status tells how many sessions there are, the thread, the mode of drafts and how
/// often topics are renamed.
pub proof fn law_status_tells_what_it_is_asked(
    sessions: usize,
    thread_id: Option<i32>,
    mode: DraftMode,
    every: usize,
    r: String,
)
    requires
        call_ensures(status_text, (sessions, thread_id, mode, every), r),
    ensures
        ({
            let thread = if thread_id is Some {
                text::signed_decimal(thread_id->0 as int)
            } else {
                "none"@
            };
            let drafts = if mode is Compact { "compact"@ } else { "verbose"@ };
            r@ == "📊 Active sessions: "@ + text::decimal(sessions as nat) + "\n🧵 Thread: "@
                + thread + "\n🤖 Agent: gemini-cli\n📝 Draft mode: "@ + drafts
                + "\n🏷 Rename topic every: "@ + text::decimal(every as nat) + " msgs"@
        }),
{
}

/// A command of a user on the list, or of any user where there is no list, is obeyed:
/// `/new` resets the session of its own chat, `/thread` asks for a topic, `/status` tells
/// of the chat in which it is given. Others are refused.
pub proof fn law_commands_are_obeyed(
    config: &Config,
    user_id: Option<u64>,
    command: Command,
    key: SessionKey,
    sessions: usize,
    r: CommandStep,
    status: String,
)
    requires
        call_ensures(command_handler, (config, user_id, command, key, sessions), r),
        call_ensures(
            status_text,
            (sessions, key.1, config.draft_mode, config.thread_rename_every),
            status,
        ),
    ensures
        ({
            let ids = config.allowed_user_ids@;
            let known = user_id is Some;
            let may = known && (ids.len() == 0 || ids.contains(user_id->0));
            &&& !known ==> r is Ignore
            &&& known && !may ==> r is Reply && r->Reply_0@
                == "⛔ You are not authorised to use this bot."@
            &&& may && command is Start ==> r is Reply && r->Reply_0@ == START_TEXT@
            &&& may && command is New ==> r is ResetAndReply && r->key == key && r->reply@
                == "Done! Starting fresh."@
            &&& may && command is Status ==> r is Reply && r->Reply_0@ == status@
            &&& may && command is Thread ==> r is CreateTopic && r->name@ == "Новая сессия"@
                && r->color == 0x6FB9F0
            &&& may && command is Help ==> r is ListCommands
        }),
{
}

/// A topic that has been created has its own session, and its name is told.
pub proof fn law_topic_has_its_own_session(chat_id: i64, thread_id: i32, name: &str, r: TopicStep)
    requires
        call_ensures(topic_created, (chat_id, thread_id, name), r),
    ensures
        r is Created,
        r->key == (chat_id, Some(thread_id)),
        r->reply@ == "🧵 Forum thread created: `"@ + name@
            + "`. I also sent a welcome message into that topic."@,
{
}

} // verus!
