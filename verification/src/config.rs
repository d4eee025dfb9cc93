//! Configuration of the bot, from environment variables and an optional TOML file.
use vstd::prelude::*;
use vstd::string::*;

use crate::paths;
use crate::text;
use crate::transcription;

verus! {

/// Draft rendering verbosity for streaming UX.
#[derive(Debug, Clone, Copy, PartialEq, Eq, Structural)]
pub enum DraftMode {
    /// Minimal waiting state and concise draft text.
    Compact,
    /// Rich waiting state with a progress log from tool/plan events.
    Verbose,
}

/// Bot configuration loaded from environment variables and optional TOML file.
#[derive(Debug, Clone)]
pub struct Config {
    /// Telegram bot token from @BotFather.
    pub telegram_bot_token: String,
    /// Comma-separated list of allowed Telegram user IDs.
    /// If empty, all users are allowed.
    pub allowed_user_ids: Vec<u64>,
    /// Full shell command that starts gemini-cli in ACP mode.
    pub gemini_cli_command: String,
    /// Optional working directory for gemini-cli sessions.
    pub gemini_working_dir: Option<String>,
    /// Whether to set ACP session mode to yolo.
    pub gemini_yolo: bool,
    /// Optional OpenAI API key for Whisper voice transcription.
    pub openai_api_key: Option<String>,
    /// Whether to use local Parakeet transcription instead of OpenAI Whisper.
    pub use_local_transcription: bool,
    /// Directory where models are stored.
    pub models_dir: String,
    /// System prompt prepended to the first query in each session.
    pub system_prompt: Option<String>,
    /// Draft rendering mode for in-flight responses.
    pub draft_mode: DraftMode,
    /// Rename forum topic title every N user messages in that thread.
    /// Set to 0 to disable automatic renaming.
    pub thread_rename_every: usize,
    /// Number of idle prewarmed ACP sessions to keep ready.
    /// Set to 0 to disable hot session pool.
    pub warm_session_pool_size: usize,
}

/// The `[gemini]` table of the configuration file.
#[derive(Debug, Clone)]
pub struct FileGeminiConfig {
    pub cmd: Option<String>,
    pub working_dir: Option<String>,
    pub cwd: Option<String>,
    pub yolo: Option<bool>,
}

/// What the configuration file sets.
#[derive(Debug, Clone)]
pub struct FileConfig {
    pub bot_token: Option<String>,
    pub telegram_bot_token: Option<String>,
    pub allowed_user_ids: Option<Vec<u64>>,
    pub gemini_cli_path: Option<String>,
    pub gemini_cli_command: Option<String>,
    pub gemini_working_dir: Option<String>,
    pub gemini_yolo: Option<bool>,
    pub openai_api_key: Option<String>,
    pub use_local_transcription: Option<bool>,
    pub models_dir: Option<String>,
    pub system_prompt: Option<String>,
    pub draft_mode: Option<String>,
    pub thread_rename_every: Option<usize>,
    pub warm_session_pool_size: Option<usize>,
    pub gemini: Option<FileGeminiConfig>,
}

/// The environment that the configuration is read from: the variables of the same
/// names, in capitals, and the user's home directory.
#[derive(Debug, Clone)]
pub struct Environment {
    pub telegram_bot_token: Option<String>,
    pub allowed_user_ids: Option<String>,
    pub gemini_cli_path: Option<String>,
    pub gemini_cli_command: Option<String>,
    pub gemini_working_dir: Option<String>,
    pub gemini_yolo: Option<String>,
    pub openai_api_key: Option<String>,
    pub use_local_transcription: Option<String>,
    pub models_dir: Option<String>,
    pub system_prompt: Option<String>,
    pub draft_mode: Option<String>,
    pub thread_rename_every: Option<String>,
    pub warm_session_pool_size: Option<String>,
    pub home: Option<String>,
}

/// Why a configuration could not be made.
#[derive(Debug, Clone, Copy, PartialEq, Eq, Structural)]
pub enum ConfigError {
    /// No bot token in the environment nor in the file.
    MissingBotToken,
}

impl ConfigError {
    /// The error in words.
    pub fn message(&self) -> (r: &'static str)
        ensures
            r@ == "TELEGRAM_BOT_TOKEN must be set"@,
    {
        match self {
            ConfigError::MissingBotToken => "TELEGRAM_BOT_TOKEN must be set",
        }
    }
}

/// A configuration as plain values.
#[verifier::ext_equal]
pub struct Settings {
    pub telegram_bot_token: Seq<char>,
    pub allowed_user_ids: Seq<u64>,
    pub gemini_cli_command: Seq<char>,
    pub gemini_working_dir: Option<Seq<char>>,
    pub gemini_yolo: bool,
    pub openai_api_key: Option<Seq<char>>,
    pub use_local_transcription: bool,
    pub models_dir: Seq<char>,
    pub system_prompt: Option<Seq<char>>,
    pub draft_mode: DraftMode,
    pub thread_rename_every: nat,
    pub warm_session_pool_size: nat,
}

impl View for Config {
    type V = Settings;

    open spec fn view(&self) -> Settings {
        Settings {
            telegram_bot_token: self.telegram_bot_token@,
            allowed_user_ids: self.allowed_user_ids@,
            gemini_cli_command: self.gemini_cli_command@,
            gemini_working_dir: text::text_of(self.gemini_working_dir),
            gemini_yolo: self.gemini_yolo,
            openai_api_key: text::text_of(self.openai_api_key),
            use_local_transcription: self.use_local_transcription,
            models_dir: self.models_dir@,
            system_prompt: text::text_of(self.system_prompt),
            draft_mode: self.draft_mode,
            thread_rename_every: self.thread_rename_every as nat,
            warm_session_pool_size: self.warm_session_pool_size as nat,
        }
    }
}

/// The first value of the two that there is.
pub open spec fn first_of<T>(a: Option<T>, b: Option<T>) -> Option<T> {
    match a {
        Some(_) => a,
        None => b,
    }
}

/// The value, or `default` where there is none.
pub open spec fn value_or<T>(a: Option<T>, default: T) -> T {
    match a {
        Some(v) => v,
        None => default,
    }
}

/// What a configuration file sets where there is none: nothing.
pub open spec fn nothing_set() -> FileConfig {
    FileConfig {
        bot_token: None,
        telegram_bot_token: None,
        allowed_user_ids: None,
        gemini_cli_path: None,
        gemini_cli_command: None,
        gemini_working_dir: None,
        gemini_yolo: None,
        openai_api_key: None,
        use_local_transcription: None,
        models_dir: None,
        system_prompt: None,
        draft_mode: None,
        thread_rename_every: None,
        warm_session_pool_size: None,
        gemini: None,
    }
}

impl FileConfig {
    /// A file that sets nothing.
    pub fn empty() -> (r: FileConfig)
        ensures
            r == nothing_set(),
    {
        FileConfig {
            bot_token: None,
            telegram_bot_token: None,
            allowed_user_ids: None,
            gemini_cli_path: None,
            gemini_cli_command: None,
            gemini_working_dir: None,
            gemini_yolo: None,
            openai_api_key: None,
            use_local_transcription: None,
            models_dir: None,
            system_prompt: None,
            draft_mode: None,
            thread_rename_every: None,
            warm_session_pool_size: None,
            gemini: None,
        }
    }

    /// The command that the `[gemini]` table sets.
    pub open spec fn table_cmd(self) -> Option<Seq<char>> {
        match self.gemini {
            Some(g) => text::text_of(g.cmd),
            None => None,
        }
    }

    /// The working directory that the `[gemini]` table sets.
    pub open spec fn table_working_dir(self) -> Option<Seq<char>> {
        match self.gemini {
            Some(g) => first_of(text::text_of(g.working_dir), text::text_of(g.cwd)),
            None => None,
        }
    }

    /// The yolo setting of the `[gemini]` table.
    pub open spec fn table_yolo(self) -> Option<bool> {
        match self.gemini {
            Some(g) => g.yolo,
            None => None,
        }
    }
}

/// The user IDs among comma-separated entries; an entry that is no number is left out.
pub open spec fn user_ids(entries: Seq<Seq<char>>) -> Seq<u64>
    decreases entries.len(),
{
    if entries.len() == 0 {
        Seq::empty()
    } else {
        let before = user_ids(entries.drop_last());
        match text::unsigned_value(text::trimmed(entries.last()), u64::MAX as nat) {
            Some(id) => before.push(id as u64),
            None => before,
        }
    }
}

/// The user IDs in a comma-separated list; an entry that is no number is left out.
pub fn parse_allowed_user_ids_csv(raw: &str) -> (r: Vec<u64>)
    ensures
        r@ == user_ids(text::split_on(raw@, ',')),
{
    let v = text::chars_of(raw);
    let entries = text::split(v.as_slice(), ',');
    let ghost all = text::texts(entries@);
    let mut r: Vec<u64> = Vec::new();
    let mut i: usize = 0;
    while i < entries.len()
        invariant
            i <= entries@.len(),
            all == text::texts(entries@),
            r@ == user_ids(all.take(i as int)),
        decreases entries.len() - i,
    {
        let t = text::trim_chars(entries[i].as_slice());
        assert(all.take(i + 1).drop_last() =~= all.take(i as int));
        assert(all.take(i + 1).last() == entries@[i as int]@);
        if let Some(id) = text::parse_unsigned(t.as_slice(), u64::MAX) {
            r.push(id);
        }
        i += 1;
    }
    assert(all.take(i as int) =~= all);
    r
}

/// The draft mode that a text names.
pub open spec fn draft_mode_of(raw: Seq<char>) -> Option<DraftMode> {
    let t = text::trimmed(raw);
    if text::same_ignoring_case(t, "compact"@) {
        Some(DraftMode::Compact)
    } else if text::same_ignoring_case(t, "verbose"@) {
        Some(DraftMode::Verbose)
    } else {
        None
    }
}

/// The draft mode that a text names.
pub fn parse_draft_mode(raw: &str) -> (r: Option<DraftMode>)
    ensures
        r == draft_mode_of(raw@),
{
    let v = text::chars_of(raw);
    let t = text::trim_chars(v.as_slice());
    if text::eq_ignore_ascii_case(t.as_slice(), "compact") {
        Some(DraftMode::Compact)
    } else if text::eq_ignore_ascii_case(t.as_slice(), "verbose") {
        Some(DraftMode::Verbose)
    } else {
        None
    }
}

/// The truth value that a text names.
pub open spec fn truth_of(raw: Seq<char>) -> Option<bool> {
    let t = text::trimmed(raw);
    if text::same_ignoring_case(t, "1"@) || text::same_ignoring_case(t, "true"@)
        || text::same_ignoring_case(t, "yes"@) || text::same_ignoring_case(t, "on"@) {
        Some(true)
    } else if text::same_ignoring_case(t, "0"@) || text::same_ignoring_case(t, "false"@)
        || text::same_ignoring_case(t, "no"@) || text::same_ignoring_case(t, "off"@) {
        Some(false)
    } else {
        None
    }
}

/// The truth value of an environment variable.
pub open spec fn env_truth(value: Option<Seq<char>>) -> Option<bool> {
    match value {
        Some(raw) => truth_of(raw),
        None => None,
    }
}

/// The truth value of an environment variable, given what it is set to.
pub fn env_bool(value: Option<&str>) -> (r: Option<bool>)
    ensures
        r == env_truth(text::optional(value)),
{
    match value {
        Some(raw) => {
            let v = text::chars_of(raw);
            let t = text::trim_chars(v.as_slice());
            let t = t.as_slice();
            if text::eq_ignore_ascii_case(t, "1") || text::eq_ignore_ascii_case(t, "true")
                || text::eq_ignore_ascii_case(t, "yes") || text::eq_ignore_ascii_case(t, "on") {
                Some(true)
            } else if text::eq_ignore_ascii_case(t, "0") || text::eq_ignore_ascii_case(t, "false")
                || text::eq_ignore_ascii_case(t, "no") || text::eq_ignore_ascii_case(t, "off") {
                Some(false)
            } else {
                None
            }
        },
        None => None,
    }
}

/// The count that an environment variable sets.
pub open spec fn env_count(value: Option<Seq<char>>) -> Option<nat> {
    match value {
        Some(raw) => text::unsigned_value(text::trimmed(raw), usize::MAX as nat),
        None => None,
    }
}

/// A count as a number without bounds.
pub open spec fn count_of(n: Option<usize>) -> Option<nat> {
    match n {
        Some(n) => Some(n as nat),
        None => None,
    }
}

fn parse_count(value: &Option<String>) -> (r: Option<usize>)
    ensures
        count_of(r) == env_count(text::text_of(*value)),
{
    match value {
        Some(raw) => {
            let v = text::chars_of(raw.as_str());
            let t = text::trim_chars(v.as_slice());
            match text::parse_unsigned(t.as_slice(), usize::MAX as u64) {
                Some(n) => Some(n as usize),
                None => None,
            }
        },
        None => None,
    }
}

/// The draft mode that an optional setting names.
pub open spec fn mode_setting(value: Option<Seq<char>>) -> Option<DraftMode> {
    match value {
        Some(raw) => draft_mode_of(raw),
        None => None,
    }
}

fn parse_mode(value: &Option<String>) -> (r: Option<DraftMode>)
    ensures
        r == mode_setting(text::text_of(*value)),
{
    match value {
        Some(raw) => parse_draft_mode(raw.as_str()),
        None => None,
    }
}

/// The system prompt where none is configured.
pub const DEFAULT_SYSTEM_PROMPT: &'static str = "You are Toodles - a versatile, friendly AI assistant in a Telegram chat. You help with any task: answering questions, writing code, brainstorming ideas, translating text, explaining concepts, and more. Keep answers concise and useful. Respond in the user's language. To send a file to the user, output a line containing only: ATTACH_FILE:/absolute/path/to/file";

/// The allowed users that the environment and the file set.
pub open spec fn allowed_of(env: Environment, file: FileConfig) -> Seq<u64> {
    match env.allowed_user_ids {
        Some(raw) => user_ids(text::split_on(raw@, ',')),
        None => match file.allowed_user_ids {
            Some(ids) => ids@,
            None => Seq::empty(),
        },
    }
}

/// The bot token that the environment and the file set.
pub open spec fn token_of(env: Environment, file: FileConfig) -> Option<Seq<char>> {
    first_of(
        text::text_of(env.telegram_bot_token),
        first_of(text::text_of(file.telegram_bot_token), text::text_of(file.bot_token)),
    )
}

/// The command that starts the agent.
pub open spec fn command_of(env: Environment, file: FileConfig) -> Seq<char> {
    let path = value_or(
        first_of(text::text_of(env.gemini_cli_path), text::text_of(file.gemini_cli_path)),
        "gemini"@,
    );
    value_or(
        first_of(
            first_of(text::text_of(env.gemini_cli_command), text::text_of(file.gemini_cli_command)),
            file.table_cmd(),
        ),
        path + " --acp"@,
    )
}

/// The directory of the models.
pub open spec fn models_dir_of(env: Environment, file: FileConfig) -> Seq<char> {
    match env.models_dir {
        Some(dir) => paths::home_expanded(dir@, text::text_of(env.home)),
        None => value_or(
            text::text_of(file.models_dir),
            transcription::models_dir_in(text::text_of(env.home)),
        ),
    }
}

/// The settings that an environment and a file come to, but for the bot token: a
/// variable goes before the file, the file before the default.
pub open spec fn settings_of(env: Environment, file: FileConfig, token: Seq<char>) -> Settings {
    Settings {
        telegram_bot_token: token,
        allowed_user_ids: allowed_of(env, file),
        gemini_cli_command: command_of(env, file),
        gemini_working_dir: first_of(
            first_of(text::text_of(env.gemini_working_dir), text::text_of(file.gemini_working_dir)),
            file.table_working_dir(),
        ),
        gemini_yolo: value_or(
            first_of(
                first_of(env_truth(text::text_of(env.gemini_yolo)), file.gemini_yolo),
                file.table_yolo(),
            ),
            true,
        ),
        openai_api_key: first_of(text::text_of(env.openai_api_key), text::text_of(file.openai_api_key)),
        use_local_transcription: value_or(
            first_of(
                env_truth(text::text_of(env.use_local_transcription)),
                file.use_local_transcription,
            ),
            false,
        ),
        models_dir: models_dir_of(env, file),
        system_prompt: first_of(
            first_of(text::text_of(env.system_prompt), text::text_of(file.system_prompt)),
            Some(DEFAULT_SYSTEM_PROMPT@),
        ),
        draft_mode: value_or(
            first_of(
                mode_setting(text::text_of(env.draft_mode)),
                mode_setting(text::text_of(file.draft_mode)),
            ),
            DraftMode::Verbose,
        ),
        thread_rename_every: value_or(
            first_of(
                env_count(text::text_of(env.thread_rename_every)),
                count_of(file.thread_rename_every),
            ),
            4,
        ),
        warm_session_pool_size: value_or(
            first_of(
                env_count(text::text_of(env.warm_session_pool_size)),
                count_of(file.warm_session_pool_size),
            ),
            1,
        ),
    }
}

/// A copy of an optional string.
pub fn copy_text(s: &Option<String>) -> (r: Option<String>)
    ensures
        text::text_of(r) == text::text_of(*s),
{
    match s {
        Some(x) => Some(x.clone()),
        None => None,
    }
}

/// An optional string as an optional slice.
pub fn as_text(s: &Option<String>) -> (r: Option<&str>)
    ensures
        text::optional(r) == text::text_of(*s),
{
    match s {
        Some(x) => Some(x.as_str()),
        None => None,
    }
}

fn first_text(a: &Option<String>, b: &Option<String>) -> (r: Option<String>)
    ensures
        text::text_of(r) == first_of(text::text_of(*a), text::text_of(*b)),
{
    if a.is_some() {
        copy_text(a)
    } else {
        copy_text(b)
    }
}

fn first_some<T: Copy>(a: Option<T>, b: Option<T>) -> (r: Option<T>)
    ensures
        r == first_of(a, b),
{
    if a.is_some() {
        a
    } else {
        b
    }
}

fn resolve_command(env: &Environment, file: &FileConfig) -> (r: String)
    ensures
        r@ == command_of(*env, *file),
{
    let set = first_text(&env.gemini_cli_command, &file.gemini_cli_command);
    let table = match &file.gemini {
        Some(g) => copy_text(&g.cmd),
        None => None,
    };
    match first_text(&set, &table) {
        Some(command) => command,
        None => {
            let mut command = match first_text(&env.gemini_cli_path, &file.gemini_cli_path) {
                Some(path) => path,
                None => "gemini".to_owned(),
            };
            command.append(" --acp");
            command
        },
    }
}

fn resolve_working_dir(env: &Environment, file: &FileConfig) -> (r: Option<String>)
    ensures
        text::text_of(r) == first_of(
            first_of(text::text_of(env.gemini_working_dir), text::text_of(file.gemini_working_dir)),
            file.table_working_dir(),
        ),
{
    let set = first_text(&env.gemini_working_dir, &file.gemini_working_dir);
    let table = match &file.gemini {
        Some(g) => first_text(&g.working_dir, &g.cwd),
        None => None,
    };
    first_text(&set, &table)
}

fn resolve_allowed(env: &Environment, file: &FileConfig) -> (r: Vec<u64>)
    ensures
        r@ == allowed_of(*env, *file),
{
    match &env.allowed_user_ids {
        Some(raw) => parse_allowed_user_ids_csv(raw.as_str()),
        None => match &file.allowed_user_ids {
            Some(ids) => {
                let copy = ids.clone();
                assert(copy@ =~= ids@);
                copy
            },
            None => Vec::new(),
        },
    }
}

fn resolve_models_dir(env: &Environment, file: &FileConfig) -> (r: String)
    ensures
        r@ == models_dir_of(*env, *file),
{
    match &env.models_dir {
        Some(dir) => paths::expand_tilde(dir.as_str(), as_text(&env.home)),
        None => match copy_text(&file.models_dir) {
            Some(dir) => dir,
            None => transcription::default_models_dir(as_text(&env.home)),
        },
    }
}

impl Config {
    /// Make the configuration out of environment variables and what the optional
    /// config file sets.
    pub fn from_env(env: &Environment, file_config: Option<&FileConfig>) -> (r: Result<
        Config,
        ConfigError,
    >)
        ensures
            ({
                let file = match file_config {
                    Some(file) => *file,
                    None => nothing_set(),
                };
                match token_of(*env, file) {
                    Some(token) => r matches Ok(config) && config@ == settings_of(
                        *env,
                        file,
                        token,
                    ),
                    None => r == Err::<Config, ConfigError>(ConfigError::MissingBotToken),
                }
            }),
    {
        match file_config {
            Some(file) => Config::from_parts(env, file),
            None => {
                let file = FileConfig::empty();
                Config::from_parts(env, &file)
            },
        }
    }

    fn from_parts(env: &Environment, file: &FileConfig) -> (r: Result<Config, ConfigError>)
        ensures
            match token_of(*env, *file) {
                Some(token) => r matches Ok(config) && config@ == settings_of(*env, *file, token),
                None => r == Err::<Config, ConfigError>(ConfigError::MissingBotToken),
            },
    {
        let file_token = first_text(&file.telegram_bot_token, &file.bot_token);
        let telegram_bot_token = match first_text(&env.telegram_bot_token, &file_token) {
            Some(token) => token,
            None => {
                return Err(ConfigError::MissingBotToken);
            },
        };
        let table_yolo = match &file.gemini {
            Some(g) => g.yolo,
            None => None,
        };
        let yolo = first_some(
            first_some(env_bool(as_text(&env.gemini_yolo)), file.gemini_yolo),
            table_yolo,
        );
        let local = first_some(
            env_bool(as_text(&env.use_local_transcription)),
            file.use_local_transcription,
        );
        let prompt = match first_text(&env.system_prompt, &file.system_prompt) {
            Some(prompt) => prompt,
            None => DEFAULT_SYSTEM_PROMPT.to_owned(),
        };
        let mode = first_some(parse_mode(&env.draft_mode), parse_mode(&file.draft_mode));
        let rename_every = first_some(
            parse_count(&env.thread_rename_every),
            file.thread_rename_every,
        );
        let pool_size = first_some(
            parse_count(&env.warm_session_pool_size),
            file.warm_session_pool_size,
        );
        let config = Config {
            telegram_bot_token,
            allowed_user_ids: resolve_allowed(env, file),
            gemini_cli_command: resolve_command(env, file),
            gemini_working_dir: resolve_working_dir(env, file),
            gemini_yolo: yolo.unwrap_or(true),
            openai_api_key: first_text(&env.openai_api_key, &file.openai_api_key),
            use_local_transcription: local.unwrap_or(false),
            models_dir: resolve_models_dir(env, file),
            system_prompt: Some(prompt),
            draft_mode: mode.unwrap_or(DraftMode::Verbose),
            thread_rename_every: rename_every.unwrap_or(4),
            warm_session_pool_size: pool_size.unwrap_or(1),
        };
        proof {
            let token = token_of(*env, *file)->0;
            assert(config@ =~= settings_of(*env, *file, token));
        }
        Ok(config)
    }

    /// Whether a user may use the bot.
    pub open spec fn allows(&self, user_id: u64) -> bool {
        self.allowed_user_ids@.len() == 0 || self.allowed_user_ids@.contains(user_id)
    }

    /// Returns `true` if the given user ID is permitted to use the bot.
    /// An empty allowlist means all users are permitted.
    pub fn is_user_allowed(&self, user_id: u64) -> (r: bool)
        ensures
            r == self.allows(user_id),
    {
        if self.allowed_user_ids.len() == 0 {
            return true;
        }
        let mut i: usize = 0;
        while i < self.allowed_user_ids.len()
            invariant
                i <= self.allowed_user_ids@.len(),
                forall|j: int| 0 <= j < i ==> self.allowed_user_ids@[j] != user_id,
            decreases self.allowed_user_ids.len() - i,
        {
            if self.allowed_user_ids[i] == user_id {
                assert(self.allowed_user_ids@.contains(user_id));
                return true;
            }
            i += 1;
        }
        false
    }
}

/// Where the configuration file is looked for: where `TOODLES_CONFIG` says, else in
/// the user's configuration directory.
pub open spec fn file_place(
    configured: Option<Seq<char>>,
    home: Option<Seq<char>>,
    config_dir: Option<Seq<char>>,
) -> Option<Seq<char>> {
    match configured {
        Some(path) => Some(paths::home_expanded(path, home)),
        None => match config_dir {
            Some(dir) => Some(paths::joined(paths::joined(dir, "toodles"@), "config.toml"@)),
            None => None,
        },
    }
}

/// Where the configuration file is looked for, given `TOODLES_CONFIG`, the home and
/// the configuration directory of the user.
pub fn config_path(
    configured: Option<&str>,
    home: Option<&str>,
    config_dir: Option<&str>,
) -> (r: Option<String>)
    ensures
        text::text_of(r) == file_place(
            text::optional(configured),
            text::optional(home),
            text::optional(config_dir),
        ),
{
    match configured {
        Some(path) => Some(paths::expand_tilde(path, home)),
        None => default_config_path(config_dir),
    }
}

/// The place of the configuration file in the user's configuration directory.
pub fn default_config_path(config_dir: Option<&str>) -> (r: Option<String>)
    ensures
        text::text_of(r) == file_place(None, None, text::optional(config_dir)),
{
    match config_dir {
        Some(dir) => {
            let own = paths::join_path(dir, "toodles");
            Some(paths::join_path(own.as_str(), "config.toml"))
        },
        None => None,
    }
}

/// What the environment sets goes before the file: the setting is the same whatever
/// the file holds.
pub proof fn law_environment_goes_first(
    env: Environment,
    file: FileConfig,
    other: FileConfig,
    token: Seq<char>,
)
    ensures
        ({
            let a = settings_of(env, file, token);
            let b = settings_of(env, other, token);
            &&& env.telegram_bot_token is Some ==> token_of(env, file) == token_of(env, other)
            &&& env.allowed_user_ids is Some ==> a.allowed_user_ids == b.allowed_user_ids
            &&& env.gemini_cli_command is Some ==> a.gemini_cli_command == b.gemini_cli_command
            &&& env.gemini_working_dir is Some ==> a.gemini_working_dir == b.gemini_working_dir
            &&& env_truth(text::text_of(env.gemini_yolo)) is Some ==> a.gemini_yolo == b.gemini_yolo
            &&& env.openai_api_key is Some ==> a.openai_api_key == b.openai_api_key
            &&& env_truth(text::text_of(env.use_local_transcription)) is Some
                ==> a.use_local_transcription == b.use_local_transcription
            &&& env.models_dir is Some ==> a.models_dir == b.models_dir
            &&& env.system_prompt is Some ==> a.system_prompt == b.system_prompt
            &&& mode_setting(text::text_of(env.draft_mode)) is Some ==> a.draft_mode == b.draft_mode
            &&& env_count(text::text_of(env.thread_rename_every)) is Some ==> a.thread_rename_every
                == b.thread_rename_every
            &&& env_count(text::text_of(env.warm_session_pool_size)) is Some
                ==> a.warm_session_pool_size == b.warm_session_pool_size
        }),
{
}

/// Every configuration has a system prompt.
pub proof fn law_there_is_a_system_prompt(env: Environment, file: FileConfig, token: Seq<char>)
    ensures
        settings_of(env, file, token).system_prompt is Some,
{
}

proof fn lemma_user_ids_listed(entries: Seq<Seq<char>>, id: u64, k: int)
    requires
        0 <= k < entries.len(),
        text::unsigned_value(text::trimmed(entries[k]), u64::MAX as nat) == Some(id as nat),
    ensures
        user_ids(entries).contains(id),
    decreases entries.len(),
{
    let before = user_ids(entries.drop_last());
    let all = user_ids(entries);
    if k == entries.len() - 1 {
        assert(all[all.len() - 1] == id);
    } else {
        assert(entries.drop_last()[k] == entries[k]);
        lemma_user_ids_listed(entries.drop_last(), id, k);
        let j = choose|j: int| 0 <= j < before.len() && before[j] == id;
        assert(all[j] == id);
    }
}

/// A user whose ID stands in the list may use the bot.
pub proof fn law_listed_user_is_allowed(raw: Seq<char>, k: int, id: u64, config: Config)
    requires
        0 <= k < text::split_on(raw, ',').len(),
        text::unsigned_value(text::trimmed(text::split_on(raw, ',')[k]), u64::MAX as nat) == Some(
            id as nat,
        ),
        config.allowed_user_ids@ == user_ids(text::split_on(raw, ',')),
    ensures
        config.allows(id),
{
    lemma_user_ids_listed(text::split_on(raw, ','), id, k);
}

proof fn lemma_user_ids_front(first: Seq<char>, entries: Seq<Seq<char>>)
    ensures
        user_ids(seq![first] + entries) == user_ids(seq![first]) + user_ids(entries),
    decreases entries.len(),
{
    let all = seq![first] + entries;
    if entries.len() == 0 {
        assert(all =~= seq![first]);
        assert(user_ids(entries) =~= Seq::empty());
        assert(user_ids(seq![first]) + Seq::<u64>::empty() =~= user_ids(seq![first]));
    } else {
        lemma_user_ids_front(first, entries.drop_last());
        assert(all.drop_last() =~= seq![first] + entries.drop_last());
        assert(all.last() == entries.last());
        assert(user_ids(all) =~= user_ids(seq![first]) + user_ids(entries));
    }
}

/// The users of a list are those of what stands before a comma, and then those of what
/// stands behind it.
pub proof fn law_list_is_read_entry_by_entry(
    raw: &str,
    r: Vec<u64>,
    a: &str,
    before: Vec<u64>,
    b: &str,
    behind: Vec<u64>,
)
    requires
        call_ensures(parse_allowed_user_ids_csv, (raw,), r),
        call_ensures(parse_allowed_user_ids_csv, (a,), before),
        call_ensures(parse_allowed_user_ids_csv, (b,), behind),
        raw@ == a@ + seq![','] + b@,
        !a@.contains(','),
    ensures
        r@ == before@ + behind@,
{
    text::lemma_split_front(a@, ',', b@);
    text::lemma_split_one(a@, ',');
    assert(a@.push(',') + b@ =~= raw@);
    lemma_user_ids_front(a@, text::split_on(b@, ','));
}

/// An entry of the list is a number, with white space around it or without; any other
/// entry, and one that is too great, is left out.
pub proof fn law_entry_is_a_number_or_nothing(
    raw: &str,
    r: Vec<u64>,
    front: Seq<char>,
    word: Seq<char>,
    back: Seq<char>,
    n: nat,
    i: int,
)
    requires
        call_ensures(parse_allowed_user_ids_csv, (raw,), r),
        raw@ == front + word + back,
        !raw@.contains(','),
        text::is_blank(front),
        text::is_blank(back),
        word.len() > 0,
        !text::is_space(word[0]),
        !text::is_space(word.last()),
    ensures
        word == text::decimal(n) && n <= u64::MAX ==> r@ == seq![n as u64],
        word == text::decimal(n) && n > u64::MAX ==> r@.len() == 0,
        0 <= i < word.len() && !('0' <= word[i] <= '9') && (i > 0 || word[i] != '+') ==> r@.len()
            == 0,
{
    text::lemma_split_one(raw@, ',');
    text::law_trimming_takes_white_space_alone(front, word, back);
    let entries = seq![raw@];
    assert(entries.drop_last() =~= Seq::empty());
    assert(user_ids(Seq::<Seq<char>>::empty()) =~= Seq::empty());
    if word == text::decimal(n) {
        text::law_written_number_is_read_back(n, u64::MAX as nat);
        assert(user_ids(entries) =~= if n <= u64::MAX { seq![n as u64] } else { Seq::empty() });
    }
    if 0 <= i < word.len() && !('0' <= word[i] <= '9') && (i > 0 || word[i] != '+') {
        let d = text::unsigned_digits(word);
        if word[0] == '+' {
            assert(d[i - 1] == word[i]);
            assert(!text::is_digit(d[i - 1]));
        } else {
            assert(!text::is_digit(d[i]));
        }
    }
}

/// A blank list names nobody.
pub proof fn law_blank_list_names_nobody(raw: &str, r: Vec<u64>)
    requires
        call_ensures(parse_allowed_user_ids_csv, (raw,), r),
        text::is_blank(raw@),
    ensures
        r@.len() == 0,
{
    assert(!text::is_space(','));
    assert(!raw@.contains(','));
    text::lemma_split_one(raw@, ',');
    text::law_blank_text_trims_to_nothing(raw@);
    let entries = seq![raw@];
    assert(entries.drop_last() =~= Seq::empty());
    assert(user_ids(Seq::<Seq<char>>::empty()) =~= Seq::empty());
    assert(text::trimmed(raw@).len() == 0);
}

/// A draft mode is named by its word in any case, with white space around it or without.
pub proof fn law_draft_mode_is_named_by_its_word(
    raw: &str,
    r: Option<DraftMode>,
    front: Seq<char>,
    word: Seq<char>,
    back: Seq<char>,
)
    requires
        call_ensures(parse_draft_mode, (raw,), r),
        raw@ == front + word + back,
        text::is_blank(front),
        text::is_blank(back),
        word.len() > 0,
        !text::is_space(word[0]),
        !text::is_space(word.last()),
    ensures
        r == Some(DraftMode::Compact) <==> text::same_ignoring_case(word, "compact"@),
        r == Some(DraftMode::Verbose) <==> text::same_ignoring_case(word, "verbose"@),
{
    text::law_trimming_takes_white_space_alone(front, word, back);
    reveal_strlit("compact");
    reveal_strlit("verbose");
    if text::same_ignoring_case(word, "compact"@) {
        assert(text::ascii_lower(word[0]) == text::ascii_lower("compact"@[0]));
        assert("compact"@[0] == 'c' && "verbose"@[0] == 'v');
        if text::same_ignoring_case(word, "verbose"@) {
            assert(text::ascii_lower(word[0]) == text::ascii_lower("verbose"@[0]));
        }
    }
}

/// A switch is on or off by one of four words each, in any case, with white space around
/// it or without; any other word says nothing.
pub proof fn law_switch_is_set_by_its_words(
    raw: &str,
    r: Option<bool>,
    front: Seq<char>,
    word: Seq<char>,
    back: Seq<char>,
)
    requires
        call_ensures(env_bool, (Some(raw),), r),
        raw@ == front + word + back,
        text::is_blank(front),
        text::is_blank(back),
        word.len() > 0,
        !text::is_space(word[0]),
        !text::is_space(word.last()),
    ensures
        r == Some(true) <==> text::same_ignoring_case(word, "1"@) || text::same_ignoring_case(
            word,
            "true"@,
        ) || text::same_ignoring_case(word, "yes"@) || text::same_ignoring_case(word, "on"@),
        r is None <==> !text::same_ignoring_case(word, "1"@) && !text::same_ignoring_case(
            word,
            "true"@,
        ) && !text::same_ignoring_case(word, "yes"@) && !text::same_ignoring_case(word, "on"@)
            && !text::same_ignoring_case(word, "0"@) && !text::same_ignoring_case(word, "false"@)
            && !text::same_ignoring_case(word, "no"@) && !text::same_ignoring_case(word, "off"@),
{
    text::law_trimming_takes_white_space_alone(front, word, back);
}

/// The token is that of the environment, or else that of the file, under its longer name
/// first; without any there is no configuration.
pub proof fn law_token_is_found(
    env: &Environment,
    file: &FileConfig,
    r: Result<Config, ConfigError>,
)
    requires
        call_ensures(Config::from_env, (env, Some(file)), r),
    ensures
        r is Ok <==> env.telegram_bot_token is Some || file.telegram_bot_token is Some
            || file.bot_token is Some,
        r is Err ==> r->Err_0 == ConfigError::MissingBotToken,
        env.telegram_bot_token is Some ==> r->Ok_0.telegram_bot_token@
            == env.telegram_bot_token->0@,
        env.telegram_bot_token is None && file.telegram_bot_token is Some
            ==> r->Ok_0.telegram_bot_token@ == file.telegram_bot_token->0@,
        env.telegram_bot_token is None && file.telegram_bot_token is None && file.bot_token is Some
            ==> r->Ok_0.telegram_bot_token@ == file.bot_token->0@,
{
    if r is Ok {
        assert(r->Ok_0@.telegram_bot_token == r->Ok_0.telegram_bot_token@);
    }
}

/// The command, the working directory, the key and the prompt are those of the environment,
/// or else of the file, its `[gemini]` table last, or else the defaults.
pub proof fn law_texts_are_set_by_the_environment_then_the_file(
    env: &Environment,
    file: &FileConfig,
    r: Result<Config, ConfigError>,
)
    requires
        call_ensures(Config::from_env, (env, Some(file)), r),
        r is Ok,
    ensures
        ({
            let c = r->Ok_0;
            let table = file.gemini is Some;
            let command = env.gemini_cli_command is Some || file.gemini_cli_command is Some || (
            table && file.gemini->0.cmd is Some);
            let dir = env.gemini_working_dir is Some || file.gemini_working_dir is Some;
            &&& env.gemini_cli_command is Some ==> c.gemini_cli_command@
                == env.gemini_cli_command->0@
            &&& env.gemini_cli_command is None && file.gemini_cli_command is Some
                ==> c.gemini_cli_command@ == file.gemini_cli_command->0@
            &&& env.gemini_cli_command is None && file.gemini_cli_command is None && command
                ==> c.gemini_cli_command@ == file.gemini->0.cmd->0@
            &&& !command && env.gemini_cli_path is Some ==> c.gemini_cli_command@
                == env.gemini_cli_path->0@ + " --acp"@
            &&& !command && env.gemini_cli_path is None && file.gemini_cli_path is Some
                ==> c.gemini_cli_command@ == file.gemini_cli_path->0@ + " --acp"@
            &&& !command && env.gemini_cli_path is None && file.gemini_cli_path is None
                ==> c.gemini_cli_command@ == "gemini --acp"@
            &&& env.gemini_working_dir is Some ==> text::text_of(c.gemini_working_dir) == Some(
                env.gemini_working_dir->0@,
            )
            &&& env.gemini_working_dir is None && file.gemini_working_dir is Some
                ==> text::text_of(c.gemini_working_dir) == Some(file.gemini_working_dir->0@)
            &&& !dir && table && file.gemini->0.working_dir is Some ==> text::text_of(
                c.gemini_working_dir,
            ) == Some(file.gemini->0.working_dir->0@)
            &&& !dir && table && file.gemini->0.working_dir is None && file.gemini->0.cwd is Some
                ==> text::text_of(c.gemini_working_dir) == Some(file.gemini->0.cwd->0@)
            &&& !dir && (!table || file.gemini->0.working_dir is None && file.gemini->0.cwd is None)
                ==> c.gemini_working_dir is None
            &&& env.openai_api_key is Some ==> text::text_of(c.openai_api_key) == Some(
                env.openai_api_key->0@,
            )
            &&& env.openai_api_key is None ==> text::text_of(c.openai_api_key) == text::text_of(
                file.openai_api_key,
            )
            &&& env.system_prompt is Some ==> text::text_of(c.system_prompt) == Some(
                env.system_prompt->0@,
            )
            &&& env.system_prompt is None && file.system_prompt is Some ==> text::text_of(
                c.system_prompt,
            ) == Some(file.system_prompt->0@)
            &&& env.system_prompt is None && file.system_prompt is None ==> text::text_of(
                c.system_prompt,
            ) == Some(DEFAULT_SYSTEM_PROMPT@)
        }),
{
    let c = r->Ok_0;
    let s = settings_of(*env, *file, token_of(*env, *file)->0);
    assert(c@ == s);
    assert(c.gemini_cli_command@ == s.gemini_cli_command);
    assert(text::text_of(c.gemini_working_dir) == s.gemini_working_dir);
    assert(text::text_of(c.openai_api_key) == s.openai_api_key);
    assert(text::text_of(c.system_prompt) == s.system_prompt);
    reveal_strlit("gemini");
    reveal_strlit(" --acp");
    reveal_strlit("gemini --acp");
    assert("gemini"@ + " --acp"@ =~= "gemini --acp"@);
}

/// The switches, the mode of drafts and the counts are those of the environment where it
/// sets them in a form that is understood, or else of the file, or else the defaults.
pub proof fn law_switches_are_set_by_the_environment_then_the_file(
    env: &Environment,
    file: &FileConfig,
    r: Result<Config, ConfigError>,
    yolo: Option<bool>,
    local: Option<bool>,
)
    requires
        call_ensures(Config::from_env, (env, Some(file)), r),
        r is Ok,
        env.gemini_yolo is Some ==> yolo == truth_of(env.gemini_yolo->0@),
        env.gemini_yolo is None ==> yolo is None,
        env.use_local_transcription is Some ==> local == truth_of(
            env.use_local_transcription->0@,
        ),
        env.use_local_transcription is None ==> local is None,
    ensures
        ({
            let c = r->Ok_0;
            let in_table = file.gemini is Some && file.gemini->0.yolo is Some;
            &&& yolo is Some ==> c.gemini_yolo == yolo->0
            &&& yolo is None && file.gemini_yolo is Some ==> c.gemini_yolo == file.gemini_yolo->0
            &&& yolo is None && file.gemini_yolo is None && in_table ==> c.gemini_yolo
                == file.gemini->0.yolo->0
            &&& yolo is None && file.gemini_yolo is None && !in_table ==> c.gemini_yolo
            &&& local is Some ==> c.use_local_transcription == local->0
            &&& local is None && file.use_local_transcription is Some
                ==> c.use_local_transcription == file.use_local_transcription->0
            &&& local is None && file.use_local_transcription is None
                ==> !c.use_local_transcription
        }),
{
    let c = r->Ok_0;
    let s = settings_of(*env, *file, token_of(*env, *file)->0);
    assert(c@ == s);
    assert(c.gemini_yolo == s.gemini_yolo);
    assert(c.use_local_transcription == s.use_local_transcription);
}

/// A count in the environment, written in digits, goes before that of the file; where
/// neither is set, topics are renamed at every fourth message and one session is kept warm.
pub proof fn law_counts_are_set_by_the_environment_then_the_file(
    env: &Environment,
    file: &FileConfig,
    r: Result<Config, ConfigError>,
    n: usize,
)
    requires
        call_ensures(Config::from_env, (env, Some(file)), r),
        r is Ok,
    ensures
        ({
            let c = r->Ok_0;
            let every = env.thread_rename_every;
            let pool = env.warm_session_pool_size;
            &&& every is Some && every->0@ == text::decimal(n as nat) ==> c.thread_rename_every
                == n
            &&& every is None && file.thread_rename_every is Some ==> c.thread_rename_every
                == file.thread_rename_every->0
            &&& every is None && file.thread_rename_every is None ==> c.thread_rename_every == 4
            &&& pool is Some && pool->0@ == text::decimal(n as nat) ==> c.warm_session_pool_size
                == n
            &&& pool is None && file.warm_session_pool_size is Some ==> c.warm_session_pool_size
                == file.warm_session_pool_size->0
            &&& pool is None && file.warm_session_pool_size is None ==> c.warm_session_pool_size
                == 1
        }),
{
    let c = r->Ok_0;
    let s = settings_of(*env, *file, token_of(*env, *file)->0);
    assert(c@ == s);
    assert(c.thread_rename_every as nat == s.thread_rename_every);
    assert(c.warm_session_pool_size as nat == s.warm_session_pool_size);
    let d = text::decimal(n as nat);
    text::lemma_decimal(n as nat);
    assert(text::is_digit(d[0]) && text::is_digit(d[d.len() - 1]));
    let none = Seq::<char>::empty();
    assert(none + d + none =~= d);
    text::law_trimming_takes_white_space_alone(none, d, none);
    text::law_written_number_is_read_back(n as nat, usize::MAX as nat);
}

/// The mode of drafts is the one that the environment names, or else the file, or else the
/// verbose one; the users are those of the environment, or else of the file, or else all;
/// and the models are where the environment says, or else the file, or else below the home
/// directory.
pub proof fn law_other_settings_are_set_by_the_environment_then_the_file(
    env: &Environment,
    file: &FileConfig,
    r: Result<Config, ConfigError>,
    home: Option<&str>,
    dir: &str,
    expanded: String,
    default_dir: String,
    list: &str,
    listed: Vec<u64>,
)
    requires
        call_ensures(Config::from_env, (env, Some(file)), r),
        r is Ok,
        text::optional(home) == text::text_of(env.home),
        call_ensures(paths::expand_tilde, (dir, home), expanded),
        call_ensures(transcription::default_models_dir, (home,), default_dir),
        call_ensures(parse_allowed_user_ids_csv, (list,), listed),
    ensures
        ({
            let c = r->Ok_0;
            let named = if env.draft_mode is Some { draft_mode_of(env.draft_mode->0@) } else { None
            };
            let in_file = if file.draft_mode is Some { draft_mode_of(file.draft_mode->0@) } else {
                None };
            &&& named is Some ==> c.draft_mode == named->0
            &&& named is None && in_file is Some ==> c.draft_mode == in_file->0
            &&& named is None && in_file is None ==> c.draft_mode == DraftMode::Verbose
            &&& env.allowed_user_ids is Some && list@ == env.allowed_user_ids->0@
                ==> c.allowed_user_ids@ == listed@
            &&& env.allowed_user_ids is None && file.allowed_user_ids is Some
                ==> c.allowed_user_ids@ == file.allowed_user_ids->0@
            &&& env.allowed_user_ids is None && file.allowed_user_ids is None
                ==> c.allowed_user_ids@.len() == 0
            &&& env.models_dir is Some && dir@ == env.models_dir->0@ ==> c.models_dir@ == expanded@
            &&& env.models_dir is None && file.models_dir is Some ==> c.models_dir@
                == file.models_dir->0@
            &&& env.models_dir is None && file.models_dir is None ==> c.models_dir@
                == default_dir@
        }),
{
    let c = r->Ok_0;
    let s = settings_of(*env, *file, token_of(*env, *file)->0);
    assert(c@ == s);
    assert(c.draft_mode == s.draft_mode);
    assert(c.allowed_user_ids@ == s.allowed_user_ids);
    assert(c.models_dir@ == s.models_dir);
}

/// Without a file the configuration is what it is with a file that sets nothing.
pub proof fn law_no_file_sets_nothing(
    env: &Environment,
    file: &FileConfig,
    r: Result<Config, ConfigError>,
    with_file: Result<Config, ConfigError>,
)
    requires
        call_ensures(Config::from_env, (env, None), r),
        call_ensures(Config::from_env, (env, Some(file)), with_file),
        file.bot_token is None,
        file.telegram_bot_token is None,
        file.allowed_user_ids is None,
        file.gemini_cli_path is None,
        file.gemini_cli_command is None,
        file.gemini_working_dir is None,
        file.gemini_yolo is None,
        file.openai_api_key is None,
        file.use_local_transcription is None,
        file.models_dir is None,
        file.system_prompt is None,
        file.draft_mode is None,
        file.thread_rename_every is None,
        file.warm_session_pool_size is None,
        file.gemini is None,
    ensures
        r is Ok <==> with_file is Ok,
        r is Ok ==> r->Ok_0@ == with_file->Ok_0@,
{
    assert(*file == nothing_set());
}

/// A user may use the bot exactly where the list names them or names nobody.
pub proof fn law_list_says_who_may_use_the_bot(config: &Config, user_id: u64, r: bool)
    requires
        call_ensures(Config::is_user_allowed, (config, user_id), r),
    ensures
        r <==> config.allowed_user_ids@.len() == 0 || exists|i: int|
            0 <= i < config.allowed_user_ids@.len() && config.allowed_user_ids@[i] == user_id,
{
}

/// The file is where it is said to be, or else in a directory of its own below that of all
/// configurations.
pub proof fn law_configuration_file_has_its_place(
    configured: Option<&str>,
    home: Option<&str>,
    config_dir: Option<&str>,
    r: Option<String>,
    path: &str,
    expanded: String,
)
    requires
        call_ensures(config_path, (configured, home, config_dir), r),
        call_ensures(paths::expand_tilde, (path, home), expanded),
    ensures
        configured is Some && path@ == configured->0@ ==> text::text_of(r) == Some(expanded@),
        configured is None && config_dir is None ==> r is None,
        configured is None && config_dir is Some && config_dir->0@.len() > 0
            && config_dir->0@.last() != '/' ==> text::text_of(r) == Some(
            config_dir->0@ + "/toodles/config.toml"@,
        ),
{
    reveal_strlit("toodles");
    reveal_strlit("config.toml");
    reveal_strlit("/toodles/config.toml");
    if configured is None && config_dir is Some && config_dir->0@.len() > 0
        && config_dir->0@.last() != '/' {
        let dir = config_dir->0@;
        let own = dir.push('/') + "toodles"@;
        assert(own.last() == "toodles"@.last());
        assert(own.push('/') + "config.toml"@ =~= dir + "/toodles/config.toml"@);
    }
}

/// A count in the environment that is no number is passed over: the file or the default
/// counts, as if it were not set.
pub proof fn law_unreadable_count_is_passed_over(
    env: &Environment,
    file: &FileConfig,
    r: Result<Config, ConfigError>,
    word: Seq<char>,
    i: int,
)
    requires
        call_ensures(Config::from_env, (env, Some(file)), r),
        r is Ok,
        0 <= i < word.len(),
        !('0' <= word[i] <= '9'),
        i > 0 || word[i] != '+',
        !text::is_space(word[0]),
        !text::is_space(word.last()),
    ensures
        ({
            let c = r->Ok_0;
            let every = env.thread_rename_every is Some && env.thread_rename_every->0@ == word;
            let pool = env.warm_session_pool_size is Some && env.warm_session_pool_size->0@ == word;
            &&& every && file.thread_rename_every is Some ==> c.thread_rename_every
                == file.thread_rename_every->0
            &&& every && file.thread_rename_every is None ==> c.thread_rename_every == 4
            &&& pool && file.warm_session_pool_size is Some ==> c.warm_session_pool_size
                == file.warm_session_pool_size->0
            &&& pool && file.warm_session_pool_size is None ==> c.warm_session_pool_size == 1
        }),
{
    let c = r->Ok_0;
    let s = settings_of(*env, *file, token_of(*env, *file)->0);
    assert(c@ == s);
    assert(c.thread_rename_every as nat == s.thread_rename_every);
    assert(c.warm_session_pool_size as nat == s.warm_session_pool_size);
    let none = Seq::<char>::empty();
    assert(none + word + none =~= word);
    text::law_trimming_takes_white_space_alone(none, word, none);
    let d = text::unsigned_digits(word);
    if word[0] == '+' {
        assert(d[i - 1] == word[i]);
        assert(!text::is_digit(d[i - 1]));
    } else {
        assert(!text::is_digit(d[i]));
    }
    assert(text::unsigned_value(word, usize::MAX as nat) is None);
}

} // verus!
