# toodles

A Telegram bot in front of `gemini --acp`: messages, files, photos and voice notes go
to the agent, and its answer is streamed back into the chat by editing a placeholder.

The library under `src/` holds the bot's logic, written in Verus. Every function
states in its contract what it returns or changes, and Verus proves it. What has to
touch the network, the file system or a process lies in `app/`, which asks the library
what to do next and does it. Times are handed to the library; only the aggregator and
the inbox can also read the clock themselves.

## The library

| Module | What it does |
|---|---|
| `config` | settings from the environment and the configuration file |
| `messages`, `voice`, `commands` | who may write, and what each kind of message leads to |
| `aggregator`, `inbox` | messages that arrive together become one prompt, with their files |
| `queue`, `job` | one query at a time per session, the others in order |
| `session`, `manager` | prompts, events, and which session serves which chat |
| `acp`, `json` | the agent's protocol |
| `stream`, `progress` | the draft, and how a response ends |
| `attachments`, `paths` | files that the agent asks to send |
| `markdown`, `html`, `chunks`, `title`, `text` | what is shown, and how it fits Telegram's limits |
| `cancel` | the "Stop" buttons |
| `transcription`, `download` | the local model, how it is fetched, and the audio that goes into it |
| `telegram_api` | calls of the Bot API that are made by hand |
| `maps`, `clock` | the concurrent maps and the clock, as the library uses them |

Functions named `law_…` state what holds of several functions at once: that nothing of
a response is lost when it is split, that every request is handed out once and in
order, that no session ever serves two chats, that drafts keep their distance. Many
speak of whole runs: any sequence of calls, from the beginning on.

## What is taken for granted

`DashMap`, `CancellationToken`, `serde_json`, the clock and `String::push` are called
through functions whose contracts are believed, not proved. Each says in its comment
what it claims.

## Running the bot

Set `TELEGRAM_BOT_TOKEN`, and if wanted `ALLOWED_USER_IDS`, `GEMINI_CLI_COMMAND`,
`OPENAI_API_KEY`, `USE_LOCAL_TRANSCRIPTION` and the other variables that `config`
names, or put them into `toodles/config.toml` in the user's configuration directory.
Voice notes need `ffmpeg` for local transcription.

## Dependencies

`takecell` is used only by `teloxide`. It is held at 0.1.1 because later versions need
a newer compiler than this crate does.
