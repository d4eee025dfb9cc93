//! The logic of Toodles, a Telegram bot in front of gemini-cli.
pub mod acp;
pub mod aggregator;
pub mod attachments;
pub mod cancel;
pub mod chunks;
pub mod clock;
pub mod commands;
pub mod config;
pub mod download;
pub mod html;
pub mod inbox;
pub mod job;
pub mod json;
pub mod manager;
mod maps;
pub mod markdown;
pub mod messages;
pub mod paths;
pub mod progress;
pub mod queue;
pub mod session;
pub mod stream;
pub mod telegram_api;
pub mod text;
pub mod title;
pub mod transcription;
pub mod voice;
