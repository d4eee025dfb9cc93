//! Voice messages: transcribed locally or in the cloud, then asked like any text.
use vstd::prelude::*;
use vstd::string::*;

use crate::chunks;
use crate::config::Config;
use crate::messages;
use crate::stream;
use crate::text;

verus! {

/// What a user is told who speaks where nothing can transcribe.
pub const NO_BACKEND_TEXT: &'static str = "🎙 Voice messages require `OPENAI_API_KEY` to be set for Whisper transcription.";

/// What is shown while a voice message is transcribed.
pub const TRANSCRIBING_TEXT: &'static str = "🎙 Transcribing voice message…";

/// What is shown where nothing was understood.
pub const EMPTY_TRANSCRIPT_TEXT: &'static str = "🎙 Could not transcribe audio (empty result).";

/// What stands in the place of an answer that has not begun.
pub const THINKING_TEXT: &'static str = "⏳ Thinking…";

/// What stands in the place of an answer that is empty.
pub const NO_RESPONSE_TEXT: &'static str = "_(no response)_";

/// How often an answer is refreshed at most, in nanoseconds.
pub const MIN_EDIT_INTERVAL: u128 = 500_000_000;

/// What can transcribe.
#[derive(Debug, Clone, Copy, PartialEq, Eq, Structural)]
pub enum Backend {
    /// The local model.
    Local,
    /// The cloud.
    Cloud,
}

/// The first to try: the local model, or else the cloud.
pub open spec fn first_backend(local: bool, cloud: bool) -> Option<Backend> {
    if local {
        Some(Backend::Local)
    } else if cloud {
        Some(Backend::Cloud)
    } else {
        None
    }
}

/// The next to try when one has failed: the cloud after the local model.
pub open spec fn fallback_of(failed: Backend, cloud: bool) -> Option<Backend> {
    if failed == Backend::Local && cloud {
        Some(Backend::Cloud)
    } else {
        None
    }
}

/// What is done about a voice message.
#[derive(Debug)]
pub enum VoiceStep {
    Ignore,
    /// Reply with this, and do no more.
    Reply(String),
    /// Reply with a status, then transcribe with this.
    Transcribe { status: String, backend: Backend },
}

/// Handle a voice message.
pub fn handle_voice(config: &Config, user_id: Option<u64>, has_voice: bool, local: bool) -> (r:
    VoiceStep)
    ensures
        match user_id {
            None => r is Ignore,
            Some(id) => if !config.allows(id) {
                r matches VoiceStep::Reply(t) && t@ == messages::NOT_AUTHORISED_TEXT@
            } else if !has_voice {
                r is Ignore
            } else {
                match first_backend(local, config.openai_api_key is Some) {
                    Some(first) => r matches VoiceStep::Transcribe { status, backend } && backend
                        == first && status@ == TRANSCRIBING_TEXT@,
                    None => r matches VoiceStep::Reply(t) && t@ == NO_BACKEND_TEXT@,
                }
            },
        },
{
    match messages::check_sender(config, user_id) {
        messages::Admission::Ignore => VoiceStep::Ignore,
        messages::Admission::Refuse(t) => VoiceStep::Reply(t),
        messages::Admission::Admit => {
            if !has_voice {
                VoiceStep::Ignore
            } else if local {
                VoiceStep::Transcribe {
                    status: TRANSCRIBING_TEXT.to_owned(),
                    backend: Backend::Local,
                }
            } else if config.openai_api_key.is_some() {
                VoiceStep::Transcribe {
                    status: TRANSCRIBING_TEXT.to_owned(),
                    backend: Backend::Cloud,
                }
            } else {
                VoiceStep::Reply(NO_BACKEND_TEXT.to_owned())
            }
        },
    }
}

/// What follows an attempt to transcribe.
#[derive(Debug)]
pub enum TranscriptStep {
    /// Try again with this.
    Retry(Backend),
    /// Show this in the place of the status, and do no more.
    Stop(String),
    /// Show this in the place of the status, then ask.
    Ask { shown: String, prompt: String },
}

/// Whether `r` is what follows an attempt to transcribe.
pub open spec fn follows(
    r: TranscriptStep,
    backend: Backend,
    cloud: bool,
    outcome: Result<Seq<char>, Seq<char>>,
) -> bool {
    match outcome {
        Err(e) => match fallback_of(backend, cloud) {
            Some(next) => r == TranscriptStep::Retry(next),
            None => r matches TranscriptStep::Stop(t) && t@ == "❌ Transcription failed: "@ + e,
        },
        Ok(words) => if words.len() == 0 {
            r matches TranscriptStep::Stop(t) && t@ == EMPTY_TRANSCRIPT_TEXT@
        } else {
            r matches TranscriptStep::Ask { shown, prompt } && prompt@ == words && shown@
                == "🎙 *Transcript:* "@ + words
        },
    }
}

/// The outcome of an attempt as plain values.
pub open spec fn outcome_of(outcome: Result<String, String>) -> Result<Seq<char>, Seq<char>> {
    match outcome {
        Ok(t) => Ok(t@),
        Err(e) => Err(e@),
    }
}

/// An attempt to transcribe is over.
pub fn transcribed(backend: Backend, cloud: bool, outcome: Result<String, String>) -> (r:
    TranscriptStep)
    ensures
        follows(r, backend, cloud, outcome_of(outcome)),
{
    match outcome {
        Err(e) => {
            if backend == Backend::Local && cloud {
                TranscriptStep::Retry(Backend::Cloud)
            } else {
                let mut t = "❌ Transcription failed: ".to_owned();
                t.append(e.as_str());
                TranscriptStep::Stop(t)
            }
        },
        Ok(words) => {
            let v = text::chars_of(words.as_str());
            if v.len() == 0 {
                TranscriptStep::Stop(EMPTY_TRANSCRIPT_TEXT.to_owned())
            } else {
                let mut shown = "🎙 *Transcript:* ".to_owned();
                shown.append(words.as_str());
                TranscriptStep::Ask { shown, prompt: words }
            }
        },
    }
}

/// What is replied where no session can be had.
pub fn session_failure(error: &str) -> (r: String)
    ensures
        r@ == "❌ Could not start gemini-cli: "@ + error@,
{
    let mut r = "❌ Could not start gemini-cli: ".to_owned();
    r.append(error);
    r
}

/// The answer after another line: lines that are empty add nothing.
pub open spec fn with_line(answer: Seq<char>, line: Seq<char>) -> Seq<char> {
    if line.len() == 0 {
        answer
    } else if answer.len() == 0 {
        line
    } else {
        answer.push('\n') + line
    }
}

/// The answer to a voice message, line by line.
#[derive(Debug)]
pub struct VoiceAnswer {
    accumulated: String,
    last_edit: u128,
}

impl VoiceAnswer {
    /// The answer so far.
    pub closed spec fn answer(&self) -> Seq<char> {
        self.accumulated@
    }

    /// When it was last shown.
    pub closed spec fn edited(&self) -> nat {
        self.last_edit as nat
    }

    /// An answer that has not begun.
    pub fn new(now: u128) -> (r: Self)
        ensures
            r.answer() == Seq::<char>::empty(),
            r.edited() == now,
    {
        VoiceAnswer { accumulated: String::new(), last_edit: now }
    }

    /// A line has come.
    pub fn on_line(&mut self, line: &str)
        ensures
            final(self).answer() == with_line(old(self).answer(), line@),
            final(self).edited() == old(self).edited(),
    {
        let v = text::chars_of(line);
        if v.len() > 0 {
            let a = text::chars_of(self.accumulated.as_str());
            if a.len() > 0 {
                self.accumulated.push('\n');
            }
            self.accumulated.append(line);
            assert(self.answer() =~= with_line(old(self).answer(), line@));
        }
    }

    /// What to show now, if it is time and there is anything.
    pub fn preview(&self, now: u128) -> (r: Option<String>)
        ensures
            text::text_of(r) == (if stream::elapsed(now as nat, self.edited())
                >= MIN_EDIT_INTERVAL && self.answer().len() > 0 {
                Some(chunks::shortened(self.answer(), chunks::MAX_MESSAGE_CHARS as int))
            } else {
                None
            }),
    {
        let a = text::chars_of(self.accumulated.as_str());
        if now >= self.last_edit && now - self.last_edit >= MIN_EDIT_INTERVAL && a.len() > 0 {
            Some(chunks::truncate_text(self.accumulated.as_str()))
        } else {
            None
        }
    }

    /// The answer has been shown.
    pub fn shown(&mut self, now: u128)
        ensures
            final(self).answer() == old(self).answer(),
            final(self).edited() == now,
    {
        self.last_edit = now;
    }

    /// What stands there in the end.
    pub fn final_text(&self) -> (r: String)
        ensures
            r@ == (if self.answer().len() == 0 {
                NO_RESPONSE_TEXT@
            } else {
                chunks::shortened(self.answer(), chunks::MAX_MESSAGE_CHARS as int)
            }),
    {
        let a = text::chars_of(self.accumulated.as_str());
        if a.len() == 0 {
            NO_RESPONSE_TEXT.to_owned()
        } else {
            chunks::truncate_text(self.accumulated.as_str())
        }
    }
}

/// Where both can transcribe, the local model is tried first, and when it fails, the
/// cloud; the user is told of a failure only when both have failed.
pub proof fn law_cloud_is_the_fallback(
    r: TranscriptStep,
    second: TranscriptStep,
    e: Seq<char>,
    f: Seq<char>,
)
    requires
        follows(r, Backend::Local, true, Err(e)),
        follows(second, Backend::Cloud, true, Err(f)),
    ensures
        first_backend(true, true) == Some(Backend::Local),
        r == TranscriptStep::Retry(Backend::Cloud),
        second is Stop,
{
}

/// Neither a model nor a key is needed where the other is there.
pub proof fn law_one_backend_is_enough(local: bool, cloud: bool)
    ensures
        first_backend(local, cloud) is Some == (local || cloud),
{
}

/// A voice message of a user who is let in is transcribed by the local model where there
/// is one, else in the cloud where there is a key for it, and else is not.
pub proof fn law_voice_is_transcribed_where_it_can_be(
    config: &Config,
    user_id: Option<u64>,
    has_voice: bool,
    local: bool,
    r: VoiceStep,
)
    requires
        call_ensures(handle_voice, (config, user_id, has_voice, local), r),
    ensures
        ({
            let may = messages::lets_in(*config, user_id);
            let cloud = config.openai_api_key is Some;
            &&& user_id is None ==> r is Ignore
            &&& user_id is Some && !may ==> r is Reply && r->Reply_0@
                == "⛔ You are not authorised to use this bot."@
            &&& may && !has_voice ==> r is Ignore
            &&& may && has_voice && local ==> r is Transcribe && r->backend == Backend::Local
            &&& may && has_voice && !local && cloud ==> r is Transcribe && r->backend
                == Backend::Cloud
            &&& may && has_voice && !local && !cloud ==> r is Reply && r->Reply_0@
                == "🎙 Voice messages require `OPENAI_API_KEY` to be set for Whisper transcription."@
            &&& r is Transcribe ==> r->status@ == "🎙 Transcribing voice message…"@
        }),
{
}

/// What was understood is shown and asked as it is; where nothing was, or both backends
/// have failed, the user is told so.
pub proof fn law_transcript_is_asked_as_it_is(
    backend: Backend,
    cloud: bool,
    outcome: Result<String, String>,
    r: TranscriptStep,
)
    requires
        call_ensures(transcribed, (backend, cloud, outcome), r),
    ensures
        outcome is Ok && outcome->Ok_0@.len() > 0 ==> r is Ask && r->prompt@ == outcome->Ok_0@
            && r->shown@ == "🎙 *Transcript:* "@ + outcome->Ok_0@,
        outcome is Ok && outcome->Ok_0@.len() == 0 ==> r is Stop && r->Stop_0@
            == "🎙 Could not transcribe audio (empty result)."@,
        outcome is Err && backend is Local && cloud ==> r is Retry && r->Retry_0
            == Backend::Cloud,
        outcome is Err && !(backend is Local && cloud) ==> r is Stop && r->Stop_0@
            == "❌ Transcription failed: "@ + outcome->Err_0@,
{
}

/// Lines that are not empty follow one another, each on a line of its own; empty ones
/// change nothing.
pub proof fn law_answer_is_its_lines(answer: Seq<char>, line: Seq<char>)
    ensures
        line.len() == 0 ==> with_line(answer, line) == answer,
        line.len() > 0 && answer.len() == 0 ==> with_line(answer, line) == line,
        line.len() > 0 && answer.len() > 0 ==> with_line(answer, line) == answer + "\n"@ + line,
{
    reveal_strlit("\n");
    assert(answer.push('\n') + line =~= answer + "\n"@ + line);
}

/// The answer is shown whole where it fits into a message, and at most twice a second
/// while it comes.
pub proof fn law_answer_is_shown(
    answer: &VoiceAnswer,
    now: u128,
    preview: Option<String>,
    last: String,
)
    requires
        call_ensures(VoiceAnswer::preview, (answer, now), preview),
        call_ensures(VoiceAnswer::final_text, (answer,), last),
    ensures
        answer.answer().len() == 0 ==> preview is None && last@ == "_(no response)_"@,
        0 < answer.answer().len() <= 4096 ==> last@ == answer.answer(),
        answer.answer().len() > 4096 ==> last@ == answer.answer().take(4095) + seq!['…'],
        answer.answer().len() > 0 ==> (preview is Some <==> now >= answer.edited() + 500_000_000),
        preview is Some ==> preview->0@ == last@,
{
    if answer.answer().len() > 4096 {
        assert(answer.answer().take(4095).push('…') =~= answer.answer().take(4095) + seq!['…']);
    }
}

/// A line that comes stands at the end of the answer, on a line of its own; an empty one
/// changes nothing.
pub proof fn law_line_of_the_answer_is_added(answer: &mut VoiceAnswer, line: &str)
    requires
        call_ensures(VoiceAnswer::on_line, (answer, line), ()),
    ensures
        line@.len() == 0 ==> final(answer).answer() == old(answer).answer(),
        line@.len() > 0 && old(answer).answer().len() == 0 ==> final(answer).answer() == line@,
        line@.len() > 0 && old(answer).answer().len() > 0 ==> final(answer).answer()
            == old(answer).answer() + "\n"@ + line@,
        final(answer).edited() == old(answer).edited(),
{
    law_answer_is_its_lines(old(answer).answer(), line@);
}

} // verus!
