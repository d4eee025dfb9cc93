//! One query from its queue: a session is found or made, the thread is named, and the
//! response is streamed.
use vstd::prelude::*;
use vstd::string::*;

use crate::text;

verus! {

/// What is shown while a session is made.
pub const CONNECTING_TEXT: &'static str = "⏳ Подключаю Gemini-сессию…";

/// What to do next about a query.
#[derive(Debug)]
pub enum JobStep {
    /// Send this notice.
    SendNotice(String),
    /// Find or make the session.
    Connect,
    /// Show this in the place of the notice, and do no more.
    Edit { message_id: i32, text: String },
    /// Send this, and do no more.
    Send(String),
    /// Stream the response, in the place of the notice where there is one.
    Stream { placeholder: Option<i32> },
}

/// What is said where no session can be had.
pub open spec fn failure_text(error: Seq<char>) -> Seq<char> {
    "❌ Не удалось запустить gemini-cli ACP сессию.\nПроверь `GEMINI_CLI_COMMAND` (или `GEMINI_CLI_PATH`) в конфиге.\nError: "@
        + error
}

/// A query that is being processed.
#[derive(Debug)]
pub struct QueryJob {
    placeholder: Option<i32>,
}

impl QueryJob {
    /// The notice that is shown, if any.
    pub closed spec fn notice(&self) -> Option<i32> {
        self.placeholder
    }

    /// A query that has just left its queue.
    pub fn new() -> (r: Self)
        ensures
            r.notice() is None,
    {
        QueryJob { placeholder: None }
    }

    /// Begin: a notice is shown where a session has to be made first.
    pub fn begin(&self, has_session: bool) -> (r: JobStep)
        ensures
            if has_session {
                r is Connect
            } else {
                r matches JobStep::SendNotice(t) && t@ == CONNECTING_TEXT@
            },
    {
        if has_session {
            JobStep::Connect
        } else {
            JobStep::SendNotice(CONNECTING_TEXT.to_owned())
        }
    }

    /// The notice was sent, as this message, or could not be.
    pub fn notice_sent(&mut self, message_id: Option<i32>) -> (r: JobStep)
        ensures
            final(self).notice() == message_id,
            r is Connect,
    {
        self.placeholder = message_id;
        JobStep::Connect
    }

    /// There is a session, or an error.
    pub fn connected(&self, failure: Option<&str>) -> (r: JobStep)
        ensures
            match text::optional(failure) {
                None => r == (JobStep::Stream { placeholder: self.notice() }),
                Some(e) => match self.notice() {
                    Some(id) => r matches JobStep::Edit { message_id, text } && message_id == id
                        && text@ == failure_text(e),
                    None => r matches JobStep::Send(t) && t@ == failure_text(e),
                },
            },
    {
        match failure {
            None => JobStep::Stream { placeholder: self.placeholder },
            Some(error) => {
                let mut t = "❌ Не удалось запустить gemini-cli ACP сессию.\nПроверь `GEMINI_CLI_COMMAND` (или `GEMINI_CLI_PATH`) в конфиге.\nError: ".to_owned();
                t.append(error);
                match self.placeholder {
                    Some(message_id) => JobStep::Edit { message_id, text: t },
                    None => JobStep::Send(t),
                }
            },
        }
    }
}

/// A failure to get a session is told of with the error at the end, in the place of the
/// notice where there is one.
pub proof fn law_failure_is_told_of(job: &QueryJob, failure: Option<&str>, r: JobStep)
    requires
        call_ensures(QueryJob::connected, (job, failure), r),
    ensures
        failure is None ==> r is Stream && r->placeholder == job.notice(),
        failure is Some && job.notice() is Some ==> r is Edit && r->message_id == job.notice()->0
            && r->text@
            == "❌ Не удалось запустить gemini-cli ACP сессию.\nПроверь `GEMINI_CLI_COMMAND` (или `GEMINI_CLI_PATH`) в конфиге.\nError: "@
            + failure->0@,
        failure is Some && job.notice() is None ==> r is Send && r->Send_0@
            == "❌ Не удалось запустить gemini-cli ACP сессию.\nПроверь `GEMINI_CLI_COMMAND` (или `GEMINI_CLI_PATH`) в конфиге.\nError: "@
            + failure->0@,
{
}

/// A notice is sent first where there is no session yet.
pub proof fn law_notice_is_sent_where_a_session_is_made(
    job: &QueryJob,
    has_session: bool,
    r: JobStep,
)
    requires
        call_ensures(QueryJob::begin, (job, has_session), r),
    ensures
        has_session ==> r is Connect,
        !has_session ==> r is SendNotice && r->SendNotice_0@ == "⏳ Подключаю Gemini-сессию…"@,
{
}

/// The notice that was sent is the one whose place the response takes.
pub proof fn law_notice_is_kept_in_mind(job: &mut QueryJob, message_id: Option<i32>, r: JobStep)
    requires
        call_ensures(QueryJob::notice_sent, (job, message_id), r),
    ensures
        final(job).notice() == message_id,
        r is Connect,
{
}

} // verus!
