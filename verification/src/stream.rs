//! A response that is shown while it arrives: what is done about each line, each tick
//! of the clock, and at the end.
use vstd::prelude::*;
use vstd::string::*;

use crate::attachments;
use crate::chunks;
use crate::config::DraftMode;
use crate::markdown;
use crate::paths;
use crate::progress;
use crate::progress::StreamEventPayload;
use crate::text;

verus! {

/// How often a draft is refreshed at most, in nanoseconds.
pub const UPDATE_INTERVAL: u128 = 500_000_000;

/// How often the chat is told that the bot is typing, in nanoseconds.
pub const TYPING_INTERVAL: u128 = 4_000_000_000;

/// How often the clock ticks while a response is waited for, in seconds.
pub const WAITING_TICK_SECS: u64 = 2;

/// How long a response may stay silent before it is given up, in nanoseconds.
pub const STALL_TIMEOUT: u128 = 1_800_000_000_000;

/// How many lines of the activity log are shown beside a finished response.
pub const PROGRESS_LINES: usize = 8;

/// What stands in the place of a response that has not begun.
pub const THINKING_TEXT: &'static str = "⏳ Думаю…";

/// A response as plain values.
#[verifier::ext_equal]
pub struct Shown {
    /// How much a draft shows of the work.
    pub mode: DraftMode,
    /// Whether there is a message to edit.
    pub placeholder: bool,
    /// The text so far.
    pub accumulated: Seq<char>,
    /// What the agent has been doing.
    pub log: Seq<Seq<char>>,
    /// When a draft was shown, the chat was told of typing, and a line came.
    pub last_update: nat,
    pub last_typing: nat,
    pub last_event: nat,
    /// The last piece of text.
    pub last_line: Seq<char>,
    /// How often the clock has ticked.
    pub phase: nat,
    /// The last draft.
    pub last_draft: Seq<char>,
    /// The unfinished line that may become a directive.
    pub tail: Seq<char>,
    /// The files that were sent.
    pub sent: Seq<Seq<char>>,
    pub cancelled: bool,
    pub stalled: bool,
}

/// A response that has not begun, at the time `now`.
pub open spec fn beginning(mode: DraftMode, placeholder: bool, now: nat) -> Shown {
    Shown {
        mode,
        placeholder,
        accumulated: Seq::empty(),
        log: Seq::empty(),
        last_update: now,
        last_typing: now,
        last_event: now,
        last_line: Seq::empty(),
        phase: 0,
        last_draft: Seq::empty(),
        tail: Seq::empty(),
        sent: Seq::empty(),
        cancelled: false,
        stalled: false,
    }
}

/// The time from `then` to `now`; none where the clock went back.
pub open spec fn elapsed(now: nat, then: nat) -> nat {
    if now >= then {
        (now - then) as nat
    } else {
        0
    }
}

/// Whether a piece of text is shown: not where it is empty or repeats the last one.
pub open spec fn is_news(s: Shown, clean: Seq<char>) -> bool {
    clean.len() > 0 && clean != s.last_line
}

/// The response after a chunk of output.
pub open spec fn after_chunk(s: Shown, chunk: Seq<char>) -> Shown {
    let found = attachments::found_after(s.tail, chunk);
    if is_news(s, found.clean) {
        Shown {
            tail: found.tail,
            last_line: found.clean,
            accumulated: s.accumulated + found.clean,
            ..s
        }
    } else {
        Shown { tail: found.tail, ..s }
    }
}

/// The response after a line of the text channel: an event, or output.
pub open spec fn after_line(
    s: Shown,
    line: Seq<char>,
    event: Option<StreamEventPayload>,
    now: nat,
) -> Shown {
    let s = Shown { last_event: now, ..s };
    match event {
        Some(event) => Shown { log: progress::log_after(s.log, event), ..s },
        None => after_chunk(s, line),
    }
}

/// Whether the response has come to nothing for too long.
pub open spec fn stalls(s: Shown, now: nat) -> bool {
    elapsed(now, s.last_event) >= STALL_TIMEOUT && text::is_blank(s.accumulated) && s.log.len() == 0
}

/// The number after `phase`, or 0 after the last one.
pub open spec fn next_phase(phase: nat) -> nat {
    if phase == usize::MAX {
        0
    } else {
        phase + 1
    }
}

/// The response after a tick of the clock.
pub open spec fn after_tick(s: Shown, now: nat) -> Shown {
    let stalled = stalls(s, now);
    Shown {
        phase: next_phase(s.phase),
        stalled: s.stalled || stalled,
        cancelled: s.cancelled || stalled,
        ..s
    }
}

/// The response after the unfinished line has been taken for a finished one.
pub open spec fn after_flush(s: Shown) -> Shown {
    if s.tail.len() == 0 {
        s
    } else {
        let found = attachments::found_after(Seq::empty(), s.tail.push('\n'));
        Shown { tail: Seq::empty(), accumulated: s.accumulated + found.clean, ..s }
    }
}

/// The files that the unfinished line asks for.
pub open spec fn flushed_hints(s: Shown) -> Seq<Seq<char>> {
    if s.tail.len() == 0 {
        Seq::empty()
    } else {
        attachments::found_after(Seq::empty(), s.tail.push('\n')).hints
    }
}

/// The draft that a response has now.
pub open spec fn draft_of(s: Shown) -> Seq<char> {
    progress::draft_text(s.accumulated, s.log, s.phase, s.mode)
}

/// The draft to show: none where there is no message to edit or it shows it already.
pub open spec fn new_draft(s: Shown) -> Option<Seq<char>> {
    if s.placeholder && draft_of(s) != s.last_draft {
        Some(draft_of(s))
    } else {
        None
    }
}

/// Whether a line may refresh the draft now: not before the interval has passed.
pub open spec fn may_refresh(s: Shown, now: nat) -> bool {
    elapsed(now, s.last_update) >= UPDATE_INTERVAL
}

/// The response after its draft has been refreshed.
pub open spec fn after_refresh(s: Shown, now: nat) -> Shown {
    match new_draft(s) {
        Some(draft) => Shown { last_draft: draft, last_update: now, ..s },
        None => Shown { last_update: now, ..s },
    }
}

/// Whether a file has been sent.
pub open spec fn was_sent(s: Shown, path: Seq<char>) -> bool {
    exists|i: int| 0 <= i < s.sent.len() && paths::same(#[trigger] s.sent[i], path)
}

/// What follows a line.
#[derive(Debug)]
pub struct LineStep {
    /// The paths of the files to send, in order.
    pub hints: Vec<String>,
    /// Whether to tell the chat of typing, if that is due.
    pub typing: bool,
    /// Whether to refresh the draft, if that is due.
    pub refresh: bool,
}

/// What follows a tick of the clock.
#[derive(Debug, Clone, Copy, PartialEq, Eq, Structural)]
pub enum TickStep {
    /// The response is given up.
    Stalled,
    /// Tell the chat of typing, if that is due, and refresh the draft, if so.
    Waiting { refresh: bool },
}

/// How a response ends.
#[derive(Debug)]
pub enum Ending {
    /// There was no text: this is shown in its place.
    Empty(String),
    /// What the agent did is shown in the place of the draft, the text after it.
    WithProgress {
        /// What the agent did, as one message.
        edited: String,
        /// The same as messages of their own.
        sent: Vec<String>,
        /// The text, formatted.
        html: Vec<String>,
    },
    /// The text is shown in the place of the draft.
    Answer {
        /// The text, formatted.
        html: Vec<String>,
        /// The text, should the format be refused.
        plain: Vec<String>,
    },
}

/// What stands in the place of a response without text.
pub open spec fn empty_text(s: Shown) -> Seq<char> {
    if s.stalled {
        "⏱️ Зависло по таймауту ожидания, остановлено"@
    } else if s.cancelled {
        "⬛ Генерация остановлена"@
    } else if s.log.len() > 0 {
        "🧠 Ход работы получен, но текстовый ответ не пришел."@
    } else {
        "_(нет ответа)_"@
    }
}

/// The text of a response, formatted.
pub open spec fn html_of(s: Shown) -> Seq<char> {
    let html = markdown::markdown_html(s.accumulated);
    if s.cancelled {
        html + "\n\n⬛ <i>Генерация остановлена</i>"@
    } else {
        html
    }
}

/// The text of a response, not formatted.
pub open spec fn plain_of(s: Shown) -> Seq<char> {
    if s.stalled {
        s.accumulated + "\n\n⏱️ <i>Зависло по таймауту ожидания, остановлено</i>"@
    } else if s.cancelled {
        s.accumulated + "\n\n⬛ Генерация остановлена"@
    } else {
        s.accumulated
    }
}

/// Whether `e` is how a response ends.
pub open spec fn ends_so(e: Ending, s: Shown) -> bool {
    if s.accumulated.len() == 0 {
        e matches Ending::Empty(t) && t@ == empty_text(s)
    } else if s.mode == DraftMode::Verbose && s.log.len() > 0 {
        let progress = progress::progress_message(s.log, PROGRESS_LINES as nat);
        e matches Ending::WithProgress { edited, sent, html } && edited@ == chunks::shortened(
            progress,
            chunks::MAX_MESSAGE_CHARS as int,
        ) && text::strings(sent@) == chunks::chunks_of(progress) && text::strings(html@)
            == chunks::chunks_of(html_of(s))
    } else {
        e matches Ending::Answer { html, plain } && text::strings(html@) == chunks::chunks_of(
            html_of(s),
        ) && text::strings(plain@) == chunks::chunks_of(plain_of(s))
    }
}

/// How a part of a formatted response is delivered.
#[derive(Debug, Clone, Copy, PartialEq, Eq, Structural)]
pub enum Delivery {
    /// Edit the draft; should the format be refused, deliver the plain text instead of
    /// all parts.
    EditOrPlain,
    /// Send it.
    Send,
    /// Send it; should the format be refused, send it without.
    SendOrUnformatted,
}

/// How the part at a place is delivered.
pub open spec fn delivery_at(index: nat, placeholder: bool) -> Delivery {
    if index > 0 {
        Delivery::SendOrUnformatted
    } else if placeholder {
        Delivery::EditOrPlain
    } else {
        Delivery::Send
    }
}

/// How the part of a formatted response at a place is delivered.
pub fn delivery(index: usize, placeholder: bool) -> (r: Delivery)
    ensures
        r == delivery_at(index as nat, placeholder),
{
    if index > 0 {
        Delivery::SendOrUnformatted
    } else if placeholder {
        Delivery::EditOrPlain
    } else {
        Delivery::Send
    }
}

/// A response that is shown while it arrives. Times are in nanoseconds since any fixed
/// moment.
#[derive(Debug)]
pub struct ResponseStream {
    draft_mode: DraftMode,
    placeholder: bool,
    accumulated: String,
    activity_log: Vec<String>,
    last_update: u128,
    last_typing: u128,
    last_stream_event: u128,
    last_line: String,
    waiting_phase: usize,
    last_draft: String,
    attachment_tail: String,
    sent_attachments: Vec<String>,
    was_cancelled: bool,
    was_stalled: bool,
}

impl View for ResponseStream {
    type V = Shown;

    closed spec fn view(&self) -> Shown {
        Shown {
            mode: self.draft_mode,
            placeholder: self.placeholder,
            accumulated: self.accumulated@,
            log: text::strings(self.activity_log@),
            last_update: self.last_update as nat,
            last_typing: self.last_typing as nat,
            last_event: self.last_stream_event as nat,
            last_line: self.last_line@,
            phase: self.waiting_phase as nat,
            last_draft: self.last_draft@,
            tail: self.attachment_tail@,
            sent: text::strings(self.sent_attachments@),
            cancelled: self.was_cancelled,
            stalled: self.was_stalled,
        }
    }
}

/// Whether an interval has passed from `then` to `now`.
fn passed(now: u128, then: u128, interval: u128) -> (r: bool)
    ensures
        r == (elapsed(now as nat, then as nat) >= interval),
{
    if now >= then {
        now - then >= interval
    } else {
        0 >= interval
    }
}

/// Whether a text holds nothing but white space.
fn is_blank_text(s: &str) -> (r: bool)
    ensures
        r == text::is_blank(s@),
{
    let v = text::chars_of(s);
    text::blank(v.as_slice())
}

/// Whether a text is empty.
fn is_empty_text(s: &str) -> (r: bool)
    ensures
        r == (s@.len() == 0),
{
    let v = text::chars_of(s);
    v.len() == 0
}

impl ResponseStream {
    /// A response that has not begun.
    pub fn new(draft_mode: DraftMode, placeholder: bool, now: u128) -> (r: Self)
        ensures
            r@ == beginning(draft_mode, placeholder, now as nat),
    {
        let r = ResponseStream {
            draft_mode,
            placeholder,
            accumulated: String::new(),
            activity_log: Vec::new(),
            last_update: now,
            last_typing: now,
            last_stream_event: now,
            last_line: String::new(),
            waiting_phase: 0,
            last_draft: String::new(),
            attachment_tail: String::new(),
            sent_attachments: Vec::new(),
            was_cancelled: false,
            was_stalled: false,
        };
        assert(r@ =~= beginning(draft_mode, placeholder, now as nat));
        r
    }

    /// A line of the text channel has come: an event, where it carries one, or else
    /// output.
    pub fn on_line(&mut self, line: &str, event: Option<StreamEventPayload>, now: u128) -> (r:
        LineStep)
        ensures
            final(self)@ == after_line(old(self)@, line@, event, now as nat),
            text::strings(r.hints@) == (if event is Some {
                Seq::empty()
            } else {
                attachments::found_after(old(self)@.tail, line@).hints
            }),
            r.typing == (event is None && is_news(
                old(self)@,
                attachments::found_after(old(self)@.tail, line@).clean,
            )),
            r.refresh == (event is Some || r.typing),
    {
        self.last_stream_event = now;
        match event {
            Some(event) => {
                progress::apply_stream_event(&mut self.activity_log, event);
                let hints: Vec<String> = Vec::new();
                assert(text::strings(hints@) =~= Seq::empty());
                LineStep { hints, typing: false, refresh: true }
            },
            None => {
                let found = attachments::extract_text_and_attachments(
                    self.attachment_tail.as_str(),
                    line,
                );
                self.attachment_tail = found.tail;
                let clean = found.clean_text;
                let news = !is_empty_text(clean.as_str()) && !text::same_text(
                    clean.as_str(),
                    self.last_line.as_str(),
                );
                if news {
                    self.accumulated.append(clean.as_str());
                    self.last_line = clean;
                }
                LineStep { hints: found.hints, typing: news, refresh: news }
            },
        }
    }

    /// Whether to send a file: not where it was sent before. It is taken for sent.
    pub fn send_once(&mut self, path: &str) -> (r: bool)
        ensures
            r == !was_sent(old(self)@, path@),
            final(self)@ == (if r {
                Shown { sent: old(self)@.sent.push(path@), ..old(self)@ }
            } else {
                old(self)@
            }),
    {
        let n: usize = self.sent_attachments.len();
        let mut i: usize = 0;
        while i < n
            invariant
                i <= n,
                n == self.sent_attachments@.len(),
                self@ == old(self)@,
                *self == *old(self),
                forall|k: int| 0 <= k < i ==> !paths::same(#[trigger] self@.sent[k], path@),
            decreases n - i,
        {
            if paths::same_path(self.sent_attachments[i].as_str(), path) {
                assert(paths::same(self@.sent[i as int], path@));
                return false;
            }
            i += 1;
        }
        self.sent_attachments.push(path.to_owned());
        assert(self@.sent =~= old(self)@.sent.push(path@));
        true
    }

    /// Whether it is time to tell the chat of typing.
    pub fn typing_due(&self, now: u128) -> (r: bool)
        ensures
            r == (elapsed(now as nat, self@.last_typing) >= TYPING_INTERVAL),
    {
        passed(now, self.last_typing, TYPING_INTERVAL)
    }

    /// The chat has been told of typing.
    pub fn typing_shown(&mut self, now: u128)
        ensures
            final(self)@ == (Shown { last_typing: now as nat, ..old(self)@ }),
    {
        self.last_typing = now;
    }

    /// A line asks for a refresh: the draft to show, if a refresh is due and there is a
    /// new one. It is taken for shown.
    pub fn refresh_on_line(&mut self, now: u128) -> (r: Option<String>)
        ensures
            text::text_of(r) == (if may_refresh(old(self)@, now as nat) {
                new_draft(old(self)@)
            } else {
                None
            }),
            final(self)@ == (if may_refresh(old(self)@, now as nat) {
                after_refresh(old(self)@, now as nat)
            } else {
                old(self)@
            }),
    {
        if passed(now, self.last_update, UPDATE_INTERVAL) {
            self.refresh_on_tick(now)
        } else {
            None
        }
    }

    /// A tick asks for a refresh: the draft to show, if there is a new one. It is taken
    /// for shown.
    pub fn refresh_on_tick(&mut self, now: u128) -> (r: Option<String>)
        ensures
            text::text_of(r) == new_draft(old(self)@),
            final(self)@ == after_refresh(old(self)@, now as nat),
    {
        let r = self.render_placeholder_draft();
        self.last_update = now;
        r
    }

    /// The refresh has come to its end.
    pub fn update_shown(&mut self, now: u128)
        ensures
            final(self)@ == (Shown { last_update: now as nat, ..old(self)@ }),
    {
        self.last_update = now;
    }

    /// The draft to show, if there is a new one. It is taken for shown.
    fn render_placeholder_draft(&mut self) -> (r: Option<String>)
        ensures
            text::text_of(r) == new_draft(old(self)@),
            final(self)@ == (match new_draft(old(self)@) {
                Some(draft) => Shown { last_draft: draft, ..old(self)@ },
                None => old(self)@,
            }),
    {
        if !self.placeholder {
            return None;
        }
        let draft = progress::build_draft_text(
            self.accumulated.as_str(),
            &self.activity_log,
            self.waiting_phase,
            self.draft_mode,
        );
        if text::same_text(draft.as_str(), self.last_draft.as_str()) {
            return None;
        }
        self.last_draft = draft.clone();
        Some(draft)
    }

    /// The clock has ticked.
    pub fn on_tick(&mut self, now: u128) -> (r: TickStep)
        ensures
            final(self)@ == after_tick(old(self)@, now as nat),
            r == (if stalls(old(self)@, now as nat) {
                TickStep::Stalled
            } else {
                TickStep::Waiting {
                    refresh: text::is_blank(old(self)@.accumulated) || old(self)@.log.len() > 0,
                }
            }),
    {
        self.waiting_phase = if self.waiting_phase == usize::MAX { 0 } else { self.waiting_phase + 1
        };
        let blank = is_blank_text(self.accumulated.as_str());
        let idle = self.activity_log.len() == 0;
        assert(text::strings(self.activity_log@).len() == self.activity_log@.len());
        if passed(now, self.last_stream_event, STALL_TIMEOUT) && blank && idle {
            self.was_stalled = true;
            self.was_cancelled = true;
            TickStep::Stalled
        } else {
            TickStep::Waiting { refresh: blank || !idle }
        }
    }

    /// The user wants to stop.
    pub fn on_cancel(&mut self)
        ensures
            final(self)@ == (Shown { cancelled: true, ..old(self)@ }),
    {
        self.was_cancelled = true;
    }

    /// No more lines will come: an unfinished line is taken for a finished one.
    /// Returns the paths of the files to send.
    pub fn flush(&mut self) -> (r: Vec<String>)
        ensures
            final(self)@ == after_flush(old(self)@),
            text::strings(r@) == flushed_hints(old(self)@),
    {
        if is_empty_text(self.attachment_tail.as_str()) {
            let hints: Vec<String> = Vec::new();
            assert(text::strings(hints@) =~= Seq::empty());
            return hints;
        }
        let mut forced = self.attachment_tail.clone();
        forced.push('\n');
        self.attachment_tail = String::new();
        let found = attachments::extract_text_and_attachments("", forced.as_str());
        proof {
            reveal_strlit("");
            assert(""@ =~= Seq::empty());
        }
        self.accumulated.append(found.clean_text.as_str());
        found.hints
    }

    /// How the response ends.
    pub fn ending(&self) -> (r: Ending)
        ensures
            ends_so(r, self@),
    {
        assert(self@.log.len() == self.activity_log@.len());
        if is_empty_text(self.accumulated.as_str()) {
            let t = if self.was_stalled {
                "⏱️ Зависло по таймауту ожидания, остановлено".to_owned()
            } else if self.was_cancelled {
                "⬛ Генерация остановлена".to_owned()
            } else if self.activity_log.len() > 0 {
                "🧠 Ход работы получен, но текстовый ответ не пришел.".to_owned()
            } else {
                "_(нет ответа)_".to_owned()
            };
            return Ending::Empty(t);
        }
        let mut formatted = markdown::markdown_to_telegram_html(self.accumulated.as_str());
        if self.was_cancelled {
            formatted.append("\n\n⬛ <i>Генерация остановлена</i>");
        }
        let html = chunks::split_text(formatted.as_str());
        let verbose = match self.draft_mode {
            DraftMode::Verbose => true,
            DraftMode::Compact => false,
        };
        if verbose && self.activity_log.len() > 0 {
            let progress = progress::format_progress_message(&self.activity_log, PROGRESS_LINES);
            let edited = chunks::truncate_text(progress.as_str());
            let sent = chunks::split_text(progress.as_str());
            Ending::WithProgress { edited, sent, html }
        } else {
            let mut whole = self.accumulated.clone();
            if self.was_stalled {
                whole.append("\n\n⏱️ <i>Зависло по таймауту ожидания, остановлено</i>");
            } else if self.was_cancelled {
                whole.append("\n\n⬛ Генерация остановлена");
            }
            let plain = chunks::split_text(whole.as_str());
            Ending::Answer { html, plain }
        }
    }
}

/// Events tell of the work and never change the text, nor what is shown of the next
/// piece of it.
pub proof fn law_events_stay_out_of_the_text(
    s: Shown,
    line: Seq<char>,
    event: StreamEventPayload,
    now: nat,
)
    ensures
        after_line(s, line, Some(event), now).accumulated == s.accumulated,
        after_line(s, line, Some(event), now).tail == s.tail,
        after_line(s, line, Some(event), now).last_line == s.last_line,
{
}

/// The text only ever grows at its end, and output leaves the log alone.
pub proof fn law_text_grows_at_its_end(
    s: Shown,
    line: Seq<char>,
    event: Option<StreamEventPayload>,
    now: nat,
)
    ensures
        ({
            let t = after_line(s, line, event, now);
            &&& t.accumulated.len() >= s.accumulated.len()
            &&& t.accumulated.take(s.accumulated.len() as int) == s.accumulated
            &&& event is None ==> t.log == s.log
        }),
        after_tick(s, now).accumulated == s.accumulated,
        after_flush(s).accumulated.take(s.accumulated.len() as int) == s.accumulated,
{
    let t = after_line(s, line, event, now);
    assert(t.accumulated.take(s.accumulated.len() as int) =~= s.accumulated);
    assert(after_flush(s).accumulated.take(s.accumulated.len() as int) =~= s.accumulated);
}

/// A piece of text that comes twice in a row is shown once.
pub proof fn law_repeated_piece_is_shown_once(s: Shown, chunk: Seq<char>, now: nat)
    requires
        s.tail.len() == 0,
        attachments::found_after(Seq::empty(), chunk).tail.len() == 0,
    ensures
        ({
            let once = after_line(s, chunk, None, now);
            after_line(once, chunk, None, now).accumulated == once.accumulated
        }),
{
    assert(s.tail =~= Seq::empty());
    assert(after_line(s, chunk, None, now).tail =~= Seq::empty());
}

/// A draft that is shown is not shown again as long as nothing changes.
pub proof fn law_draft_is_shown_once(s: Shown)
    requires
        new_draft(s) is Some,
    ensures
        new_draft(Shown { last_draft: new_draft(s).unwrap(), ..s }) is None,
{
}

/// After the chat has been told of typing, that is not due until the interval has
/// passed.
pub proof fn law_typing_keeps_its_distance(s: Shown, now: nat, later: nat)
    requires
        now <= later,
    ensures
        elapsed(later, Shown { last_typing: now, ..s }.last_typing) >= TYPING_INTERVAL <==> later
            >= now + TYPING_INTERVAL,
{
}

/// What happens to a response on its way.
pub enum StreamStep {
    Line { line: Seq<char>, event: Option<StreamEventPayload>, now: nat },
    RefreshOnLine { now: nat },
    Tick { now: nat },
    RefreshOnTick { now: nat },
    UpdateShown { now: nat },
    TypingShown { now: nat },
    SendOnce { path: Seq<char> },
    Cancel,
    Flush,
}

/// The response after one step.
pub open spec fn after_step(s: Shown, step: StreamStep) -> Shown {
    match step {
        StreamStep::Line { line, event, now } => after_line(s, line, event, now),
        StreamStep::RefreshOnLine { now } => if may_refresh(s, now) {
            after_refresh(s, now)
        } else {
            s
        },
        StreamStep::Tick { now } => after_tick(s, now),
        StreamStep::RefreshOnTick { now } => after_refresh(s, now),
        StreamStep::UpdateShown { now } => Shown { last_update: now, ..s },
        StreamStep::TypingShown { now } => Shown { last_typing: now, ..s },
        StreamStep::SendOnce { path } => if was_sent(s, path) {
            s
        } else {
            Shown { sent: s.sent.push(path), ..s }
        },
        StreamStep::Cancel => Shown { cancelled: true, ..s },
        StreamStep::Flush => after_flush(s),
    }
}

/// The response after a run of steps.
pub open spec fn after_steps(s: Shown, steps: Seq<StreamStep>) -> Shown
    decreases steps.len(),
{
    if steps.len() == 0 {
        s
    } else {
        after_step(after_steps(s, steps.drop_last()), steps.last())
    }
}

/// Whether a step shows a draft.
pub open spec fn shows_draft(s: Shown, step: StreamStep) -> bool {
    match step {
        StreamStep::RefreshOnLine { now } => may_refresh(s, now) && new_draft(s) is Some,
        StreamStep::RefreshOnTick { .. } => new_draft(s) is Some,
        _ => false,
    }
}

/// When a step happens, where its time counts.
pub open spec fn time_of(step: StreamStep) -> Option<nat> {
    match step {
        StreamStep::Line { now, .. } => Some(now),
        StreamStep::RefreshOnLine { now } => Some(now),
        StreamStep::Tick { now } => Some(now),
        StreamStep::RefreshOnTick { now } => Some(now),
        StreamStep::UpdateShown { now } => Some(now),
        StreamStep::TypingShown { now } => Some(now),
        _ => None,
    }
}

/// The time that a run has come to.
pub open spec fn clock_after(start: nat, steps: Seq<StreamStep>) -> nat
    decreases steps.len(),
{
    if steps.len() == 0 {
        start
    } else {
        match time_of(steps.last()) {
            Some(now) => now,
            None => clock_after(start, steps.drop_last()),
        }
    }
}

/// Whether the clock never goes back in a run.
pub open spec fn clock_goes_on(start: nat, steps: Seq<StreamStep>) -> bool
    decreases steps.len(),
{
    steps.len() == 0 || {
        &&& clock_goes_on(start, steps.drop_last())
        &&& time_of(steps.last()) matches Some(now) ==> clock_after(start, steps.drop_last()) <= now
    }
}

/// When a run last showed a draft, if it did.
pub open spec fn last_draft_at(s: Shown, steps: Seq<StreamStep>) -> Option<nat>
    decreases steps.len(),
{
    if steps.len() == 0 {
        None
    } else if shows_draft(after_steps(s, steps.drop_last()), steps.last()) {
        time_of(steps.last())
    } else {
        last_draft_at(s, steps.drop_last())
    }
}

/// A run without the lines that carry events.
pub open spec fn without_events(steps: Seq<StreamStep>) -> Seq<StreamStep>
    decreases steps.len(),
{
    if steps.len() == 0 {
        Seq::empty()
    } else {
        let before = without_events(steps.drop_last());
        match steps.last() {
            StreamStep::Line { event: Some(_), .. } => before,
            step => before.push(step),
        }
    }
}

/// Over any run, the text is what it would be had no event come: so are the unfinished
/// line and the piece that is not to be repeated.
pub proof fn law_text_is_the_same_without_events(s: Shown, steps: Seq<StreamStep>)
    ensures
        ({
            let a = after_steps(s, steps);
            let b = after_steps(s, without_events(steps));
            &&& a.accumulated == b.accumulated
            &&& a.tail == b.tail
            &&& a.last_line == b.last_line
        }),
    decreases steps.len(),
{
    if steps.len() > 0 {
        let init = steps.drop_last();
        law_text_is_the_same_without_events(s, init);
        let kept = without_events(init);
        assert(kept.push(steps.last()).drop_last() =~= kept);
    }
}

proof fn lemma_last_update(s: Shown, steps: Seq<StreamStep>)
    requires
        clock_goes_on(s.last_update, steps),
    ensures
        s.last_update <= after_steps(s, steps).last_update <= clock_after(s.last_update, steps),
        last_draft_at(s, steps) matches Some(t) ==> t <= after_steps(s, steps).last_update,
    decreases steps.len(),
{
    if steps.len() > 0 {
        lemma_last_update(s, steps.drop_last());
    }
}

/// Over any run in which the clock never goes back, a line shows a draft no earlier
/// than the interval after the response began, and no earlier than the interval after
/// any draft that was shown before.
pub proof fn law_drafts_keep_their_distance(
    mode: DraftMode,
    placeholder: bool,
    start: nat,
    steps: Seq<StreamStep>,
    now: nat,
)
    requires
        clock_goes_on(start, steps),
        clock_after(start, steps) <= now,
        shows_draft(
            after_steps(beginning(mode, placeholder, start), steps),
            StreamStep::RefreshOnLine { now },
        ),
    ensures
        now >= start + UPDATE_INTERVAL,
        last_draft_at(beginning(mode, placeholder, start), steps) matches Some(t) ==> now >= t
            + UPDATE_INTERVAL,
{
    lemma_last_update(beginning(mode, placeholder, start), steps);
}

/// A file that is taken for sent is not sent again.
pub proof fn law_file_is_sent_once(s: Shown, path: Seq<char>)
    ensures
        was_sent(Shown { sent: s.sent.push(path), ..s }, path),
{
    let t = Shown { sent: s.sent.push(path), ..s };
    assert(paths::same(t.sent[s.sent.len() as int], path));
}

/// A response is given up only when nothing has come of it: there is no text and no
/// sign of work.
pub proof fn law_working_agent_is_not_given_up(s: Shown, now: nat)
    requires
        !s.stalled,
        !text::is_blank(s.accumulated) || s.log.len() > 0 || elapsed(now, s.last_event)
            < STALL_TIMEOUT,
    ensures
        !after_tick(s, now).stalled,
        after_tick(s, now).cancelled == s.cancelled,
{
}

/// Whether every message fits the limit.
pub open spec fn all_fit(messages: Seq<Seq<char>>) -> bool {
    forall|i: int|
        0 <= i < messages.len() ==> #[trigger] messages[i].len() <= chunks::MAX_MESSAGE_CHARS
}

proof fn lemma_chunks_all_fit(s: Seq<char>)
    ensures
        all_fit(chunks::chunks_of(s)),
        chunks::chunks_of(s).len() > 0,
{
    chunks::law_there_is_a_chunk(s);
    assert forall|i: int| 0 <= i < chunks::chunks_of(s).len() implies #[trigger] chunks::chunks_of(
        s,
    )[i].len() <= chunks::MAX_MESSAGE_CHARS by {
        chunks::law_chunks_fit(s, i);
    }
}

/// Every message of an ending fits the limit, and text is shown in at least one.
pub proof fn law_ending_fits(e: Ending, s: Shown)
    requires
        ends_so(e, s),
    ensures
        match e {
            Ending::Empty(_) => true,
            Ending::WithProgress { edited, sent, html } => {
                &&& edited@.len() <= chunks::MAX_MESSAGE_CHARS
                &&& all_fit(text::strings(sent@))
                &&& all_fit(text::strings(html@))
                &&& html@.len() > 0
            },
            Ending::Answer { html, plain } => {
                &&& all_fit(text::strings(html@))
                &&& all_fit(text::strings(plain@))
                &&& html@.len() > 0
                &&& plain@.len() > 0
            },
        },
{
    let progress = progress::progress_message(s.log, PROGRESS_LINES as nat);
    chunks::law_shortened(progress, chunks::MAX_MESSAGE_CHARS as int);
    lemma_chunks_all_fit(progress);
    lemma_chunks_all_fit(html_of(s));
    lemma_chunks_all_fit(plain_of(s));
    match e {
        Ending::Answer { html, plain } => {
            assert(text::strings(html@).len() == html@.len());
            assert(text::strings(plain@).len() == plain@.len());
        },
        Ending::WithProgress { edited, sent, html } => {
            assert(text::strings(html@).len() == html@.len());
        },
        _ => {},
    }
}

/// Nothing of a response is lost: its messages together are the whole of it.
pub proof fn law_ending_is_whole(e: Ending, s: Shown)
    requires
        ends_so(e, s),
    ensures
        e matches Ending::Answer { html, plain } ==> chunks::concat(text::strings(html@)) == html_of(
            s,
        ) && chunks::concat(text::strings(plain@)) == plain_of(s),
        e matches Ending::WithProgress { edited, sent, html } ==> chunks::concat(
            text::strings(html@),
        ) == html_of(s),
{
    chunks::law_chunks_rejoin(html_of(s));
    chunks::law_chunks_rejoin(plain_of(s));
}

/// A response without text says why: it was given up, stopped, or nothing came.
pub proof fn law_empty_response_says_why(e: Ending, s: Shown)
    requires
        s.accumulated.len() == 0,
        ends_so(e, s),
    ensures
        e matches Ending::Empty(t) && t@ == empty_text(s),
        s.stalled ==> empty_text(s) == "⏱️ Зависло по таймауту ожидания, остановлено"@,
        !s.stalled && s.cancelled ==> empty_text(s) == "⬛ Генерация остановлена"@,
{
}

/// A response that has not begun has no text, no log and nothing sent, and all its times
/// are those of its beginning.
pub proof fn law_response_begins_empty(
    mode: DraftMode,
    placeholder: bool,
    now: u128,
    r: ResponseStream,
)
    requires
        call_ensures(ResponseStream::new, (mode, placeholder, now), r),
    ensures
        r@.mode == mode,
        r@.placeholder == placeholder,
        r@.accumulated.len() == 0,
        r@.log.len() == 0,
        r@.sent.len() == 0,
        r@.tail.len() == 0,
        r@.last_line.len() == 0,
        r@.last_draft.len() == 0,
        r@.phase == 0,
        r@.last_update == now,
        r@.last_typing == now,
        r@.last_event == now,
        !r@.cancelled,
        !r@.stalled,
{
}

/// What a line of output shows is added to the text, unless it is empty or repeats the piece
/// before it; what is held back waits for the next line. Nothing else changes but the time.
pub proof fn law_output_is_added_to_the_text(
    s: Shown,
    tail: &str,
    line: &str,
    found: attachments::Extraction,
    now: nat,
)
    requires
        call_ensures(attachments::extract_text_and_attachments, (tail, line), found),
        tail@ == s.tail,
    ensures
        ({
            let t = after_line(s, line@, None, now);
            let clean = found.clean_text@;
            let news = clean.len() > 0 && clean != s.last_line;
            &&& news ==> t.accumulated == s.accumulated + clean && t.last_line == clean
            &&& !news ==> t.accumulated == s.accumulated && t.last_line == s.last_line
            &&& t.tail == found.tail@
            &&& t.last_event == now
            &&& t.log == s.log && t.sent == s.sent && t.phase == s.phase && t.mode == s.mode
            &&& t.placeholder == s.placeholder && t.last_draft == s.last_draft
            &&& t.last_update == s.last_update && t.last_typing == s.last_typing
            &&& t.cancelled == s.cancelled && t.stalled == s.stalled
        }),
{
}

/// A line of output that asks for no file is added to the text as it is, and so is a piece
/// of a line that cannot become a directive.
pub proof fn law_output_is_kept_as_it_is(
    s: Shown,
    tail: &str,
    chunk: &str,
    found: attachments::Extraction,
    line: Seq<char>,
    now: nat,
)
    requires
        call_ensures(attachments::extract_text_and_attachments, (tail, chunk), found),
        tail@ == s.tail,
        !line.contains('\n'),
        line.len() > 0 && line.last() != '\r',
    ensures
        tail@ + chunk@ == line + seq!['\n'] && attachments::hint_of(line) is None && s.last_line
            != line + seq!['\n', '\n'] ==> after_line(s, chunk@, None, now).accumulated
            == s.accumulated + (line + seq!['\n', '\n']),
        tail@ + chunk@ == line && !attachments::may_become_directive(line) && s.last_line != line
            ==> after_line(s, chunk@, None, now).accumulated == s.accumulated + line,
        tail@ + chunk@ == line && attachments::may_become_directive(line) ==> after_line(
            s,
            chunk@,
            None,
            now,
        ).accumulated == s.accumulated && after_line(s, chunk@, None, now).tail == line,
{
    if tail@ + chunk@ == line + seq!['\n'] {
        attachments::law_one_complete_line(tail, chunk, found, line);
    }
    if tail@ + chunk@ == line {
        attachments::law_unfinished_line_is_shown_or_kept(tail, chunk, found);
    }
}

/// An event changes the log and the time, and nothing else.
pub proof fn law_event_changes_the_log_alone(
    s: Shown,
    line: Seq<char>,
    event: StreamEventPayload,
    now: nat,
)
    ensures
        after_line(s, line, Some(event), now) == (Shown {
            log: progress::log_after(s.log, event),
            last_event: now,
            ..s
        }),
{
}

/// A line that is unfinished in the end is taken for a finished one: what it shows is added
/// to the text, and what it asks for is sent.
pub proof fn law_unfinished_line_is_finished_in_the_end(
    s: Shown,
    nothing: &str,
    line: &str,
    found: attachments::Extraction,
)
    requires
        call_ensures(attachments::extract_text_and_attachments, (nothing, line), found),
        nothing@.len() == 0,
        line@ == s.tail + seq!['\n'],
    ensures
        s.tail.len() == 0 ==> after_flush(s) == s && flushed_hints(s).len() == 0,
        s.tail.len() > 0 ==> after_flush(s) == (Shown {
            tail: Seq::empty(),
            accumulated: s.accumulated + found.clean_text@,
            ..s
        }) && flushed_hints(s) == text::strings(found.hints@),
{
    assert(nothing@ =~= Seq::empty());
    assert(s.tail.push('\n') =~= line@);
}

/// A draft is shown where there is a message to edit and the draft has changed; a line
/// shows it half a second after the last one at the earliest.
pub proof fn law_changed_draft_is_shown(
    s: Shown,
    accumulated: &str,
    log: &Vec<String>,
    phase: usize,
    draft: String,
    now: nat,
)
    requires
        call_ensures(progress::build_draft_text, (accumulated, log, phase, s.mode), draft),
        accumulated@ == s.accumulated,
        text::strings(log@) == s.log,
        phase == s.phase,
    ensures
        new_draft(s) is Some <==> s.placeholder && draft@ != s.last_draft,
        new_draft(s) is Some ==> new_draft(s)->0 == draft@,
        may_refresh(s, now) <==> now >= s.last_update + 500_000_000,
        after_refresh(s, now).last_update == now,
        after_refresh(s, now).last_draft == (if s.placeholder { draft@ } else { s.last_draft }),
        after_refresh(s, now).accumulated == s.accumulated,
        after_refresh(s, now).log == s.log,
        after_refresh(s, now).tail == s.tail,
        after_refresh(s, now).last_line == s.last_line,
{
}

/// A response is given up after half an hour of silence with nothing to show for it, and
/// only then; every tick moves the phase on.
pub proof fn law_silent_response_is_given_up(s: Shown, now: nat)
    ensures
        ({
            let t = after_tick(s, now);
            let silent = now >= s.last_event + 1_800_000_000_000 && text::is_blank(s.accumulated)
                && s.log.len() == 0;
            &&& silent ==> t.stalled && t.cancelled
            &&& !silent ==> t.stalled == s.stalled && t.cancelled == s.cancelled
            &&& s.phase < usize::MAX ==> t.phase == s.phase + 1
            &&& s.phase == usize::MAX ==> t.phase == 0
            &&& t.accumulated == s.accumulated && t.log == s.log && t.tail == s.tail
            &&& t.last_line == s.last_line && t.sent == s.sent && t.last_draft == s.last_draft
            &&& t.last_event == s.last_event && t.last_update == s.last_update
        }),
{
}

/// The chat is told of typing every four seconds at most.
pub proof fn law_typing_is_told_every_four_seconds(stream: &ResponseStream, now: u128, r: bool)
    requires
        call_ensures(ResponseStream::typing_due, (stream, now), r),
    ensures
        r <==> now >= stream@.last_typing + 4_000_000_000,
{
}

/// A file was sent where one with the same path was, and in no other case.
pub proof fn law_file_was_sent_if_it_is_among_the_sent(s: Shown, sent: Seq<char>, path: Seq<char>)
    ensures
        s.sent.len() == 0 ==> !was_sent(s, path),
        was_sent(Shown { sent: s.sent.push(sent), ..s }, path) <==> was_sent(s, path)
            || paths::same(sent, path),
{
    let t = Shown { sent: s.sent.push(sent), ..s };
    if was_sent(s, path) {
        let i = choose|i: int| 0 <= i < s.sent.len() && paths::same(#[trigger] s.sent[i], path);
        assert(paths::same(t.sent[i], path));
    }
    if paths::same(sent, path) {
        assert(paths::same(t.sent[s.sent.len() as int], path));
    }
    if was_sent(t, path) {
        let i = choose|i: int| 0 <= i < t.sent.len() && paths::same(#[trigger] t.sent[i], path);
        if i < s.sent.len() {
            assert(paths::same(s.sent[i], path));
        }
    }
}

/// A response with text ends with the whole of it, formatted, in one message or several; a
/// response that was stopped says so at its end.
pub proof fn law_response_is_delivered_whole(
    stream: &ResponseStream,
    e: Ending,
    text: &str,
    html: String,
)
    requires
        call_ensures(ResponseStream::ending, (stream,), e),
        call_ensures(markdown::markdown_to_telegram_html, (text,), html),
        text@ == stream@.accumulated,
        stream@.accumulated.len() > 0,
    ensures
        ({
            let s = stream@;
            let working = s.mode == DraftMode::Verbose && s.log.len() > 0;
            let parts = if working { e->WithProgress_html@ } else { e->Answer_html@ };
            let whole = if s.cancelled {
                html@ + "\n\n⬛ <i>Генерация остановлена</i>"@
            } else {
                html@
            };
            &&& working ==> e is WithProgress
            &&& !working ==> e is Answer
            &&& chunks::concat(text::strings(parts)) == whole
            &&& whole.len() <= 4096 ==> parts.len() == 1 && parts[0]@ == whole
            &&& forall|i: int| 0 <= i < parts.len() ==> (#[trigger] parts[i])@.len() <= 4096
        }),
{
    let s = stream@;
    assert(ends_so(e, s));
    let working = s.mode == DraftMode::Verbose && s.log.len() > 0;
    let parts = if working { e->WithProgress_html@ } else { e->Answer_html@ };
    let whole = html_of(s);
    assert(text::strings(parts) == chunks::chunks_of(whole));
    chunks::law_chunks_rejoin(whole);
    assert(text::strings(parts).len() == parts.len());
    assert forall|i: int| 0 <= i < parts.len() implies (#[trigger] parts[i])@.len() <= 4096 by {
        chunks::law_chunks_fit(whole, i);
        assert(text::strings(parts)[i] == parts[i]@);
    }
    if whole.len() <= 4096 {
        chunks::law_short_text_is_one_chunk(whole);
        assert(text::strings(parts)[0] == parts[0]@);
    }
}

/// Should the format be refused, the text goes out as it is, with a word at its end where
/// it was stopped or given up.
pub proof fn law_plain_text_is_the_text_itself(stream: &ResponseStream, e: Ending)
    requires
        call_ensures(ResponseStream::ending, (stream,), e),
        e is Answer,
    ensures
        ({
            let s = stream@;
            let sent = chunks::concat(text::strings(e->plain@));
            &&& !s.cancelled && !s.stalled ==> sent == s.accumulated
            &&& s.stalled ==> sent == s.accumulated
                + "\n\n⏱️ <i>Зависло по таймауту ожидания, остановлено</i>"@
            &&& s.cancelled && !s.stalled ==> sent == s.accumulated
                + "\n\n⬛ Генерация остановлена"@
        }),
{
    chunks::law_chunks_rejoin(plain_of(stream@));
}

/// What the agent did is shown beside the text: the last eight lines of its log.
pub proof fn law_work_is_shown_beside_the_text(
    stream: &ResponseStream,
    e: Ending,
    log: &Vec<String>,
    message: String,
    shortened: String,
    text: &str,
)
    requires
        call_ensures(ResponseStream::ending, (stream,), e),
        e is WithProgress,
        text::strings(log@) == stream@.log,
        call_ensures(progress::format_progress_message, (log, 8), message),
        text@ == message@,
        call_ensures(chunks::truncate_text, (text,), shortened),
    ensures
        e->edited@ == shortened@,
        chunks::concat(text::strings(e->sent@)) == message@,
{
    assert(ends_so(e, stream@));
    chunks::law_chunks_rejoin(message@);
}

/// A response without text says why there is none.
pub proof fn law_response_without_text_says_why(stream: &ResponseStream, e: Ending)
    requires
        call_ensures(ResponseStream::ending, (stream,), e),
    ensures
        ({
            let s = stream@;
            &&& e is Empty <==> s.accumulated.len() == 0
            &&& e is Empty && s.stalled ==> e->Empty_0@
                == "⏱️ Зависло по таймауту ожидания, остановлено"@
            &&& e is Empty && !s.stalled && s.cancelled ==> e->Empty_0@
                == "⬛ Генерация остановлена"@
            &&& e is Empty && !s.stalled && !s.cancelled && s.log.len() > 0 ==> e->Empty_0@
                == "🧠 Ход работы получен, но текстовый ответ не пришел."@
            &&& e is Empty && !s.stalled && !s.cancelled && s.log.len() == 0 ==> e->Empty_0@
                == "_(нет ответа)_"@
        }),
{
    assert(ends_so(e, stream@));
}

/// The first part takes the place of the draft, where there is one; the others follow.
pub proof fn law_first_part_takes_the_place_of_the_draft(
    index: usize,
    placeholder: bool,
    r: Delivery,
)
    requires
        call_ensures(delivery, (index, placeholder), r),
    ensures
        r == Delivery::EditOrPlain <==> index == 0 && placeholder,
        r == Delivery::Send <==> index == 0 && !placeholder,
        r == Delivery::SendOrUnformatted <==> index > 0,
{
}

/// A line of output: what it shows is added to the text, unless it is empty or repeats the
/// piece before it, and the files that it asks for are sent, in order.
pub proof fn law_line_of_output_is_taken_in(
    stream: &mut ResponseStream,
    line: &str,
    now: u128,
    r: LineStep,
    tail: &str,
    found: attachments::Extraction,
)
    requires
        call_ensures(
            ResponseStream::on_line,
            (stream, line, None::<StreamEventPayload>, now),
            r,
        ),
        call_ensures(attachments::extract_text_and_attachments, (tail, line), found),
        tail@ == old(stream)@.tail,
    ensures
        ({
            let before = old(stream)@;
            let after = final(stream)@;
            let clean = found.clean_text@;
            let news = clean.len() > 0 && clean != before.last_line;
            &&& news ==> after.accumulated == before.accumulated + clean
            &&& !news ==> after.accumulated == before.accumulated
            &&& after.tail == found.tail@
            &&& after.log == before.log
            &&& after.last_event == now
            &&& text::strings(r.hints@) == text::strings(found.hints@)
            &&& r.typing == news
            &&& r.refresh == news
        }),
{
    law_output_is_added_to_the_text(old(stream)@, tail, line, found, now as nat);
}

/// A line that carries an event leaves the text alone, sends no file and asks for a refresh.
pub proof fn law_event_is_taken_in(
    stream: &mut ResponseStream,
    line: &str,
    event: StreamEventPayload,
    now: u128,
    r: LineStep,
)
    requires
        call_ensures(ResponseStream::on_line, (stream, line, Some(event), now), r),
    ensures
        final(stream)@.accumulated == old(stream)@.accumulated,
        final(stream)@.tail == old(stream)@.tail,
        final(stream)@.last_line == old(stream)@.last_line,
        final(stream)@.log == progress::log_after(old(stream)@.log, event),
        final(stream)@.last_event == now,
        r.hints@.len() == 0,
        !r.typing,
        r.refresh,
{
    assert(text::strings(r.hints@).len() == r.hints@.len());
}

/// A tick gives a response up after half an hour of silence with nothing to show; else the
/// draft is refreshed where there is no text yet, or work to tell of.
pub proof fn law_tick_is_taken_in(stream: &mut ResponseStream, now: u128, r: TickStep)
    requires
        call_ensures(ResponseStream::on_tick, (stream, now), r),
    ensures
        ({
            let before = old(stream)@;
            let after = final(stream)@;
            let silent = now >= before.last_event + 1_800_000_000_000 && text::is_blank(
                before.accumulated,
            ) && before.log.len() == 0;
            &&& r == TickStep::Stalled <==> silent
            &&& silent ==> after.stalled && after.cancelled
            &&& !silent ==> after.stalled == before.stalled && after.cancelled
                == before.cancelled && r == (TickStep::Waiting {
                refresh: text::is_blank(before.accumulated) || before.log.len() > 0,
            })
            &&& after.accumulated == before.accumulated
            &&& after.log == before.log
        }),
{
    law_silent_response_is_given_up(old(stream)@, now as nat);
}

/// A refresh shows the draft of the moment where there is a message to edit and the draft
/// has changed; one that a line asks for comes half a second after the last at the earliest.
pub proof fn law_refresh_shows_the_draft(
    stream: &mut ResponseStream,
    now: u128,
    r: Option<String>,
    accumulated: &str,
    log: &Vec<String>,
    phase: usize,
    mode: DraftMode,
    draft: String,
)
    requires
        call_ensures(ResponseStream::refresh_on_line, (stream, now), r),
        call_ensures(progress::build_draft_text, (accumulated, log, phase, mode), draft),
        accumulated@ == old(stream)@.accumulated,
        text::strings(log@) == old(stream)@.log,
        phase == old(stream)@.phase,
        mode == old(stream)@.mode,
    ensures
        ({
            let before = old(stream)@;
            let after = final(stream)@;
            let due = now >= before.last_update + 500_000_000;
            &&& r is Some <==> due && before.placeholder && draft@ != before.last_draft
            &&& r is Some ==> r->0@ == draft@ && after.last_draft == draft@
            &&& due ==> after.last_update == now
            &&& !due ==> after == before
            &&& after.accumulated == before.accumulated
        }),
{
    law_changed_draft_is_shown(old(stream)@, accumulated, log, phase, draft, now as nat);
}

/// A refresh that a tick asks for shows the draft of the moment where there is a message to
/// edit and the draft has changed.
pub proof fn law_tick_shows_the_draft(
    stream: &mut ResponseStream,
    now: u128,
    r: Option<String>,
    accumulated: &str,
    log: &Vec<String>,
    phase: usize,
    mode: DraftMode,
    draft: String,
)
    requires
        call_ensures(ResponseStream::refresh_on_tick, (stream, now), r),
        call_ensures(progress::build_draft_text, (accumulated, log, phase, mode), draft),
        accumulated@ == old(stream)@.accumulated,
        text::strings(log@) == old(stream)@.log,
        phase == old(stream)@.phase,
        mode == old(stream)@.mode,
    ensures
        r is Some <==> old(stream)@.placeholder && draft@ != old(stream)@.last_draft,
        r is Some ==> r->0@ == draft@ && final(stream)@.last_draft == draft@,
        final(stream)@.last_update == now,
        final(stream)@.accumulated == old(stream)@.accumulated,
{
    law_changed_draft_is_shown(old(stream)@, accumulated, log, phase, draft, now as nat);
}

/// In the end the unfinished line is taken in like any other.
pub proof fn law_unfinished_line_is_taken_in(
    stream: &mut ResponseStream,
    r: Vec<String>,
    nothing: &str,
    line: &str,
    found: attachments::Extraction,
)
    requires
        call_ensures(ResponseStream::flush, (stream,), r),
        call_ensures(attachments::extract_text_and_attachments, (nothing, line), found),
        nothing@.len() == 0,
        line@ == old(stream)@.tail + seq!['\n'],
    ensures
        old(stream)@.tail.len() == 0 ==> final(stream)@ == old(stream)@ && r@.len() == 0,
        old(stream)@.tail.len() > 0 ==> final(stream)@.accumulated == old(stream)@.accumulated
            + found.clean_text@ && final(stream)@.tail.len() == 0 && text::strings(r@)
            == text::strings(found.hints@),
{
    law_unfinished_line_is_finished_in_the_end(old(stream)@, nothing, line, found);
    assert(text::strings(r@).len() == r@.len());
}

/// A file is sent where none with the same path was, and is then among those sent.
pub proof fn law_file_is_sent_where_it_was_not(stream: &mut ResponseStream, path: &str, r: bool)
    requires
        call_ensures(ResponseStream::send_once, (stream, path), r),
    ensures
        old(stream)@.sent.len() == 0 ==> r,
        r ==> final(stream)@.sent == old(stream)@.sent + seq![path@],
        !r ==> final(stream)@ == old(stream)@,
        r <==> !(exists|i: int|
            0 <= i < old(stream)@.sent.len() && paths::same(
                #[trigger] old(stream)@.sent[i],
                path@,
            )),
{
    let sent = old(stream)@.sent;
    assert(sent.push(path@) =~= sent + seq![path@]);
}

/// A response that is stopped keeps its text.
pub proof fn law_stopped_response_keeps_its_text(stream: &mut ResponseStream)
    requires
        call_ensures(ResponseStream::on_cancel, (stream,), ()),
    ensures
        final(stream)@.cancelled,
        final(stream)@.accumulated == old(stream)@.accumulated,
        final(stream)@.tail == old(stream)@.tail,
        final(stream)@.log == old(stream)@.log,
        final(stream)@.stalled == old(stream)@.stalled,
{
}

} // verus!
