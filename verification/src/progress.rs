//! The log of what the agent is doing, and the draft that shows it while a response
//! is under way.
use vstd::prelude::*;
use vstd::string::*;

use crate::chunks;
use crate::config::DraftMode;
use crate::text;
use crate::text::CharClass;

verus! {

/// A structured event that travels on the text channel.
#[derive(Debug, Clone)]
pub struct StreamEventPayload {
    pub kind: String,
    pub status: Option<String>,
    pub text: Option<String>,
}

/// The most lines that an activity log keeps.
pub const MAX_ACTIVITY: usize = 20;

/// The most characters of the response that a draft shows.
pub const MAX_DRAFT_CHARS: usize = 2800;

/// Whether an optional string holds the text `t`.
pub open spec fn is_text(s: Option<String>, t: Seq<char>) -> bool {
    s matches Some(x) && x@ == t
}

/// The line that an event adds to the activity log.
pub open spec fn activity_of(event: StreamEventPayload) -> Option<Seq<char>> {
    if event.kind@ == "tool"@ {
        if is_text(event.status, "completed"@) {
            Some("✅ Инструменты выполнены"@)
        } else if is_text(event.status, "pending"@) {
            Some("🛠 Использую инструменты"@)
        } else {
            Some("🛠 Работаю с инструментами"@)
        }
    } else if event.kind@ == "plan"@ {
        if is_text(event.status, "completed"@) {
            Some("✅ Шаг плана завершен"@)
        } else if is_text(event.status, "in_progress"@) {
            Some("🔄 Выполняю шаг плана"@)
        } else {
            Some("📋 Обновляю план"@)
        }
    } else if event.kind@ == "error"@ {
        match event.text {
            Some(t) => Some("⚠️ "@ + text::compacted(t@)),
            None => None,
        }
    } else {
        None
    }
}

/// The log `log` with a line added: trimmed, unless it is blank or repeats the last
/// line; of a log that grows too long the oldest lines go.
pub open spec fn logged(log: Seq<Seq<char>>, line: Seq<char>) -> Seq<Seq<char>> {
    let t = text::trimmed(line);
    if t.len() == 0 || (log.len() > 0 && log.last() == t) {
        log
    } else {
        newest(log.push(t), MAX_ACTIVITY as nat)
    }
}

/// The log after an event.
pub open spec fn log_after(log: Seq<Seq<char>>, event: StreamEventPayload) -> Seq<Seq<char>> {
    match activity_of(event) {
        Some(line) => logged(log, line),
        None => log,
    }
}

/// The last `count` lines of a log.
pub open spec fn newest(log: Seq<Seq<char>>, count: nat) -> Seq<Seq<char>> {
    if log.len() <= count {
        log
    } else {
        log.skip(log.len() - count)
    }
}

fn holds_text(s: &Option<String>, t: &str) -> (r: bool)
    ensures
        r == is_text(*s, t@),
{
    match s {
        Some(x) => text::same_text(x.as_str(), t),
        None => false,
    }
}

/// Add what an event tells to the activity log.
pub fn apply_stream_event(activity_log: &mut Vec<String>, event: StreamEventPayload)
    ensures
        text::strings(final(activity_log)@) == log_after(
            text::strings(old(activity_log)@),
            event,
        ),
{
    if text::same_text(event.kind.as_str(), "tool") {
        if holds_text(&event.status, "completed") {
            push_activity(activity_log, "✅ Инструменты выполнены");
        } else if holds_text(&event.status, "pending") {
            push_activity(activity_log, "🛠 Использую инструменты");
        } else {
            push_activity(activity_log, "🛠 Работаю с инструментами");
        }
    } else if text::same_text(event.kind.as_str(), "plan") {
        if holds_text(&event.status, "completed") {
            push_activity(activity_log, "✅ Шаг плана завершен");
        } else if holds_text(&event.status, "in_progress") {
            push_activity(activity_log, "🔄 Выполняю шаг плана");
        } else {
            push_activity(activity_log, "📋 Обновляю план");
        }
    } else if text::same_text(event.kind.as_str(), "error") {
        if let Some(t) = &event.text {
            let compact = text::compact_line(t.as_str());
            let mut line = String::new();
            line.append("⚠️ ");
            line.append(compact.as_str());
            assert(line@ =~= "⚠️ "@ + text::compacted(t@));
            push_activity(activity_log, line.as_str());
        }
    }
}

/// Add a line to the activity log.
pub fn push_activity(activity_log: &mut Vec<String>, line: &str)
    ensures
        text::strings(final(activity_log)@) == logged(text::strings(old(activity_log)@), line@),
{
    let ghost log = text::strings(activity_log@);
    let t = text::trim(line);
    if t.as_str().is_empty() {
        return;
    }
    let n: usize = activity_log.len();
    if n > 0 && text::same_text(activity_log[n - 1].as_str(), t.as_str()) {
        assert(log.last() == activity_log@[n - 1]@);
        return;
    }
    assert(n > 0 ==> log.last() == activity_log@[n - 1]@);
    activity_log.push(t);
    let ghost full = log.push(text::trimmed(line@));
    assert(text::strings(activity_log@) =~= full);
    assert(full.skip(0) =~= full);
    while activity_log.len() > MAX_ACTIVITY
        invariant
            activity_log@.len() <= full.len(),
            full.len() > MAX_ACTIVITY ==> activity_log@.len() >= MAX_ACTIVITY,
            full.len() <= MAX_ACTIVITY ==> activity_log@.len() == full.len(),
            text::strings(activity_log@) == full.skip(full.len() - activity_log@.len()),
        decreases activity_log@.len(),
    {
        let ghost now = activity_log@;
        let _first = activity_log.remove(0);
        assert(text::strings(activity_log@) =~= text::strings(now).skip(1));
        assert(full.skip(full.len() - now.len()).skip(1) =~= full.skip(
            full.len() - activity_log@.len(),
        ));
    }
}

/// The last `count` lines of a log, the oldest first.
pub fn recent_activity(activity_log: &Vec<String>, count: usize) -> (r: Vec<String>)
    ensures
        text::strings(r@) == newest(text::strings(activity_log@), count as nat),
{
    let n: usize = activity_log.len();
    let start: usize = if n > count { n - count } else { 0 };
    let ghost log = text::strings(activity_log@);
    let mut r: Vec<String> = Vec::new();
    let mut i: usize = start;
    assert(text::strings(r@) =~= log.subrange(start as int, start as int));
    while i < n
        invariant
            start <= i <= n == activity_log@.len(),
            log == text::strings(activity_log@),
            text::strings(r@) == log.subrange(start as int, i as int),
        decreases n - i,
    {
        let ghost before = text::strings(r@);
        r.push(activity_log[i].clone());
        assert(text::strings(r@) =~= before.push(log[i as int]));
        assert(log.subrange(start as int, i + 1) =~= before.push(log[i as int]));
        i += 1;
    }
    assert(log.subrange(start as int, n as int) =~= newest(log, count as nat));
    r
}

/// Lines as a bulleted list.
pub open spec fn bullets(lines: Seq<Seq<char>>) -> Seq<char>
    decreases lines.len(),
{
    if lines.len() == 0 {
        Seq::empty()
    } else {
        bullets(lines.drop_last()) + ("• "@ + lines.last()).push('\n')
    }
}

fn push_bullets(out: &mut String, lines: &Vec<String>)
    ensures
        final(out)@ == old(out)@ + bullets(text::strings(lines@)),
{
    let ghost all = text::strings(lines@);
    let mut i: usize = 0;
    assert(out@ =~= old(out)@ + bullets(all.take(0)));
    while i < lines.len()
        invariant
            i <= lines@.len(),
            all == text::strings(lines@),
            out@ == old(out)@ + bullets(all.take(i as int)),
        decreases lines.len() - i,
    {
        out.append("• ");
        out.append(lines[i].as_str());
        out.push('\n');
        assert(all.take(i + 1).drop_last() =~= all.take(i as int));
        assert(out@ =~= old(out)@ + bullets(all.take(i + 1)));
        i += 1;
    }
    assert(all.take(i as int) =~= all);
}

/// The heading of a progress message.
pub open spec fn progress_heading() -> Seq<char> {
    "🧠 Ход работы\n"@
}

/// The message that reports the last `count` lines of a log.
pub open spec fn progress_message(log: Seq<Seq<char>>, count: nat) -> Seq<char> {
    text::strip_trailing(progress_heading() + bullets(newest(log, count)), CharClass::Space)
}

/// The message that reports the last `count` lines of the activity log.
pub fn format_progress_message(activity_log: &Vec<String>, count: usize) -> (r: String)
    ensures
        r@ == progress_message(text::strings(activity_log@), count as nat),
{
    let lines = recent_activity(activity_log, count);
    let mut out = String::new();
    out.append("🧠 Ход работы\n");
    push_bullets(&mut out, &lines);
    assert(out@ =~= progress_heading() + bullets(
        newest(text::strings(activity_log@), count as nat),
    ));
    let v = text::chars_of(out.as_str());
    let t = text::without_trailing(v.as_slice(), CharClass::Space);
    text::string_of(t.as_slice())
}

/// What is shown while no text has arrived: three labels in turn.
pub open spec fn waiting_label(phase: nat) -> Seq<char> {
    if phase % 3 == 0 {
        "⏳ Думаю…"@
    } else if phase % 3 == 1 {
        "⏳ Собираю контекст…"@
    } else {
        "⏳ Все еще работаю…"@
    }
}

/// The part of a draft that shows the response so far.
pub open spec fn draft_body(accumulated: Seq<char>, phase: nat) -> Seq<char> {
    if text::is_blank(accumulated) {
        waiting_label(phase)
    } else {
        chunks::tail_of(accumulated, MAX_DRAFT_CHARS as nat)
    }
}

/// The draft of a response under way: in verbose mode the last lines of the log,
/// then the end of the response so far, or a label while there is none.
pub open spec fn draft_text(
    accumulated: Seq<char>,
    log: Seq<Seq<char>>,
    phase: nat,
    mode: DraftMode,
) -> Seq<char> {
    let body = draft_body(accumulated, phase);
    let whole = if mode == DraftMode::Verbose && log.len() > 0 {
        (progress_heading() + bullets(newest(log, 4))).push('\n') + body
    } else {
        body
    };
    chunks::shortened(whole, chunks::MAX_MESSAGE_CHARS as int)
}

/// The draft of a response under way.
pub fn build_draft_text(
    accumulated: &str,
    activity_log: &Vec<String>,
    waiting_phase: usize,
    draft_mode: DraftMode,
) -> (r: String)
    ensures
        r@ == draft_text(
            accumulated@,
            text::strings(activity_log@),
            waiting_phase as nat,
            draft_mode,
        ),
        r@.len() <= chunks::MAX_MESSAGE_CHARS,
{
    let mut out = String::new();
    let verbose: bool = match draft_mode {
        DraftMode::Compact => false,
        DraftMode::Verbose => true,
    };
    if verbose && activity_log.len() > 0 {
        out.append("🧠 Ход работы\n");
        let lines = recent_activity(activity_log, 4);
        push_bullets(&mut out, &lines);
        out.push('\n');
    }
    let v = text::chars_of(accumulated);
    if text::blank(v.as_slice()) {
        let turn: usize = waiting_phase % 3;
        if turn == 0 {
            out.append("⏳ Думаю…");
        } else if turn == 1 {
            out.append("⏳ Собираю контекст…");
        } else {
            out.append("⏳ Все еще работаю…");
        }
    } else {
        let tail = chunks::tail_text(accumulated, MAX_DRAFT_CHARS);
        out.append(tail.as_str());
    }
    proof {
        let log = text::strings(activity_log@);
        let body = draft_body(accumulated@, waiting_phase as nat);
        if draft_mode == DraftMode::Verbose && log.len() > 0 {
            assert(out@ =~= (progress_heading() + bullets(newest(log, 4))).push('\n') + body);
        } else {
            assert(out@ =~= body);
        }
    }
    chunks::truncate_text(out.as_str())
}

/// What holds of every activity log: it is not too long, no line is empty or has
/// white space at its ends, and no line repeats the one before it.
pub open spec fn log_ok(log: Seq<Seq<char>>) -> bool {
    &&& log.len() <= MAX_ACTIVITY
    &&& forall|i: int|
        0 <= i < log.len() ==> #[trigger] log[i].len() > 0 && text::trimmed(log[i]) == log[i]
    &&& forall|i: int| 0 < i < log.len() ==> #[trigger] log[i] != log[i - 1]
}

proof fn lemma_trim_twice(s: Seq<char>)
    ensures
        text::trimmed(text::trimmed(s)) == text::trimmed(s),
{
    let k = CharClass::Space;
    let a = text::strip_leading(s, k);
    let t = text::strip_trailing(a, k);
    text::lemma_strip_leading(s, k);
    text::lemma_strip_trailing(a, k);
    if t.len() > 0 {
        assert(t[0] == a[0]);
        assert(text::strip_leading(t, k) == t);
        assert(text::strip_trailing(t, k) == t);
    } else {
        assert(text::strip_leading(t, k) == t);
    }
}

/// An empty log is in order, and every event leaves a log in order that was.
pub proof fn law_log_stays_in_order(log: Seq<Seq<char>>, event: StreamEventPayload)
    requires
        log_ok(log),
    ensures
        log_ok(log_after(log, event)),
        log_ok(Seq::empty()),
{
    if let Some(line) = activity_of(event) {
        let t = text::trimmed(line);
        lemma_trim_twice(line);
        let full = log.push(t);
        let r = logged(log, line);
        if r != log {
            let n = full.len() - r.len();
            assert forall|i: int| 0 <= i < r.len() implies #[trigger] r[i].len() > 0
                && text::trimmed(r[i]) == r[i] by {
                assert(r[i] == full[i + n]);
                if i + n < log.len() {
                    assert(full[i + n] == log[i + n]);
                }
            }
            assert forall|i: int| 0 < i < r.len() implies #[trigger] r[i] != r[i - 1] by {
                assert(r[i] == full[i + n]);
                assert(r[i - 1] == full[i + n - 1]);
                if i + n < log.len() {
                    assert(full[i + n] == log[i + n]);
                }
            }
        }
    }
}

/// Usage events, and events of a kind that is not known, leave the log as it is.
pub proof fn law_other_events_leave_no_trace(log: Seq<Seq<char>>, event: StreamEventPayload)
    requires
        event.kind@ != "tool"@,
        event.kind@ != "plan"@,
        event.kind@ != "error"@,
    ensures
        log_after(log, event) == log,
{
}

/// The last line of a log is what the last event told.
pub proof fn law_newest_line_is_last(log: Seq<Seq<char>>, line: Seq<char>)
    requires
        text::trimmed(line).len() > 0,
    ensures
        logged(log, line).len() > 0,
        logged(log, line).last() == text::trimmed(line),
{
}

/// The lines that a draft tells of the work: the last four, each behind a bullet, below
/// a heading, with an empty line behind them.
pub open spec fn work_shown(log: Seq<Seq<char>>) -> Seq<char> {
    let k: int = if log.len() < 4 {
        log.len() as int
    } else {
        4
    };
    "🧠 Ход работы\n"@ + chunks::concat(
        Seq::new(k as nat, |i: int| "• "@ + log[log.len() - k + i] + "\n"@),
    ) + "\n"@
}

proof fn lemma_bullets(lines: Seq<Seq<char>>)
    ensures
        bullets(lines) == chunks::concat(
            Seq::new(lines.len(), |i: int| "• "@ + lines[i] + "\n"@),
        ),
    decreases lines.len(),
{
    let items = Seq::new(lines.len(), |i: int| "• "@ + lines[i] + "\n"@);
    if lines.len() == 0 {
        assert(bullets(lines) =~= chunks::concat(items));
    } else {
        let init = lines.drop_last();
        lemma_bullets(init);
        let before = Seq::new(init.len(), |i: int| "• "@ + init[i] + "\n"@);
        reveal_strlit("\n");
        assert(("• "@ + lines.last()).push('\n') =~= "• "@ + lines.last() + "\n"@);
        assert(items =~= before.push("• "@ + lines.last() + "\n"@));
        chunks::lemma_concat_push(before, "• "@ + lines.last() + "\n"@);
    }
}

proof fn lemma_work_shown(log: Seq<Seq<char>>)
    ensures
        (progress_heading() + bullets(newest(log, 4))).push('\n') == work_shown(log),
{
    let lines = newest(log, 4);
    lemma_bullets(lines);
    let k: int = if log.len() < 4 {
        log.len() as int
    } else {
        4
    };
    reveal_strlit("\n");
    assert(Seq::new(lines.len(), |i: int| "• "@ + lines[i] + "\n"@) =~= Seq::new(
        k as nat,
        |i: int| "• "@ + log[log.len() - k + i] + "\n"@,
    ));
    assert((progress_heading() + bullets(lines)).push('\n') =~= work_shown(log));
}

proof fn lemma_draft(acc: &str, log: &Vec<String>, phase: usize, mode: DraftMode, r: String)
    requires
        call_ensures(build_draft_text, (acc, log, phase, mode), r),
    ensures
        ({
            let lines = text::strings(log@);
            let body = draft_body(acc@, phase as nat);
            let whole = if mode == DraftMode::Verbose && log@.len() > 0 {
                work_shown(lines) + body
            } else {
                body
            };
            &&& whole.len() <= 4096 ==> r@ == whole
            &&& whole.len() > 4096 ==> r@ == whole.take(4095) + seq!['…']
        }),
{
    let lines = text::strings(log@);
    assert(lines.len() == log@.len());
    lemma_work_shown(lines);
    let body = draft_body(acc@, phase as nat);
    let whole = if mode == DraftMode::Verbose && log@.len() > 0 {
        work_shown(lines) + body
    } else {
        body
    };
    if whole.len() > 4096 {
        assert(r@ =~= whole.take(4095) + seq!['…']);
    }
}

/// A draft shows the response so far, whatever the phase and the mode. Where nothing is
/// told of the work, it shows just that; else what is told of the work stands before it,
/// as long as there is room for both.
pub proof fn law_draft_shows_the_response(
    accumulated: &str,
    log: &Vec<String>,
    phase: usize,
    mode: DraftMode,
    r: String,
)
    requires
        call_ensures(build_draft_text, (accumulated, log, phase, mode), r),
        !text::is_blank(accumulated@),
        accumulated@.len() <= 2800,
    ensures
        mode == DraftMode::Compact || log@.len() == 0 ==> r@ == accumulated@,
        mode == DraftMode::Verbose && log@.len() > 0 && work_shown(text::strings(log@)).len()
            + accumulated@.len() <= 4096 ==> r@ == work_shown(text::strings(log@)) + accumulated@,
{
    lemma_draft(accumulated, log, phase, mode, r);
}

/// Of a response that is longer, a draft shows the end behind an ellipsis.
pub proof fn law_draft_shows_the_end_of_a_long_response(
    accumulated: &str,
    log: &Vec<String>,
    phase: usize,
    mode: DraftMode,
    r: String,
)
    requires
        call_ensures(build_draft_text, (accumulated, log, phase, mode), r),
        !text::is_blank(accumulated@),
        accumulated@.len() > 2800,
    ensures
        ({
            let end = seq!['…'] + accumulated@.skip(accumulated@.len() - 2799);
            &&& mode == DraftMode::Compact || log@.len() == 0 ==> r@ == end
            &&& mode == DraftMode::Verbose && log@.len() > 0 && work_shown(
                text::strings(log@),
            ).len() + 2800 <= 4096 ==> r@ == work_shown(text::strings(log@)) + end
        }),
{
    lemma_draft(accumulated, log, phase, mode, r);
}

/// As long as there is no response, a draft shows one of three labels in turn in its
/// place.
pub proof fn law_draft_says_that_it_waits(
    accumulated: &str,
    log: &Vec<String>,
    turn: nat,
    phase: usize,
    mode: DraftMode,
    r: String,
)
    requires
        call_ensures(build_draft_text, (accumulated, log, phase, mode), r),
        text::is_blank(accumulated@),
        phase == 3 * turn || phase == 3 * turn + 1 || phase == 3 * turn + 2,
    ensures
        ({
            let label = if phase == 3 * turn {
                "⏳ Думаю…"@
            } else if phase == 3 * turn + 1 {
                "⏳ Собираю контекст…"@
            } else {
                "⏳ Все еще работаю…"@
            };
            &&& mode == DraftMode::Compact || log@.len() == 0 ==> r@ == label
            &&& mode == DraftMode::Verbose && log@.len() > 0 && work_shown(
                text::strings(log@),
            ).len() + label.len() <= 4096 ==> r@ == work_shown(text::strings(log@)) + label
        }),
{
    reveal_strlit("⏳ Думаю…");
    reveal_strlit("⏳ Собираю контекст…");
    reveal_strlit("⏳ Все еще работаю…");
    lemma_draft(accumulated, log, phase, mode, r);
}

/// A draft that is too long for a message begins like what it is made of, and ends with
/// an ellipsis.
pub proof fn law_draft_fits(
    accumulated: &str,
    log: &Vec<String>,
    phase: usize,
    mode: DraftMode,
    r: String,
)
    requires
        call_ensures(build_draft_text, (accumulated, log, phase, mode), r),
        mode == DraftMode::Verbose,
        log@.len() > 0,
        work_shown(text::strings(log@)).len() > 4096,
    ensures
        r@ == work_shown(text::strings(log@)).take(4095) + seq!['…'],
{
    lemma_draft(accumulated, log, phase, mode, r);
    let head = work_shown(text::strings(log@));
    let whole = head + draft_body(accumulated@, phase as nat);
    assert(whole.take(4095) =~= head.take(4095));
}

/// The message that reports the work tells the last lines in order, each behind a bullet
/// on a line of its own, below a heading.
pub proof fn law_progress_message_lists_the_last_lines(log: &Vec<String>, count: usize, r: String)
    requires
        call_ensures(format_progress_message, (log, count), r),
        log_ok(text::strings(log@)),
        count > 0,
    ensures
        ({
            let k: int = if log@.len() < count {
                log@.len() as int
            } else {
                count as int
            };
            r@ == "🧠 Ход работы"@ + chunks::concat(
                Seq::new(k as nat, |i: int| "\n• "@ + log@[log@.len() - k + i]@),
            )
        }),
{
    let all = text::strings(log@);
    assert(all.len() == log@.len());
    let lines = newest(all, count as nat);
    let k: int = if log@.len() < count {
        log@.len() as int
    } else {
        count as int
    };
    let shown = Seq::new(k as nat, |i: int| "\n• "@ + log@[log@.len() - k + i]@);
    assert(shown =~= Seq::new(lines.len(), |i: int| "\n• "@ + lines[i]));
    lemma_list(lines);
    reveal_strlit("🧠 Ход работы\n");
    reveal_strlit("🧠 Ход работы");
    let want = "🧠 Ход работы"@ + chunks::concat(shown);
    let whole = progress_heading() + bullets(lines);
    assert(progress_heading() =~= "🧠 Ход работы"@.push('\n'));
    assert(whole =~= want.push('\n'));
    assert(want.len() > 0 && !text::is_space(want.last())) by {
        if lines.len() > 0 {
            let last = lines.last();
            assert(last == all[all.len() - 1]);
            assert(all[all.len() - 1].len() > 0);
            text::lemma_strip_trailing(
                text::strip_leading(last, CharClass::Space),
                CharClass::Space,
            );
            assert(text::trimmed(last) == last);
            let before = Seq::new((lines.len() - 1) as nat, |i: int| "\n• "@ + lines[i]);
            assert(shown =~= before.push("\n• "@ + last));
            chunks::lemma_concat_push(before, "\n• "@ + last);
            assert(want.last() == last.last());
        } else {
            assert(chunks::concat(shown) =~= Seq::empty());
            assert(want =~= "🧠 Ход работы"@);
        }
    }
    assert(whole.drop_last() =~= want);
    assert(text::strip_trailing(want, CharClass::Space) == want);
    assert(text::strip_trailing(whole, CharClass::Space) == want);
}

proof fn lemma_list(lines: Seq<Seq<char>>)
    ensures
        seq!['\n'] + bullets(lines) == chunks::concat(
            Seq::new(lines.len(), |i: int| "\n• "@ + lines[i]),
        ).push('\n'),
    decreases lines.len(),
{
    let items = Seq::new(lines.len(), |i: int| "\n• "@ + lines[i]);
    if lines.len() == 0 {
        assert(seq!['\n'] + bullets(lines) =~= chunks::concat(items).push('\n'));
    } else {
        let init = lines.drop_last();
        lemma_list(init);
        let before = Seq::new(init.len(), |i: int| "\n• "@ + init[i]);
        assert(items =~= before.push("\n• "@ + lines.last()));
        chunks::lemma_concat_push(before, "\n• "@ + lines.last());
        reveal_strlit("\n• ");
        reveal_strlit("• ");
        assert("\n• "@ =~= seq!['\n'] + "• "@);
        assert(seq!['\n'] + bullets(lines) =~= (seq!['\n'] + bullets(init)) + ("• "@
            + lines.last()).push('\n'));
        assert(seq!['\n'] + bullets(lines) =~= chunks::concat(items).push('\n'));
    }
}

/// What an event tells becomes the last line of the log: a line of its own for every
/// state of a tool and of a step of the plan.
pub proof fn law_event_is_told(log: Seq<Seq<char>>, event: StreamEventPayload)
    ensures
        ({
            let tool = event.kind@ == "tool"@;
            let plan = event.kind@ == "plan"@;
            let status = text::text_of(event.status);
            let after = log_after(log, event);
            &&& tool || plan ==> after.len() > 0
            &&& tool && status == Some("pending"@) ==> after.last()
                == "🛠 Использую инструменты"@
            &&& tool && status == Some("completed"@) ==> after.last()
                == "✅ Инструменты выполнены"@
            &&& tool && status != Some("pending"@) && status != Some("completed"@)
                ==> after.last() == "🛠 Работаю с инструментами"@
            &&& plan && status == Some("in_progress"@) ==> after.last()
                == "🔄 Выполняю шаг плана"@
            &&& plan && status == Some("completed"@) ==> after.last()
                == "✅ Шаг плана завершен"@
            &&& plan && status != Some("in_progress"@) && status != Some("completed"@)
                ==> after.last() == "📋 Обновляю план"@
        }),
{
    reveal_strlit("tool");
    reveal_strlit("plan");
    assert("tool"@[0] == 't' && "plan"@[0] == 'p');
    reveal_strlit("pending");
    reveal_strlit("completed");
    reveal_strlit("in_progress");
    assert("pending"@[0] == 'p' && "completed"@[0] == 'c' && "in_progress"@[0] == 'i');
    reveal_strlit("🛠 Использую инструменты");
    reveal_strlit("✅ Инструменты выполнены");
    reveal_strlit("🛠 Работаю с инструментами");
    reveal_strlit("🔄 Выполняю шаг плана");
    reveal_strlit("✅ Шаг плана завершен");
    reveal_strlit("📋 Обновляю план");
    lemma_bare_is_trimmed("🛠 Использую инструменты"@);
    lemma_bare_is_trimmed("✅ Инструменты выполнены"@);
    lemma_bare_is_trimmed("🛠 Работаю с инструментами"@);
    lemma_bare_is_trimmed("🔄 Выполняю шаг плана"@);
    lemma_bare_is_trimmed("✅ Шаг плана завершен"@);
    lemma_bare_is_trimmed("📋 Обновляю план"@);
}

proof fn lemma_bare_is_trimmed(s: Seq<char>)
    requires
        s.len() > 0,
        !text::is_space(s[0]),
        !text::is_space(s.last()),
    ensures
        text::trimmed(s) == s,
{
    assert(text::strip_leading(s, CharClass::Space) == s);
}

/// The text of an error becomes the last line of the log, on one line behind a sign.
pub proof fn law_error_is_told(log: Seq<Seq<char>>, event: StreamEventPayload)
    requires
        event.kind@ == "error"@,
        event.text is Some,
        !text::is_blank(event.text->0@),
    ensures
        log_after(log, event).len() > 0,
        log_after(log, event).last() == "⚠️ "@ + text::compacted(event.text->0@),
{
    let t = text::compacted(event.text->0@);
    text::lemma_compacted_ends(event.text->0@);
    reveal_strlit("error");
    reveal_strlit("tool");
    reveal_strlit("plan");
    reveal_strlit("⚠️ ");
    assert("error"@[0] == 'e' && "tool"@[0] == 't' && "plan"@[0] == 'p');
    let line = "⚠️ "@ + t;
    assert(line.last() == t.last());
    lemma_bare_is_trimmed(line);
}

/// A line that is new is added behind the others; of twenty lines the oldest then goes.
/// A line that repeats the last one, or is blank, changes nothing.
pub proof fn law_log_keeps_the_last_twenty(log: Seq<Seq<char>>, line: Seq<char>)
    requires
        log.len() <= 20,
        line.len() > 0,
        !text::is_space(line[0]),
        !text::is_space(line.last()),
    ensures
        log.len() > 0 && log.last() == line ==> logged(log, line) == log,
        (log.len() == 0 || log.last() != line) && log.len() < 20 ==> logged(log, line) == log.push(
            line,
        ),
        (log.len() == 0 || log.last() != line) && log.len() == 20 ==> logged(log, line)
            == log.skip(1).push(line),
{
    lemma_bare_is_trimmed(line);
    assert(log.push(line).skip(1) =~= log.skip(1).push(line) || log.len() == 0);
}

/// A blank line changes nothing.
pub proof fn law_blank_line_is_not_told(log: Seq<Seq<char>>, line: Seq<char>)
    requires
        text::is_blank(line),
    ensures
        logged(log, line) == log,
{
    text::law_blank_text_trims_to_nothing(line);
}

/// The last lines of a log are those, in order.
pub proof fn law_recent_activity_is_the_end_of_the_log(log: &Vec<String>, count: usize, r: Vec<String>)
    requires
        call_ensures(recent_activity, (log, count), r),
    ensures
        r@.len() == (if log@.len() < count {
            log@.len() as int
        } else {
            count as int
        }),
        forall|i: int|
            0 <= i < r@.len() ==> (#[trigger] r@[i])@ == log@[log@.len() - r@.len() + i]@,
{
    let all = text::strings(log@);
    let out = text::strings(r@);
    assert(all.len() == log@.len() && out.len() == r@.len());
    assert forall|i: int| 0 <= i < r@.len() implies (#[trigger] r@[i])@ == log@[log@.len()
        - r@.len() + i]@ by {
        assert(out[i] == r@[i]@);
    }
}

/// The log after an event ends with the line that tells of it, and a line that is pushed
/// stands at the end.
pub proof fn law_log_ends_with_what_was_told(
    log: &mut Vec<String>,
    event: StreamEventPayload,
)
    requires
        call_ensures(apply_stream_event, (log, event), ()),
    ensures
        event.kind@ == "tool"@ && text::text_of(event.status) == Some("pending"@)
            ==> final(log)@.len() > 0 && final(log)@.last()@ == "🛠 Использую инструменты"@,
        event.kind@ == "tool"@ && text::text_of(event.status) == Some("completed"@)
            ==> final(log)@.len() > 0 && final(log)@.last()@ == "✅ Инструменты выполнены"@,
        event.kind@ == "plan"@ && text::text_of(event.status) == Some("completed"@)
            ==> final(log)@.len() > 0 && final(log)@.last()@ == "✅ Шаг плана завершен"@,
        event.kind@ == "plan"@ && text::text_of(event.status) == Some("in_progress"@)
            ==> final(log)@.len() > 0 && final(log)@.last()@ == "🔄 Выполняю шаг плана"@,
        event.kind@ == "error"@ && event.text is Some && !text::is_blank(event.text->0@)
            ==> final(log)@.len() > 0 && final(log)@.last()@ == "⚠️ "@ + text::compacted(
            event.text->0@,
        ),
        event.kind@ != "tool"@ && event.kind@ != "plan"@ && event.kind@ != "error"@
            ==> text::strings(final(log)@) == text::strings(old(log)@),
{
    let before = text::strings(old(log)@);
    let after = text::strings(final(log)@);
    law_event_is_told(before, event);
    if event.kind@ == "error"@ && event.text is Some && !text::is_blank(event.text->0@) {
        law_error_is_told(before, event);
    }
    assert(after.len() == final(log)@.len());
    if after.len() > 0 {
        assert(after.last() == final(log)@.last()@);
    }
}

/// A line that is added stands at the end of the log, behind the nineteen before it at most.
pub proof fn law_line_is_added_at_the_end(log: &mut Vec<String>, line: &str)
    requires
        call_ensures(push_activity, (log, line), ()),
        old(log)@.len() <= 20,
        line@.len() > 0,
        !text::is_space(line@[0]),
        !text::is_space(line@.last()),
    ensures
        final(log)@.len() > 0,
        final(log)@.last()@ == line@,
        old(log)@.len() > 0 && old(log)@.last()@ == line@ ==> text::strings(final(log)@)
            == text::strings(old(log)@),
        (old(log)@.len() == 0 || old(log)@.last()@ != line@) && old(log)@.len() < 20
            ==> text::strings(final(log)@) == text::strings(old(log)@) + seq![line@],
        (old(log)@.len() == 0 || old(log)@.last()@ != line@) && old(log)@.len() == 20
            ==> text::strings(final(log)@) == text::strings(old(log)@).drop_first() + seq![line@],
{
    let before = text::strings(old(log)@);
    let after = text::strings(final(log)@);
    assert(before.len() == old(log)@.len() && after.len() == final(log)@.len());
    if before.len() > 0 {
        assert(before.last() == old(log)@.last()@);
    }
    law_log_keeps_the_last_twenty(before, line@);
    assert(before.push(line@) =~= before + seq![line@]);
    if before.len() == 20 {
        assert(before.skip(1).push(line@) =~= before.drop_first() + seq![line@]);
    }
    assert(after.len() > 0 && after.last() == line@);
    assert(after.last() == final(log)@.last()@);
}

} // verus!
