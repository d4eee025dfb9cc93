use toodles::config::DraftMode;
use toodles::progress::StreamEventPayload;
use toodles::stream::{delivery, Delivery, Ending, ResponseStream, TickStep};

const SECOND: u128 = 1_000_000_000;

fn tool(status: &str) -> StreamEventPayload {
    StreamEventPayload {
        kind: "tool".to_string(),
        status: Some(status.to_string()),
        text: None,
    }
}

fn answer(stream: &ResponseStream) -> (Vec<String>, Vec<String>) {
    match stream.ending() {
        Ending::Answer { html, plain } => (html, plain),
        other => panic!("{other:?}"),
    }
}

fn empty(stream: &ResponseStream) -> String {
    match stream.ending() {
        Ending::Empty(text) => text,
        other => panic!("{other:?}"),
    }
}

#[test]
fn text_accumulates_and_is_formatted() {
    let mut s = ResponseStream::new(DraftMode::Compact, true, 0);
    let step = s.on_line("This is **bo", None, 1);
    assert!(step.typing && step.refresh && step.hints.is_empty());
    s.on_line("ld** & more", None, 2);
    let (html, plain) = answer(&s);
    assert_eq!(html, vec!["This is <b>bold</b> &amp; more"]);
    assert_eq!(plain, vec!["This is **bold** & more"]);
}

#[test]
fn events_stay_out_of_the_text() {
    let mut s = ResponseStream::new(DraftMode::Compact, true, 0);
    s.on_line("a", None, 0);
    let step = s.on_line("__TOODLES_EVT__:{}", Some(tool("pending")), 0);
    assert!(step.refresh && !step.typing && step.hints.is_empty());
    s.on_line("b", None, 0);
    assert_eq!(answer(&s).1, vec!["ab"]);
}

#[test]
fn repeated_and_empty_pieces_are_skipped() {
    let mut s = ResponseStream::new(DraftMode::Compact, true, 0);
    assert!(s.on_line("x", None, 0).refresh);
    let step = s.on_line("x", None, 0);
    assert!(!step.refresh && !step.typing);
    assert!(!s.on_line("", None, 0).refresh);
    s.on_line("y", None, 0);
    assert!(s.on_line("x", None, 0).refresh);
    assert_eq!(answer(&s).1, vec!["xyx"]);
}

#[test]
fn directives_become_files() {
    let mut s = ResponseStream::new(DraftMode::Compact, true, 0);
    s.on_line("Here:\nATTACH_FI", None, 0);
    let step = s.on_line("LE:/tmp/a.txt\nDone", None, 0);
    assert_eq!(step.hints, vec!["/tmp/a.txt"]);
    assert_eq!(answer(&s).1, vec!["Here:\nDone"]);
}

#[test]
fn unfinished_directive_is_flushed() {
    let mut s = ResponseStream::new(DraftMode::Compact, true, 0);
    assert!(s.flush().is_empty());
    s.on_line("ok\nATTACH_FILE:/tmp/b.txt", None, 0);
    assert_eq!(s.flush(), vec!["/tmp/b.txt"]);
    assert!(s.flush().is_empty());
    s.on_line("ATTACH", None, 0);
    assert!(s.flush().is_empty());
    assert_eq!(answer(&s).1, vec!["ok\n\nATTACH\n\n"]);
}

#[test]
fn file_is_sent_once_whatever_its_spelling() {
    let mut s = ResponseStream::new(DraftMode::Compact, true, 0);
    assert!(s.send_once("/tmp/a"));
    assert!(!s.send_once("/tmp/a"));
    assert!(!s.send_once("/tmp//./a/"));
    assert!(s.send_once("tmp/a"));
    assert!(s.send_once("./tmp/a"));
    assert!(s.send_once("/tmp/a/.."));
}

#[test]
fn typing_and_drafts_keep_their_distance() {
    let mut s = ResponseStream::new(DraftMode::Compact, true, 0);
    assert!(!s.typing_due(4 * SECOND - 1));
    assert!(s.typing_due(4 * SECOND));
    s.typing_shown(4 * SECOND);
    assert!(!s.typing_due(7 * SECOND));
    assert_eq!(s.refresh_on_line(SECOND / 2 - 1), None);
    assert!(s.refresh_on_line(SECOND / 2).is_some());
    s.on_line("a", None, SECOND / 2);
    assert_eq!(s.refresh_on_line(SECOND - 1), None);
    s.update_shown(SECOND);
    assert_eq!(s.refresh_on_line(SECOND * 3 / 2 - 1), None);
    assert_eq!(s.refresh_on_line(0), None);
    assert_eq!(s.refresh_on_line(SECOND * 3 / 2).as_deref(), Some("a"));
}

#[test]
fn refresh_without_news_counts() {
    let mut s = ResponseStream::new(DraftMode::Compact, true, 0);
    assert!(s.refresh_on_line(SECOND).is_some());
    assert_eq!(s.refresh_on_line(2 * SECOND), None);
    s.on_line("a", None, 2 * SECOND);
    assert_eq!(s.refresh_on_line(2 * SECOND + 1), None);
    assert_eq!(s.refresh_on_tick(2 * SECOND + 1).as_deref(), Some("a"));
}

#[test]
fn draft_is_shown_when_it_is_new() {
    let mut s = ResponseStream::new(DraftMode::Compact, true, 0);
    assert_eq!(s.refresh_on_tick(0).as_deref(), Some("⏳ Думаю…"));
    assert_eq!(s.refresh_on_tick(0), None);
    s.on_tick(0);
    assert_eq!(
        s.refresh_on_tick(0).as_deref(),
        Some("⏳ Собираю контекст…")
    );
    s.on_line("text", None, 0);
    assert_eq!(s.refresh_on_tick(0).as_deref(), Some("text"));
    let mut none = ResponseStream::new(DraftMode::Compact, false, 0);
    assert_eq!(none.refresh_on_tick(0), None);
}

#[test]
fn silent_response_is_given_up() {
    let mut s = ResponseStream::new(DraftMode::Compact, true, 0);
    assert_eq!(s.on_tick(1799 * SECOND), TickStep::Waiting { refresh: true });
    assert_eq!(s.on_tick(1800 * SECOND), TickStep::Stalled);
    assert_eq!(empty(&s), "⏱️ Зависло по таймауту ожидания, остановлено");
}

#[test]
fn response_that_works_or_speaks_is_not_given_up() {
    let mut s = ResponseStream::new(DraftMode::Compact, true, 0);
    s.on_line("e", Some(tool("pending")), 0);
    assert_eq!(s.on_tick(5000 * SECOND), TickStep::Waiting { refresh: true });
    let mut s = ResponseStream::new(DraftMode::Compact, true, 0);
    s.on_line("hi", None, 0);
    assert_eq!(s.on_tick(5000 * SECOND), TickStep::Waiting { refresh: false });
    let mut s = ResponseStream::new(DraftMode::Compact, true, 0);
    s.on_line(" ", None, 1000 * SECOND);
    assert_eq!(s.on_tick(2799 * SECOND), TickStep::Waiting { refresh: true });
    assert_eq!(s.on_tick(2800 * SECOND), TickStep::Stalled);
    let (html, plain) = answer(&s);
    assert_eq!(html, vec![" \n\n⬛ <i>Генерация остановлена</i>"]);
    assert_eq!(
        plain,
        vec![" \n\n⏱️ <i>Зависло по таймауту ожидания, остановлено</i>"]
    );
}

#[test]
fn empty_response_says_why() {
    let s = ResponseStream::new(DraftMode::Verbose, true, 0);
    assert_eq!(empty(&s), "_(нет ответа)_");
    let mut s = ResponseStream::new(DraftMode::Verbose, true, 0);
    s.on_line("e", Some(tool("pending")), 0);
    assert_eq!(
        empty(&s),
        "🧠 Ход работы получен, но текстовый ответ не пришел."
    );
    s.on_cancel();
    assert_eq!(empty(&s), "⬛ Генерация остановлена");
}

#[test]
fn cancelled_response_says_so() {
    let mut s = ResponseStream::new(DraftMode::Compact, true, 0);
    s.on_line("half", None, 0);
    s.on_cancel();
    let (html, plain) = answer(&s);
    assert_eq!(html, vec!["half\n\n⬛ <i>Генерация остановлена</i>"]);
    assert_eq!(plain, vec!["half\n\n⬛ Генерация остановлена"]);
}

#[test]
fn verbose_response_keeps_progress_apart() {
    let mut s = ResponseStream::new(DraftMode::Verbose, true, 0);
    s.on_line("e", Some(tool("pending")), 0);
    s.on_line("e", Some(tool("completed")), 0);
    s.on_line("done", None, 0);
    match s.ending() {
        Ending::WithProgress { edited, sent, html } => {
            assert_eq!(
                edited,
                "🧠 Ход работы\n• 🛠 Использую инструменты\n• ✅ Инструменты выполнены"
            );
            assert_eq!(sent, vec![edited]);
            assert_eq!(html, vec!["done"]);
        }
        other => panic!("{other:?}"),
    }
}

#[test]
fn long_response_is_split_and_whole() {
    let mut s = ResponseStream::new(DraftMode::Compact, true, 0);
    let long = "слово ".repeat(2000);
    s.on_line(&long, None, 0);
    let (html, plain) = answer(&s);
    assert!(html.len() > 1);
    assert!(html.iter().all(|part| part.chars().count() <= 4096));
    assert_eq!(html.concat(), long);
    assert_eq!(plain.concat(), long);
}

#[test]
fn parts_are_delivered_by_their_place() {
    assert_eq!(delivery(0, true), Delivery::EditOrPlain);
    assert_eq!(delivery(0, false), Delivery::Send);
    assert_eq!(delivery(1, true), Delivery::SendOrUnformatted);
    assert_eq!(delivery(5, false), Delivery::SendOrUnformatted);
}

#[test]
fn answer_is_the_same_without_events() {
    let lines = ["ab", "ab", "c\nATTACH_FI", "LE:/x\nab", "ab", "d"];
    let mut with = ResponseStream::new(DraftMode::Compact, true, 0);
    let mut without = ResponseStream::new(DraftMode::Compact, true, 0);
    for line in lines {
        with.on_line("e", Some(tool("pending")), 0);
        let a = with.on_line(line, None, 0);
        let b = without.on_line(line, None, 0);
        assert_eq!((a.hints, a.typing), (b.hints, b.typing));
        with.on_line("e", Some(tool("completed")), 0);
    }
    with.flush();
    without.flush();
    assert_eq!(answer(&with).1, answer(&without).1);
}
