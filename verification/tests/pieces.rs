use toodles::attachments::{
    attachment_candidates, could_be_attachment_fragment, extract_attachment_hint,
    extract_text_and_attachments, normalize_attachment_line, resolve_attachment_path,
    sanitize_path_hint,
};
use toodles::chunks::{split_text, tail_text, truncate};
use toodles::config::DraftMode;
use toodles::markdown::{
    escape_html, find_closing, find_double_closing, find_link, format_inline,
    markdown_to_telegram_html,
};
use toodles::paths::{expand_tilde, is_absolute, join_path, same_path};
use toodles::progress::{
    apply_stream_event, build_draft_text, format_progress_message, push_activity, recent_activity,
    StreamEventPayload,
};
use toodles::text;

fn event(kind: &str, status: Option<&str>, text: Option<&str>) -> StreamEventPayload {
    StreamEventPayload {
        kind: kind.to_string(),
        status: status.map(|s| s.to_string()),
        text: text.map(|t| t.to_string()),
    }
}

#[test]
fn white_space_is_that_of_char() {
    for n in 0..=0x10ffffu32 {
        if let Some(c) = char::from_u32(n) {
            assert_eq!(text::is_whitespace(c), c.is_whitespace(), "{n:x}");
        }
    }
}

#[test]
fn text_helpers_agree_with_str() {
    for s in ["", "  a b\u{2003}c \n", "\u{a0}", "no space", "ж\tж "] {
        assert_eq!(text::trim(s), s.trim());
        let words: Vec<&str> = s.split_whitespace().collect();
        assert_eq!(text::compact_line(s), words.join(" "));
    }
    for (s, p) in [("stop:1", "stop:"), ("stop", "stop:"), ("", ""), ("añb", "añ")] {
        assert_eq!(text::starts_with(s, p), s.starts_with(p));
        assert_eq!(text::strip_prefix(s, p).as_deref(), s.strip_prefix(p));
        let chars: Vec<char> = s.chars().collect();
        assert_eq!(
            text::find(&chars, p),
            s.find(p).map(|i| s[..i].chars().count())
        );
    }
    let mut out = String::new();
    for n in [i64::MIN, -10, -1, 0, 9, 10, i64::MAX] {
        text::push_signed(&mut out, n);
        out.push(' ');
    }
    text::push_decimal(&mut out, u128::MAX);
    assert_eq!(
        out,
        format!(
            "{} -10 -1 0 9 10 {} {}",
            i64::MIN,
            i64::MAX,
            u128::MAX
        )
    );
}

#[test]
fn numbers_are_read_back() {
    for n in [0, 1, 42, u64::MAX] {
        let mut out = String::new();
        text::push_decimal(&mut out, n as u128);
        let chars: Vec<char> = out.chars().collect();
        assert_eq!(text::parse_unsigned(&chars, u64::MAX), Some(n));
    }
    let chars: Vec<char> = "256".chars().collect();
    assert_eq!(text::parse_unsigned(&chars, 255), None);
}

#[test]
fn paths_are_joined_and_compared() {
    assert!(is_absolute("/a") && !is_absolute("a") && !is_absolute(""));
    assert_eq!(join_path("/a", "b"), "/a/b");
    assert_eq!(join_path("/a/", "b"), "/a/b");
    assert_eq!(join_path("/a", "/b"), "/b");
    assert_eq!(join_path("", "b"), "b");
    assert_eq!(join_path("a", ""), "a/");
    assert_eq!(expand_tilde("~", Some("/h")), "/h");
    assert_eq!(expand_tilde("~/x", Some("/h")), "/h/x");
    assert_eq!(expand_tilde("~x", Some("/h")), "~x");
    assert_eq!(expand_tilde("~/x", None), "~/x");
    let spellings = ["/a/b", "/a//b/", "/a/./b", "a/b", "./a/b", "/a/b/..", "", ".", "/", "//"];
    for a in spellings {
        for b in spellings {
            assert_eq!(
                same_path(a, b),
                std::path::Path::new(a) == std::path::Path::new(b),
                "{a} {b}"
            );
        }
    }
}

#[test]
fn directives_are_found_in_many_shapes() {
    for line in [
        "ATTACH_FILE:/tmp/a.txt",
        "  - ATTACH_FILE: `/tmp/a.txt`",
        "• see ATTACH_FILE:\"/tmp/a.txt\"",
        "ATTACH_FILE:file:///tmp/a.txt),",
        "/tmp/a.txt",
        "* '/tmp/a.txt'",
    ] {
        assert_eq!(extract_attachment_hint(line).as_deref(), Some("/tmp/a.txt"), "{line}");
    }
    for line in ["", "   ", "just words", "nodots", "ATTACH_FILE:"] {
        assert_eq!(extract_attachment_hint(line), None, "{line}");
    }
    assert_eq!(normalize_attachment_line(" -   x "), "x");
    assert_eq!(sanitize_path_hint("'`file://x`'.."), "x`'");
    assert_eq!(sanitize_path_hint("`file://x`"), "x");
}

#[test]
fn fragments_may_become_directives() {
    for line in ["A", "ATTACH_FILE:", "ATTACH_FILE:/x", "- ATT", "text ATTACH_"] {
        assert!(could_be_attachment_fragment(line), "{line}");
    }
    for line in ["", "B", "attach", "FILE:"] {
        assert!(!could_be_attachment_fragment(line), "{line}");
    }
}

#[test]
fn output_is_separated_from_directives() {
    let r = extract_text_and_attachments("", "a\r\nATTACH_FILE:/x\nb");
    assert_eq!(r.clean_text, "a\r\nb");
    assert_eq!(r.hints, vec!["/x"]);
    assert_eq!(r.tail, "");
    let r = extract_text_and_attachments("ATTA", "CH_FILE:/y\n");
    assert_eq!(r.hints, vec!["/y"]);
    assert_eq!(r.clean_text, "\n");
    let r = extract_text_and_attachments("", "plain\n");
    assert_eq!(r.clean_text, "plain\n\n");
}

#[test]
fn files_are_looked_for_in_three_places() {
    assert_eq!(
        attachment_candidates("~/f", Some("/h"), Some("/w"), Some("/c")),
        vec!["/h/f", "/h/f", "/h/f"]
    );
    assert_eq!(
        attachment_candidates("f", Some("/h"), Some("/w"), Some("/c")),
        vec!["/w/f", "/c/f"]
    );
    assert_eq!(attachment_candidates("f", None, None, None), Vec::<String>::new());
    let places = vec!["a".to_string(), "b".to_string()];
    assert_eq!(resolve_attachment_path(&places, &vec![false, true]), Some(1));
    assert_eq!(resolve_attachment_path(&places, &vec![true, true]), Some(0));
    assert_eq!(resolve_attachment_path(&places, &vec![false, false]), None);
}

#[test]
fn events_become_activity() {
    let mut log = Vec::new();
    for e in [
        event("tool", Some("pending"), Some("ls")),
        event("tool", Some("pending"), Some("cat")),
        event("tool", Some("completed"), None),
        event("tool", None, None),
        event("plan", Some("in_progress"), None),
        event("plan", Some("completed"), None),
        event("plan", None, None),
        event("usage", None, Some("x")),
        event("error", None, Some(" bad \n thing ")),
        event("error", None, None),
        event("other", None, Some("x")),
    ] {
        apply_stream_event(&mut log, e);
    }
    assert_eq!(
        log,
        vec![
            "🛠 Использую инструменты",
            "✅ Инструменты выполнены",
            "🛠 Работаю с инструментами",
            "🔄 Выполняю шаг плана",
            "✅ Шаг плана завершен",
            "📋 Обновляю план",
            "⚠️ bad thing",
        ]
    );
}

#[test]
fn log_keeps_the_newest_lines() {
    let mut log = Vec::new();
    for i in 0..30 {
        push_activity(&mut log, &format!(" line {i} "));
        push_activity(&mut log, &format!("line {i}"));
        push_activity(&mut log, "  ");
    }
    assert_eq!(log.len(), 20);
    assert_eq!(log[0], "line 10");
    assert_eq!(log[19], "line 29");
    assert_eq!(recent_activity(&log, 2), vec!["line 28", "line 29"]);
    assert_eq!(recent_activity(&log, 99).len(), 20);
    assert_eq!(format_progress_message(&log, 1), "🧠 Ход работы\n• line 29");
}

#[test]
fn drafts_show_work_and_text() {
    let log = vec!["one".to_string(), "two".to_string()];
    assert_eq!(
        build_draft_text("text", &log, 0, DraftMode::Verbose),
        "🧠 Ход работы\n• one\n• two\n\ntext"
    );
    assert_eq!(build_draft_text("text", &log, 0, DraftMode::Compact), "text");
    assert_eq!(
        build_draft_text(" \n", &vec![], 5, DraftMode::Verbose),
        "⏳ Все еще работаю…"
    );
    let long = "x".repeat(3000);
    assert_eq!(
        build_draft_text(&long, &vec![], 0, DraftMode::Compact),
        format!("…{}", "x".repeat(2799))
    );
}

#[test]
fn texts_are_shortened() {
    assert_eq!(truncate("abcdef", 6), "abcdef");
    assert_eq!(truncate("abcdef", 5), "abcd…");
    assert_eq!(truncate("abcdef", 1), "…");
    assert_eq!(truncate("", 0), "");
    assert_eq!(tail_text("abcdef", 6), "abcdef");
    assert_eq!(tail_text("abcdef", 3), "…ef");
    assert_eq!(tail_text("abcdef", 0), "…");
}

#[test]
fn chunks_end_at_newlines_where_they_can() {
    let text = format!("{}\n{}", "a".repeat(4000), "b".repeat(4000));
    let chunks = split_text(&text);
    assert_eq!(chunks.len(), 2);
    assert_eq!(chunks[0], format!("{}\n", "a".repeat(4000)));
    assert_eq!(chunks[1], "b".repeat(4000));
}

#[test]
fn markers_are_found() {
    let chars: Vec<char> = "a*b**c](d)".chars().collect();
    assert_eq!(find_closing(&chars, 0, '*'), Some(1));
    assert_eq!(find_closing(&chars, 2, '*'), Some(3));
    assert_eq!(find_closing(&chars, 5, '*'), None);
    assert_eq!(find_closing(&chars, 99, '*'), None);
    assert_eq!(find_double_closing(&chars, 0, '*'), Some(3));
    assert_eq!(find_double_closing(&chars, 4, '*'), None);
    assert_eq!(find_link(&chars, 0), Some((6, 8, 9)));
    assert_eq!(find_link(&chars, 7), None);
    let open: Vec<char> = "[a](b".chars().collect();
    assert_eq!(find_link(&open, 0), None);
}

#[test]
fn inline_formats_need_their_ends() {
    assert_eq!(format_inline("a * b `c * d [e"), "a * b `c * d [e");
    assert_eq!(format_inline("``"), "<code></code>");
    assert_eq!(format_inline("**a*"), "<i></i>a*");
    assert_eq!(format_inline("`*a*`"), "<code>*a*</code>");
}

#[test]
fn escaped_text_has_no_tags() {
    let escaped = escape_html("<b>&amp;</b>");
    assert_eq!(escaped, "&lt;b&gt;&amp;amp;&lt;/b&gt;");
    assert!(!escaped.contains('<') && !escaped.contains('>'));
    assert_eq!(
        escaped,
        "<b>&amp;</b>"
            .replace('&', "&amp;")
            .replace('<', "&lt;")
            .replace('>', "&gt;")
    );
}

#[test]
fn markdown_keeps_plain_text_and_ends_without_newline() {
    assert_eq!(markdown_to_telegram_html("plain words"), "plain words");
    assert_eq!(markdown_to_telegram_html("a\n\n\n"), "a");
    assert!(markdown_to_telegram_html("x\n```py\ny").ends_with("</code></pre>"));
}
