use toodles::chunks::{split_text, truncate_text};
use toodles::markdown::{escape_html, markdown_to_telegram_html};

#[test]
fn truncate_short_text_unchanged() {
    let text = "Hello, world!";
    assert_eq!(truncate_text(text), text);
}

#[test]
fn truncate_empty_string() {
    assert_eq!(truncate_text(""), "");
}

#[test]
fn truncate_exactly_at_limit() {
    let text: String = "a".repeat(4096);
    assert_eq!(truncate_text(&text), text);
}

#[test]
fn truncate_over_limit() {
    let text: String = "a".repeat(5000);
    let result = truncate_text(&text);
    assert!(result.ends_with('…'));
    assert_eq!(result.chars().count(), 4096);
}

#[test]
fn truncate_unicode_characters() {
    let text: String = "🎉".repeat(5000);
    let result = truncate_text(&text);
    assert!(result.ends_with('…'));
    assert_eq!(result.chars().count(), 4096);
}

// ── split_text ───────────────────────────────────────────────────────

#[test]
fn split_short_text_single_chunk() {
    let text = "Hello, world!";
    let chunks = split_text(text);
    assert_eq!(chunks.len(), 1);
    assert_eq!(chunks[0], text);
}

#[test]
fn split_empty_string_single_chunk() {
    let chunks = split_text("");
    assert_eq!(chunks.len(), 1);
    assert_eq!(chunks[0], "");
}

#[test]
fn split_exactly_at_limit_single_chunk() {
    let text: String = "a".repeat(4096);
    let chunks = split_text(&text);
    assert_eq!(chunks.len(), 1);
}

#[test]
fn split_over_limit_multiple_chunks() {
    // Build text with newlines so splitting is predictable.
    let line = "abcdefghij\n"; // 11 chars per line
    let text: String = line.repeat(500); // 5500 chars
    let chunks = split_text(&text);
    assert!(chunks.len() >= 2);
    for chunk in &chunks {
        assert!(chunk.chars().count() <= 4096);
    }
    // Joined chunks should reconstruct the original text.
    let rejoined: String = chunks.concat();
    assert_eq!(rejoined, text);
}

#[test]
fn split_unicode_text() {
    let line = "Привет мир!\n"; // ~12 chars per line
    let text: String = line.repeat(500);
    let chunks = split_text(&text);
    assert!(chunks.len() >= 2);
    for chunk in &chunks {
        assert!(chunk.chars().count() <= 4096);
    }
    let rejoined: String = chunks.concat();
    assert_eq!(rejoined, text);
}

#[test]
fn split_no_newlines_hard_splits() {
    let text: String = "a".repeat(5000);
    let chunks = split_text(&text);
    assert_eq!(chunks.len(), 2);
    assert_eq!(chunks[0].chars().count(), 4096);
    assert_eq!(chunks[1].chars().count(), 904);
}

#[test]
fn test_markdown_headers() {
    assert_eq!(markdown_to_telegram_html("# Header 1"), "\n<b>Header 1</b>");
    assert_eq!(
        markdown_to_telegram_html("## Header 2"),
        "\n<b>Header 2</b>"
    );
    assert_eq!(
        markdown_to_telegram_html("### Header 3"),
        "\n<b>Header 3</b>"
    );
    // Escaping HTML in headers
    assert_eq!(
        markdown_to_telegram_html("# Header <1>"),
        "\n<b>Header &lt;1&gt;</b>"
    );
}

#[test]
fn test_markdown_bullet_lists() {
    assert_eq!(
        markdown_to_telegram_html("* Item 1\n* Item 2"),
        "• Item 1\n• Item 2"
    );
    assert_eq!(
        markdown_to_telegram_html("- Item 1\n- Item 2"),
        "• Item 1\n• Item 2"
    );
}

#[test]
fn test_markdown_numbered_lists() {
    assert_eq!(
        markdown_to_telegram_html("1. Item 1\n2. Item 2"),
        "1. Item 1\n2. Item 2"
    );
    // Inline formatting maintained in numbered lists
    assert_eq!(
        markdown_to_telegram_html("1. **Bold** item"),
        "1. <b>Bold</b> item"
    );
}

#[test]
fn test_markdown_fenced_code_blocks() {
    assert_eq!(
        markdown_to_telegram_html("```\nfn main() {}\n```"),
        "<pre><code>fn main() {}\n</code></pre>"
    );
    assert_eq!(
        markdown_to_telegram_html("```rust\nfn main() {}\n```"),
        "<pre><code class=\"language-rust\">fn main() {}\n</code></pre>"
    );
    // Escaping in code blocks but no inline formatting
    assert_eq!(
        markdown_to_telegram_html("```\n**bold** <tag>\n```"),
        "<pre><code>**bold** &lt;tag&gt;\n</code></pre>"
    );

    // Unclosed code block
    assert_eq!(
        markdown_to_telegram_html("```\nfn main() {}"),
        "<pre><code>fn main() {}\n</code></pre>"
    );
}

#[test]
fn test_markdown_html_escaping() {
    assert_eq!(
        markdown_to_telegram_html("<hello> & \"world\""),
        "&lt;hello&gt; &amp; \"world\""
    );
    assert_eq!(
        markdown_to_telegram_html("Me & You > Them"),
        "Me &amp; You &gt; Them"
    );
}

#[test]
fn test_markdown_inline_formatting() {
    assert_eq!(
        markdown_to_telegram_html("This is **bold**"),
        "This is <b>bold</b>"
    );
    assert_eq!(
        markdown_to_telegram_html("This is *italic*"),
        "This is <i>italic</i>"
    );
    assert_eq!(
        markdown_to_telegram_html("This is `code`"),
        "This is <code>code</code>"
    );
    assert_eq!(
        markdown_to_telegram_html("This is a [link](https://example.com)"),
        "This is a <a href=\"https://example.com\">link</a>"
    );

    // Mixed
    assert_eq!(
        markdown_to_telegram_html("This is **bold** and *italic*"),
        "This is <b>bold</b> and <i>italic</i>"
    );
}

// ── split_text edge cases ───────────────────────────────────────────

#[test]
fn split_three_or_more_chunks() {
    // 12288 chars > 3 * 4096 → should produce 3 chunks.
    let line = "abcdefghij\n"; // 11 chars
    let text: String = line.repeat(1200); // 13200 chars
    let chunks = split_text(&text);
    assert!(chunks.len() >= 3);
    for chunk in &chunks {
        assert!(chunk.chars().count() <= 4096);
    }
    let rejoined: String = chunks.concat();
    assert_eq!(rejoined, text);
}

#[test]
fn split_preserves_newline_boundaries() {
    // Ensure we split at \n, not in the middle of a word.
    let mut text = String::new();
    for i in 0..500 {
        text.push_str(&format!("Line number {i:04}\n"));
    }
    let chunks = split_text(&text);
    for chunk in &chunks {
        // Every chunk (except possibly the last) should end with \n.
        if chunk.chars().count() == 4096 {
            // Hard-split case — allowed but unlikely with these short lines.
        } else if !chunk.is_empty() {
            assert!(
                chunk.ends_with('\n') || chunk == chunks.last().unwrap(),
                "Expected chunk to end with newline"
            );
        }
    }
}

#[test]
fn split_emoji_heavy_text() {
    // Each emoji is 1 char but 4 bytes — verify char-based splitting.
    let line = "🎉🎊🎈🎁🎀\n"; // 6 chars per line
    let text: String = line.repeat(1000); // 6000 chars
    let chunks = split_text(&text);
    assert!(chunks.len() >= 2);
    for chunk in &chunks {
        assert!(chunk.chars().count() <= 4096);
    }
    let rejoined: String = chunks.concat();
    assert_eq!(rejoined, text);
}

#[test]
fn split_single_long_line_with_trailing() {
    // Long first line + short second line.
    let long = "x".repeat(4000);
    let text = format!("{long}\nshort line");
    let chunks = split_text(&text);
    assert_eq!(chunks.len(), 1); // 4011 chars < 4096
}

#[test]
fn split_exactly_double_limit() {
    let text: String = "a".repeat(8192);
    let chunks = split_text(&text);
    assert_eq!(chunks.len(), 2);
    assert_eq!(chunks[0].len(), 4096);
    assert_eq!(chunks[1].len(), 4096);
}

// ── markdown edge cases ─────────────────────────────────────────────

#[test]
fn test_markdown_horizontal_rules() {
    assert_eq!(markdown_to_telegram_html("---"), "—————");
    assert_eq!(markdown_to_telegram_html("***"), "—————");
}

#[test]
fn test_markdown_blockquotes() {
    assert_eq!(
        markdown_to_telegram_html("> This is a quote"),
        "<blockquote>This is a quote</blockquote>"
    );
    assert_eq!(
        markdown_to_telegram_html("> **Bold** quote"),
        "<blockquote><b>Bold</b> quote</blockquote>"
    );
}

#[test]
fn test_markdown_empty_string() {
    assert_eq!(markdown_to_telegram_html(""), "");
}

#[test]
fn test_markdown_mixed_content() {
    let md = "# Title\n\nSome **bold** text\n\n- Item 1\n- Item 2\n\n```\ncode\n```\n\n> Quote";
    let html = markdown_to_telegram_html(md);
    assert!(html.contains("<b>Title</b>"));
    assert!(html.contains("<b>bold</b>"));
    assert!(html.contains("• Item 1"));
    assert!(html.contains("<pre><code>"));
    assert!(html.contains("<blockquote>"));
}

#[test]
fn test_markdown_link_with_special_chars() {
    assert_eq!(
        markdown_to_telegram_html("[docs](https://example.com/path?a=1&b=2)"),
        "<a href=\"https://example.com/path?a=1\u{26}amp;b=2\">docs</a>"
    );
}

#[test]
fn test_escape_html_all_entities() {
    assert_eq!(escape_html("<>&"), "&lt;&gt;&amp;");
    assert_eq!(escape_html("normal text"), "normal text");
    assert_eq!(escape_html(""), "");
    assert_eq!(escape_html("a < b > c & d"), "a &lt; b &gt; c &amp; d");
}

#[test]
fn test_markdown_dash_bullet_with_inline() {
    assert_eq!(
        markdown_to_telegram_html("- **bold** item"),
        "• <b>bold</b> item"
    );
}

/// The tags that are open behind a text, or nothing where one is closed out of turn or
/// holds a bracket.
fn open_tags(html: &str) -> Option<Vec<String>> {
    let mut open: Vec<String> = Vec::new();
    let mut rest = html;
    while let Some(start) = rest.find(['<', '>']) {
        let tail = rest[start..].strip_prefix('<')?;
        let end = tail.find('>')?;
        let tag = &tail[..end];
        if tag.contains('<') {
            return None;
        }
        match tag.strip_prefix('/') {
            Some(name) => {
                if open.pop()? != name {
                    return None;
                }
            }
            None => open.push(tag.split(' ').next().unwrap_or("").to_string()),
        }
        rest = &tail[end + 1..];
    }
    Some(open)
}

#[test]
fn rendered_markdown_closes_its_tags_in_turn() {
    for md in [
        "# <Title> **x** *y*\n- `a<b` [l](https://e.org/?a=1&b=\"2\")\n> **q**",
        "**a *b** c*",
        "*a **b* c**",
        "`x **y` z**",
        "[**a**](b) **[c](d)**",
        "```rust\n<b>\n",
        "```\n```\n```\n",
        "text\n```c++\n# no title\n```\n# title",
        "1. one\n2. **two\n> three",
        "< > & </b> <i>",
    ] {
        let html = markdown_to_telegram_html(md);
        assert_eq!(open_tags(&html), Some(vec![]), "{md} -> {html}");
    }
}

#[test]
fn escaping_is_undone_and_joins() {
    for (a, b) in [("&lt;", "<b>&amp;"), ("&", "lt;"), ("", ">&>"), ("a&g", "t;")] {
        let whole = format!("{a}{b}");
        let html = escape_html(&whole);
        assert_eq!(html, escape_html(a) + &escape_html(b));
        let back = html
            .replace("&lt;", "<")
            .replace("&gt;", ">")
            .replace("&amp;", "&");
        assert_eq!(back, whole);
    }
}
