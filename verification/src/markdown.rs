//! Markdown, as gemini-cli emits it, rendered in the HTML that Telegram accepts.
use vstd::prelude::*;
use vstd::string::*;

use crate::chunks;
use crate::text;
use crate::text::CharClass;

verus! {

/// What stands for `c` in HTML text.
pub open spec fn entity(c: char) -> Seq<char> {
    if c == '&' {
        "&amp;"@
    } else if c == '<' {
        "&lt;"@
    } else if c == '>' {
        "&gt;"@
    } else {
        seq![c]
    }
}

/// `s` with every `&`, `<` and `>` replaced by its entity.
pub open spec fn escaped(s: Seq<char>) -> Seq<char>
    decreases s.len(),
{
    if s.len() == 0 {
        Seq::empty()
    } else {
        escaped(s.drop_last()) + entity(s.last())
    }
}

/// Escape HTML special characters.
pub fn escape_html(text: &str) -> (r: String)
    ensures
        r@ == escaped(text@),
{
    let v = text::chars_of(text);
    escape_chars(v.as_slice())
}

fn escape_chars(v: &[char]) -> (r: String)
    ensures
        r@ == escaped(v@),
{
    let mut r = String::new();
    let mut i: usize = 0;
    while i < v.len()
        invariant
            i <= v@.len(),
            r@ == escaped(v@.take(i as int)),
        decreases v.len() - i,
    {
        let c: char = v[i];
        if c == '&' {
            r.append("&amp;");
        } else if c == '<' {
            r.append("&lt;");
        } else if c == '>' {
            r.append("&gt;");
        } else {
            r.push(c);
        }
        assert(v@.take(i + 1).drop_last() =~= v@.take(i as int));
        assert(v@.take(i + 1).last() == c);
        assert(r@ =~= escaped(v@.take(i as int)) + entity(c));
        i += 1;
    }
    assert(v@.take(i as int) =~= v@);
    r
}

/// The first `marker` at or behind `start`.
pub fn find_closing(chars: &[char], start: usize, marker: char) -> (r: Option<usize>)
    ensures
        match r {
            Some(i) => text::index_from(chars@, start as int, marker) == Some(i as int),
            None => text::index_from(chars@, start as int, marker) is None,
        },
        r matches Some(i) ==> start <= i < chars@.len(),
{
    let mut i: usize = start;
    while i < chars.len()
        invariant
            start <= i,
            start <= chars@.len() ==> i <= chars@.len(),
            text::index_from(chars@, start as int, marker) == text::index_from(
                chars@,
                i as int,
                marker,
            ),
        decreases chars.len() - i,
    {
        if chars[i] == marker {
            return Some(i);
        }
        i += 1;
    }
    None
}

/// The least index from `from` on at which `c` stands twice in a row in `s`.
pub open spec fn pair_from(s: Seq<char>, from: int, c: char) -> Option<int>
    decreases s.len() - from,
{
    if from < 0 || from + 1 >= s.len() {
        None
    } else if s[from] == c && s[from + 1] == c {
        Some(from)
    } else {
        pair_from(s, from + 1, c)
    }
}

/// What `pair_from` finds, without the recursion.
pub proof fn lemma_pair_from(s: Seq<char>, from: int, c: char)
    requires
        0 <= from,
    ensures
        match pair_from(s, from, c) {
            Some(i) => from <= i && i + 1 < s.len() && s[i] == c && s[i + 1] == c && (forall|j: int|
                from <= j < i ==> !(s[j] == c && #[trigger] s[j + 1] == c)),
            None => forall|j: int|
                from <= j && j + 1 < s.len() ==> !(s[j] == c && #[trigger] s[j + 1] == c),
        },
    decreases s.len() - from,
{
    if from + 1 < s.len() && !(s[from] == c && s[from + 1] == c) {
        lemma_pair_from(s, from + 1, c);
    }
}

/// The first two `marker`s in a row at or behind `start`.
pub fn find_double_closing(chars: &[char], start: usize, marker: char) -> (r: Option<usize>)
    ensures
        match r {
            Some(i) => pair_from(chars@, start as int, marker) == Some(i as int),
            None => pair_from(chars@, start as int, marker) is None,
        },
        r matches Some(i) ==> start <= i && i + 1 < chars@.len(),
{
    let n: usize = chars.len();
    let mut i: usize = start;
    while n > 0 && i < n - 1
        invariant
            start <= i,
            n == chars@.len(),
            pair_from(chars@, start as int, marker) == pair_from(chars@, i as int, marker),
        decreases n - i,
    {
        if chars[i] == marker && chars[i + 1] == marker {
            return Some(i);
        }
        i += 1;
    }
    None
}

/// Where the parts of a link `[text](url)` that opens at `i` end: the text, the
/// opening bracket of the url, and the url.
pub open spec fn link_at(s: Seq<char>, i: int) -> Option<(int, int, int)> {
    match text::index_from(s, i + 1, ']') {
        Some(text_end) => if text_end + 1 < s.len() && s[text_end + 1] == '(' {
            match text::index_from(s, text_end + 2, ')') {
                Some(url_end) => Some((text_end, text_end + 2, url_end)),
                None => None,
            }
        } else {
            None
        },
        None => None,
    }
}

/// The parts of a link `[text](url)` that opens at `start`: where the text ends,
/// and where the url begins and ends.
pub fn find_link(chars: &[char], start: usize) -> (r: Option<(usize, usize, usize)>)
    requires
        start < usize::MAX,
    ensures
        match r {
            Some((a, b, c)) => link_at(chars@, start as int) == Some(
                (a as int, b as int, c as int),
            ),
            None => link_at(chars@, start as int) is None,
        },
        r matches Some((a, b, c)) ==> start < a < b <= c < chars@.len(),
{
    let n: usize = chars.len();
    match find_closing(chars, start + 1, ']') {
        Some(text_end) => {
            if text_end + 1 < n && chars[text_end + 1] == '(' {
                let url_start: usize = text_end + 2;
                match find_closing(chars, url_start, ')') {
                    Some(url_end) => Some((text_end, url_start, url_end)),
                    None => None,
                }
            } else {
                None
            }
        },
        None => None,
    }
}

/// Where the code span that opens at `i` ends.
pub open spec fn code_end(s: Seq<char>, i: int) -> Option<int> {
    if s[i] == '`' {
        text::index_from(s, i + 1, '`')
    } else {
        None
    }
}

/// Where the bold span that opens at `i` ends.
pub open spec fn bold_end(s: Seq<char>, i: int) -> Option<int> {
    if i + 1 < s.len() && s[i] == '*' && s[i + 1] == '*' {
        pair_from(s, i + 2, '*')
    } else {
        None
    }
}

/// Where the italic span that opens at `i` ends.
pub open spec fn italic_end(s: Seq<char>, i: int) -> Option<int> {
    if s[i] == '*' && i + 1 < s.len() && s[i + 1] != ' ' {
        text::index_from(s, i + 1, '*')
    } else {
        None
    }
}

/// Where the parts of the link that opens at `i` end.
pub open spec fn link_end(s: Seq<char>, i: int) -> Option<(int, int, int)> {
    if s[i] == '[' {
        link_at(s, i)
    } else {
        None
    }
}

/// The HTML of the inline Markdown in `s` from the index `i` on: code spans, bold
/// text, italic text and links; a marker that nothing closes stands for itself.
pub open spec fn inline_from(s: Seq<char>, i: int) -> Seq<char>
    decreases s.len() - i,
{
    if i < 0 || i >= s.len() {
        Seq::empty()
    } else if let Some(e) = code_end(s, i) {
        proof {
            text::lemma_index_from(s, i + 1, '`');
        }
        "<code>"@ + s.subrange(i + 1, e) + "</code>"@ + inline_from(s, e + 1)
    } else if let Some(e) = bold_end(s, i) {
        proof {
            lemma_pair_from(s, i + 2, '*');
        }
        "<b>"@ + s.subrange(i + 2, e) + "</b>"@ + inline_from(s, e + 2)
    } else if let Some(e) = italic_end(s, i) {
        proof {
            text::lemma_index_from(s, i + 1, '*');
        }
        "<i>"@ + s.subrange(i + 1, e) + "</i>"@ + inline_from(s, e + 1)
    } else if let Some((text_end, url_start, url_end)) = link_end(s, i) {
        proof {
            text::lemma_index_from(s, i + 1, ']');
            text::lemma_index_from(s, text_end + 2, ')');
        }
        "<a href=\""@ + s.subrange(url_start, url_end) + "\">"@ + s.subrange(i + 1, text_end)
            + "</a>"@ + inline_from(s, url_end + 1)
    } else {
        seq![s[i]] + inline_from(s, i + 1)
    }
}

/// Apply inline Markdown formatting to already-escaped HTML text.
/// Handles: **bold**, *italic*, `code`, [text](url)
pub fn format_inline(text: &str) -> (r: String)
    ensures
        r@ == inline_from(text@, 0),
{
    let chars = text::chars_of(text);
    let len: usize = chars.len();
    let mut r = String::new();
    let mut i: usize = 0;
    assert(r@ + inline_from(chars@, 0) =~= inline_from(chars@, 0));
    while i < len
        invariant
            i <= len == chars@.len(),
            r@ + inline_from(chars@, i as int) == inline_from(chars@, 0),
        decreases len - i,
    {
        i = push_span(&mut r, chars.as_slice(), i);
    }
    assert(r@ =~= inline_from(chars@, 0));
    r
}

/// Renders what stands at `i` and returns the index behind it.
fn push_span(out: &mut String, chars: &[char], i: usize) -> (next: usize)
    requires
        i < chars@.len(),
    ensures
        i < next <= chars@.len(),
        final(out)@ + inline_from(chars@, next as int) == old(out)@ + inline_from(
            chars@,
            i as int,
        ),
{
    let len: usize = chars.len();
    let ghost s = chars@;
    let ghost before = out@;
    if chars[i] == '`' {
        if let Some(end) = find_closing(chars, i + 1, '`') {
            out.append("<code>");
            let code = text::sub_chars(chars, i + 1, end);
            text::push_chars(out, code.as_slice());
            out.append("</code>");
            assert(out@ + inline_from(s, end + 1) =~= before + ("<code>"@ + s.subrange(
                i + 1,
                end as int,
            ) + "</code>"@ + inline_from(s, end + 1)));
            return end + 1;
        }
    }
    assert(code_end(s, i as int) is None);
    if i + 1 < len && chars[i] == '*' && chars[i + 1] == '*' {
        if let Some(end) = find_double_closing(chars, i + 2, '*') {
            out.append("<b>");
            let inner = text::sub_chars(chars, i + 2, end);
            text::push_chars(out, inner.as_slice());
            out.append("</b>");
            assert(out@ + inline_from(s, end + 2) =~= before + ("<b>"@ + s.subrange(
                i + 2,
                end as int,
            ) + "</b>"@ + inline_from(s, end + 2)));
            return end + 2;
        }
    }
    assert(bold_end(s, i as int) is None);
    if chars[i] == '*' && i + 1 < len && chars[i + 1] != ' ' {
        if let Some(end) = find_closing(chars, i + 1, '*') {
            out.append("<i>");
            let inner = text::sub_chars(chars, i + 1, end);
            text::push_chars(out, inner.as_slice());
            out.append("</i>");
            assert(out@ + inline_from(s, end + 1) =~= before + ("<i>"@ + s.subrange(
                i + 1,
                end as int,
            ) + "</i>"@ + inline_from(s, end + 1)));
            return end + 1;
        }
    }
    assert(italic_end(s, i as int) is None);
    if chars[i] == '[' {
        if let Some((text_end, url_start, url_end)) = find_link(chars, i) {
            out.append("<a href=\"");
            let url = text::sub_chars(chars, url_start, url_end);
            text::push_chars(out, url.as_slice());
            out.append("\">");
            let label = text::sub_chars(chars, i + 1, text_end);
            text::push_chars(out, label.as_slice());
            out.append("</a>");
            assert(out@ + inline_from(s, url_end + 1) =~= before + ("<a href=\""@ + s.subrange(
                url_start as int,
                url_end as int,
            ) + "\">"@ + s.subrange(i + 1, text_end as int) + "</a>"@ + inline_from(
                s,
                url_end + 1,
            )));
            return url_end + 1;
        }
    }
    assert(link_end(s, i as int) is None);
    out.push(chars[i]);
    assert(out@ + inline_from(s, i + 1) =~= before + (seq![s[i as int]] + inline_from(s, i + 1)));
    i + 1
}

/// The HTML of escaped inline Markdown.
pub open spec fn inline_html(s: Seq<char>) -> Seq<char> {
    inline_from(escaped(s), 0)
}

/// The HTML of a heading.
pub open spec fn heading_html(s: Seq<char>) -> Seq<char> {
    "\n<b>"@ + escaped(text::trimmed(s)) + "</b>"@
}

/// The HTML of one line outside code blocks: headings become bold text, bullets
/// get a dot, rules a dash, quotes a block; everything else, numbered lists among
/// it, is inline Markdown.
pub open spec fn line_html(l: Seq<char>) -> Seq<char> {
    if let Some(rest) = text::after_prefix(l, "### "@) {
        heading_html(rest)
    } else if let Some(rest) = text::after_prefix(l, "## "@) {
        heading_html(rest)
    } else if let Some(rest) = text::after_prefix(l, "# "@) {
        heading_html(rest)
    } else if let Some(rest) = text::after_prefix(l, "* "@) {
        "• "@ + inline_html(rest)
    } else if let Some(rest) = text::after_prefix(l, "- "@) {
        "• "@ + inline_html(rest)
    } else if text::trimmed(l) == "---"@ || text::trimmed(l) == "***"@ {
        "—————"@
    } else if let Some(rest) = text::after_prefix(l, "> "@) {
        "<blockquote>"@ + inline_html(rest) + "</blockquote>"@
    } else {
        inline_html(l)
    }
}

fn push_heading(out: &mut String, rest: &[char])
    ensures
        final(out)@ == old(out)@ + heading_html(rest@),
{
    let t = text::trim_chars(rest);
    let e = escape_chars(t.as_slice());
    out.append("\n<b>");
    out.append(e.as_str());
    out.append("</b>");
    assert(out@ =~= old(out)@ + heading_html(rest@));
}

fn push_inline(out: &mut String, rest: &[char])
    ensures
        final(out)@ == old(out)@ + inline_html(rest@),
{
    let e = escape_chars(rest);
    let f = format_inline(e.as_str());
    out.append(f.as_str());
}

/// Appends the HTML of one line outside code blocks.
fn push_line(out: &mut String, l: &[char])
    ensures
        final(out)@ == old(out)@ + line_html(l@),
{
    if let Some(rest) = text::strip_prefix_chars(l, "### ") {
        push_heading(out, rest.as_slice());
    } else if let Some(rest) = text::strip_prefix_chars(l, "## ") {
        push_heading(out, rest.as_slice());
    } else if let Some(rest) = text::strip_prefix_chars(l, "# ") {
        push_heading(out, rest.as_slice());
    } else if let Some(rest) = text::strip_prefix_chars(l, "* ") {
        out.append("• ");
        push_inline(out, rest.as_slice());
        assert(out@ =~= old(out)@ + line_html(l@));
    } else if let Some(rest) = text::strip_prefix_chars(l, "- ") {
        out.append("• ");
        push_inline(out, rest.as_slice());
        assert(out@ =~= old(out)@ + line_html(l@));
    } else {
        let t = text::trim_chars(l);
        let rule = text::string_of(t.as_slice());
        if text::same_text(rule.as_str(), "---") || text::same_text(rule.as_str(), "***") {
            out.append("—————");
        } else if let Some(rest) = text::strip_prefix_chars(l, "> ") {
            out.append("<blockquote>");
            push_inline(out, rest.as_slice());
            out.append("</blockquote>");
            assert(out@ =~= old(out)@ + line_html(l@));
        } else {
            push_inline(out, l);
        }
    }
}

/// Whether a line opens or closes a fenced code block.
pub open spec fn is_fence(l: Seq<char>) -> bool {
    text::begins_with(l, "```"@)
}

/// The language that a fence names.
pub open spec fn fence_language(l: Seq<char>) -> Seq<char> {
    text::trimmed(text::strip_leading(l, CharClass::Backtick))
}

/// The HTML that opens a code block.
pub open spec fn open_block(l: Seq<char>) -> Seq<char> {
    let language = fence_language(l);
    if language.len() == 0 {
        "<pre><code>"@
    } else {
        "<pre><code class=\"language-"@ + language + "\">"@
    }
}

/// The HTML of lines, the first of which stands in a code block if `in_code`. A
/// block that no fence closes is closed at the end.
pub open spec fn lines_html(lines: Seq<Seq<char>>, in_code: bool) -> Seq<char>
    decreases lines.len(),
{
    if lines.len() == 0 {
        if in_code {
            "</code></pre>\n"@
        } else {
            Seq::empty()
        }
    } else {
        let l = lines[0];
        let rest = lines.skip(1);
        if is_fence(l) {
            if in_code {
                "</code></pre>\n"@ + lines_html(rest, false)
            } else {
                open_block(l) + lines_html(rest, true)
            }
        } else if in_code {
            escaped(l).push('\n') + lines_html(rest, true)
        } else {
            line_html(l).push('\n') + lines_html(rest, false)
        }
    }
}

/// The HTML of a Markdown text.
pub open spec fn markdown_html(md: Seq<char>) -> Seq<char> {
    text::strip_trailing(lines_html(text::split_on(md, '\n'), false), CharClass::Newline)
}

fn push_open_block(out: &mut String, l: &[char])
    ensures
        final(out)@ == old(out)@ + open_block(l@),
{
    let inner = text::without_leading(l, CharClass::Backtick);
    let language = text::trim_chars(inner.as_slice());
    if language.len() == 0 {
        out.append("<pre><code>");
    } else {
        out.append("<pre><code class=\"language-");
        text::push_chars(out, language.as_slice());
        out.append("\">");
        assert(out@ =~= old(out)@ + open_block(l@));
    }
}

/// Convert standard Markdown (as emitted by gemini-cli) to Telegram-compatible HTML.
///
/// Telegram supports: `<b>`, `<i>`, `<code>`, `<pre>`, `<a href="...">`, `<s>`, `<blockquote>`.
/// Standard Markdown features like `###` headers or `* ` bullets are NOT supported natively.
pub fn markdown_to_telegram_html(md: &str) -> (r: String)
    ensures
        r@ == markdown_html(md@),
{
    let v = text::chars_of(md);
    let lines = text::split(v.as_slice(), '\n');
    let fence = text::chars_of("```");
    let ghost all = text::texts(lines@);
    let mut out = String::new();
    let mut in_code: bool = false;
    let mut i: usize = 0;
    assert(all.skip(0) =~= all);
    assert(out@ + lines_html(all, false) =~= lines_html(all, false));
    while i < lines.len()
        invariant
            i <= lines@.len(),
            all == text::texts(lines@),
            fence@ == "```"@,
            out@ + lines_html(all.skip(i as int), in_code) == lines_html(all, false),
        decreases lines.len() - i,
    {
        let l = lines[i].as_slice();
        let ghost before = out@;
        let ghost rest = all.skip(i as int);
        assert(rest[0] == l@);
        assert(rest.skip(1) =~= all.skip(i + 1));
        if text::matches_at(l, fence.as_slice(), 0) {
            if in_code {
                out.append("</code></pre>\n");
                in_code = false;
                assert(out@ + lines_html(all.skip(i + 1), false) =~= before + (
                "</code></pre>\n"@ + lines_html(all.skip(i + 1), false)));
            } else {
                push_open_block(&mut out, l);
                in_code = true;
                assert(out@ + lines_html(all.skip(i + 1), true) =~= before + (open_block(l@)
                    + lines_html(all.skip(i + 1), true)));
            }
        } else if in_code {
            let e = escape_chars(l);
            out.append(e.as_str());
            out.push('\n');
            assert(out@ + lines_html(all.skip(i + 1), true) =~= before + (escaped(l@).push('\n')
                + lines_html(all.skip(i + 1), true)));
        } else {
            push_line(&mut out, l);
            out.push('\n');
            assert(out@ + lines_html(all.skip(i + 1), false) =~= before + (line_html(l@).push('\n')
                + lines_html(all.skip(i + 1), false)));
        }
        i += 1;
    }
    assert(all.skip(i as int).len() == 0);
    if in_code {
        out.append("</code></pre>\n");
    }
    assert(out@ =~= lines_html(all, false));
    let o = text::chars_of(out.as_str());
    let t = text::without_trailing(o.as_slice(), CharClass::Newline);
    text::string_of(t.as_slice())
}

/// `s` with every `c` replaced by `with`.
pub open spec fn replaced(s: Seq<char>, c: char, with: Seq<char>) -> Seq<char>
    decreases s.len(),
{
    if s.len() == 0 {
        Seq::empty()
    } else {
        replaced(s.drop_last(), c, with) + if s.last() == c {
            with
        } else {
            seq![s.last()]
        }
    }
}

proof fn lemma_replaced_concat(a: Seq<char>, b: Seq<char>, c: char, with: Seq<char>)
    ensures
        replaced(a + b, c, with) == replaced(a, c, with) + replaced(b, c, with),
    decreases b.len(),
{
    if b.len() == 0 {
        assert(a + b =~= a);
        assert(replaced(a, c, with) + replaced(b, c, with) =~= replaced(a, c, with));
    } else {
        lemma_replaced_concat(a, b.drop_last(), c, with);
        assert((a + b).drop_last() =~= a + b.drop_last());
        let end = if b.last() == c {
            with
        } else {
            seq![b.last()]
        };
        assert(replaced(a, c, with) + replaced(b.drop_last(), c, with) + end =~= replaced(
            a,
            c,
            with,
        ) + replaced(b, c, with));
    }
}

proof fn lemma_replaced_absent(s: Seq<char>, c: char, with: Seq<char>)
    requires
        !s.contains(c),
    ensures
        replaced(s, c, with) == s,
    decreases s.len(),
{
    if s.len() > 0 {
        assert(s[s.len() - 1] != c);
        assert forall|i: int| 0 <= i < s.drop_last().len() implies s.drop_last()[i] != c by {
            assert(s[i] != c);
        }
        lemma_replaced_absent(s.drop_last(), c, with);
        assert(s.drop_last().push(s.last()) =~= s);
    }
}

proof fn lemma_replaced_one(x: char, c: char, with: Seq<char>)
    ensures
        replaced(seq![x], c, with) == if x == c {
            with
        } else {
            seq![x]
        },
{
    let s = seq![x];
    assert(s.drop_last() =~= Seq::<char>::empty());
    assert(replaced(s.drop_last(), c, with) =~= Seq::<char>::empty());
    assert(Seq::<char>::empty() + with =~= with);
    assert(Seq::<char>::empty() + seq![x] =~= seq![x]);
}

/// Escaping in one pass is replacing `&` by `&amp;`, then `<` by `&lt;`, then `>`
/// by `&gt;`.
pub proof fn law_escaping_is_replacing(s: Seq<char>)
    ensures
        escaped(s) == replaced(
            replaced(replaced(s, '&', "&amp;"@), '<', "&lt;"@),
            '>',
            "&gt;"@,
        ),
    decreases s.len(),
{
    let a = |t: Seq<char>| replaced(t, '&', "&amp;"@);
    let b = |t: Seq<char>| replaced(t, '<', "&lt;"@);
    if s.len() > 0 {
        let init = s.drop_last();
        let x = s.last();
        law_escaping_is_replacing(init);
        assert(s =~= init + seq![x]);
        lemma_replaced_concat(init, seq![x], '&', "&amp;"@);
        lemma_replaced_concat(a(init), a(seq![x]), '<', "&lt;"@);
        lemma_replaced_concat(b(a(init)), b(a(seq![x])), '>', "&gt;"@);
        reveal_strlit("&amp;");
        reveal_strlit("&lt;");
        lemma_replaced_one(x, '&', "&amp;"@);
        if x == '&' {
            lemma_replaced_absent("&amp;"@, '<', "&lt;"@);
            lemma_replaced_absent("&amp;"@, '>', "&gt;"@);
        } else {
            lemma_replaced_one(x, '<', "&lt;"@);
            if x == '<' {
                lemma_replaced_absent("&lt;"@, '>', "&gt;"@);
            } else {
                lemma_replaced_one(x, '>', "&gt;"@);
            }
        }
    }
}

/// Escaped text opens and closes no tag.
pub proof fn law_escaped_has_no_tags(s: Seq<char>)
    ensures
        !escaped(s).contains('<'),
        !escaped(s).contains('>'),
    decreases s.len(),
{
    if s.len() > 0 {
        law_escaped_has_no_tags(s.drop_last());
        let a = escaped(s.drop_last());
        let e = entity(s.last());
        reveal_strlit("&amp;");
        reveal_strlit("&lt;");
        reveal_strlit("&gt;");
        assert forall|i: int| 0 <= i < escaped(s).len() implies escaped(s)[i] != '<' && escaped(
            s,
        )[i] != '>' by {
            if i < a.len() {
                assert(escaped(s)[i] == a[i]);
                assert(a.contains(a[i]));
            } else {
                assert(escaped(s)[i] == e[i - a.len()]);
            }
        }
    }
}

proof fn lemma_escaped_front(s: Seq<char>)
    requires
        s.len() > 0,
    ensures
        escaped(s) == entity(s[0]) + escaped(s.skip(1)),
    decreases s.len(),
{
    if s.len() == 1 {
        assert(s.skip(1) =~= Seq::<char>::empty());
        assert(s.drop_last() =~= Seq::<char>::empty());
        assert(escaped(s) =~= entity(s[0]) + escaped(s.skip(1)));
    } else {
        lemma_escaped_front(s.drop_last());
        assert(s.drop_last().skip(1) =~= s.skip(1).drop_last());
        assert(s.skip(1).last() == s.last());
        assert(escaped(s) =~= entity(s[0]) + escaped(s.skip(1)));
    }
}

/// Escaping loses nothing: different texts have different escaped forms.
pub proof fn law_escaping_is_injective(a: Seq<char>, b: Seq<char>)
    requires
        escaped(a) == escaped(b),
    ensures
        a == b,
    decreases a.len(),
{
    reveal_strlit("&amp;");
    reveal_strlit("&lt;");
    reveal_strlit("&gt;");
    if a.len() > 0 {
        lemma_escaped_front(a);
    }
    if b.len() > 0 {
        lemma_escaped_front(b);
    }
    if a.len() > 0 && b.len() > 0 {
        let x = entity(a[0]);
        let y = entity(b[0]);
        assert(escaped(a)[0] == x[0]);
        assert(escaped(b)[0] == y[0]);
        if x[0] == '&' {
            assert(escaped(a)[1] == x[1]);
            assert(escaped(b)[1] == y[1]);
        }
        assert(a[0] == b[0]);
        assert(escaped(a.skip(1)) =~= escaped(a).skip(x.len() as int));
        assert(escaped(b.skip(1)) =~= escaped(b).skip(y.len() as int));
        law_escaping_is_injective(a.skip(1), b.skip(1));
        assert(a =~= seq![a[0]] + a.skip(1));
        assert(b =~= seq![b[0]] + b.skip(1));
    } else {
        if a.len() > 0 {
            assert(escaped(a).len() > 0);
        }
        if b.len() > 0 {
            assert(escaped(b).len() > 0);
        }
        assert(a =~= b);
    }
}

/// Escaping two texts one after the other is escaping them together.
pub proof fn law_escaping_joins(a: Seq<char>, b: Seq<char>)
    ensures
        escaped(a + b) == escaped(a) + escaped(b),
    decreases b.len(),
{
    if b.len() == 0 {
        assert(a + b =~= a);
        assert(escaped(a) + escaped(b) =~= escaped(a));
    } else {
        law_escaping_joins(a, b.drop_last());
        assert((a + b).drop_last() =~= a + b.drop_last());
        assert(escaped(a) + escaped(b.drop_last()) + entity(b.last()) =~= escaped(a) + escaped(b));
    }
}

/// `s` with every `pattern` replaced by `with`, from the left on.
pub open spec fn pattern_replaced(s: Seq<char>, pattern: Seq<char>, with: Seq<char>) -> Seq<char>
    decreases s.len(),
{
    if s.len() == 0 {
        Seq::empty()
    } else if pattern.len() > 0 && text::begins_with(s, pattern) {
        with + pattern_replaced(s.skip(pattern.len() as int), pattern, with)
    } else {
        seq![s[0]] + pattern_replaced(s.skip(1), pattern, with)
    }
}

/// What stands for `c` when some characters are still escaped and others not.
pub open spec fn partial_entity(c: char, lt: bool, gt: bool, amp: bool) -> Seq<char> {
    if (c == '<' && lt) || (c == '>' && gt) || (c == '&' && amp) {
        entity(c)
    } else {
        seq![c]
    }
}

/// `s` with some characters escaped and others not.
pub open spec fn partially_escaped(s: Seq<char>, lt: bool, gt: bool, amp: bool) -> Seq<char>
    decreases s.len(),
{
    if s.len() == 0 {
        Seq::empty()
    } else {
        partial_entity(s[0], lt, gt, amp) + partially_escaped(s.skip(1), lt, gt, amp)
    }
}

proof fn lemma_all_escaped(s: Seq<char>)
    ensures
        partially_escaped(s, true, true, true) == escaped(s),
        partially_escaped(s, false, false, false) == s,
    decreases s.len(),
{
    if s.len() > 0 {
        lemma_all_escaped(s.skip(1));
        lemma_escaped_front(s);
        assert(seq![s[0]] + s.skip(1) =~= s);
    }
}

/// Nothing is replaced in front of a text where the pattern does not begin.
proof fn lemma_pattern_absent(e: Seq<char>, rest: Seq<char>, pattern: Seq<char>, with: Seq<char>)
    requires
        pattern.len() > 1,
        e.len() > 0,
        e[0] != pattern[0] || (e.len() > 1 && e[1] != pattern[1]),
        forall|i: int| 1 <= i < e.len() ==> e[i] != pattern[0],
    ensures
        pattern_replaced(e + rest, pattern, with) == e + pattern_replaced(rest, pattern, with),
    decreases e.len(),
{
    let s = e + rest;
    if text::begins_with(s, pattern) {
        assert(s.subrange(0, pattern.len() as int)[0] == e[0]);
        if e.len() > 1 {
            assert(s.subrange(0, pattern.len() as int)[1] == e[1]);
        }
    }
    assert(s.skip(1) =~= e.skip(1) + rest);
    if e.len() > 1 {
        lemma_pattern_absent(e.skip(1), rest, pattern, with);
        assert(seq![e[0]] + (e.skip(1) + pattern_replaced(rest, pattern, with)) =~= e
            + pattern_replaced(rest, pattern, with));
    } else {
        assert(e.skip(1) + rest =~= rest);
        assert(seq![e[0]] =~= e);
    }
}

proof fn lemma_pattern_present(rest: Seq<char>, pattern: Seq<char>, with: Seq<char>)
    requires
        pattern.len() > 0,
    ensures
        pattern_replaced(pattern + rest, pattern, with) == with + pattern_replaced(
            rest,
            pattern,
            with,
        ),
{
    let s = pattern + rest;
    assert(s.subrange(0, pattern.len() as int) =~= pattern);
    assert(s.skip(pattern.len() as int) =~= rest);
}

proof fn lemma_unescape_lt(s: Seq<char>)
    ensures
        pattern_replaced(partially_escaped(s, true, true, true), "&lt;"@, seq!['<'])
            == partially_escaped(s, false, true, true),
    decreases s.len(),
{
    reveal_strlit("&amp;");
    reveal_strlit("&lt;");
    reveal_strlit("&gt;");
    if s.len() > 0 {
        let rest = partially_escaped(s.skip(1), true, true, true);
        lemma_unescape_lt(s.skip(1));
        if s[0] == '<' {
            lemma_pattern_present(rest, "&lt;"@, seq!['<']);
        } else {
            lemma_pattern_absent(entity(s[0]), rest, "&lt;"@, seq!['<']);
        }
    }
}

proof fn lemma_unescape_gt(s: Seq<char>)
    ensures
        pattern_replaced(partially_escaped(s, false, true, true), "&gt;"@, seq!['>'])
            == partially_escaped(s, false, false, true),
    decreases s.len(),
{
    reveal_strlit("&amp;");
    reveal_strlit("&gt;");
    if s.len() > 0 {
        let rest = partially_escaped(s.skip(1), false, true, true);
        lemma_unescape_gt(s.skip(1));
        if s[0] == '>' {
            lemma_pattern_present(rest, "&gt;"@, seq!['>']);
        } else {
            lemma_pattern_absent(
                partial_entity(s[0], false, true, true),
                rest,
                "&gt;"@,
                seq!['>'],
            );
        }
    }
}

proof fn lemma_unescape_amp(s: Seq<char>)
    ensures
        pattern_replaced(partially_escaped(s, false, false, true), "&amp;"@, seq!['&'])
            == partially_escaped(s, false, false, false),
    decreases s.len(),
{
    reveal_strlit("&amp;");
    if s.len() > 0 {
        let rest = partially_escaped(s.skip(1), false, false, true);
        lemma_unescape_amp(s.skip(1));
        if s[0] == '&' {
            lemma_pattern_present(rest, "&amp;"@, seq!['&']);
        } else {
            lemma_pattern_absent(seq![s[0]], rest, "&amp;"@, seq!['&']);
        }
    }
}

/// Escaping is undone by replacing `&lt;` by `<`, then `&gt;` by `>`, then `&amp;`
/// by `&`.
pub proof fn law_escaping_is_undone(s: Seq<char>)
    ensures
        pattern_replaced(
            pattern_replaced(
                pattern_replaced(escaped(s), "&lt;"@, seq!['<']),
                "&gt;"@,
                seq!['>'],
            ),
            "&amp;"@,
            seq!['&'],
        ) == s,
{
    lemma_all_escaped(s);
    lemma_unescape_lt(s);
    lemma_unescape_gt(s);
    lemma_unescape_amp(s);
}

/// The HTML ends with no newline.
pub proof fn law_no_trailing_newline(md: Seq<char>)
    ensures
        markdown_html(md).len() > 0 ==> markdown_html(md).last() != '\n',
{
    text::lemma_strip_trailing(lines_html(text::split_on(md, '\n'), false), CharClass::Newline);
}

/// Whether a code block is open behind the lines, the first of which stands in one
/// if `in_code`.
pub open spec fn open_after(lines: Seq<Seq<char>>, in_code: bool) -> bool
    decreases lines.len(),
{
    if lines.len() == 0 {
        in_code
    } else {
        open_after(lines.skip(1), in_code != is_fence(lines[0]))
    }
}

proof fn lemma_closing_fence(lines: Seq<Seq<char>>, in_code: bool)
    requires
        open_after(lines, in_code),
    ensures
        lines_html(lines.push("```"@), in_code) == lines_html(lines, in_code),
    decreases lines.len(),
{
    let more = lines.push("```"@);
    if lines.len() == 0 {
        assert("```"@.subrange(0, "```"@.len() as int) =~= "```"@);
        assert(is_fence(more[0]));
        assert(more.skip(1) =~= Seq::<Seq<char>>::empty());
        assert(lines_html(more.skip(1), false) =~= Seq::<char>::empty());
        assert(lines_html(more, in_code) =~= "</code></pre>\n"@);
    } else {
        assert(more.skip(1) =~= lines.skip(1).push("```"@));
        lemma_closing_fence(lines.skip(1), in_code != is_fence(lines[0]));
    }
}

proof fn lemma_split_append(s: Seq<char>, c: char, last: Seq<char>)
    requires
        !last.contains(c),
    ensures
        text::split_on(s.push(c) + last, c) == text::split_on(s, c).push(last),
    decreases s.len(),
{
    let t = s.push(c) + last;
    text::lemma_index_from(s, 0, c);
    text::lemma_index_from(t, 0, c);
    match text::index_from(s, 0, c) {
        Some(i) => {
            assert forall|j: int| 0 <= j < i implies t[j] != c by {
                assert(t[j] == s[j]);
            }
            assert(t[i] == c);
            assert(text::index_from(t, 0, c) == Some(i));
            assert(t.take(i) =~= s.take(i));
            assert(t.skip(i + 1) =~= s.skip(i + 1).push(c) + last);
            lemma_split_append(s.skip(i + 1), c, last);
            assert(text::split_on(t, c) =~= text::split_on(s, c).push(last));
        },
        None => {
            let n = s.len() as int;
            assert(t[n] == c);
            assert forall|j: int| 0 <= j < n implies t[j] != c by {
                assert(t[j] == s[j]);
            }
            assert(text::index_from(t, 0, c) == Some(n));
            assert(t.take(n) =~= s);
            assert(t.skip(n + 1) =~= last);
            text::lemma_index_from(last, 0, c);
            assert(text::index_from(last, 0, c) is None) by {
                if let Some(k) = text::index_from(last, 0, c) {
                    assert(last[k] == c);
                }
            }
            assert(text::split_on(last, c) =~= seq![last]);
            assert(text::split_on(t, c) =~= text::split_on(s, c).push(last));
        },
    }
}

/// A code block that the text leaves open is rendered as if a fence closed it.
pub proof fn law_open_block_is_closed(md: Seq<char>)
    requires
        open_after(text::split_on(md, '\n'), false),
    ensures
        markdown_html(md.push('\n') + "```"@) == markdown_html(md),
{
    reveal_strlit("```");
    lemma_split_append(md, '\n', "```"@);
    lemma_closing_fence(text::split_on(md, '\n'), false);
}

/// Whether `c` has a meaning in Markdown or HTML.
pub open spec fn is_markup(c: char) -> bool {
    ||| c == '`' || c == '*' || c == '[' || c == '#' || c == '-' || c == '>'
    ||| c == '<' || c == '&' || c == '\n'
}

proof fn lemma_escaped_plain(s: Seq<char>)
    requires
        forall|i: int| 0 <= i < s.len() ==> !is_markup(#[trigger] s[i]),
    ensures
        escaped(s) == s,
    decreases s.len(),
{
    if s.len() > 0 {
        assert(!is_markup(s[s.len() - 1]));
        assert forall|i: int| 0 <= i < s.drop_last().len() implies !is_markup(
            #[trigger] s.drop_last()[i],
        ) by {
            assert(s.drop_last()[i] == s[i]);
        }
        lemma_escaped_plain(s.drop_last());
        assert(s.drop_last() + seq![s.last()] =~= s);
    }
}

proof fn lemma_inline_plain(s: Seq<char>, i: int)
    requires
        0 <= i <= s.len(),
        forall|j: int| 0 <= j < s.len() ==> !is_markup(#[trigger] s[j]),
    ensures
        inline_from(s, i) == s.skip(i),
    decreases s.len() - i,
{
    if i < s.len() {
        assert(!is_markup(s[i]));
        lemma_inline_plain(s, i + 1);
        assert(seq![s[i]] + s.skip(i + 1) =~= s.skip(i));
    } else {
        assert(s.skip(i) =~= Seq::<char>::empty());
    }
}

/// A text without markup is rendered as it is.
pub proof fn law_plain_text_is_kept(s: Seq<char>)
    requires
        forall|i: int| 0 <= i < s.len() ==> !is_markup(#[trigger] s[i]),
    ensures
        markdown_html(s) == s,
{
    reveal_strlit("### ");
    reveal_strlit("## ");
    reveal_strlit("# ");
    reveal_strlit("* ");
    reveal_strlit("- ");
    reveal_strlit("> ");
    reveal_strlit("```");
    reveal_strlit("---");
    reveal_strlit("***");
    text::lemma_index_from(s, 0, '\n');
    assert(text::index_from(s, 0, '\n') is None) by {
        if let Some(i) = text::index_from(s, 0, '\n') {
            assert(is_markup(s[i]));
        }
    }
    let lines = text::split_on(s, '\n');
    assert(lines =~= seq![s]);
    assert(lines.skip(1) =~= Seq::<Seq<char>>::empty());
    assert forall|p: Seq<char>| p.len() > 0 && is_markup(p[0]) implies !#[trigger] text::begins_with(
        s,
        p,
    ) by {
        if text::begins_with(s, p) {
            assert(s.subrange(0, p.len() as int)[0] == p[0]);
            assert(is_markup(s[0]));
        }
    }
    let t = text::trimmed(s);
    text::lemma_strip_leading(s, CharClass::Space);
    text::lemma_strip_trailing(text::strip_leading(s, CharClass::Space), CharClass::Space);
    assert(t.len() > 0 ==> !is_markup(t[0])) by {
        if t.len() > 0 {
            let n = s.len() - text::strip_leading(s, CharClass::Space).len();
            assert(t[0] == s[n]);
        }
    }
    assert(t != "---"@ && t != "***"@);
    lemma_escaped_plain(s);
    lemma_inline_plain(s, 0);
    assert(s.skip(0) =~= s);
    assert(line_html(s) == s);
    assert(lines_html(lines.skip(1), false) =~= Seq::<char>::empty());
    assert(lines_html(lines, false) =~= s.push('\n'));
    let all = s.push('\n');
    assert(all.drop_last() =~= s);
    assert(s.len() > 0 ==> s.last() != '\n') by {
        if s.len() > 0 {
            assert(!is_markup(s[s.len() - 1]));
        }
    }
    assert(text::strip_trailing(s, CharClass::Newline) == s);
}

/// What stands behind a text is rendered as it would be alone.
proof fn lemma_index_behind(x: Seq<char>, b: Seq<char>, from: int, c: char)
    requires
        0 <= from,
    ensures
        text::index_from(x + b, x.len() + from, c) == match text::index_from(b, from, c) {
            Some(i) => Some(x.len() + i),
            None => None,
        },
    decreases b.len() - from,
{
    if from < b.len() {
        assert((x + b)[x.len() + from] == b[from]);
        if b[from] != c {
            lemma_index_behind(x, b, from + 1, c);
        }
    }
}

proof fn lemma_pair_behind(x: Seq<char>, b: Seq<char>, from: int, c: char)
    requires
        0 <= from,
    ensures
        pair_from(x + b, x.len() + from, c) == match pair_from(b, from, c) {
            Some(i) => Some(x.len() + i),
            None => None,
        },
    decreases b.len() - from,
{
    if from + 1 < b.len() {
        assert((x + b)[x.len() + from] == b[from]);
        assert((x + b)[x.len() + from + 1] == b[from + 1]);
        if !(b[from] == c && b[from + 1] == c) {
            lemma_pair_behind(x, b, from + 1, c);
        }
    }
}

proof fn lemma_inline_behind(x: Seq<char>, b: Seq<char>, i: int)
    requires
        0 <= i,
    ensures
        inline_from(x + b, x.len() + i) == inline_from(b, i),
    decreases b.len() - i,
{
    let s = x + b;
    let n = x.len() as int;
    if i < b.len() {
        assert(s[n + i] == b[i]);
        if i + 1 < b.len() {
            assert(s[n + i + 1] == b[i + 1]);
        }
        lemma_index_behind(x, b, i + 1, '`');
        lemma_pair_behind(x, b, i + 2, '*');
        lemma_index_behind(x, b, i + 1, '*');
        lemma_index_behind(x, b, i + 1, ']');
        text::lemma_index_from(b, i + 1, '`');
        lemma_pair_from(b, i + 2, '*');
        text::lemma_index_from(b, i + 1, '*');
        text::lemma_index_from(b, i + 1, ']');
        if let Some(e) = code_end(b, i) {
            assert(s.subrange(n + i + 1, n + e) =~= b.subrange(i + 1, e));
            lemma_inline_behind(x, b, e + 1);
        } else if let Some(e) = bold_end(b, i) {
            assert(s.subrange(n + i + 2, n + e) =~= b.subrange(i + 2, e));
            lemma_inline_behind(x, b, e + 2);
        } else if let Some(e) = italic_end(b, i) {
            assert(s.subrange(n + i + 1, n + e) =~= b.subrange(i + 1, e));
            lemma_inline_behind(x, b, e + 1);
        } else {
            if let Some(t) = text::index_from(b, i + 1, ']') {
                if t + 1 < b.len() {
                    assert(s[n + t + 1] == b[t + 1]);
                }
                lemma_index_behind(x, b, t + 2, ')');
                text::lemma_index_from(b, t + 2, ')');
            }
            if let Some((t, u, e)) = link_end(b, i) {
                assert(link_end(s, n + i) == Some((n + t, n + u, n + e)));
                assert(s.subrange(n + u, n + e) =~= b.subrange(u, e));
                assert(s.subrange(n + i + 1, n + t) =~= b.subrange(i + 1, t));
                lemma_inline_behind(x, b, e + 1);
            } else {
                assert(link_end(s, n + i) is None);
                lemma_inline_behind(x, b, i + 1);
            }
        }
    }
}

/// Whether a text holds none of the characters that open inline Markdown.
pub open spec fn opens_nothing(s: Seq<char>) -> bool {
    forall|i: int| 0 <= i < s.len() ==> #[trigger] s[i] != '`' && s[i] != '*' && s[i] != '['
}

proof fn lemma_inline_skips(a: Seq<char>, b: Seq<char>)
    requires
        opens_nothing(a),
    ensures
        inline_from(a + b, 0) == a + inline_from(b, 0),
    decreases a.len(),
{
    if a.len() == 0 {
        assert(a + b =~= b);
        assert(a + inline_from(b, 0) =~= inline_from(b, 0));
    } else {
        let s = a + b;
        let rest = a.skip(1) + b;
        assert(s[0] == a[0]);
        assert(s =~= seq![a[0]] + rest);
        lemma_inline_behind(seq![a[0]], rest, 0);
        assert forall|i: int| 0 <= i < a.skip(1).len() implies #[trigger] a.skip(1)[i] != '`'
            && a.skip(1)[i] != '*' && a.skip(1)[i] != '[' by {
            assert(a.skip(1)[i] == a[i + 1]);
        }
        lemma_inline_skips(a.skip(1), b);
        assert(inline_from(s, 0) =~= seq![a[0]] + inline_from(s, 1));
        assert(a + inline_from(b, 0) =~= seq![a[0]] + (a.skip(1) + inline_from(b, 0)));
    }
}

/// The first of a character that a text has not itself is the one behind it.
proof fn lemma_index_just_behind(front: Seq<char>, c: char, rest: Seq<char>, from: int)
    requires
        0 <= from <= front.len(),
        forall|i: int| from <= i < front.len() ==> front[i] != c,
    ensures
        text::index_from(front.push(c) + rest, from, c) == Some(front.len() as int),
{
    let s = front.push(c) + rest;
    text::lemma_index_from(s, from, c);
    assert(s[front.len() as int] == c);
    assert forall|i: int| from <= i < front.len() implies s[i] != c by {
        assert(s[i] == front[i]);
    }
}

proof fn lemma_code(c: Seq<char>, b: Seq<char>)
    requires
        !c.contains('`'),
    ensures
        inline_from(seq!['`'] + c + seq!['`'] + b, 0) == "<code>"@ + c + "</code>"@ + inline_from(
            b,
            0,
        ),
{
    let front = seq!['`'] + c;
    let s = front + seq!['`'] + b;
    assert(s =~= front.push('`') + b);
    assert forall|i: int| 1 <= i < front.len() implies front[i] != '`' by {
        assert(front[i] == c[i - 1]);
    }
    lemma_index_just_behind(front, '`', b, 1);
    let e = front.len() as int;
    assert(s[0] == '`');
    assert(s.subrange(1, e) =~= c);
    assert(s =~= front.push('`') + b);
    lemma_inline_behind(front.push('`'), b, 0);
}

proof fn lemma_bold(c: Seq<char>, b: Seq<char>)
    requires
        !c.contains('*'),
    ensures
        inline_from(seq!['*', '*'] + c + seq!['*', '*'] + b, 0) == "<b>"@ + c + "</b>"@
            + inline_from(b, 0),
{
    let front = seq!['*', '*'] + c;
    let s = front + seq!['*', '*'] + b;
    let e = front.len() as int;
    assert(s[0] == '*' && s[1] == '*');
    assert(s[e] == '*' && s[e + 1] == '*');
    lemma_pair_from(s, 2, '*');
    assert forall|j: int| 2 <= j < e implies s[j] != '*' by {
        assert(s[j] == c[j - 2]);
    }
    assert(pair_from(s, 2, '*') == Some(e)) by {
        match pair_from(s, 2, '*') {
            Some(i) => {
                if i > e {
                    assert(s[e] == '*' && s[e + 1] == '*');
                }
                if i < e {
                    assert(s[i] != '*');
                }
            },
            None => {
                assert(s[e] == '*' && s[e + 1] == '*');
            },
        }
    }
    assert(s.subrange(2, e) =~= c);
    let x = front + seq!['*', '*'];
    assert(s =~= x + b);
    lemma_inline_behind(x, b, 0);
}

proof fn lemma_italic(c: Seq<char>, b: Seq<char>)
    requires
        c.len() > 0,
        c[0] != ' ',
        !c.contains('*'),
    ensures
        inline_from(seq!['*'] + c + seq!['*'] + b, 0) == "<i>"@ + c + "</i>"@ + inline_from(b, 0),
{
    let front = seq!['*'] + c;
    let s = front + seq!['*'] + b;
    assert(s =~= front.push('*') + b);
    assert forall|i: int| 1 <= i < front.len() implies front[i] != '*' by {
        assert(front[i] == c[i - 1]);
    }
    lemma_index_just_behind(front, '*', b, 1);
    let e = front.len() as int;
    assert(s[0] == '*');
    assert(s[1] == c[0]);
    assert(c.contains(c[0]));
    assert(s.subrange(1, e) =~= c);
    lemma_inline_behind(front.push('*'), b, 0);
}

proof fn lemma_link(t: Seq<char>, u: Seq<char>, b: Seq<char>)
    requires
        !t.contains(']'),
        !u.contains(')'),
    ensures
        inline_from(seq!['['] + t + seq![']', '('] + u + seq![')'] + b, 0) == "<a href=\""@ + u
            + "\">"@ + t + "</a>"@ + inline_from(b, 0),
{
    let s = seq!['['] + t + seq![']', '('] + u + seq![')'] + b;
    let front = seq!['['] + t;
    let behind = seq!['('] + u + seq![')'] + b;
    assert(s =~= front.push(']') + behind);
    assert forall|i: int| 1 <= i < front.len() implies front[i] != ']' by {
        assert(front[i] == t[i - 1]);
    }
    lemma_index_just_behind(front, ']', behind, 1);
    let e = front.len() as int;
    assert(s[0] == '[');
    assert(s[e + 1] == '(');
    let x = front + seq![']', '('];
    let whole = x + u;
    assert(s =~= whole.push(')') + b);
    assert forall|i: int| e + 2 <= i < whole.len() implies whole[i] != ')' by {
        assert(whole[i] == u[i - x.len()]);
    }
    lemma_index_just_behind(whole, ')', b, e + 2);
    let f = whole.len() as int;
    assert(link_end(s, 0) == Some((e, e + 2, f)));
    assert(s.subrange(e + 2, f) =~= u);
    assert(s.subrange(1, e) =~= t);
    lemma_inline_behind(whole.push(')'), b, 0);
}

/// Escaping neither makes nor takes away characters other than its own.
proof fn lemma_escaped_holds(s: Seq<char>, c: char)
    requires
        c != '&' && c != '<' && c != '>' && c != ';' && !('a' <= c <= 'z'),
    ensures
        escaped(s).contains(c) == s.contains(c),
    decreases s.len(),
{
    if s.len() > 0 {
        let init = s.drop_last();
        let a = escaped(init);
        let e = entity(s.last());
        lemma_escaped_holds(init, c);
        reveal_strlit("&amp;");
        reveal_strlit("&lt;");
        reveal_strlit("&gt;");
        assert(e.contains(c) == (s.last() == c)) by {
            if s.last() == c {
                assert(e[0] == c);
            }
        }
        if s.contains(c) {
            let i = choose|i: int| 0 <= i < s.len() && s[i] == c;
            if i < init.len() {
                assert(init[i] == c);
                let j = choose|j: int| 0 <= j < a.len() && a[j] == c;
                assert((a + e)[j] == c);
            } else {
                let j = choose|j: int| 0 <= j < e.len() && e[j] == c;
                assert((a + e)[a.len() + j] == c);
            }
        }
        if escaped(s).contains(c) {
            let j = choose|j: int| 0 <= j < escaped(s).len() && escaped(s)[j] == c;
            if j < a.len() {
                assert(a[j] == c);
                let i = choose|i: int| 0 <= i < init.len() && init[i] == c;
                assert(s[i] == c);
            } else {
                assert(e[j - a.len()] == c);
                assert(s[s.len() - 1] == c);
            }
        }
    }
}

proof fn lemma_escaped_mark(c: char)
    requires
        c != '&' && c != '<' && c != '>',
    ensures
        escaped(seq![c]) == seq![c],
{
    let s = seq![c];
    assert(s.drop_last() =~= Seq::<char>::empty());
    assert(escaped(s.drop_last()) =~= Seq::<char>::empty());
    assert(escaped(s) =~= s);
}

proof fn lemma_escaped_opens_nothing(a: Seq<char>)
    requires
        opens_nothing(a),
    ensures
        opens_nothing(escaped(a)),
{
    lemma_escaped_holds(a, '`');
    lemma_escaped_holds(a, '*');
    lemma_escaped_holds(a, '[');
    assert(!a.contains('`') && !a.contains('*') && !a.contains('['));
    assert forall|i: int| 0 <= i < escaped(a).len() implies #[trigger] escaped(a)[i] != '`'
        && escaped(a)[i] != '*' && escaped(a)[i] != '[' by {
        assert(escaped(a).contains(escaped(a)[i]));
    }
}

/// Rendering inline Markdown loses nothing: a code span becomes code, what stands before
/// it stays, and what stands behind it is rendered as it would be alone.
pub proof fn law_code_span(a: Seq<char>, c: Seq<char>, b: Seq<char>)
    requires
        opens_nothing(a),
        !c.contains('`'),
    ensures
        inline_html(a + seq!['`'] + c + seq!['`'] + b) == escaped(a) + "<code>"@ + escaped(c)
            + "</code>"@ + inline_html(b),
{
    let q = seq!['`'];
    lemma_escaped_mark('`');
    law_escaping_joins(a + q + c + q, b);
    law_escaping_joins(a + q + c, q);
    law_escaping_joins(a + q, c);
    law_escaping_joins(a, q);
    lemma_escaped_opens_nothing(a);
    lemma_escaped_holds(c, '`');
    let rest = q + escaped(c) + q + escaped(b);
    assert(escaped(a + q + c + q + b) =~= escaped(a) + rest);
    lemma_inline_skips(escaped(a), rest);
    lemma_code(escaped(c), escaped(b));
    assert(escaped(a) + ("<code>"@ + escaped(c) + "</code>"@ + inline_html(b)) =~= escaped(a)
        + "<code>"@ + escaped(c) + "</code>"@ + inline_html(b));
}

/// The same holds of bold text.
pub proof fn law_bold_span(a: Seq<char>, c: Seq<char>, b: Seq<char>)
    requires
        opens_nothing(a),
        !c.contains('*'),
    ensures
        inline_html(a + seq!['*', '*'] + c + seq!['*', '*'] + b) == escaped(a) + "<b>"@ + escaped(c)
            + "</b>"@ + inline_html(b),
{
    let q = seq!['*', '*'];
    lemma_escaped_mark('*');
    law_escaping_joins(seq!['*'], seq!['*']);
    assert(seq!['*'] + seq!['*'] =~= q);
    law_escaping_joins(a + q + c + q, b);
    law_escaping_joins(a + q + c, q);
    law_escaping_joins(a + q, c);
    law_escaping_joins(a, q);
    lemma_escaped_opens_nothing(a);
    lemma_escaped_holds(c, '*');
    let rest = q + escaped(c) + q + escaped(b);
    assert(escaped(a + q + c + q + b) =~= escaped(a) + rest);
    lemma_inline_skips(escaped(a), rest);
    lemma_bold(escaped(c), escaped(b));
    assert(escaped(a) + ("<b>"@ + escaped(c) + "</b>"@ + inline_html(b)) =~= escaped(a) + "<b>"@
        + escaped(c) + "</b>"@ + inline_html(b));
}

/// The same holds of italic text, which does not begin with a space.
pub proof fn law_italic_span(a: Seq<char>, c: Seq<char>, b: Seq<char>)
    requires
        opens_nothing(a),
        c.len() > 0,
        c[0] != ' ',
        !c.contains('*'),
    ensures
        inline_html(a + seq!['*'] + c + seq!['*'] + b) == escaped(a) + "<i>"@ + escaped(c)
            + "</i>"@ + inline_html(b),
{
    let q = seq!['*'];
    lemma_escaped_mark('*');
    law_escaping_joins(a + q + c + q, b);
    law_escaping_joins(a + q + c, q);
    law_escaping_joins(a + q, c);
    law_escaping_joins(a, q);
    lemma_escaped_opens_nothing(a);
    lemma_escaped_holds(c, '*');
    lemma_escaped_front(c);
    reveal_strlit("&amp;");
    reveal_strlit("&lt;");
    reveal_strlit("&gt;");
    assert(escaped(c)[0] == entity(c[0])[0]);
    let rest = q + escaped(c) + q + escaped(b);
    assert(escaped(a + q + c + q + b) =~= escaped(a) + rest);
    lemma_inline_skips(escaped(a), rest);
    lemma_italic(escaped(c), escaped(b));
    assert(escaped(a) + ("<i>"@ + escaped(c) + "</i>"@ + inline_html(b)) =~= escaped(a) + "<i>"@
        + escaped(c) + "</i>"@ + inline_html(b));
}

/// The same holds of a link: its text stands in the tag that holds its address.
pub proof fn law_link_span(a: Seq<char>, t: Seq<char>, u: Seq<char>, b: Seq<char>)
    requires
        opens_nothing(a),
        !t.contains(']'),
        !u.contains(')'),
    ensures
        inline_html(a + seq!['['] + t + seq![']', '('] + u + seq![')'] + b) == escaped(a)
            + "<a href=\""@ + escaped(u) + "\">"@ + escaped(t) + "</a>"@ + inline_html(b),
{
    lemma_escaped_mark('[');
    lemma_escaped_mark(']');
    lemma_escaped_mark('(');
    lemma_escaped_mark(')');
    let m = seq![']', '('];
    law_escaping_joins(seq![']'], seq!['(']);
    assert(seq![']'] + seq!['('] =~= m);
    let x1 = a + seq!['['];
    let x2 = x1 + t;
    let x3 = x2 + m;
    let x4 = x3 + u;
    let x5 = x4 + seq![')'];
    law_escaping_joins(a, seq!['[']);
    law_escaping_joins(x1, t);
    law_escaping_joins(x2, m);
    law_escaping_joins(x3, u);
    law_escaping_joins(x4, seq![')']);
    law_escaping_joins(x5, b);
    lemma_escaped_opens_nothing(a);
    lemma_escaped_holds(t, ']');
    lemma_escaped_holds(u, ')');
    lemma_link_behind(escaped(a), escaped(t), escaped(u), escaped(b));
}

proof fn lemma_link_behind(a: Seq<char>, t: Seq<char>, u: Seq<char>, b: Seq<char>)
    requires
        opens_nothing(a),
        !t.contains(']'),
        !u.contains(')'),
    ensures
        inline_from(a + seq!['['] + t + seq![']', '('] + u + seq![')'] + b, 0) == a + "<a href=\""@
            + u + "\">"@ + t + "</a>"@ + inline_from(b, 0),
{
    let rest = seq!['['] + t + seq![']', '('] + u + seq![')'] + b;
    let html = "<a href=\""@ + u + "\">"@ + t + "</a>"@ + inline_from(b, 0);
    assert(a + seq!['['] + t + seq![']', '('] + u + seq![')'] + b =~= a + rest);
    lemma_inline_skips(a, rest);
    lemma_link(t, u, b);
    assert(a + html =~= a + "<a href=\""@ + u + "\">"@ + t + "</a>"@ + inline_from(b, 0));
}

/// A text that opens nothing is kept, and what stands behind it is rendered as it would
/// be alone.
pub proof fn law_text_before_markup_is_kept(a: Seq<char>, b: Seq<char>)
    requires
        opens_nothing(a),
    ensures
        inline_html(a + b) == escaped(a) + inline_html(b),
        inline_html(a) == escaped(a),
{
    law_escaping_joins(a, b);
    lemma_escaped_opens_nothing(a);
    lemma_inline_skips(escaped(a), escaped(b));
    lemma_inline_skips(escaped(a), Seq::empty());
    assert(escaped(a) + Seq::<char>::empty() =~= escaped(a));
}

/// A marker that nothing closes stands for itself: a backtick or a star without another
/// one behind it, a bracket without a bracket that closes it.
pub proof fn law_open_marker_is_kept(m: char, b: Seq<char>)
    requires
        m == '`' || m == '*' || m == '[',
        m == '`' ==> !b.contains('`'),
        m == '*' ==> !b.contains('*'),
        m == '[' ==> !b.contains(']'),
    ensures
        inline_html(seq![m] + b) == seq![m] + inline_html(b),
{
    lemma_escaped_mark(m);
    law_escaping_joins(seq![m], b);
    let e = escaped(b);
    let s = seq![m] + e;
    lemma_escaped_holds(b, '`');
    lemma_escaped_holds(b, '*');
    lemma_escaped_holds(b, ']');
    assert(s[0] == m);
    let k = if m == '[' {
        ']'
    } else {
        m
    };
    text::lemma_index_from(s, 1, k);
    assert(text::index_from(s, 1, k) is None) by {
        if let Some(i) = text::index_from(s, 1, k) {
            assert(s[i] == e[i - 1]);
            assert(e.contains(e[i - 1]));
        }
    }
    if e.len() > 0 {
        assert(s[1] == e[0]);
        assert(e.contains(e[0]));
    }
    lemma_inline_behind(seq![m], e, 0);
}

/// A line that begins like a heading is bold, whatever its level, below an empty line.
pub proof fn law_heading_is_bold(t: Seq<char>)
    ensures
        line_html("# "@ + t) == "\n<b>"@ + escaped(text::trimmed(t)) + "</b>"@,
        line_html("## "@ + t) == "\n<b>"@ + escaped(text::trimmed(t)) + "</b>"@,
        line_html("### "@ + t) == "\n<b>"@ + escaped(text::trimmed(t)) + "</b>"@,
{
    reveal_strlit("# ");
    reveal_strlit("## ");
    reveal_strlit("### ");
    lemma_has_prefix("# "@, t);
    lemma_has_prefix("## "@, t);
    lemma_has_prefix("### "@, t);
    let (a, b) = ("# "@ + t, "## "@ + t);
    assert(a[1] == ' ' && b[2] == ' ' && b[1] == '#');
    assert(!text::begins_with(a, "## "@) && !text::begins_with(a, "### "@)
        && !text::begins_with(b, "### "@)) by {
        if text::begins_with(a, "## "@) {
            assert(a.subrange(0, 3)[1] == '#');
        }
        if text::begins_with(a, "### "@) {
            assert(a.subrange(0, 4)[1] == '#');
        }
        if text::begins_with(b, "### "@) {
            assert(b.subrange(0, 4)[2] == '#');
        }
    }
}

proof fn lemma_has_prefix(p: Seq<char>, t: Seq<char>)
    ensures
        text::after_prefix(p + t, p) == Some(t),
{
    assert((p + t).subrange(0, p.len() as int) =~= p);
    assert((p + t).skip(p.len() as int) =~= t);
}

proof fn lemma_other_prefix(l: Seq<char>, p: Seq<char>)
    requires
        l.len() == 0 || p.len() == 0 || l[0] != p[0],
        p.len() > 0,
    ensures
        text::after_prefix(l, p) is None,
{
    if text::begins_with(l, p) {
        assert(l.subrange(0, p.len() as int)[0] == p[0]);
    }
}

/// An item of a list stands behind a dot, and a quote in a block.
pub proof fn law_items_and_quotes(t: Seq<char>)
    ensures
        line_html("- "@ + t) == "• "@ + inline_html(t),
        line_html("* "@ + t) == "• "@ + inline_html(t),
        line_html("> "@ + t) == "<blockquote>"@ + inline_html(t) + "</blockquote>"@,
{
    reveal_strlit("# ");
    reveal_strlit("## ");
    reveal_strlit("### ");
    reveal_strlit("* ");
    reveal_strlit("- ");
    reveal_strlit("> ");
    reveal_strlit("---");
    reveal_strlit("***");
    lemma_has_prefix("- "@, t);
    lemma_has_prefix("* "@, t);
    lemma_has_prefix("> "@, t);
    let (a, b, c) = ("- "@ + t, "* "@ + t, "> "@ + t);
    assert(a[0] == '-' && b[0] == '*' && c[0] == '>');
    lemma_other_prefix(a, "### "@);
    lemma_other_prefix(a, "## "@);
    lemma_other_prefix(a, "# "@);
    lemma_other_prefix(a, "* "@);
    lemma_other_prefix(b, "### "@);
    lemma_other_prefix(b, "## "@);
    lemma_other_prefix(b, "# "@);
    lemma_other_prefix(c, "### "@);
    lemma_other_prefix(c, "## "@);
    lemma_other_prefix(c, "# "@);
    lemma_other_prefix(c, "* "@);
    lemma_other_prefix(c, "- "@);
    assert(text::trimmed(c)[0] == '>' && text::trimmed(c).len() > 0) by {
        assert(text::strip_leading(c, CharClass::Space) == c);
        text::lemma_strip_trailing(c, CharClass::Space);
    }
    assert("---"@[0] == '-' && "***"@[0] == '*');
}

/// A line of three dashes or stars is a rule, with or without white space around it.
pub proof fn law_rule_is_a_dash(front: Seq<char>, back: Seq<char>)
    requires
        text::is_blank(front),
        text::is_blank(back),
    ensures
        line_html(front + "---"@ + back) == "—————"@,
        line_html(front + "***"@ + back) == "—————"@,
{
    reveal_strlit("# ");
    reveal_strlit("## ");
    reveal_strlit("### ");
    reveal_strlit("* ");
    reveal_strlit("- ");
    reveal_strlit("---");
    reveal_strlit("***");
    text::law_trimming_takes_white_space_alone(front, "---"@, back);
    text::law_trimming_takes_white_space_alone(front, "***"@, back);
    lemma_rule(front + "---"@ + back, front.len() as int);
    lemma_rule(front + "***"@ + back, front.len() as int);
}

proof fn lemma_rule(l: Seq<char>, n: int)
    requires
        0 <= n,
        n + 3 <= l.len(),
        forall|i: int| 0 <= i < n ==> text::is_space(#[trigger] l[i]),
        l[n] == l[n + 1],
        l[n] == '-' || l[n] == '*',
    ensures
        text::after_prefix(l, "### "@) is None,
        text::after_prefix(l, "## "@) is None,
        text::after_prefix(l, "# "@) is None,
        text::after_prefix(l, "* "@) is None,
        text::after_prefix(l, "- "@) is None,
{
    reveal_strlit("# ");
    reveal_strlit("## ");
    reveal_strlit("### ");
    reveal_strlit("* ");
    reveal_strlit("- ");
    assert(n > 0 ==> text::is_space(l[0]));
    lemma_other_prefix(l, "### "@);
    lemma_other_prefix(l, "## "@);
    lemma_other_prefix(l, "# "@);
    if text::begins_with(l, "* "@) {
        assert(l.subrange(0, 2)[0] == '*' && l.subrange(0, 2)[1] == ' ');
    }
    if text::begins_with(l, "- "@) {
        assert(l.subrange(0, 2)[0] == '-' && l.subrange(0, 2)[1] == ' ');
    }
}

/// Any other line, one of a numbered list among them, is inline Markdown.
pub proof fn law_other_lines_are_inline(l: Seq<char>)
    requires
        !text::begins_with(l, "# "@),
        !text::begins_with(l, "## "@),
        !text::begins_with(l, "### "@),
        !text::begins_with(l, "* "@),
        !text::begins_with(l, "- "@),
        !text::begins_with(l, "> "@),
        text::trimmed(l) != "---"@,
        text::trimmed(l) != "***"@,
    ensures
        line_html(l) == inline_html(l),
{
}

/// Lines are rendered one after the other: a line that is no fence is followed by a
/// newline and by the lines behind it.
pub proof fn law_lines_follow_one_another(l: Seq<char>, rest: Seq<Seq<char>>)
    requires
        !text::begins_with(l, "```"@),
    ensures
        lines_html(seq![l] + rest, false) == line_html(l) + seq!['\n'] + lines_html(rest, false),
        lines_html(seq![l] + rest, true) == escaped(l) + seq!['\n'] + lines_html(rest, true),
        lines_html(Seq::empty(), false) == Seq::<char>::empty(),
{
    assert((seq![l] + rest).skip(1) =~= rest);
    assert(line_html(l).push('\n') + lines_html(rest, false) =~= line_html(l) + seq!['\n']
        + lines_html(rest, false));
    assert(escaped(l).push('\n') + lines_html(rest, true) =~= escaped(l) + seq!['\n'] + lines_html(
        rest,
        true,
    ));
}

/// Lines between two fences are code, kept as they are but for the escaping.
pub proof fn law_fenced_lines_are_code(
    open: Seq<char>,
    code: Seq<Seq<char>>,
    close: Seq<char>,
    rest: Seq<Seq<char>>,
)
    requires
        text::begins_with(open, "```"@),
        text::begins_with(close, "```"@),
        forall|i: int| 0 <= i < code.len() ==> !text::begins_with(#[trigger] code[i], "```"@),
    ensures
        lines_html(seq![open] + code + seq![close] + rest, false) == open_block(open)
            + chunks::concat(Seq::new(code.len(), |i: int| escaped(code[i]) + seq!['\n']))
            + "</code></pre>\n"@ + lines_html(rest, false),
{
    let all = seq![open] + code + seq![close] + rest;
    let inner = code + seq![close] + rest;
    assert(all.skip(1) =~= inner);
    assert(all[0] == open);
    lemma_code_lines(code, close, rest);
    let body = chunks::concat(Seq::new(code.len(), |i: int| escaped(code[i]) + seq!['\n']));
    assert(open_block(open) + (body + "</code></pre>\n"@ + lines_html(rest, false)) =~= open_block(
        open,
    ) + body + "</code></pre>\n"@ + lines_html(rest, false));
}

proof fn lemma_code_lines(code: Seq<Seq<char>>, close: Seq<char>, rest: Seq<Seq<char>>)
    requires
        text::begins_with(close, "```"@),
        forall|i: int| 0 <= i < code.len() ==> !text::begins_with(#[trigger] code[i], "```"@),
    ensures
        lines_html(code + seq![close] + rest, true) == chunks::concat(
            Seq::new(code.len(), |i: int| escaped(code[i]) + seq!['\n']),
        ) + "</code></pre>\n"@ + lines_html(rest, false),
    decreases code.len(),
{
    let all = code + seq![close] + rest;
    let items = Seq::new(code.len(), |i: int| escaped(code[i]) + seq!['\n']);
    if code.len() == 0 {
        assert(all[0] == close);
        assert(all.skip(1) =~= rest);
        assert(chunks::concat(items) =~= Seq::empty());
        assert(lines_html(all, true) =~= chunks::concat(items) + "</code></pre>\n"@ + lines_html(
            rest,
            false,
        ));
    } else {
        let tail = code.skip(1);
        assert(all[0] == code[0]);
        assert(all.skip(1) =~= tail + seq![close] + rest);
        assert forall|i: int| 0 <= i < tail.len() implies !text::begins_with(
            #[trigger] tail[i],
            "```"@,
        ) by {
            assert(tail[i] == code[i + 1]);
        }
        lemma_code_lines(tail, close, rest);
        let others = Seq::new(tail.len(), |i: int| escaped(tail[i]) + seq!['\n']);
        assert(items.skip(1) =~= others);
        assert(escaped(code[0]).push('\n') =~= items[0]);
        assert(lines_html(all, true) =~= chunks::concat(items) + "</code></pre>\n"@ + lines_html(
            rest,
            false,
        ));
    }
}

/// The language that a fence names stands in the tag that opens the block.
pub proof fn law_fence_names_the_language(language: Seq<char>)
    requires
        language.len() > 0,
        language[0] != '`',
        !text::is_space(language[0]),
        !text::is_space(language.last()),
    ensures
        open_block("```"@ + language) == "<pre><code class=\"language-"@ + language + "\">"@,
        open_block("```"@) == "<pre><code>"@,
{
    reveal_strlit("```");
    text::lemma_leading_goes("```"@, language, CharClass::Backtick);
    text::lemma_leading_goes("```"@, Seq::empty(), CharClass::Backtick);
    assert("```"@ + Seq::<char>::empty() =~= "```"@);
    text::law_trimming_takes_white_space_alone(Seq::empty(), language, Seq::empty());
    assert(Seq::<char>::empty() + language + Seq::<char>::empty() =~= language);
    text::law_blank_text_trims_to_nothing(Seq::empty());
}

/// Rendered Markdown is the HTML of its lines, without the newlines at the end.
pub proof fn law_markdown_is_rendered_line_by_line(md: &str, r: String)
    requires
        call_ensures(markdown_to_telegram_html, (md,), r),
    ensures
        ({
            let all = lines_html(text::split_on(md@, '\n'), false);
            &&& r@.len() <= all.len()
            &&& r@ == all.take(r@.len() as int)
            &&& forall|i: int| r@.len() <= i < all.len() ==> #[trigger] all[i] == '\n'
            &&& r@.len() > 0 ==> r@.last() != '\n'
        }),
{
    text::lemma_strip_trailing(lines_html(text::split_on(md@, '\n'), false), CharClass::Newline);
}

/// A text of one line that is no fence is rendered like that line.
pub proof fn law_one_line_is_rendered(md: &str, r: String)
    requires
        call_ensures(markdown_to_telegram_html, (md,), r),
        !md@.contains('\n'),
        !text::begins_with(md@, "```"@),
        line_html(md@).len() > 0,
        line_html(md@).last() != '\n',
    ensures
        r@ == line_html(md@),
{
    let l = md@;
    text::lemma_split_one(l, '\n');
    law_lines_follow_one_another(l, Seq::empty());
    assert(seq![l] + Seq::<Seq<char>>::empty() =~= seq![l]);
    assert(lines_html(seq![l], false) =~= line_html(l) + seq!['\n']);
    text::lemma_trailing_goes(line_html(l), seq!['\n'], CharClass::Newline);
}

/// Inline Markdown that is escaped already is rendered span by span.
pub proof fn law_inline_formatting_is_of_the_escaped_text(s: &str, t: Seq<char>, r: String)
    requires
        call_ensures(format_inline, (s,), r),
        s@ == escaped(t),
    ensures
        r@ == inline_html(t),
{
}

/// A star with a space behind it stands for itself.
pub proof fn law_star_before_a_space_is_kept(b: Seq<char>)
    ensures
        inline_html(seq!['*', ' '] + b) == seq!['*', ' '] + inline_html(b),
{
    lemma_escaped_mark('*');
    lemma_escaped_mark(' ');
    law_escaping_joins(seq!['*'], seq![' ']);
    assert(seq!['*'] + seq![' '] =~= seq!['*', ' ']);
    law_escaping_joins(seq!['*', ' '], b);
    let s = seq!['*', ' '] + escaped(b);
    assert(s[0] == '*' && s[1] == ' ');
    lemma_inline_behind(seq!['*', ' '], escaped(b), 0);
    assert(inline_from(s, 1) == seq![' '] + inline_from(s, 2));
    assert(inline_from(s, 0) =~= seq!['*', ' '] + inline_from(s, 2));
}

/// Brackets that no address follows stand for themselves.
pub proof fn law_brackets_without_an_address_are_kept(t: Seq<char>, b: Seq<char>)
    requires
        !t.contains(']'),
        b.len() == 0 || b[0] != '(',
    ensures
        inline_html(seq!['['] + t + seq![']'] + b) == seq!['['] + inline_html(t + seq![']'] + b),
{
    lemma_escaped_mark('[');
    lemma_escaped_mark(']');
    let rest = t + seq![']'] + b;
    assert(seq!['['] + t + seq![']'] + b =~= seq!['['] + rest);
    law_escaping_joins(seq!['['], rest);
    law_escaping_joins(t + seq![']'], b);
    law_escaping_joins(t, seq![']']);
    lemma_escaped_holds(t, ']');
    let s = seq!['['] + escaped(rest);
    let front = seq!['['] + escaped(t);
    assert(s =~= front.push(']') + escaped(b));
    assert forall|i: int| 1 <= i < front.len() implies front[i] != ']' by {
        assert(front[i] == escaped(t)[i - 1]);
        assert(escaped(t).contains(escaped(t)[i - 1]));
    }
    lemma_index_just_behind(front, ']', escaped(b), 1);
    let e = front.len() as int;
    if e + 1 < s.len() {
        assert(s[e + 1] == escaped(b)[0]);
        lemma_escaped_front(b);
        reveal_strlit("&amp;");
        reveal_strlit("&lt;");
        reveal_strlit("&gt;");
        assert(escaped(b)[0] == entity(b[0])[0]);
    }
    assert(link_end(s, 0) is None);
    assert(s[0] == '[');
    lemma_inline_behind(seq!['['], escaped(rest), 0);
}

/// Escaping replaces every character by itself or by its entity, one after the other.
pub proof fn law_characters_are_escaped_one_by_one(
    s: &str,
    r: String,
    front: &str,
    before: String,
    c: char,
)
    requires
        call_ensures(escape_html, (s,), r),
        call_ensures(escape_html, (front,), before),
        s@ == front@.push(c),
    ensures
        c == '&' ==> r@ == before@ + "&amp;"@,
        c == '<' ==> r@ == before@ + "&lt;"@,
        c == '>' ==> r@ == before@ + "&gt;"@,
        c != '&' && c != '<' && c != '>' ==> r@ == before@ + seq![c],
        front@.len() == 0 ==> before@.len() == 0,
{
    assert(s@.drop_last() =~= front@);
    assert(s@.last() == c);
}

} // verus!
