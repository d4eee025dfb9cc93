//! HTML that Telegram accepts: a few tags, each closed, the inner ones first.
use vstd::prelude::*;
use vstd::string::*;

use crate::markdown;
use crate::stream;
use crate::stream::Shown;
use crate::text;
use crate::text::CharClass;

verus! {

/// A tag that holds `tag` between its angle brackets.
pub open spec fn bracketed(tag: Seq<char>) -> Seq<char> {
    seq!['<'] + tag + seq!['>']
}

/// Whether a tag has this beginning, then some value, then the quote that closes it.
pub open spec fn has_value(tag: Seq<char>, beginning: Seq<char>) -> bool {
    text::begins_with(tag, beginning) && tag.len() > beginning.len() && tag.last() == '"'
}

/// The element that a tag opens, where it is one that Telegram supports.
pub open spec fn opened(tag: Seq<char>) -> Option<Seq<char>> {
    if tag == "b"@ || tag == "i"@ || tag == "code"@ || tag == "pre"@ || tag == "blockquote"@ {
        Some(tag)
    } else if has_value(tag, "a href=\""@) {
        Some("a"@)
    } else if has_value(tag, "code class=\"language-"@) {
        Some("code"@)
    } else {
        None
    }
}

/// The elements that are open behind `s`, where those in `open` are open in front of
/// it, the innermost last. Nothing where a bracket stands in the text, a tag is not
/// supported, or a tag closes anything but the innermost element.
pub open spec fn open_behind(s: Seq<char>, open: Seq<Seq<char>>) -> Option<Seq<Seq<char>>>
    decreases s.len(),
{
    if s.len() == 0 {
        Some(open)
    } else if s[0] == '>' {
        None
    } else if s[0] != '<' {
        open_behind(s.skip(1), open)
    } else {
        match text::index_from(s, 1, '>') {
            None => None,
            Some(e) => {
                proof {
                    text::lemma_index_from(s, 1, '>');
                }
                let tag = s.subrange(1, e);
                if tag.contains('<') {
                    None
                } else if tag.len() > 0 && tag[0] == '/' {
                    if open.len() > 0 && open.last() == tag.skip(1) {
                        open_behind(s.skip(e + 1), open.drop_last())
                    } else {
                        None
                    }
                } else {
                    match opened(tag) {
                        Some(name) => open_behind(s.skip(e + 1), open.push(name)),
                        None => None,
                    }
                }
            },
        }
    }
}

/// Whether a text holds only supported tags, each closed and properly nested.
pub open spec fn is_well_formed(s: Seq<char>) -> bool {
    open_behind(s, Seq::empty()) == Some(Seq::<Seq<char>>::empty())
}

/// Whether a text holds no angle bracket.
pub open spec fn has_no_brackets(s: Seq<char>) -> bool {
    !s.contains('<') && !s.contains('>')
}

proof fn lemma_index_in_front(s: Seq<char>, t: Seq<char>, from: int, c: char)
    requires
        0 <= from,
        text::index_from(s, from, c) is Some,
    ensures
        text::index_from(s + t, from, c) == text::index_from(s, from, c),
    decreases s.len() - from,
{
    text::lemma_index_from(s, from, c);
    assert((s + t)[from] == s[from]);
    if s[from] != c {
        lemma_index_in_front(s, t, from + 1, c);
    }
}

/// What stands behind a text does not change what is open behind it.
proof fn lemma_one_after_the_other(a: Seq<char>, b: Seq<char>, open: Seq<Seq<char>>)
    requires
        open_behind(a, open) is Some,
    ensures
        open_behind(a + b, open) == open_behind(b, open_behind(a, open)->0),
    decreases a.len(),
{
    if a.len() == 0 {
        assert(a + b =~= b);
    } else {
        assert((a + b)[0] == a[0]);
        if a[0] != '<' {
            assert((a + b).skip(1) =~= a.skip(1) + b);
            lemma_one_after_the_other(a.skip(1), b, open);
        } else {
            text::lemma_index_from(a, 1, '>');
            lemma_index_in_front(a, b, 1, '>');
            let e = text::index_from(a, 1, '>')->0;
            let tag = a.subrange(1, e);
            assert((a + b).subrange(1, e) =~= tag);
            assert((a + b).skip(e + 1) =~= a.skip(e + 1) + b);
            if tag.len() > 0 && tag[0] == '/' {
                lemma_one_after_the_other(a.skip(e + 1), b, open.drop_last());
            } else {
                lemma_one_after_the_other(a.skip(e + 1), b, open.push(opened(tag)->0));
            }
        }
    }
}

proof fn lemma_text(s: Seq<char>, open: Seq<Seq<char>>)
    requires
        has_no_brackets(s),
    ensures
        open_behind(s, open) == Some(open),
    decreases s.len(),
{
    if s.len() > 0 {
        assert(s.contains(s[0]));
        lemma_part_has_no_brackets(s, 1, s.len() as int);
        assert(s.skip(1) =~= s.subrange(1, s.len() as int));
        lemma_text(s.skip(1), open);
    }
}

proof fn lemma_part_has_no_brackets(s: Seq<char>, i: int, j: int)
    requires
        has_no_brackets(s),
        0 <= i <= j <= s.len(),
    ensures
        has_no_brackets(s.subrange(i, j)),
{
    assert forall|k: int| 0 <= k < j - i implies s.subrange(i, j)[k] != '<' && s.subrange(i, j)[k]
        != '>' by {
        assert(s.contains(s[i + k]));
    }
}

proof fn lemma_tag_end(tag: Seq<char>)
    requires
        has_no_brackets(tag),
    ensures
        text::index_from(bracketed(tag), 1, '>') == Some(tag.len() as int + 1),
        bracketed(tag).subrange(1, tag.len() as int + 1) == tag,
        bracketed(tag).skip(tag.len() as int + 2) == Seq::<char>::empty(),
{
    let s = bracketed(tag);
    text::lemma_index_from(s, 1, '>');
    assert(s[tag.len() as int + 1] == '>');
    assert forall|j: int| 1 <= j < tag.len() + 1 implies s[j] != '>' by {
        assert(s[j] == tag[j - 1]);
        assert(tag.contains(tag[j - 1]));
    }
    assert(s.subrange(1, tag.len() as int + 1) =~= tag);
    assert(s.skip(tag.len() as int + 2) =~= Seq::<char>::empty());
}

proof fn lemma_opening_tag(tag: Seq<char>, name: Seq<char>, open: Seq<Seq<char>>)
    requires
        has_no_brackets(tag),
        tag.len() > 0,
        tag[0] != '/',
        opened(tag) == Some(name),
    ensures
        open_behind(bracketed(tag), open) == Some(open.push(name)),
{
    lemma_tag_end(tag);
    assert(open_behind(Seq::<char>::empty(), open.push(name)) == Some(open.push(name)));
}

proof fn lemma_closing_tag(name: Seq<char>, open: Seq<Seq<char>>)
    requires
        has_no_brackets(name),
    ensures
        open_behind(bracketed(seq!['/'] + name), open.push(name)) == Some(open),
{
    let tag = seq!['/'] + name;
    assert forall|k: int| 0 <= k < tag.len() implies tag[k] != '<' && tag[k] != '>' by {
        if k > 0 {
            assert(tag[k] == name[k - 1]);
            assert(name.contains(name[k - 1]));
        }
    }
    lemma_tag_end(tag);
    assert(tag.skip(1) =~= name);
    assert(open.push(name).drop_last() =~= open);
    assert(open_behind(Seq::<char>::empty(), open) == Some(open));
}

/// An element around something that leaves open what it found open does so too.
proof fn lemma_element(
    tag: Seq<char>,
    name: Seq<char>,
    inner: Seq<char>,
    open: Seq<Seq<char>>,
)
    requires
        has_no_brackets(tag),
        has_no_brackets(name),
        tag.len() > 0,
        tag[0] != '/',
        opened(tag) == Some(name),
        open_behind(inner, open.push(name)) == Some(open.push(name)),
    ensures
        open_behind(bracketed(tag) + inner + bracketed(seq!['/'] + name), open) == Some(open),
{
    lemma_opening_tag(tag, name, open);
    lemma_closing_tag(name, open);
    lemma_one_after_the_other(bracketed(tag), inner, open);
    lemma_one_after_the_other(bracketed(tag) + inner, bracketed(seq!['/'] + name), open);
}

proof fn lemma_plain_element(name: Seq<char>, inner: Seq<char>, open: Seq<Seq<char>>)
    requires
        name == "b"@ || name == "i"@ || name == "code"@ || name == "blockquote"@,
        open_behind(inner, open.push(name)) == Some(open.push(name)),
    ensures
        open_behind(bracketed(name) + inner + bracketed(seq!['/'] + name), open) == Some(open),
{
    reveal_strlit("b");
    reveal_strlit("i");
    reveal_strlit("code");
    reveal_strlit("blockquote");
    assert(has_no_brackets(name));
    lemma_element(name, name, inner, open);
}

/// The tags as they stand in the HTML.
proof fn lemma_literals()
    ensures
        "<b>"@ == bracketed("b"@),
        "</b>"@ == bracketed(seq!['/'] + "b"@),
        "<i>"@ == bracketed("i"@),
        "</i>"@ == bracketed(seq!['/'] + "i"@),
        "<code>"@ == bracketed("code"@),
        "</code>"@ == bracketed(seq!['/'] + "code"@),
        "<blockquote>"@ == bracketed("blockquote"@),
        "</blockquote>"@ == bracketed(seq!['/'] + "blockquote"@),
        "</a>"@ == bracketed(seq!['/'] + "a"@),
        "\n<b>"@ == seq!['\n'] + bracketed("b"@),
        "<pre><code>"@ == bracketed("pre"@) + bracketed("code"@),
        "</code></pre>\n"@ == bracketed(seq!['/'] + "code"@) + bracketed(seq!['/'] + "pre"@)
            + seq!['\n'],
        "<a href=\""@ == seq!['<'] + "a href=\""@,
        "\">"@ == seq!['"', '>'],
        "<pre><code class=\"language-"@ == bracketed("pre"@) + (seq!['<']
            + "code class=\"language-"@),
{
    reveal_strlit("b");
    reveal_strlit("i");
    reveal_strlit("a");
    reveal_strlit("code");
    reveal_strlit("pre");
    reveal_strlit("blockquote");
    reveal_strlit("<b>");
    reveal_strlit("</b>");
    reveal_strlit("<i>");
    reveal_strlit("</i>");
    reveal_strlit("<code>");
    reveal_strlit("</code>");
    reveal_strlit("<blockquote>");
    reveal_strlit("</blockquote>");
    reveal_strlit("</a>");
    reveal_strlit("\n<b>");
    reveal_strlit("<pre><code>");
    reveal_strlit("</code></pre>\n");
    reveal_strlit("<a href=\"");
    reveal_strlit("a href=\"");
    reveal_strlit("\">");
    reveal_strlit("<pre><code class=\"language-");
    reveal_strlit("code class=\"language-");
    assert("<b>"@ =~= bracketed("b"@));
    assert("</b>"@ =~= bracketed(seq!['/'] + "b"@));
    assert("<i>"@ =~= bracketed("i"@));
    assert("</i>"@ =~= bracketed(seq!['/'] + "i"@));
    assert("<code>"@ =~= bracketed("code"@));
    assert("</code>"@ =~= bracketed(seq!['/'] + "code"@));
    assert("<blockquote>"@ =~= bracketed("blockquote"@));
    assert("</blockquote>"@ =~= bracketed(seq!['/'] + "blockquote"@));
    assert("</a>"@ =~= bracketed(seq!['/'] + "a"@));
    assert("\n<b>"@ =~= seq!['\n'] + bracketed("b"@));
    assert("<pre><code>"@ =~= bracketed("pre"@) + bracketed("code"@));
    assert("</code></pre>\n"@ =~= bracketed(seq!['/'] + "code"@) + bracketed(
        seq!['/'] + "pre"@,
    ) + seq!['\n']);
    assert("<a href=\""@ =~= seq!['<'] + "a href=\""@);
    assert("\">"@ =~= seq!['"', '>']);
    assert("<pre><code class=\"language-"@ =~= bracketed("pre"@) + (seq!['<']
        + "code class=\"language-"@));
}

/// Whatever value stands in a tag between its beginning and the closing quote, the tag
/// holds no bracket if the value holds none.
proof fn lemma_tag_with_value(beginning: Seq<char>, value: Seq<char>)
    requires
        beginning == "a href=\""@ || beginning == "code class=\"language-"@,
        has_no_brackets(value),
    ensures
        ({
            let tag = beginning + value + seq!['"'];
            &&& has_no_brackets(tag)
            &&& tag.len() > 0
            &&& tag[0] != '/'
            &&& opened(tag) == Some(
                if beginning == "a href=\""@ {
                    "a"@
                } else {
                    "code"@
                },
            )
        }),
{
    reveal_strlit("a href=\"");
    reveal_strlit("code class=\"language-");
    reveal_strlit("b");
    reveal_strlit("i");
    reveal_strlit("code");
    reveal_strlit("pre");
    reveal_strlit("blockquote");
    let tag = beginning + value + seq!['"'];
    assert(has_no_brackets(beginning));
    assert forall|k: int| 0 <= k < tag.len() implies tag[k] != '<' && tag[k] != '>' by {
        if k < beginning.len() {
            assert(tag[k] == beginning[k]);
            assert(beginning.contains(beginning[k]));
        } else if k < beginning.len() + value.len() {
            assert(tag[k] == value[k - beginning.len()]);
            assert(value.contains(value[k - beginning.len()]));
        }
    }
    assert(tag.subrange(0, beginning.len() as int) =~= beginning);
    assert(tag.last() == '"');
    assert(tag[0] == beginning[0]);
    assert("b"@.last() != '"' && "i"@.last() != '"' && "code"@.last() != '"' && "pre"@.last()
        != '"' && "blockquote"@.last() != '"');
    if beginning != "a href=\""@ {
        assert(tag.subrange(0, "a href=\""@.len() as int)[0] != "a href=\""@[0]);
    }
}

/// Inline formats are elements side by side, with text between them.
proof fn lemma_inline(s: Seq<char>, i: int, open: Seq<Seq<char>>)
    requires
        has_no_brackets(s),
        0 <= i,
    ensures
        open_behind(markdown::inline_from(s, i), open) == Some(open),
    decreases s.len() - i,
{
    lemma_literals();
    if i >= s.len() {
    } else if let Some(e) = markdown::code_end(s, i) {
        text::lemma_index_from(s, i + 1, '`');
        lemma_span("code"@, s, i + 1, e, open);
        lemma_inline(s, e + 1, open);
        lemma_one_after_the_other(
            "<code>"@ + s.subrange(i + 1, e) + "</code>"@,
            markdown::inline_from(s, e + 1),
            open,
        );
    } else if let Some(e) = markdown::bold_end(s, i) {
        markdown::lemma_pair_from(s, i + 2, '*');
        lemma_span("b"@, s, i + 2, e, open);
        lemma_inline(s, e + 2, open);
        lemma_one_after_the_other(
            "<b>"@ + s.subrange(i + 2, e) + "</b>"@,
            markdown::inline_from(s, e + 2),
            open,
        );
    } else if let Some(e) = markdown::italic_end(s, i) {
        text::lemma_index_from(s, i + 1, '*');
        lemma_span("i"@, s, i + 1, e, open);
        lemma_inline(s, e + 1, open);
        lemma_one_after_the_other(
            "<i>"@ + s.subrange(i + 1, e) + "</i>"@,
            markdown::inline_from(s, e + 1),
            open,
        );
    } else if let Some((text_end, url_start, url_end)) = markdown::link_end(s, i) {
        text::lemma_index_from(s, i + 1, ']');
        text::lemma_index_from(s, text_end + 2, ')');
        let url = s.subrange(url_start, url_end);
        let label = s.subrange(i + 1, text_end);
        let tag = "a href=\""@ + url + seq!['"'];
        lemma_part_has_no_brackets(s, url_start, url_end);
        lemma_part_has_no_brackets(s, i + 1, text_end);
        lemma_tag_with_value("a href=\""@, url);
        lemma_text(label, open.push("a"@));
        reveal_strlit("a");
        assert(has_no_brackets("a"@));
        lemma_element(tag, "a"@, label, open);
        let link = "<a href=\""@ + url + "\">"@ + label + "</a>"@;
        assert(link =~= bracketed(tag) + label + bracketed(seq!['/'] + "a"@));
        lemma_inline(s, url_end + 1, open);
        lemma_one_after_the_other(link, markdown::inline_from(s, url_end + 1), open);
    } else {
        lemma_inline(s, i + 1, open);
        assert(s.contains(s[i]));
        assert(has_no_brackets(seq![s[i]]));
        lemma_text(seq![s[i]], open);
        lemma_one_after_the_other(seq![s[i]], markdown::inline_from(s, i + 1), open);
    }
}

proof fn lemma_span(name: Seq<char>, s: Seq<char>, i: int, j: int, open: Seq<Seq<char>>)
    requires
        name == "b"@ || name == "i"@ || name == "code"@,
        has_no_brackets(s),
        0 <= i <= j <= s.len(),
    ensures
        open_behind(
            bracketed(name) + s.subrange(i, j) + bracketed(seq!['/'] + name),
            open,
        ) == Some(open),
{
    lemma_part_has_no_brackets(s, i, j);
    lemma_text(s.subrange(i, j), open.push(name));
    lemma_plain_element(name, s.subrange(i, j), open);
}

proof fn lemma_inline_html(s: Seq<char>, open: Seq<Seq<char>>)
    ensures
        open_behind(markdown::inline_html(s), open) == Some(open),
{
    markdown::law_escaped_has_no_tags(s);
    lemma_inline(markdown::escaped(s), 0, open);
}

proof fn lemma_bullet(s: Seq<char>, open: Seq<Seq<char>>)
    ensures
        open_behind("• "@ + markdown::inline_html(s), open) == Some(open),
{
    reveal_strlit("• ");
    assert(has_no_brackets("• "@));
    lemma_text("• "@, open);
    lemma_inline_html(s, open);
    lemma_one_after_the_other("• "@, markdown::inline_html(s), open);
}

proof fn lemma_heading(s: Seq<char>, open: Seq<Seq<char>>)
    ensures
        open_behind(markdown::heading_html(s), open) == Some(open),
{
    lemma_literals();
    let inner = markdown::escaped(text::trimmed(s));
    markdown::law_escaped_has_no_tags(text::trimmed(s));
    lemma_text(inner, open.push("b"@));
    lemma_plain_element("b"@, inner, open);
    let newline = seq!['\n'];
    assert(has_no_brackets(newline));
    lemma_text(newline, open);
    let element = bracketed("b"@) + inner + bracketed(seq!['/'] + "b"@);
    lemma_one_after_the_other(newline, element, open);
    assert(markdown::heading_html(s) =~= newline + element);
}

proof fn lemma_line(l: Seq<char>, open: Seq<Seq<char>>)
    ensures
        open_behind(markdown::line_html(l), open) == Some(open),
{
    lemma_literals();
    if let Some(rest) = text::after_prefix(l, "### "@) {
        lemma_heading(rest, open);
    } else if let Some(rest) = text::after_prefix(l, "## "@) {
        lemma_heading(rest, open);
    } else if let Some(rest) = text::after_prefix(l, "# "@) {
        lemma_heading(rest, open);
    } else if let Some(rest) = text::after_prefix(l, "* "@) {
        lemma_bullet(rest, open);
    } else if let Some(rest) = text::after_prefix(l, "- "@) {
        lemma_bullet(rest, open);
    } else if text::trimmed(l) == "---"@ || text::trimmed(l) == "***"@ {
        reveal_strlit("—————");
        assert(has_no_brackets("—————"@));
        lemma_text("—————"@, open);
    } else if let Some(rest) = text::after_prefix(l, "> "@) {
        lemma_inline_html(rest, open.push("blockquote"@));
        lemma_plain_element("blockquote"@, markdown::inline_html(rest), open);
    } else {
        lemma_inline_html(l, open);
    }
}

/// What is open in a code block.
pub open spec fn in_block() -> Seq<Seq<char>> {
    seq!["pre"@, "code"@]
}

/// Whether no fence that opens a code block names a language with an angle bracket in
/// it; the first line stands in a code block if `in_code`.
pub open spec fn languages_are_names(lines: Seq<Seq<char>>, in_code: bool) -> bool
    decreases lines.len(),
{
    lines.len() == 0 || {
        &&& markdown::is_fence(lines[0]) && !in_code ==> has_no_brackets(
            markdown::fence_language(lines[0]),
        )
        &&& languages_are_names(lines.skip(1), in_code != markdown::is_fence(lines[0]))
    }
}

proof fn lemma_open_block(l: Seq<char>)
    requires
        has_no_brackets(markdown::fence_language(l)),
    ensures
        open_behind(markdown::open_block(l), Seq::empty()) == Some(in_block()),
{
    lemma_literals();
    let none = Seq::<Seq<char>>::empty();
    let pre = none.push("pre"@);
    reveal_strlit("pre");
    reveal_strlit("code");
    assert(has_no_brackets("pre"@) && has_no_brackets("code"@));
    lemma_opening_tag("pre"@, "pre"@, none);
    assert(pre.push("code"@) =~= in_block());
    let language = markdown::fence_language(l);
    if language.len() == 0 {
        lemma_opening_tag("code"@, "code"@, pre);
        lemma_one_after_the_other(bracketed("pre"@), bracketed("code"@), none);
    } else {
        let tag = "code class=\"language-"@ + language + seq!['"'];
        reveal_strlit("a href=\"");
        reveal_strlit("code class=\"language-");
        lemma_tag_with_value("code class=\"language-"@, language);
        assert("a href=\""@.len() != "code class=\"language-"@.len());
        lemma_opening_tag(tag, "code"@, pre);
        lemma_one_after_the_other(bracketed("pre"@), bracketed(tag), none);
        assert(markdown::open_block(l) =~= bracketed("pre"@) + bracketed(tag));
    }
}

proof fn lemma_close_block()
    ensures
        open_behind("</code></pre>\n"@, in_block()) == Some(Seq::<Seq<char>>::empty()),
{
    lemma_literals();
    let none = Seq::<Seq<char>>::empty();
    let pre = none.push("pre"@);
    reveal_strlit("pre");
    reveal_strlit("code");
    assert(has_no_brackets("pre"@) && has_no_brackets("code"@));
    assert(pre.push("code"@) =~= in_block());
    lemma_closing_tag("code"@, pre);
    lemma_closing_tag("pre"@, none);
    let a = bracketed(seq!['/'] + "code"@);
    let b = bracketed(seq!['/'] + "pre"@);
    lemma_one_after_the_other(a, b, in_block());
    assert(has_no_brackets(seq!['\n']));
    lemma_text(seq!['\n'], none);
    lemma_one_after_the_other(a + b, seq!['\n'], in_block());
}

proof fn lemma_with_newline(s: Seq<char>, open: Seq<Seq<char>>)
    requires
        open_behind(s, open) == Some(open),
    ensures
        open_behind(s.push('\n'), open) == Some(open),
{
    assert(has_no_brackets(seq!['\n']));
    lemma_text(seq!['\n'], open);
    lemma_one_after_the_other(s, seq!['\n'], open);
    assert(s.push('\n') =~= s + seq!['\n']);
}

proof fn lemma_lines(lines: Seq<Seq<char>>, in_code: bool)
    requires
        languages_are_names(lines, in_code),
    ensures
        open_behind(
            markdown::lines_html(lines, in_code),
            if in_code {
                in_block()
            } else {
                Seq::empty()
            },
        ) == Some(Seq::<Seq<char>>::empty()),
    decreases lines.len(),
{
    let none = Seq::<Seq<char>>::empty();
    if lines.len() == 0 {
        if in_code {
            lemma_close_block();
        }
    } else {
        let l = lines[0];
        let rest = lines.skip(1);
        if markdown::is_fence(l) {
            lemma_lines(rest, !in_code);
            if in_code {
                lemma_close_block();
                lemma_one_after_the_other(
                    "</code></pre>\n"@,
                    markdown::lines_html(rest, false),
                    in_block(),
                );
            } else {
                lemma_open_block(l);
                lemma_one_after_the_other(
                    markdown::open_block(l),
                    markdown::lines_html(rest, true),
                    none,
                );
            }
        } else {
            lemma_lines(rest, in_code);
            if in_code {
                markdown::law_escaped_has_no_tags(l);
                lemma_text(markdown::escaped(l), in_block());
                lemma_with_newline(markdown::escaped(l), in_block());
                lemma_one_after_the_other(
                    markdown::escaped(l).push('\n'),
                    markdown::lines_html(rest, true),
                    in_block(),
                );
            } else {
                lemma_line(l, none);
                lemma_with_newline(markdown::line_html(l), none);
                lemma_one_after_the_other(
                    markdown::line_html(l).push('\n'),
                    markdown::lines_html(rest, false),
                    none,
                );
            }
        }
    }
}

/// A newline at the end opens and closes nothing.
proof fn lemma_without_newline(s: Seq<char>, open: Seq<Seq<char>>)
    requires
        s.len() > 0,
        s.last() == '\n',
        open_behind(s, open) is Some,
    ensures
        open_behind(s.drop_last(), open) == open_behind(s, open),
    decreases s.len(),
{
    let t = s.drop_last();
    if s.len() == 1 {
        assert(s.skip(1) =~= Seq::<char>::empty());
        assert(t =~= Seq::<char>::empty());
    } else if s[0] != '<' {
        assert(t.skip(1) =~= s.skip(1).drop_last());
        lemma_without_newline(s.skip(1), open);
    } else {
        text::lemma_index_from(s, 1, '>');
        text::lemma_index_from(t, 1, '>');
        let e = text::index_from(s, 1, '>')->0;
        assert(e < t.len());
        assert(t[e] == '>');
        assert forall|j: int| 1 <= j < e implies t[j] != '>' by {
            assert(t[j] == s[j]);
        }
        assert(text::index_from(t, 1, '>') == Some(e));
        assert(t.subrange(1, e) =~= s.subrange(1, e));
        assert(t.skip(e + 1) =~= s.skip(e + 1).drop_last());
        let tag = s.subrange(1, e);
        if tag.len() > 0 && tag[0] == '/' {
            lemma_without_newline(s.skip(e + 1), open.drop_last());
        } else {
            lemma_without_newline(s.skip(e + 1), open.push(opened(tag)->0));
        }
    }
}

proof fn lemma_without_newlines(s: Seq<char>)
    requires
        is_well_formed(s),
    ensures
        is_well_formed(text::strip_trailing(s, CharClass::Newline)),
    decreases s.len(),
{
    if s.len() > 0 && s.last() == '\n' {
        lemma_without_newline(s, Seq::empty());
        lemma_without_newlines(s.drop_last());
    }
}

/// Rendered Markdown holds only tags that Telegram supports, each closed and properly
/// nested, whatever the text is; only the language that a fence names is written as it
/// is, and may hold no angle bracket.
pub proof fn law_rendered_markdown_is_well_formed(md: Seq<char>)
    requires
        languages_are_names(text::split_on(md, '\n'), false),
    ensures
        is_well_formed(markdown::markdown_html(md)),
{
    let lines = text::split_on(md, '\n');
    lemma_lines(lines, false);
    lemma_without_newlines(markdown::lines_html(lines, false));
}

/// The same holds of a formatted response, stopped or not.
pub proof fn law_formatted_response_is_well_formed(s: Shown)
    requires
        languages_are_names(text::split_on(s.accumulated, '\n'), false),
    ensures
        is_well_formed(stream::html_of(s)),
{
    let html = markdown::markdown_html(s.accumulated);
    law_rendered_markdown_is_well_formed(s.accumulated);
    if s.cancelled {
        reveal_strlit("\n\n⬛ <i>Генерация остановлена</i>");
        reveal_strlit("\n\n⬛ ");
        reveal_strlit("Генерация остановлена");
        reveal_strlit("i");
        let front = "\n\n⬛ "@;
        let inner = "Генерация остановлена"@;
        let element = bracketed("i"@) + inner + bracketed(seq!['/'] + "i"@);
        assert("\n\n⬛ <i>Генерация остановлена</i>"@ =~= front + element);
        assert(has_no_brackets(front));
        assert(has_no_brackets(inner));
        let none = Seq::<Seq<char>>::empty();
        lemma_text(front, none);
        lemma_text(inner, none.push("i"@));
        lemma_plain_element("i"@, inner, none);
        lemma_one_after_the_other(front, element, none);
        lemma_one_after_the_other(html, front + element, none);
    }
}

} // verus!
