//! Files that the agent asks to send: a line `ATTACH_FILE:<path>` in its output, or
//! a line that is a file name by itself.
use vstd::prelude::*;
use vstd::string::*;

use crate::paths;
use crate::text;
use crate::text::CharClass;

verus! {

/// What introduces the path of a file to send.
pub const ATTACH_PREFIX: &'static str = "ATTACH_FILE:";

/// `line` without surrounding white space and without the mark of a list item.
pub open spec fn normalized_line(line: Seq<char>) -> Seq<char> {
    let t = text::trimmed(line);
    if let Some(rest) = text::after_prefix(t, "- "@) {
        text::strip_leading(rest, CharClass::Space)
    } else if let Some(rest) = text::after_prefix(t, "• "@) {
        text::strip_leading(rest, CharClass::Space)
    } else if let Some(rest) = text::after_prefix(t, "* "@) {
        text::strip_leading(rest, CharClass::Space)
    } else {
        t
    }
}

/// A line without surrounding white space and without the mark of a list item.
pub fn normalize_attachment_line(line: &str) -> (r: String)
    ensures
        r@ == normalized_line(line@),
{
    let v = text::chars_of(line);
    let n = normalized_chars(v.as_slice());
    text::string_of(n.as_slice())
}

fn normalized_chars(line: &[char]) -> (r: Vec<char>)
    ensures
        r@ == normalized_line(line@),
{
    let t = text::trim_chars(line);
    if let Some(rest) = text::strip_prefix_chars(t.as_slice(), "- ") {
        text::without_leading(rest.as_slice(), CharClass::Space)
    } else if let Some(rest) = text::strip_prefix_chars(t.as_slice(), "• ") {
        text::without_leading(rest.as_slice(), CharClass::Space)
    } else if let Some(rest) = text::strip_prefix_chars(t.as_slice(), "* ") {
        text::without_leading(rest.as_slice(), CharClass::Space)
    } else {
        t
    }
}

/// The path in `raw`: without surrounding white space, then without quotes around
/// it, the scheme `file://` in front of it and closing punctuation behind it.
pub open spec fn path_in(raw: Seq<char>) -> Seq<char> {
    let bare = text::strip_both(text::trimmed(raw), CharClass::Quote);
    let local = match text::after_prefix(bare, "file://"@) {
        Some(rest) => rest,
        None => bare,
    };
    text::strip_trailing(local, CharClass::Closing)
}

/// The path in a hint, without quotes, scheme and closing punctuation.
pub fn sanitize_path_hint(raw: &str) -> (r: String)
    ensures
        r@ == path_in(raw@),
{
    let v = text::chars_of(raw);
    let t = path_chars(v.as_slice());
    text::string_of(t.as_slice())
}

fn path_chars(raw: &[char]) -> (r: Vec<char>)
    ensures
        r@ == path_in(raw@),
{
    let t = text::trim_chars(raw);
    let bare = text::without_both(t.as_slice(), CharClass::Quote);
    let local = match text::strip_prefix_chars(bare.as_slice(), "file://") {
        Some(rest) => rest,
        None => bare,
    };
    text::without_trailing(local.as_slice(), CharClass::Closing)
}

/// The path behind the first directive in a normalized line, unless it is empty.
pub open spec fn directive_hint(n: Seq<char>) -> Option<Seq<char>> {
    match text::first_index(n, ATTACH_PREFIX@) {
        Some(pos) => {
            let hint = path_in(n.skip(pos + ATTACH_PREFIX@.len()));
            if hint.len() > 0 {
                Some(hint)
            } else {
                None
            }
        },
        None => None,
    }
}

/// The path that a normalized line is by itself: it has a dot and no space.
pub open spec fn standalone_hint(n: Seq<char>) -> Option<Seq<char>> {
    if !n.contains(' ') && n.contains('.') && path_in(n).len() > 0 {
        Some(path_in(n))
    } else {
        None
    }
}

/// The path of the file that a line asks to send.
pub open spec fn hint_of(line: Seq<char>) -> Option<Seq<char>> {
    let n = normalized_line(line);
    match directive_hint(n) {
        Some(hint) => Some(hint),
        None => standalone_hint(n),
    }
}

/// The path of the file that a line asks to send.
pub fn extract_attachment_hint(line: &str) -> (r: Option<String>)
    ensures
        match r {
            Some(hint) => hint_of(line@) == Some(hint@),
            None => hint_of(line@) is None,
        },
{
    let v = text::chars_of(line);
    hint_in(v.as_slice())
}

fn hint_in(line: &[char]) -> (r: Option<String>)
    ensures
        match r {
            Some(hint) => hint_of(line@) == Some(hint@),
            None => hint_of(line@) is None,
        },
{
    let n = normalized_chars(line);
    let prefix = text::chars_of(ATTACH_PREFIX);
    if let Some(pos) = text::find(n.as_slice(), ATTACH_PREFIX) {
        let total: usize = n.len();
        assert(pos + prefix@.len() <= total);
        let raw = text::sub_chars(n.as_slice(), pos + prefix.len(), total);
        assert(raw@ =~= n@.skip(pos + ATTACH_PREFIX@.len()));
        let hint = path_chars(raw.as_slice());
        if hint.len() > 0 {
            return Some(text::string_of(hint.as_slice()));
        }
    }
    assert(directive_hint(n@) is None);
    if !text::has_char(n.as_slice(), ' ') && text::has_char(n.as_slice(), '.') {
        let hint = path_chars(n.as_slice());
        if hint.len() > 0 {
            return Some(text::string_of(hint.as_slice()));
        }
    }
    None
}

/// Whether a line that is not complete yet may become a directive: it holds one, is
/// the beginning of one, or its last word is.
pub open spec fn may_become_directive(line: Seq<char>) -> bool {
    let n = normalized_line(line);
    let w = text::words(n);
    &&& n.len() > 0
    &&& {
        ||| text::holds(n, ATTACH_PREFIX@)
        ||| text::begins_with(ATTACH_PREFIX@, n)
        ||| w.len() > 0 && text::begins_with(ATTACH_PREFIX@, w.last())
    }
}

/// Whether a line that is not complete yet may become a directive.
pub fn could_be_attachment_fragment(line: &str) -> (r: bool)
    ensures
        r == may_become_directive(line@),
{
    let v = text::chars_of(line);
    fragment(v.as_slice())
}

fn fragment(line: &[char]) -> (r: bool)
    ensures
        r == may_become_directive(line@),
{
    let n = normalized_chars(line);
    if n.len() == 0 {
        return false;
    }
    let prefix = text::chars_of(ATTACH_PREFIX);
    if text::find(n.as_slice(), ATTACH_PREFIX).is_some() {
        return true;
    }
    if text::matches_at(prefix.as_slice(), n.as_slice(), 0) {
        return true;
    }
    let w = text::split_whitespace(n.as_slice());
    if w.len() == 0 {
        return false;
    }
    assert(text::texts(w@).last() == w@[w@.len() - 1]@);
    text::matches_at(prefix.as_slice(), w[w.len() - 1].as_slice(), 0)
}

/// What is found in the lines of a text: the text to show, the unfinished line to
/// keep for later, and the paths of the files to send.
#[verifier::ext_equal]
pub struct Found {
    pub clean: Seq<char>,
    pub tail: Seq<char>,
    pub hints: Seq<Seq<char>>,
}

/// What is found in lines. A complete line that asks for a file is taken out, any
/// other is shown; the last one, where no newline follows it, is kept if it may
/// become a directive, else shown.
pub open spec fn found_in(lines: Seq<Seq<char>>, complete: bool) -> Found
    decreases lines.len(),
{
    if lines.len() == 0 {
        Found { clean: Seq::empty(), tail: Seq::empty(), hints: Seq::empty() }
    } else {
        let raw = lines[0];
        let line = text::strip_trailing(raw, CharClass::CarriageReturn);
        if lines.len() == 1 && !complete {
            if may_become_directive(line) {
                Found { clean: Seq::empty(), tail: raw, hints: Seq::empty() }
            } else {
                Found { clean: raw, tail: Seq::empty(), hints: Seq::empty() }
            }
        } else {
            let rest = found_in(lines.skip(1), complete);
            match hint_of(line) {
                Some(hint) => Found { hints: seq![hint] + rest.hints, ..rest },
                None => Found { clean: raw.push('\n') + rest.clean, ..rest },
            }
        }
    }
}

/// What is found in a chunk of output that follows the unfinished line `tail`.
pub open spec fn found_after(tail: Seq<char>, chunk: Seq<char>) -> Found {
    let all = tail + chunk;
    found_in(text::split_on(all, '\n'), all.len() > 0 && all.last() == '\n')
}

/// What a chunk of output comes to.
pub struct Extraction {
    /// The text to show.
    pub clean_text: String,
    /// The unfinished line to put in front of the next chunk.
    pub tail: String,
    /// The paths of the files to send, in order.
    pub hints: Vec<String>,
}

impl View for Extraction {
    type V = Found;

    open spec fn view(&self) -> Found {
        Found {
            clean: self.clean_text@,
            tail: self.tail@,
            hints: text::strings(self.hints@),
        }
    }
}

/// Separate a chunk of output, which follows the unfinished line `tail`, into text
/// to show and files to send.
pub fn extract_text_and_attachments(tail: &str, chunk: &str) -> (r: Extraction)
    ensures
        r@ == found_after(tail@, chunk@),
{
    let mut all = text::chars_of(tail);
    let mut more = text::chars_of(chunk);
    all.append(&mut more);
    let complete: bool = all.len() > 0 && all[all.len() - 1] == '\n';
    let parts = text::split(all.as_slice(), '\n');
    let n: usize = parts.len();
    let ghost lines = text::texts(parts@);
    let ghost whole = found_in(lines, complete);
    let mut r = Extraction { clean_text: String::new(), tail: String::new(), hints: Vec::new() };
    let mut i: usize = 0;
    assert(lines.skip(0) =~= lines);
    while i < n
        invariant
            i <= n == parts@.len(),
            lines == text::texts(parts@),
            whole == found_in(lines, complete),
            ({
                let rest = found_in(lines.skip(i as int), complete);
                &&& whole.clean == r.clean_text@ + rest.clean
                &&& whole.tail == r.tail@ + rest.tail
                &&& whole.hints == text::strings(r.hints@) + rest.hints
            }),
        decreases n - i,
    {
        let raw = parts[i].as_slice();
        let line = text::without_trailing(raw, CharClass::CarriageReturn);
        let ghost rest = lines.skip(i as int);
        let ghost clean = r.clean_text@;
        let ghost hints = text::strings(r.hints@);
        assert(rest[0] == raw@);
        assert(rest.skip(1) =~= lines.skip(i + 1));
        if i + 1 == n && !complete {
            if fragment(line.as_slice()) {
                text::push_chars(&mut r.tail, raw);
            } else {
                text::push_chars(&mut r.clean_text, raw);
            }
            assert(found_in(lines.skip(i + 1), complete) == found_in(
                Seq::<Seq<char>>::empty(),
                complete,
            )) by {
                assert(lines.skip(i + 1) =~= Seq::<Seq<char>>::empty());
            }
        } else {
            match hint_in(line.as_slice()) {
                Some(hint) => {
                    r.hints.push(hint);
                    assert(text::strings(r.hints@) =~= hints.push(hint@));
                },
                None => {
                    text::push_chars(&mut r.clean_text, raw);
                    r.clean_text.push('\n');
                },
            }
        }
        i += 1;
        proof {
            let now = found_in(lines.skip(i as int), complete);
            assert(whole.clean =~= r.clean_text@ + now.clean);
            assert(whole.tail =~= r.tail@ + now.tail);
            assert(whole.hints =~= text::strings(r.hints@) + now.hints);
        }
    }
    assert(lines.skip(i as int) =~= Seq::<Seq<char>>::empty());
    assert(r@ =~= whole);
    r
}

/// The places where the file of a hint is looked for, in order: the path itself
/// where it is absolute, then in the agent's working directory, then in that of the
/// process.
pub open spec fn candidates(
    hint: Seq<char>,
    home: Option<Seq<char>>,
    working_dir: Option<Seq<char>>,
    cwd: Option<Seq<char>>,
) -> Seq<Seq<char>> {
    let path = paths::home_expanded(hint, home);
    let itself = if paths::absolute(path) {
        seq![path]
    } else {
        Seq::empty()
    };
    let in_working_dir = match working_dir {
        Some(base) => seq![paths::joined(base, path)],
        None => Seq::empty(),
    };
    let in_cwd = match cwd {
        Some(base) => seq![paths::joined(base, path)],
        None => Seq::empty(),
    };
    itself + in_working_dir + in_cwd
}

/// The places where the file of a hint is looked for, in order.
pub fn attachment_candidates(
    path_hint: &str,
    home: Option<&str>,
    working_dir: Option<&str>,
    cwd: Option<&str>,
) -> (r: Vec<String>)
    ensures
        text::strings(r@) == candidates(
            path_hint@,
            text::optional(home),
            text::optional(working_dir),
            text::optional(cwd),
        ),
{
    let path = paths::expand_tilde(path_hint, home);
    let mut r: Vec<String> = Vec::new();
    if paths::is_absolute(path.as_str()) {
        r.push(path.clone());
    }
    if let Some(base) = working_dir {
        r.push(paths::join_path(base, path.as_str()));
    }
    if let Some(base) = cwd {
        r.push(paths::join_path(base, path.as_str()));
    }
    assert(text::strings(r@) =~= candidates(
        path_hint@,
        text::optional(home),
        text::optional(working_dir),
        text::optional(cwd),
    ));
    r
}

/// The first of the places that exists.
pub fn resolve_attachment_path(places: &Vec<String>, exists: &Vec<bool>) -> (r: Option<usize>)
    requires
        places@.len() == exists@.len(),
    ensures
        match r {
            Some(i) => i < places@.len() && exists@[i as int] && (forall|j: int|
                0 <= j < i ==> !exists@[j]),
            None => forall|j: int| 0 <= j < places@.len() ==> !exists@[j],
        },
{
    let mut i: usize = 0;
    while i < places.len()
        invariant
            i <= places@.len() == exists@.len(),
            forall|j: int| 0 <= j < i ==> !exists@[j],
        decreases places.len() - i,
    {
        if exists[i] {
            return Some(i);
        }
        i += 1;
    }
    None
}

/// Whether a path can be written behind the directive as it is: nothing of it is
/// cut off as white space, quote, scheme or closing punctuation.
pub open spec fn is_bare_path(path: Seq<char>) -> bool {
    &&& path.len() > 0
    &&& !text::is_space(path[0])
    &&& !CharClass::Quote.has(path[0])
    &&& !text::is_space(path.last())
    &&& !CharClass::Quote.has(path.last())
    &&& !CharClass::Closing.has(path.last())
    &&& !text::begins_with(path, "file://"@)
}

proof fn lemma_bare_path(path: Seq<char>)
    requires
        is_bare_path(path),
    ensures
        path_in(path) == path,
{
    assert(text::trimmed(path) == path);
    assert(text::strip_both(path, CharClass::Quote) == path);
}

proof fn lemma_directive(path: Seq<char>)
    requires
        is_bare_path(path),
    ensures
        normalized_line(ATTACH_PREFIX@ + path) == ATTACH_PREFIX@ + path,
        text::first_index(ATTACH_PREFIX@ + path, ATTACH_PREFIX@) == Some(0int),
{
    let d = ATTACH_PREFIX@ + path;
    reveal_strlit("ATTACH_FILE:");
    reveal_strlit("- ");
    reveal_strlit("• ");
    reveal_strlit("* ");
    assert(d[0] == 'A');
    assert(d.last() == path.last());
    assert(text::trimmed(d) == d);
    assert(d.subrange(0, 2)[0] == 'A');
    assert(!text::begins_with(d, "- "@) && !text::begins_with(d, "• "@) && !text::begins_with(
        d,
        "* "@,
    ));
    assert(d.subrange(0, ATTACH_PREFIX@.len() as int) =~= ATTACH_PREFIX@);
    text::lemma_first_index(d, ATTACH_PREFIX@, 0);
}

/// The directive names the file behind it.
pub proof fn law_directive_names_file(path: Seq<char>)
    requires
        is_bare_path(path),
    ensures
        hint_of(ATTACH_PREFIX@ + path) == Some(path),
{
    lemma_directive(path);
    lemma_bare_path(path);
    assert((ATTACH_PREFIX@ + path).skip(ATTACH_PREFIX@.len() as int) =~= path);
}

proof fn lemma_one_line(line: Seq<char>)
    requires
        !line.contains('\n'),
    ensures
        text::split_on(line, '\n') == seq![line],
        text::split_on(line.push('\n'), '\n') == seq![line, Seq::<char>::empty()],
{
    text::lemma_index_from(line, 0, '\n');
    assert(text::index_from(line, 0, '\n') is None) by {
        if let Some(i) = text::index_from(line, 0, '\n') {
            assert(line[i] == '\n');
        }
    }
    let whole = line.push('\n');
    let n = line.len() as int;
    text::lemma_index_from(whole, 0, '\n');
    assert(whole[n] == '\n');
    assert forall|j: int| 0 <= j < n implies whole[j] != '\n' by {
        assert(whole[j] == line[j]);
        assert(line.contains(line[j]));
    }
    assert(text::index_from(whole, 0, '\n') == Some(n));
    assert(whole.take(n) =~= line);
    let empty = Seq::<char>::empty();
    assert(whole.skip(n + 1) =~= empty);
    assert(text::split_on(empty, '\n') =~= seq![empty]);
    assert(text::split_on(whole, '\n') =~= seq![line, empty]);
}

proof fn lemma_nothing_in_empty_line()
    ensures
        hint_of(Seq::<char>::empty()) is None,
        text::strip_trailing(Seq::<char>::empty(), CharClass::CarriageReturn) == Seq::<
            char,
        >::empty(),
{
    let empty = Seq::<char>::empty();
    reveal_strlit("ATTACH_FILE:");
    reveal_strlit("- ");
    reveal_strlit("• ");
    reveal_strlit("* ");
    assert(text::trimmed(empty) == empty);
    assert(normalized_line(empty) == empty);
    assert(!text::holds(empty, ATTACH_PREFIX@));
    assert(!empty.contains('.'));
}

proof fn lemma_directive_line(path: Seq<char>)
    requires
        is_bare_path(path),
        !path.contains('\n'),
    ensures
        ({
            let line = ATTACH_PREFIX@ + path;
            &&& !line.contains('\n')
            &&& text::strip_trailing(line, CharClass::CarriageReturn) == line
            &&& found_after(Seq::empty(), line.push('\n')) == (Found {
                clean: seq!['\n'],
                tail: Seq::empty(),
                hints: seq![path],
            })
        }),
{
    let line = ATTACH_PREFIX@ + path;
    let empty = Seq::<char>::empty();
    reveal_strlit("ATTACH_FILE:");
    assert forall|j: int| 0 <= j < line.len() implies line[j] != '\n' by {
        if j >= ATTACH_PREFIX@.len() {
            assert(line[j] == path[j - ATTACH_PREFIX@.len()]);
        }
    }
    lemma_one_line(line);
    law_directive_names_file(path);
    lemma_nothing_in_empty_line();
    assert(empty + line.push('\n') =~= line.push('\n'));
    let lines = seq![line, empty];
    assert(lines.skip(1) =~= seq![empty]);
    assert(lines.skip(1).skip(1) =~= Seq::<Seq<char>>::empty());
    let last = found_in(lines.skip(1), true);
    assert(found_in(lines.skip(1).skip(1), true).hints =~= Seq::<Seq<char>>::empty());
    assert(last.clean =~= seq!['\n']);
    assert(found_in(lines, true) =~= Found { clean: seq!['\n'], tail: empty, hints: seq![path] });
}

/// A line with a directive is taken out of the text, and its file is to be sent.
pub proof fn law_directive_is_taken_out(path: Seq<char>)
    requires
        is_bare_path(path),
        !path.contains('\n'),
    ensures
        found_after(Seq::empty(), (ATTACH_PREFIX@ + path).push('\n')) == (Found {
            clean: seq!['\n'],
            tail: Seq::empty(),
            hints: seq![path],
        }),
{
    lemma_directive_line(path);
}

/// A directive that arrives in two chunks is found like one that arrives in one:
/// its beginning is shown to nobody and kept until the rest is there.
pub proof fn law_directive_in_two_chunks(path: Seq<char>, k: int)
    requires
        is_bare_path(path),
        !path.contains('\n'),
        0 < k <= ATTACH_PREFIX@.len() + path.len(),
    ensures
        ({
            let line = ATTACH_PREFIX@ + path;
            let first = found_after(Seq::empty(), line.take(k));
            &&& first == (Found {
                clean: Seq::empty(),
                tail: line.take(k),
                hints: Seq::empty(),
            })
            &&& found_after(first.tail, line.skip(k).push('\n')) == found_after(
                Seq::empty(),
                line.push('\n'),
            )
        }),
{
    let line = ATTACH_PREFIX@ + path;
    let empty = Seq::<char>::empty();
    let head = line.take(k);
    lemma_directive_line(path);
    assert forall|j: int| 0 <= j < head.len() implies head[j] != '\n' by {
        assert(head[j] == line[j]);
        assert(line.contains(line[j]));
    }
    lemma_one_line(head);
    assert(empty + head =~= head);
    lemma_beginning_is_kept(path, k);
    assert(found_in(seq![head], false) =~= Found {
        clean: empty,
        tail: head,
        hints: Seq::<Seq<char>>::empty(),
    });
    assert(head + line.skip(k).push('\n') =~= empty + line.push('\n'));
}

proof fn lemma_beginning_is_kept(path: Seq<char>, k: int)
    requires
        is_bare_path(path),
        0 < k <= ATTACH_PREFIX@.len() + path.len(),
    ensures
        may_become_directive(
            text::strip_trailing((ATTACH_PREFIX@ + path).take(k), CharClass::CarriageReturn),
        ),
{
    let line = ATTACH_PREFIX@ + path;
    let p = ATTACH_PREFIX@;
    reveal_strlit("ATTACH_FILE:");
    reveal_strlit("- ");
    reveal_strlit("• ");
    reveal_strlit("* ");
    let head = line.take(k);
    let a = text::strip_trailing(head, CharClass::CarriageReturn);
    text::lemma_strip_trailing(head, CharClass::CarriageReturn);
    assert(line[0] == 'A');
    assert(head[0] == 'A');
    assert(a.len() > 0);
    assert(a[0] == 'A');
    assert(text::strip_leading(a, CharClass::Space) == a);
    let n = text::trimmed(a);
    text::lemma_strip_trailing(a, CharClass::Space);
    assert(n.len() > 0);
    assert(n[0] == 'A');
    assert(n =~= line.take(n.len() as int));
    assert forall|q: Seq<char>| q.len() == 2 && q[0] != 'A' implies !#[trigger] text::begins_with(
        n,
        q,
    ) by {
        if text::begins_with(n, q) {
            assert(n.subrange(0, 2)[0] == q[0]);
        }
    }
    assert(normalized_line(a) == n);
    if n.len() >= p.len() {
        assert(n.subrange(0, p.len() as int) =~= p);
        assert(text::occurs_at(n, p, 0));
    } else {
        assert(p.subrange(0, n.len() as int) =~= n);
    }
}

proof fn lemma_clean_without_hints(lines: Seq<Seq<char>>, complete: bool)
    requires
        lines.len() > 0,
        found_in(lines, complete).hints.len() == 0,
    ensures
        ({
            let f = found_in(lines, complete);
            f.clean + f.tail == if complete {
                text::join(lines, seq!['\n']).push('\n')
            } else {
                text::join(lines, seq!['\n'])
            }
        }),
    decreases lines.len(),
{
    let f = found_in(lines, complete);
    let raw = lines[0];
    let line = text::strip_trailing(raw, CharClass::CarriageReturn);
    let rest = found_in(lines.skip(1), complete);
    if lines.len() == 1 {
        assert(lines.skip(1) =~= Seq::<Seq<char>>::empty());
        if !complete {
            assert(f.clean + f.tail =~= raw);
        } else {
            assert(hint_of(line) is None);
            assert(f.clean + f.tail =~= raw.push('\n'));
        }
    } else {
        assert(hint_of(line) is None);
        lemma_clean_without_hints(lines.skip(1), complete);
        assert(f.clean + f.tail =~= raw + seq!['\n'] + (rest.clean + rest.tail));
        assert(raw + seq!['\n'] + text::join(lines.skip(1), seq!['\n']).push('\n') =~= text::join(
            lines,
            seq!['\n'],
        ).push('\n'));
    }
}

/// Where no line asks for a file, nothing is lost: what is shown and what is kept
/// make up the unfinished line and the chunk; a chunk that ends with a newline is
/// shown with one more.
pub proof fn law_other_text_is_kept(tail: Seq<char>, chunk: Seq<char>)
    requires
        found_after(tail, chunk).hints.len() == 0,
    ensures
        ({
            let f = found_after(tail, chunk);
            let all = tail + chunk;
            f.clean + f.tail == if all.len() > 0 && all.last() == '\n' {
                all.push('\n')
            } else {
                all
            }
        }),
{
    let all = tail + chunk;
    text::lemma_split_join(all, '\n');
    lemma_clean_without_hints(text::split_on(all, '\n'), all.len() > 0 && all.last() == '\n');
}

/// Where a chunk ends with a newline, nothing of it is kept for later.
pub proof fn law_complete_lines_leave_no_tail(tail: Seq<char>, chunk: Seq<char>)
    requires
        chunk.len() > 0,
        chunk.last() == '\n',
    ensures
        found_after(tail, chunk).tail.len() == 0,
{
    lemma_complete_no_tail(text::split_on(tail + chunk, '\n'));
}

proof fn lemma_complete_no_tail(lines: Seq<Seq<char>>)
    ensures
        found_in(lines, true).tail.len() == 0,
    decreases lines.len(),
{
    if lines.len() > 0 {
        lemma_complete_no_tail(lines.skip(1));
    }
}

/// A complete line in front of more output: if it asks for a file, it is taken out and
/// its file comes before those of the rest; else it is shown before the rest. What the
/// rest comes to is the same as without it.
pub proof fn law_lines_are_looked_at_one_by_one(
    tail: &str,
    chunk: &str,
    r: Extraction,
    line: Seq<char>,
    tail2: &str,
    chunk2: &str,
    rest: Extraction,
)
    requires
        call_ensures(extract_text_and_attachments, (tail, chunk), r),
        call_ensures(extract_text_and_attachments, (tail2, chunk2), rest),
        !line.contains('\n'),
        line.len() > 0 ==> line.last() != '\r',
        (tail2@ + chunk2@).len() > 0,
        tail@ + chunk@ == line + seq!['\n'] + (tail2@ + chunk2@),
    ensures
        r.tail@ == rest.tail@,
        hint_of(line) matches Some(hint) ==> r.clean_text@ == rest.clean_text@ && text::strings(
            r.hints@,
        ) == seq![hint] + text::strings(rest.hints@),
        hint_of(line) is None ==> r.clean_text@ == line + seq!['\n'] + rest.clean_text@
            && text::strings(r.hints@) == text::strings(rest.hints@),
{
    let more = tail2@ + chunk2@;
    let all = tail@ + chunk@;
    assert(all =~= line.push('\n') + more);
    text::lemma_split_front(line, '\n', more);
    assert(all.last() == more.last());
    let lines = text::split_on(all, '\n');
    assert(lines.skip(1) =~= text::split_on(more, '\n'));
    text::lemma_split_join(more, '\n');
    assert(text::strip_trailing(line, CharClass::CarriageReturn) == line);
    let complete = all.len() > 0 && all.last() == '\n';
    let f = found_in(text::split_on(more, '\n'), complete);
    assert(found_after(tail2@, chunk2@) == f);
    assert(r@ == found_in(lines, complete));
    assert(line.push('\n') + f.clean =~= line + seq!['\n'] + f.clean);
}

/// A complete line alone: if it asks for a file, it is taken out but for a newline, and
/// its file is sent; else it is shown, with a newline more.
pub proof fn law_one_complete_line(tail: &str, chunk: &str, r: Extraction, line: Seq<char>)
    requires
        call_ensures(extract_text_and_attachments, (tail, chunk), r),
        !line.contains('\n'),
        line.len() > 0 ==> line.last() != '\r',
        tail@ + chunk@ == line + seq!['\n'],
    ensures
        r.tail@.len() == 0,
        hint_of(line) matches Some(hint) ==> r.clean_text@ == seq!['\n'] && text::strings(r.hints@)
            == seq![hint],
        hint_of(line) is None ==> r.clean_text@ == line + seq!['\n', '\n'] && r.hints@.len() == 0,
{
    let all = tail@ + chunk@;
    let none = Seq::<char>::empty();
    assert(all =~= line.push('\n'));
    assert(all.last() == '\n');
    lemma_one_line(line);
    lemma_nothing_in_empty_line();
    let lines = seq![line, none];
    assert(lines.skip(1) =~= seq![none]);
    assert(lines.skip(1).skip(1) =~= Seq::<Seq<char>>::empty());
    assert(text::strip_trailing(line, CharClass::CarriageReturn) == line);
    let last = found_in(lines.skip(1), true);
    assert(found_in(lines.skip(1).skip(1), true).hints =~= Seq::<Seq<char>>::empty());
    assert(last.clean =~= seq!['\n']);
    assert(r@ == found_in(lines, true));
    assert(text::strings(r.hints@).len() == r.hints@.len());
    if let Some(hint) = hint_of(line) {
        assert(text::strings(r.hints@) =~= seq![hint]);
    } else {
        assert(r.clean_text@ =~= line + seq!['\n', '\n']);
    }
}

/// A line that is not complete yet is shown as it is, or kept as it is where it may
/// become a directive; no file is sent for it.
pub proof fn law_unfinished_line_is_shown_or_kept(
    tail: &str,
    chunk: &str,
    r: Extraction,
)
    requires
        call_ensures(extract_text_and_attachments, (tail, chunk), r),
        !(tail@ + chunk@).contains('\n'),
        (tail@ + chunk@).len() > 0 ==> (tail@ + chunk@).last() != '\r',
    ensures
        r.hints@.len() == 0,
        may_become_directive(tail@ + chunk@) ==> r.tail@ == tail@ + chunk@ && r.clean_text@.len()
            == 0,
        !may_become_directive(tail@ + chunk@) ==> r.clean_text@ == tail@ + chunk@ && r.tail@.len()
            == 0,
{
    let all = tail@ + chunk@;
    lemma_one_line(all);
    assert(text::strip_trailing(all, CharClass::CarriageReturn) == all);
    if all.len() > 0 {
        assert(all.contains(all[all.len() - 1]));
    }
    assert(r@ == found_in(seq![all], false));
    assert(text::strings(r.hints@).len() == r.hints@.len());
}

/// The files that lines ask for, in order.
pub open spec fn asked_for(lines: Seq<Seq<char>>) -> Seq<Seq<char>>
    decreases lines.len(),
{
    if lines.len() == 0 {
        Seq::empty()
    } else {
        let line = text::strip_trailing(lines.last(), CharClass::CarriageReturn);
        match hint_of(line) {
            Some(hint) => asked_for(lines.drop_last()).push(hint),
            None => asked_for(lines.drop_last()),
        }
    }
}

/// The lines that ask for no file, each with its newline.
pub open spec fn not_asking(lines: Seq<Seq<char>>) -> Seq<char>
    decreases lines.len(),
{
    if lines.len() == 0 {
        Seq::empty()
    } else {
        let line = text::strip_trailing(lines.last(), CharClass::CarriageReturn);
        match hint_of(line) {
            Some(_) => not_asking(lines.drop_last()),
            None => not_asking(lines.drop_last()) + lines.last() + seq!['\n'],
        }
    }
}

proof fn lemma_asked_front(lines: Seq<Seq<char>>)
    requires
        lines.len() > 0,
    ensures
        ({
            let line = text::strip_trailing(lines[0], CharClass::CarriageReturn);
            let rest = lines.skip(1);
            match hint_of(line) {
                Some(hint) => asked_for(lines) == seq![hint] + asked_for(rest) && not_asking(lines)
                    == not_asking(rest),
                None => asked_for(lines) == asked_for(rest) && not_asking(lines) == lines[0] + seq![
                    '\n',
                ] + not_asking(rest),
            }
        }),
    decreases lines.len(),
{
    let rest = lines.skip(1);
    let line = text::strip_trailing(lines[0], CharClass::CarriageReturn);
    if lines.len() == 1 {
        assert(lines.drop_last() =~= Seq::<Seq<char>>::empty());
        assert(rest =~= Seq::<Seq<char>>::empty());
        assert(lines.last() == lines[0]);
        match hint_of(line) {
            Some(hint) => {
                assert(asked_for(lines) =~= seq![hint] + asked_for(rest));
            },
            None => {
                assert(not_asking(lines) =~= lines[0] + seq!['\n'] + not_asking(rest));
            },
        }
    } else {
        lemma_asked_front(lines.drop_last());
        assert(lines.drop_last().skip(1) =~= rest.drop_last());
        assert(rest.last() == lines.last());
        assert(lines.drop_last()[0] == lines[0]);
        match hint_of(line) {
            Some(hint) => {
                assert(asked_for(lines) =~= seq![hint] + asked_for(rest));
            },
            None => {
                assert(not_asking(lines) =~= lines[0] + seq!['\n'] + not_asking(rest));
            },
        }
    }
}

proof fn lemma_found_in(lines: Seq<Seq<char>>)
    ensures
        found_in(lines, true) == (Found {
            clean: not_asking(lines),
            tail: Seq::empty(),
            hints: asked_for(lines),
        }),
    decreases lines.len(),
{
    if lines.len() == 0 {
        assert(found_in(lines, true).hints =~= asked_for(lines));
    } else {
        lemma_asked_front(lines);
        lemma_found_in(lines.skip(1));
        assert(lines[0].push('\n') + not_asking(lines.skip(1)) =~= lines[0] + seq!['\n']
            + not_asking(lines.skip(1)));
    }
}

/// Of complete lines, every one that asks for a file is taken out and its file is sent,
/// in order; all others are shown, in order.
pub proof fn law_every_directive_is_obeyed(tail: &str, chunk: &str, r: Extraction)
    requires
        call_ensures(extract_text_and_attachments, (tail, chunk), r),
        chunk@.len() > 0,
        chunk@.last() == '\n',
    ensures
        text::strings(r.hints@) == asked_for(text::split_on(tail@ + chunk@, '\n')),
        r.clean_text@ == not_asking(text::split_on(tail@ + chunk@, '\n')),
        r.tail@.len() == 0,
{
    let all = tail@ + chunk@;
    assert(all.last() == '\n');
    lemma_found_in(text::split_on(all, '\n'));
    assert(r@ == found_in(text::split_on(all, '\n'), true));
}

/// Whether a text is one of the marks of a list item, or none.
pub open spec fn is_list_mark(mark: Seq<char>) -> bool {
    mark.len() == 0 || mark == "- "@ || mark == "* "@ || mark == "• "@
}

proof fn lemma_marked(front: Seq<char>, mark: Seq<char>, rest: Seq<char>, back: Seq<char>)
    requires
        text::is_blank(front),
        text::is_blank(back),
        is_list_mark(mark),
        rest.len() > 0,
        !text::is_space(rest[0]),
        !text::is_space(rest.last()),
        rest[0] != '-' && rest[0] != '*' && rest[0] != '•',
    ensures
        normalized_line(front + mark + rest + back) == rest,
{
    reveal_strlit("- ");
    reveal_strlit("* ");
    reveal_strlit("• ");
    let t = mark + rest;
    assert(front + mark + rest + back =~= front + t + back);
    assert(t.last() == rest.last());
    assert(t[0] == if mark.len() == 0 {
        rest[0]
    } else {
        mark[0]
    });
    text::law_trimming_takes_white_space_alone(front, t, back);
    if mark.len() == 0 {
        assert(t =~= rest);
    } else {
        assert(t.subrange(0, 2) =~= mark);
        assert(t.skip(2) =~= rest);
    }
    assert forall|q: Seq<char>| q.len() == 2 && q[0] != t[0] implies !#[trigger] text::begins_with(
        t,
        q,
    ) by {
        if text::begins_with(t, q) {
            assert(t.subrange(0, 2)[0] == q[0]);
        }
    }
    assert(text::strip_leading(rest, CharClass::Space) == rest);
}

/// Whether all characters of a text are quotes.
pub open spec fn are_quotes(s: Seq<char>) -> bool {
    forall|i: int| 0 <= i < s.len() ==> #[trigger] s[i] == '`' || s[i] == '"' || s[i] == '\''
}

/// Whether all characters of a text close a phrase.
pub open spec fn are_closing(s: Seq<char>) -> bool {
    forall|i: int|
        0 <= i < s.len() ==> #[trigger] s[i] == ',' || s[i] == '.' || s[i] == ';' || s[i] == ':'
            || s[i] == ')' || s[i] == ']' || s[i] == '>'
}

/// A path is found in a hint whatever stands around it: white space, quotes, the scheme
/// of a local file in front, closing punctuation behind.
pub proof fn law_path_is_found_in_its_wrapping(
    raw: &str,
    r: String,
    front: Seq<char>,
    quotes: Seq<char>,
    scheme: Seq<char>,
    path: Seq<char>,
    closing: Seq<char>,
    quotes2: Seq<char>,
    back: Seq<char>,
)
    requires
        call_ensures(sanitize_path_hint, (raw,), r),
        raw@ == front + (quotes + (scheme + path + closing) + quotes2) + back,
        text::is_blank(front),
        text::is_blank(back),
        are_quotes(quotes),
        are_quotes(quotes2),
        are_closing(closing),
        scheme.len() == 0 || scheme == "file://"@,
        is_bare_path(path),
    ensures
        r@ == path,
{
    lemma_wrapped(front, quotes, scheme, path, closing, quotes2, back);
}

proof fn lemma_wrapped(
    front: Seq<char>,
    quotes: Seq<char>,
    scheme: Seq<char>,
    path: Seq<char>,
    closing: Seq<char>,
    quotes2: Seq<char>,
    back: Seq<char>,
)
    requires
        text::is_blank(front),
        text::is_blank(back),
        are_quotes(quotes),
        are_quotes(quotes2),
        are_closing(closing),
        scheme.len() == 0 || scheme == "file://"@,
        is_bare_path(path),
    ensures
        path_in(front + (quotes + (scheme + path + closing) + quotes2) + back) == path,
        ({
            let t = quotes + (scheme + path + closing) + quotes2;
            t.len() > 0 && !text::is_space(t[0]) && !text::is_space(t.last())
        }),
{
    reveal_strlit("file://");
    let core = scheme + path + closing;
    let t = quotes + core + quotes2;
    assert(core[0] == if scheme.len() == 0 {
        path[0]
    } else {
        'f'
    });
    assert(core.last() == if closing.len() == 0 {
        path.last()
    } else {
        closing.last()
    });
    if closing.len() > 0 {
        assert(closing[closing.len() - 1] == closing.last());
    }
    if quotes.len() > 0 {
        assert(t[0] == quotes[0]);
    } else {
        assert(t[0] == core[0]);
    }
    if quotes2.len() > 0 {
        assert(t.last() == quotes2[quotes2.len() - 1]);
    } else {
        assert(t.last() == core.last());
    }
    text::law_trimming_takes_white_space_alone(front, t, back);
    assert(!CharClass::Quote.has(core[0]) && !CharClass::Quote.has(core.last()));
    assert forall|i: int| 0 <= i < quotes.len() implies CharClass::Quote.has(
        #[trigger] quotes[i],
    ) by {}
    assert forall|i: int| 0 <= i < quotes2.len() implies CharClass::Quote.has(
        #[trigger] quotes2[i],
    ) by {}
    text::lemma_both_go(quotes, core, quotes2, CharClass::Quote);
    let local = path + closing;
    if scheme.len() == 0 {
        assert(core =~= local);
        if text::begins_with(local, "file://"@) {
            lemma_prefix_reaches(path, closing);
        }
    } else {
        assert(core =~= "file://"@ + local);
        assert(core.subrange(0, 7) =~= "file://"@);
        assert(core.skip(7) =~= local);
    }
    assert forall|i: int| 0 <= i < closing.len() implies CharClass::Closing.has(
        #[trigger] closing[i],
    ) by {}
    text::lemma_trailing_goes(path, closing, CharClass::Closing);
}

/// The scheme cannot be made of a path and the punctuation behind it.
proof fn lemma_prefix_reaches(path: Seq<char>, closing: Seq<char>)
    requires
        path.len() > 0,
        are_closing(closing),
        text::begins_with(path + closing, "file://"@),
        !CharClass::Closing.has(path.last()),
    ensures
        text::begins_with(path, "file://"@),
{
    reveal_strlit("file://");
    let s = path + closing;
    let p = "file://"@;
    assert(s.subrange(0, 7) == p);
    if path.len() < 7 {
        let n = path.len() as int;
        assert(s.subrange(0, 7)[6] == s[6]);
        assert(s[6] == closing[6 - n]);
        assert(closing[6 - n] == '/');
    } else {
        assert(path.subrange(0, 7) =~= p) by {
            assert forall|i: int| 0 <= i < 7 implies path[i] == p[i] by {
                assert(s.subrange(0, 7)[i] == s[i]);
            }
        }
    }
}

/// A directive is found behind the mark of a list item and white space, and its path in
/// whatever stands around it.
pub proof fn law_directive_is_found_in_its_wrapping(
    line: &str,
    r: Option<String>,
    front: Seq<char>,
    mark: Seq<char>,
    gap: Seq<char>,
    quotes: Seq<char>,
    scheme: Seq<char>,
    path: Seq<char>,
    closing: Seq<char>,
    quotes2: Seq<char>,
    back: Seq<char>,
)
    requires
        call_ensures(extract_attachment_hint, (line,), r),
        line@ == front + mark + ("ATTACH_FILE:"@ + gap + (quotes + (scheme + path + closing)
            + quotes2)) + back,
        text::is_blank(front),
        text::is_blank(gap),
        text::is_blank(back),
        is_list_mark(mark),
        are_quotes(quotes),
        are_quotes(quotes2),
        are_closing(closing),
        scheme.len() == 0 || scheme == "file://"@,
        is_bare_path(path),
    ensures
        r matches Some(hint) && hint@ == path,
{
    let wrapped = quotes + (scheme + path + closing) + quotes2;
    let n = "ATTACH_FILE:"@ + gap + wrapped;
    reveal_strlit("ATTACH_FILE:");
    let none = Seq::<char>::empty();
    lemma_wrapped(gap, quotes, scheme, path, closing, quotes2, none);
    assert(gap + wrapped + none =~= gap + wrapped);
    assert(n[0] == 'A');
    assert(n.last() == wrapped.last());
    lemma_marked(front, mark, n, back);
    let p = ATTACH_PREFIX@;
    assert(n.subrange(0, p.len() as int) =~= p);
    text::lemma_first_index(n, p, 0);
    assert(n.skip(p.len() as int) =~= gap + wrapped);
}

/// A line that is a file name by itself, with a dot and no space in it, asks for that
/// file.
pub proof fn law_file_name_alone_asks_for_the_file(
    line: &str,
    r: Option<String>,
    front: Seq<char>,
    mark: Seq<char>,
    name: Seq<char>,
    back: Seq<char>,
)
    requires
        call_ensures(extract_attachment_hint, (line,), r),
        line@ == front + mark + name + back,
        text::is_blank(front),
        text::is_blank(back),
        is_list_mark(mark),
        is_bare_path(name),
        name[0] != '-' && name[0] != '*' && name[0] != '•',
        !name.contains(' '),
        name.contains('.'),
        !text::holds(name, "ATTACH_FILE:"@),
    ensures
        r matches Some(hint) && hint@ == name,
{
    lemma_marked(front, mark, name, back);
    lemma_bare_path(name);
}

/// A line without a directive asks for no file where it has a space in it, or no dot.
pub proof fn law_prose_asks_for_no_file(
    line: &str,
    r: Option<String>,
    front: Seq<char>,
    mark: Seq<char>,
    prose: Seq<char>,
    back: Seq<char>,
)
    requires
        call_ensures(extract_attachment_hint, (line,), r),
        line@ == front + mark + prose + back,
        text::is_blank(front),
        text::is_blank(back),
        is_list_mark(mark),
        prose.len() > 0,
        !text::is_space(prose[0]),
        !text::is_space(prose.last()),
        prose[0] != '-' && prose[0] != '*' && prose[0] != '•',
        prose.contains(' ') || !prose.contains('.'),
        !text::holds(prose, "ATTACH_FILE:"@),
    ensures
        r is None,
{
    lemma_marked(front, mark, prose, back);
}

/// A blank line asks for no file.
pub proof fn law_blank_line_asks_for_no_file(line: &str, r: Option<String>)
    requires
        call_ensures(extract_attachment_hint, (line,), r),
        text::is_blank(line@),
    ensures
        r is None,
{
    text::law_blank_text_trims_to_nothing(line@);
    lemma_nothing_in_empty_line();
    assert(text::trimmed(line@) =~= Seq::<char>::empty());
    assert(text::trimmed(Seq::<char>::empty()) == Seq::<char>::empty());
}

proof fn lemma_normalized_holds(line: Seq<char>, c: char)
    requires
        normalized_line(line).contains(c),
    ensures
        line.contains(c),
{
    let k = CharClass::Space;
    let a = text::strip_leading(line, k);
    let t = text::trimmed(line);
    text::lemma_strip_leading(line, k);
    text::lemma_strip_trailing(a, k);
    let n = normalized_line(line);
    let i = choose|i: int| 0 <= i < n.len() && n[i] == c;
    if n == t {
        assert(t[i] == a[i]);
    } else {
        let rest = t.skip(2);
        reveal_strlit("- ");
        reveal_strlit("• ");
        reveal_strlit("* ");
        text::lemma_strip_leading(rest, k);
        assert(n == text::strip_leading(rest, k));
        let d = rest.len() - n.len();
        assert(n[i] == rest[i + d]);
        assert(rest[i + d] == t[i + d + 2]);
        assert(t[i + d + 2] == a[i + d + 2]);
    }
    let d2 = line.len() - a.len();
    assert(forall|j: int| 0 <= j < a.len() ==> a[j] == line[j + d2]);
}

proof fn lemma_word_holds(s: Seq<char>, i: int, c: char)
    requires
        0 <= i < text::words(s).len(),
        text::words(s)[i].contains(c),
    ensures
        s.contains(c),
    decreases s.len(),
{
    let k = CharClass::Space;
    let t = text::strip_leading(s, k);
    text::lemma_strip_leading(s, k);
    text::lemma_word_len(t);
    let n = text::word_len(t) as int;
    let d = s.len() - t.len();
    if i == 0 {
        let w = t.take(n);
        assert(text::words(s)[0] == w);
        let j = choose|j: int| 0 <= j < w.len() && w[j] == c;
        assert(w[j] == t[j] && t[j] == s[j + d]);
    } else {
        assert(text::words(s)[i] == text::words(t.skip(n))[i - 1]);
        lemma_word_holds(t.skip(n), i - 1, c);
        let j = choose|j: int| 0 <= j < t.skip(n).len() && t.skip(n)[j] == c;
        assert(t.skip(n)[j] == t[j + n] && t[j + n] == s[j + n + d]);
    }
}

/// An unfinished line without the letter that directives begin with is never held back.
pub proof fn law_other_unfinished_line_is_shown_at_once(line: &str, r: bool)
    requires
        call_ensures(could_be_attachment_fragment, (line,), r),
        !line@.contains('A'),
    ensures
        !r,
{
    let n = normalized_line(line@);
    let p = ATTACH_PREFIX@;
    reveal_strlit("ATTACH_FILE:");
    assert(p[0] == 'A');
    if r {
        if text::holds(n, p) {
            let i = choose|i: int| text::occurs_at(n, p, i);
            assert(n.subrange(i, i + p.len())[0] == n[i]);
            assert(n.contains('A'));
        } else if text::begins_with(p, n) {
            assert(p.subrange(0, n.len() as int)[0] == p[0]);
            assert(n.contains(n[0]));
        } else {
            let w = text::words(n);
            let last = w.last();
            text::lemma_words_are_bare(n, w.len() - 1);
            assert(p.subrange(0, last.len() as int)[0] == p[0]);
            assert(last.contains(last[0]));
            lemma_word_holds(n, w.len() - 1, 'A');
        }
        lemma_normalized_holds(line@, 'A');
    }
}

/// The beginning of a directive is held back, alone or behind other words.
pub proof fn law_beginning_of_a_directive_is_held_back(
    line: &str,
    r: bool,
    front: Seq<char>,
    k: int,
)
    requires
        call_ensures(could_be_attachment_fragment, (line,), r),
        0 < k <= "ATTACH_FILE:"@.len(),
        line@ == front + "ATTACH_FILE:"@.take(k),
        front.len() > 0 ==> front.last() == ' ',
        front.len() > 0 ==> !text::is_space(front[0]) && front[0] != '-' && front[0] != '*'
            && front[0] != '•',
    ensures
        r,
{
    let p = ATTACH_PREFIX@;
    reveal_strlit("ATTACH_FILE:");
    let w = p.take(k);
    let none = Seq::<char>::empty();
    assert(w[0] == 'A');
    assert(w.last() == p[k - 1]);
    assert(!text::is_space(w.last()));
    let l = line@;
    assert(l.last() == w.last());
    assert(l[0] == if front.len() > 0 {
        front[0]
    } else {
        'A'
    });
    assert(none + none + l + none =~= l);
    lemma_marked(none, none, l, none);
    assert forall|i: int| 0 <= i < w.len() implies !text::is_space(#[trigger] w[i]) by {
        assert(w[i] == p[i]);
    }
    text::lemma_last_word(front, w);
    assert(p.subrange(0, w.len() as int) =~= w);
}

/// The file of an absolute path is looked for there alone.
pub proof fn law_absolute_path_is_looked_for_as_it_is(
    hint: &str,
    home: Option<&str>,
    working_dir: Option<&str>,
    cwd: Option<&str>,
    r: Vec<String>,
    i: int,
)
    requires
        call_ensures(attachment_candidates, (hint, home, working_dir, cwd), r),
        hint@.len() > 0,
        hint@[0] == '/',
        0 <= i < r@.len(),
    ensures
        r@[i]@ == hint@,
        r@[0]@ == hint@,
{
    reveal_strlit("~");
    reveal_strlit("~/");
    if text::begins_with(hint@, "~/"@) {
        assert(hint@.subrange(0, 2)[0] == '~');
    }
    let c = candidates(
        hint@,
        text::optional(home),
        text::optional(working_dir),
        text::optional(cwd),
    );
    assert(text::strings(r@) == c);
    assert(text::strings(r@)[i] == r@[i]@ && text::strings(r@)[0] == r@[0]@);
    assert(text::strings(r@).len() == r@.len());
    assert(c[0] == hint@);
    assert(c[i] == hint@);
}

/// There is always a place to look for the file of an absolute path.
pub proof fn law_absolute_path_has_a_place(
    hint: &str,
    home: Option<&str>,
    working_dir: Option<&str>,
    cwd: Option<&str>,
    r: Vec<String>,
)
    requires
        call_ensures(attachment_candidates, (hint, home, working_dir, cwd), r),
        hint@.len() > 0,
        hint@[0] == '/',
    ensures
        r@.len() > 0,
{
    reveal_strlit("~");
    reveal_strlit("~/");
    if text::begins_with(hint@, "~/"@) {
        assert(hint@.subrange(0, 2)[0] == '~');
    }
    assert(text::strings(r@).len() == r@.len());
}

/// The file of a relative path is looked for in the agent's working directory, then in
/// that of the process.
pub proof fn law_relative_path_is_looked_for_in_the_working_directories(
    hint: &str,
    home: Option<&str>,
    working_dir: &str,
    cwd: &str,
    r: Vec<String>,
)
    requires
        call_ensures(attachment_candidates, (hint, home, Some(working_dir), Some(cwd)), r),
        hint@.len() > 0,
        hint@[0] != '/',
        hint@[0] != '~',
        working_dir@.len() > 0,
        working_dir@.last() != '/',
        cwd@.len() > 0,
        cwd@.last() != '/',
    ensures
        text::strings(r@) == seq![working_dir@ + "/"@ + hint@, cwd@ + "/"@ + hint@],
{
    reveal_strlit("~");
    reveal_strlit("~/");
    reveal_strlit("/");
    if text::begins_with(hint@, "~/"@) {
        assert(hint@.subrange(0, 2)[0] == '~');
    }
    assert(working_dir@.push('/') + hint@ =~= working_dir@ + "/"@ + hint@);
    assert(cwd@.push('/') + hint@ =~= cwd@ + "/"@ + hint@);
    assert(text::strings(r@) =~= seq![working_dir@ + "/"@ + hint@, cwd@ + "/"@ + hint@]);
}

/// The file of a path below the home directory is looked for there first.
pub proof fn law_home_path_is_looked_for_below_home(
    rest: Seq<char>,
    hint: &str,
    home: &str,
    working_dir: Option<&str>,
    cwd: Option<&str>,
    r: Vec<String>,
)
    requires
        call_ensures(attachment_candidates, (hint, Some(home), working_dir, cwd), r),
        hint@ == "~/"@ + rest,
        rest.len() == 0 || rest[0] != '/',
        home@.len() > 0,
        home@[0] == '/',
        home@.last() != '/',
    ensures
        r@.len() > 0,
        r@[0]@ == home@ + "/"@ + rest,
{
    reveal_strlit("~");
    reveal_strlit("~/");
    reveal_strlit("/");
    let h = hint@;
    assert(h.subrange(0, 2) =~= "~/"@);
    assert(h.skip(2) =~= rest);
    assert(h.len() >= 2);
    let path = home@.push('/') + rest;
    assert(path =~= home@ + "/"@ + rest);
    assert(path[0] == '/');
    let c = candidates(
        h,
        Some(home@),
        text::optional(working_dir),
        text::optional(cwd),
    );
    assert(c[0] == path);
    assert(text::strings(r@).len() == r@.len());
    assert(text::strings(r@)[0] == r@[0]@);
}

proof fn lemma_no_path()
    ensures
        path_in(Seq::<char>::empty()).len() == 0,
{
    let empty = Seq::<char>::empty();
    reveal_strlit("file://");
    assert(text::trimmed(empty) == empty);
}

proof fn lemma_prefix_has_no_dot()
    ensures
        !ATTACH_PREFIX@.contains('.'),
{
    reveal_strlit("ATTACH_FILE:");
    let p = ATTACH_PREFIX@;
    assert forall|i: int| 0 <= i < p.len() implies p[i] != '.' by {}
}

proof fn lemma_nothing_behind(n: Seq<char>)
    requires
        n == ATTACH_PREFIX@,
    ensures
        text::first_index(n, ATTACH_PREFIX@) == Some(0int),
        n.skip(ATTACH_PREFIX@.len() as int) == Seq::<char>::empty(),
{
    assert(n.subrange(0, n.len() as int) =~= n);
    text::lemma_first_index(n, ATTACH_PREFIX@, 0);
    assert(n.skip(n.len() as int) =~= Seq::<char>::empty());
}

proof fn lemma_directive_alone()
    ensures
        directive_hint(ATTACH_PREFIX@) is None,
        standalone_hint(ATTACH_PREFIX@) is None,
{
    lemma_no_path();
    lemma_nothing_behind(ATTACH_PREFIX@);
    lemma_prefix_has_no_dot();
}

/// A directive without a path asks for no file.
pub proof fn law_directive_without_a_path_asks_for_nothing(
    line: &str,
    r: Option<String>,
    front: Seq<char>,
    mark: Seq<char>,
    back: Seq<char>,
)
    requires
        call_ensures(extract_attachment_hint, (line,), r),
        line@ == front + mark + "ATTACH_FILE:"@ + back,
        text::is_blank(front),
        text::is_blank(back),
        is_list_mark(mark),
    ensures
        r is None,
{
    assert("ATTACH_FILE:"@[0] == 'A' && "ATTACH_FILE:"@.last() == ':' && "ATTACH_FILE:"@.len() > 0)
        by {
        reveal_strlit("ATTACH_FILE:");
    }
    lemma_marked(front, mark, "ATTACH_FILE:"@, back);
    lemma_directive_alone();
}

/// A directive may stand behind other words: the path behind the first one counts.
pub proof fn law_directive_may_follow_words(
    line: &str,
    r: Option<String>,
    words: Seq<char>,
    path: Seq<char>,
)
    requires
        call_ensures(extract_attachment_hint, (line,), r),
        line@ == words + "ATTACH_FILE:"@ + path,
        words.len() > 0,
        !text::is_space(words[0]),
        words[0] != '-' && words[0] != '*' && words[0] != '•',
        forall|j: int| 0 <= j < words.len() ==> !text::occurs_at(line@, "ATTACH_FILE:"@, j),
        is_bare_path(path),
    ensures
        r is Some && r->0@ == path,
{
    let p = ATTACH_PREFIX@;
    let empty = Seq::<char>::empty();
    let n = line@;
    assert(n[0] == words[0]);
    assert(n.last() == path.last());
    assert(empty + empty + n + empty =~= n);
    lemma_marked(empty, empty, n, empty);
    let at = words.len() as int;
    assert(n.subrange(at, at + p.len()) =~= p);
    text::lemma_first_index(n, p, at);
    assert(n.skip(at + p.len()) =~= path);
    lemma_bare_path(path);
}

} // verus!
