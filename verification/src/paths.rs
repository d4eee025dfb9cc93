//! File system paths as text, in the form that Unix systems use.
use vstd::prelude::*;
use vstd::string::*;

use crate::text;

verus! {

/// Whether a path begins at the root.
pub open spec fn absolute(path: Seq<char>) -> bool {
    path.len() > 0 && path[0] == '/'
}

/// `path` seen from `base`: an absolute path stands for itself, any other follows
/// `base`, with one separator between them unless `base` is empty or ends with one.
pub open spec fn joined(base: Seq<char>, path: Seq<char>) -> Seq<char> {
    if absolute(path) || base.len() == 0 {
        path
    } else if base.last() == '/' {
        base + path
    } else {
        base.push('/') + path
    }
}

/// `path` with a leading `~` replaced by the home directory, where that is known.
pub open spec fn home_expanded(path: Seq<char>, home: Option<Seq<char>>) -> Seq<char> {
    match home {
        Some(home) => if path == "~"@ {
            home
        } else if let Some(suffix) = text::after_prefix(path, "~/"@) {
            joined(home, suffix)
        } else {
            path
        },
        None => path,
    }
}

/// Whether a path begins at the root.
pub fn is_absolute(path: &str) -> (r: bool)
    ensures
        r == absolute(path@),
{
    let v = text::chars_of(path);
    v.len() > 0 && v[0] == '/'
}

/// The path that `path` names, seen from `base`.
pub fn join_path(base: &str, path: &str) -> (r: String)
    ensures
        r@ == joined(base@, path@),
{
    let b = text::chars_of(base);
    let mut r = String::new();
    if !is_absolute(path) && b.len() > 0 {
        r.append(base);
        if b[b.len() - 1] != '/' {
            r.push('/');
        }
    }
    r.append(path);
    assert(r@ =~= joined(base@, path@));
    r
}

/// A path with a leading `~` replaced by the home directory, where that is known.
pub fn expand_tilde(path: &str, home: Option<&str>) -> (r: String)
    ensures
        r@ == home_expanded(path@, text::optional(home)),
{
    match home {
        Some(home) => {
            if text::same_text(path, "~") {
                home.to_owned()
            } else if let Some(suffix) = text::strip_prefix(path, "~/") {
                join_path(home, suffix.as_str())
            } else {
                path.to_owned()
            }
        },
        None => path.to_owned(),
    }
}

/// The parts of a path that count: neither empty ones nor those that stay in place,
/// but for one at the beginning of a relative path.
pub open spec fn counting(parts: Seq<Seq<char>>, at_start: bool) -> Seq<Seq<char>>
    decreases parts.len(),
{
    if parts.len() == 0 {
        Seq::empty()
    } else {
        let rest = counting(parts.skip(1), false);
        if parts[0].len() == 0 || (parts[0] == seq!['.'] && !at_start) {
            rest
        } else {
            seq![parts[0]] + rest
        }
    }
}

/// The parts of a path.
pub open spec fn parts_of(path: Seq<char>) -> Seq<Seq<char>> {
    counting(text::split_on(path, '/'), !absolute(path))
}

/// Whether two paths are the same, part by part.
pub open spec fn same(a: Seq<char>, b: Seq<char>) -> bool {
    absolute(a) == absolute(b) && parts_of(a) == parts_of(b)
}

/// The parts of a path.
fn path_parts(path: &str) -> (r: Vec<Vec<char>>)
    ensures
        text::texts(r@) == parts_of(path@),
{
    let v = text::chars_of(path);
    let parts = text::split(v.as_slice(), '/');
    let n: usize = parts.len();
    let ghost all = text::texts(parts@);
    let ghost start = !absolute(path@);
    let mut at_start = !is_absolute(path);
    let mut r: Vec<Vec<char>> = Vec::new();
    let mut i: usize = 0;
    assert(all.skip(0) =~= all);
    assert(text::texts(r@) + counting(all, start) =~= counting(all, start));
    while i < n
        invariant
            i <= n,
            n == parts@.len(),
            all == text::texts(parts@),
            at_start == (start && i == 0),
            text::texts(r@) + counting(all.skip(i as int), at_start) == counting(all, start),
        decreases n - i,
    {
        let ghost rest = all.skip(i as int);
        let ghost kept = text::texts(r@);
        assert(rest[0] == parts@[i as int]@);
        assert(rest.skip(1) =~= all.skip(i + 1));
        let part = &parts[i];
        let stays = part.len() == 1 && part[0] == '.';
        assert(stays == (part@ == seq!['.'])) by {
            if stays {
                assert(part@ =~= seq!['.']);
            }
        }
        if part.len() > 0 && (!stays || at_start) {
            let m: usize = part.len();
            let copy = text::sub_chars(part.as_slice(), 0, m);
            assert(copy@ =~= part@);
            r.push(copy);
            assert(text::texts(r@) =~= kept.push(part@));
            assert(kept + (seq![part@] + counting(rest.skip(1), false)) =~= kept.push(part@)
                + counting(rest.skip(1), false));
        }
        at_start = false;
        i += 1;
    }
    assert(all.skip(n as int) =~= Seq::empty());
    assert(text::texts(r@) + counting(Seq::empty(), at_start) =~= text::texts(r@));
    r
}

/// Whether two paths are the same: separators that are repeated or stand at the end,
/// and parts that stay in place, make no difference.
pub fn same_path(a: &str, b: &str) -> (r: bool)
    ensures
        r == same(a@, b@),
{
    let x = path_parts(a);
    let y = path_parts(b);
    let n: usize = x.len();
    if is_absolute(a) != is_absolute(b) || n != y.len() {
        assert(text::texts(x@).len() == x@.len() && text::texts(y@).len() == y@.len());
        return false;
    }
    let mut i: usize = 0;
    while i < n
        invariant
            i <= n,
            n == x@.len() == y@.len(),
            text::texts(x@) == parts_of(a@),
            text::texts(y@) == parts_of(b@),
            forall|k: int| 0 <= k < i ==> #[trigger] x@[k]@ == y@[k]@,
        decreases n - i,
    {
        if !text::same_chars(x[i].as_slice(), y[i].as_slice()) {
            assert(text::texts(x@)[i as int] != text::texts(y@)[i as int]);
            return false;
        }
        i += 1;
    }
    assert(text::texts(x@) =~= text::texts(y@));
    true
}

/// A relative path follows its base behind one separator; an absolute path, and one
/// whose base is empty, stands for itself.
pub proof fn law_path_follows_its_base(base: &str, path: &str, r: String)
    requires
        call_ensures(join_path, (base, path), r),
    ensures
        path@.len() > 0 && path@[0] == '/' ==> r@ == path@,
        base@.len() == 0 ==> r@ == path@,
        base@.len() > 0 && base@.last() != '/' && (path@.len() == 0 || path@[0] != '/') ==> r@
            == base@ + "/"@ + path@,
        base@.len() > 0 && base@.last() == '/' && (path@.len() == 0 || path@[0] != '/') ==> r@
            == base@ + path@,
{
    reveal_strlit("/");
    assert(base@.push('/') =~= base@ + "/"@);
}

/// A tilde in front of a path stands for the home directory where that is known; any
/// other path is left as it is.
pub proof fn law_tilde_is_the_home_directory(path: &str, home: Option<&str>, r: String)
    requires
        call_ensures(expand_tilde, (path, home), r),
    ensures
        home is None ==> r@ == path@,
        path@.len() == 0 || path@[0] != '~' ==> r@ == path@,
        home is Some && path@ == "~"@ ==> r@ == home->0@,
        path@.len() > 1 && path@[1] != '/' ==> r@ == path@,
        home is Some && home->0@.len() > 0 && home->0@.last() != '/' ==> forall|rest: Seq<char>|
            path@ == "~/"@ + rest && (rest.len() == 0 || rest[0] != '/') ==> r@ == home->0@ + "/"@
                + rest,
{
    reveal_strlit("~");
    reveal_strlit("~/");
    reveal_strlit("/");
    let p = path@;
    if text::begins_with(p, "~/"@) {
        assert(p.subrange(0, 2)[0] == '~');
        assert(p.subrange(0, 2)[1] == '/');
    }
    if home is Some && home->0@.len() > 0 && home->0@.last() != '/' {
        let h = home->0@;
        assert forall|rest: Seq<char>|
            p == "~/"@ + rest && (rest.len() == 0 || rest[0] != '/') implies r@ == h + "/"@
            + rest by {
            assert(p[0] == '~' && p[1] == '/');
            assert(p.subrange(0, 2) =~= "~/"@);
            assert(p.skip(2) =~= rest);
            assert(h.push('/') + rest =~= h + "/"@ + rest);
        }
    }
}

/// The parts of two texts with a separator between them are those of both.
pub proof fn lemma_split_concat(a: Seq<char>, c: char, b: Seq<char>)
    ensures
        text::split_on(a.push(c) + b, c) == text::split_on(a, c) + text::split_on(b, c),
    decreases a.len(),
{
    text::lemma_index_from(a, 0, c);
    match text::index_from(a, 0, c) {
        None => {
            assert(!a.contains(c));
            text::lemma_split_front(a, c, b);
            text::lemma_split_one(a, c);
        },
        Some(i) => {
            let first = a.take(i);
            let rest = a.skip(i + 1);
            assert(!first.contains(c)) by {
                if first.contains(c) {
                    let j = choose|j: int| 0 <= j < first.len() && first[j] == c;
                    assert(a[j] == c);
                }
            }
            assert(a.push(c) + b =~= first.push(c) + (rest.push(c) + b));
            text::lemma_split_front(first, c, rest.push(c) + b);
            lemma_split_concat(rest, c, b);
            assert(text::split_on(a, c) == seq![first] + text::split_on(rest, c));
            assert(seq![first] + (text::split_on(rest, c) + text::split_on(b, c))
                =~= text::split_on(a, c) + text::split_on(b, c));
        },
    }
}

proof fn lemma_counting_concat(a: Seq<Seq<char>>, b: Seq<Seq<char>>, at_start: bool)
    requires
        a.len() > 0,
    ensures
        counting(a + b, at_start) == counting(a, at_start) + counting(b, false),
    decreases a.len(),
{
    assert((a + b)[0] == a[0]);
    assert((a + b).skip(1) =~= a.skip(1) + b);
    if a.len() == 1 {
        assert(a.skip(1) + b =~= b);
        assert(counting(a.skip(1), false) =~= Seq::empty());
        assert(counting(a + b, at_start) =~= counting(a, at_start) + counting(b, false));
    } else {
        lemma_counting_concat(a.skip(1), b, false);
        assert(counting(a + b, at_start) =~= counting(a, at_start) + counting(b, false));
    }
}

/// A separator at the end of a path, one that is repeated, and a part that stays in
/// place make no difference.
pub proof fn law_spelling_of_a_path_makes_no_difference(a: Seq<char>, b: Seq<char>)
    requires
        a.len() > 0,
    ensures
        same(a.push('/'), a),
        same(a.push('/').push('/') + b, a.push('/') + b),
        same(a.push('/') + seq!['.', '/'] + b, a.push('/') + b),
{
    reveal_with_fuel(counting, 2);
    let none = Seq::<char>::empty();
    let dot = seq!['.'];
    lemma_split_concat(a, '/', none);
    assert(a.push('/') + none =~= a.push('/'));
    text::lemma_split_one(none, '/');
    text::lemma_split_join(a, '/');
    let parts = text::split_on(a, '/');
    let start = !absolute(a);
    assert(absolute(a.push('/')) == absolute(a)) by {
        assert(a.push('/')[0] == a[0]);
    }
    lemma_counting_concat(parts, seq![none], start);
    assert(seq![none].skip(1) =~= Seq::<Seq<char>>::empty());
    assert(counting(seq![none], false) =~= Seq::<Seq<char>>::empty());
    assert(counting(parts, start) + Seq::<Seq<char>>::empty() =~= counting(parts, start));
    let x = a.push('/') + b;
    let y = a.push('/').push('/') + b;
    let z = a.push('/') + seq!['.', '/'] + b;
    assert(x[0] == a[0] && y[0] == a[0] && z[0] == a[0]);
    let tail = text::split_on(b, '/');
    lemma_split_concat(a, '/', b);
    lemma_counting_concat(parts, tail, start);
    assert(y =~= a.push('/') + (none.push('/') + b));
    lemma_split_concat(a, '/', none.push('/') + b);
    text::lemma_split_front(none, '/', b);
    lemma_counting_concat(parts, seq![none] + tail, start);
    lemma_counting_concat(seq![none], tail, false);
    assert(counting(seq![none] + tail, false) =~= counting(tail, false));
    assert(z =~= a.push('/') + (dot.push('/') + b));
    lemma_split_concat(a, '/', dot.push('/') + b);
    text::lemma_split_front(dot, '/', b);
    lemma_counting_concat(parts, seq![dot] + tail, start);
    lemma_counting_concat(seq![dot], tail, false);
    assert(seq![dot].skip(1) =~= Seq::<Seq<char>>::empty());
    assert(counting(seq![dot], false) =~= Seq::<Seq<char>>::empty());
    assert(counting(seq![dot] + tail, false) =~= counting(tail, false));
}

/// Whether no part of a path is empty or stays in place, but for the root.
pub open spec fn is_plain(path: Seq<char>) -> bool {
    let parts = text::split_on(path, '/');
    forall|i: int|
        0 <= i < parts.len() ==> (#[trigger] parts[i]).len() > 0 && parts[i] != seq!['.']
            || (i == 0 && absolute(path))
}

proof fn lemma_all_count(parts: Seq<Seq<char>>)
    requires
        forall|i: int|
            0 <= i < parts.len() ==> (#[trigger] parts[i]).len() > 0 && parts[i] != seq!['.'],
    ensures
        counting(parts, false) == parts,
        counting(parts, true) == parts,
    decreases parts.len(),
{
    if parts.len() > 0 {
        let rest = parts.skip(1);
        assert forall|i: int| 0 <= i < rest.len() implies (#[trigger] rest[i]).len() > 0 && rest[i]
            != seq!['.'] by {
            assert(rest[i] == parts[i + 1]);
        }
        lemma_all_count(rest);
        assert(seq![parts[0]] + rest =~= parts);
    }
}

proof fn lemma_plain_parts(path: Seq<char>)
    requires
        is_plain(path),
    ensures
        !absolute(path) ==> parts_of(path) == text::split_on(path, '/'),
        absolute(path) ==> seq![Seq::<char>::empty()] + parts_of(path) == text::split_on(path, '/'),
{
    let parts = text::split_on(path, '/');
    if absolute(path) {
        let none = Seq::<char>::empty();
        assert(path =~= none.push('/') + path.skip(1));
        text::lemma_split_front(none, '/', path.skip(1));
        let rest = parts.skip(1);
        assert(parts[0] == none);
        assert forall|i: int| 0 <= i < rest.len() implies (#[trigger] rest[i]).len() > 0 && rest[i]
            != seq!['.'] by {
            assert(rest[i] == parts[i + 1]);
        }
        lemma_all_count(rest);
        assert(counting(parts, false) == rest);
        assert(seq![none] + rest =~= parts);
    } else {
        lemma_all_count(parts);
    }
}

/// Two paths without such parts are the same only where they are spelled alike.
pub proof fn law_plain_paths_are_told_apart(a: &str, b: &str, r: bool)
    requires
        call_ensures(same_path, (a, b), r),
        is_plain(a@),
        is_plain(b@),
    ensures
        r == (a@ == b@),
{
    if r {
        lemma_plain_parts(a@);
        lemma_plain_parts(b@);
        text::lemma_split_join(a@, '/');
        text::lemma_split_join(b@, '/');
    }
}

/// A path that begins at the root is never the same as one that does not.
pub proof fn law_relative_path_is_not_absolute(a: &str, b: &str, r: bool)
    requires
        call_ensures(same_path, (a, b), r),
        a@.len() > 0,
        a@[0] == '/',
        b@.len() == 0 || b@[0] != '/',
    ensures
        !r,
{
}

} // verus!
