//! Character-level operations on text.
//!
//! Every function here is stated over the sequence of characters that a string
//! holds, which is also how Telegram's limits and the bot's own rules count.
use vstd::arithmetic::power::pow;
use vstd::prelude::*;
use vstd::string::*;

verus! {

/// `String::push` of the standard library appends one character at the end.
pub assume_specification[ String::push ](s: &mut String, c: char)
    ensures
        final(s)@ == old(s)@.push(c),
;

/// The characters that have Unicode's `White_Space` property.
pub open spec fn is_space(c: char) -> bool {
    let n = c as u32;
    ||| 0x09 <= n <= 0x0d
    ||| n == 0x20
    ||| n == 0x85
    ||| n == 0xa0
    ||| n == 0x1680
    ||| 0x2000 <= n <= 0x200a
    ||| n == 0x2028
    ||| n == 0x2029
    ||| n == 0x202f
    ||| n == 0x205f
    ||| n == 0x3000
}

/// Whether a character is white space.
pub fn is_whitespace(c: char) -> (r: bool)
    ensures
        r == is_space(c),
{
    let n: u32 = c as u32;
    (0x09 <= n && n <= 0x0d) || n == 0x20 || n == 0x85 || n == 0xa0 || n == 0x1680
        || (0x2000 <= n && n <= 0x200a) || n == 0x2028 || n == 0x2029 || n == 0x202f
        || n == 0x205f || n == 0x3000
}

/// The kinds of characters that are cut off the ends of a text.
#[derive(Debug, Clone, Copy, PartialEq, Eq, Structural)]
pub enum CharClass {
    /// White space.
    Space,
    /// A backtick, a double or a single quote.
    Quote,
    /// `\n`.
    Newline,
    /// `\r`.
    CarriageReturn,
    /// A backtick.
    Backtick,
    /// Punctuation that closes a phrase: `,` `.` `;` `:` `)` `]` `>`.
    Closing,
}

impl CharClass {
    /// Whether `c` belongs to the class.
    pub open spec fn has(self, c: char) -> bool {
        match self {
            CharClass::Space => is_space(c),
            CharClass::Quote => c == '`' || c == '"' || c == '\'',
            CharClass::Newline => c == '\n',
            CharClass::CarriageReturn => c == '\r',
            CharClass::Backtick => c == '`',
            CharClass::Closing => c == ',' || c == '.' || c == ';' || c == ':' || c == ')'
                || c == ']' || c == '>',
        }
    }

    /// Whether `c` belongs to the class.
    pub fn contains(self, c: char) -> (r: bool)
        ensures
            r == self.has(c),
    {
        match self {
            CharClass::Space => is_whitespace(c),
            CharClass::Quote => c == '`' || c == '"' || c == '\'',
            CharClass::Newline => c == '\n',
            CharClass::CarriageReturn => c == '\r',
            CharClass::Backtick => c == '`',
            CharClass::Closing => c == ',' || c == '.' || c == ';' || c == ':' || c == ')'
                || c == ']' || c == '>',
        }
    }
}

/// `s` without its leading characters of the class `k`.
pub open spec fn strip_leading(s: Seq<char>, k: CharClass) -> Seq<char>
    decreases s.len(),
{
    if s.len() > 0 && k.has(s[0]) {
        strip_leading(s.skip(1), k)
    } else {
        s
    }
}

/// `s` without its trailing characters of the class `k`.
pub open spec fn strip_trailing(s: Seq<char>, k: CharClass) -> Seq<char>
    decreases s.len(),
{
    if s.len() > 0 && k.has(s.last()) {
        strip_trailing(s.drop_last(), k)
    } else {
        s
    }
}

/// `s` without the characters of the class `k` at either end.
pub open spec fn strip_both(s: Seq<char>, k: CharClass) -> Seq<char> {
    strip_trailing(strip_leading(s, k), k)
}

/// `s` without white space at either end.
pub open spec fn trimmed(s: Seq<char>) -> Seq<char> {
    strip_both(s, CharClass::Space)
}

/// Whether `s` holds white space alone.
pub open spec fn is_blank(s: Seq<char>) -> bool {
    forall|i: int| 0 <= i < s.len() ==> is_space(#[trigger] s[i])
}

/// The characters of a string.
pub fn chars_of(s: &str) -> (v: Vec<char>)
    ensures
        v@ == s@,
{
    let mut v: Vec<char> = Vec::new();
    for c in it: s.chars()
        invariant
            v@ == s@.take(it.index() as int),
            it.seq() == s@,
    {
        v.push(c);
    }
    v
}

/// Appends characters to a string.
pub fn push_chars(out: &mut String, v: &[char])
    ensures
        final(out)@ == old(out)@ + v@,
{
    let mut i: usize = 0;
    while i < v.len()
        invariant
            i <= v@.len(),
            out@ == old(out)@ + v@.take(i as int),
        decreases v.len() - i,
    {
        out.push(v[i]);
        i += 1;
        assert(v@.take(i as int) =~= v@.take(i - 1).push(v@[i - 1]));
    }
    assert(v@.take(i as int) =~= v@);
}

/// The string made of the given characters.
pub fn string_of(v: &[char]) -> (s: String)
    ensures
        s@ == v@,
{
    let mut s = String::new();
    push_chars(&mut s, v);
    assert(s@ =~= v@);
    s
}

/// A copy of the characters from `from` up to `to`.
pub fn sub_chars(v: &[char], from: usize, to: usize) -> (r: Vec<char>)
    requires
        from <= to <= v@.len(),
    ensures
        r@ == v@.subrange(from as int, to as int),
{
    let mut r: Vec<char> = Vec::new();
    let mut i: usize = from;
    while i < to
        invariant
            from <= i <= to <= v@.len(),
            r@ == v@.subrange(from as int, i as int),
        decreases to - i,
    {
        r.push(v[i]);
        i += 1;
        assert(r@ =~= v@.subrange(from as int, i as int));
    }
    r
}

/// The index of the first character outside the class `k`, or the length.
pub fn leading_end(v: &[char], k: CharClass) -> (i: usize)
    ensures
        i <= v@.len(),
        strip_leading(v@, k) == v@.skip(i as int),
{
    let mut i: usize = 0;
    assert(v@.skip(0) =~= v@);
    while i < v.len() && k.contains(v[i])
        invariant
            i <= v@.len(),
            strip_leading(v@, k) == strip_leading(v@.skip(i as int), k),
        decreases v.len() - i,
    {
        assert(v@.skip(i as int).skip(1) =~= v@.skip(i + 1));
        i += 1;
    }
    i
}

/// One past the index of the last character outside the class `k`, or 0.
pub fn trailing_start(v: &[char], k: CharClass) -> (n: usize)
    ensures
        n <= v@.len(),
        strip_trailing(v@, k) == v@.take(n as int),
{
    let mut n: usize = v.len();
    assert(v@.take(n as int) =~= v@);
    while n > 0 && k.contains(v[n - 1])
        invariant
            n <= v@.len(),
            strip_trailing(v@, k) == strip_trailing(v@.take(n as int), k),
        decreases n,
    {
        assert(v@.take(n as int).drop_last() =~= v@.take(n - 1));
        n -= 1;
    }
    n
}

/// Copies `v` without its leading characters of the class `k`.
pub fn without_leading(v: &[char], k: CharClass) -> (r: Vec<char>)
    ensures
        r@ == strip_leading(v@, k),
{
    let i: usize = leading_end(v, k);
    let r = sub_chars(v, i, v.len());
    assert(r@ =~= v@.skip(i as int));
    r
}

/// Copies `v` without its trailing characters of the class `k`.
pub fn without_trailing(v: &[char], k: CharClass) -> (r: Vec<char>)
    ensures
        r@ == strip_trailing(v@, k),
{
    let n: usize = trailing_start(v, k);
    let r = sub_chars(v, 0, n);
    assert(r@ =~= v@.take(n as int));
    r
}

/// Copies `v` without the characters of the class `k` at either end.
pub fn without_both(v: &[char], k: CharClass) -> (r: Vec<char>)
    ensures
        r@ == strip_both(v@, k),
{
    let a = without_leading(v, k);
    without_trailing(a.as_slice(), k)
}

/// Copies a text without white space at either end.
pub fn trim_chars(v: &[char]) -> (r: Vec<char>)
    ensures
        r@ == trimmed(v@),
{
    without_both(v, CharClass::Space)
}

/// A text without white space at either end.
pub fn trim(s: &str) -> (r: String)
    ensures
        r@ == trimmed(s@),
{
    let v = chars_of(s);
    let t = trim_chars(v.as_slice());
    string_of(t.as_slice())
}

/// A trimmed text is empty exactly when the text was blank.
pub proof fn law_blank_text_trims_to_nothing(s: Seq<char>)
    ensures
        trimmed(s).len() == 0 <==> is_blank(s),
{
    lemma_strip_leading_blank(s);
    lemma_strip_trailing_blank(strip_leading(s, CharClass::Space));
}

proof fn lemma_strip_leading_blank(s: Seq<char>)
    ensures
        is_blank(strip_leading(s, CharClass::Space)) <==> is_blank(s),
        strip_leading(s, CharClass::Space).len() == 0 <==> is_blank(s),
    decreases s.len(),
{
    if s.len() > 0 && is_space(s[0]) {
        lemma_strip_leading_blank(s.skip(1));
        assert forall|i: int| is_blank(s.skip(1)) && 0 <= i < s.len() implies is_space(
            #[trigger] s[i],
        ) by {
            if i > 0 {
                assert(s.skip(1)[i - 1] == s[i]);
            }
        }
        assert forall|i: int| is_blank(s) && 0 <= i < s.skip(1).len() implies is_space(
            #[trigger] s.skip(1)[i],
        ) by {
            assert(s.skip(1)[i] == s[i + 1]);
        }
    } else if s.len() > 0 {
        assert(!is_space(s[0]));
    }
}

proof fn lemma_strip_trailing_blank(s: Seq<char>)
    ensures
        strip_trailing(s, CharClass::Space).len() == 0 <==> is_blank(s),
    decreases s.len(),
{
    if s.len() > 0 && is_space(s.last()) {
        lemma_strip_trailing_blank(s.drop_last());
        assert forall|i: int| is_blank(s.drop_last()) && 0 <= i < s.len() implies is_space(
            #[trigger] s[i],
        ) by {
            if i < s.len() - 1 {
                assert(s.drop_last()[i] == s[i]);
            }
        }
        assert forall|i: int| is_blank(s) && 0 <= i < s.drop_last().len() implies is_space(
            #[trigger] s.drop_last()[i],
        ) by {
            assert(s.drop_last()[i] == s[i]);
        }
    } else if s.len() > 0 {
        assert(!is_space(s[s.len() - 1]));
    }
}

/// Whether a text holds white space alone.
pub fn blank(v: &[char]) -> (r: bool)
    ensures
        r == is_blank(v@),
{
    let mut i: usize = 0;
    while i < v.len()
        invariant
            i <= v@.len(),
            forall|j: int| 0 <= j < i ==> is_space(#[trigger] v@[j]),
        decreases v.len() - i,
    {
        if !is_whitespace(v[i]) {
            assert(!is_space(v@[i as int]));
            return false;
        }
        i += 1;
    }
    true
}

/// Whether two texts are the same.
pub fn same_chars(a: &[char], b: &[char]) -> (r: bool)
    ensures
        r == (a@ == b@),
{
    if a.len() != b.len() {
        return false;
    }
    let mut i: usize = 0;
    while i < a.len()
        invariant
            i <= a@.len() == b@.len(),
            forall|j: int| 0 <= j < i ==> a@[j] == b@[j],
        decreases a.len() - i,
    {
        if a[i] != b[i] {
            return false;
        }
        i += 1;
    }
    assert(a@ =~= b@);
    true
}

/// Whether two strings hold the same text.
pub fn same_text(a: &str, b: &str) -> (r: bool)
    ensures
        r == (a@ == b@),
{
    let x = chars_of(a);
    let y = chars_of(b);
    same_chars(x.as_slice(), y.as_slice())
}

/// Whether `p` stands in `s` from the index `i` on.
pub open spec fn occurs_at(s: Seq<char>, p: Seq<char>, i: int) -> bool {
    &&& 0 <= i
    &&& i + p.len() <= s.len()
    &&& s.subrange(i, i + p.len()) == p
}

/// Whether `s` begins with `p`.
pub open spec fn begins_with(s: Seq<char>, p: Seq<char>) -> bool {
    occurs_at(s, p, 0)
}

/// Whether `p` stands somewhere in `s`.
pub open spec fn holds(s: Seq<char>, p: Seq<char>) -> bool {
    exists|i: int| occurs_at(s, p, i)
}

/// Whether `p` stands in `v` from the index `i` on.
pub fn matches_at(v: &[char], p: &[char], i: usize) -> (r: bool)
    ensures
        r == occurs_at(v@, p@, i as int),
{
    let n: usize = v.len();
    if p.len() > n || i > n - p.len() {
        return false;
    }
    let mut j: usize = 0;
    while j < p.len()
        invariant
            j <= p@.len(),
            n == v@.len(),
            i + p@.len() <= n,
            forall|k: int| 0 <= k < j ==> v@[i + k] == p@[k],
        decreases p.len() - j,
    {
        if v[i + j] != p[j] {
            assert(v@.subrange(i as int, i + p@.len())[j as int] != p@[j as int]);
            return false;
        }
        j += 1;
    }
    assert(v@.subrange(i as int, i + p@.len()) =~= p@);
    true
}

/// Whether `s` begins with `p`.
pub fn starts_with(s: &str, p: &str) -> (r: bool)
    ensures
        r == begins_with(s@, p@),
{
    let v = chars_of(s);
    let q = chars_of(p);
    matches_at(v.as_slice(), q.as_slice(), 0)
}

/// The rest of `s` after the prefix `p`, where `s` begins with it.
pub open spec fn after_prefix(s: Seq<char>, p: Seq<char>) -> Option<Seq<char>> {
    if begins_with(s, p) {
        Some(s.skip(p.len() as int))
    } else {
        None
    }
}

/// The rest of `v` after the prefix `p`, where `v` begins with it.
pub fn strip_prefix_chars(v: &[char], p: &str) -> (r: Option<Vec<char>>)
    ensures
        match r {
            Some(rest) => after_prefix(v@, p@) == Some(rest@),
            None => after_prefix(v@, p@) is None,
        },
{
    let q = chars_of(p);
    if matches_at(v, q.as_slice(), 0) {
        let rest = sub_chars(v, q.len(), v.len());
        assert(rest@ =~= v@.skip(q@.len() as int));
        Some(rest)
    } else {
        None
    }
}

/// The rest of `s` after the prefix `p`, where `s` begins with it.
pub fn strip_prefix(s: &str, p: &str) -> (r: Option<String>)
    ensures
        match r {
            Some(rest) => after_prefix(s@, p@) == Some(rest@),
            None => after_prefix(s@, p@) is None,
        },
{
    let v = chars_of(s);
    match strip_prefix_chars(v.as_slice(), p) {
        Some(rest) => Some(string_of(rest.as_slice())),
        None => None,
    }
}

/// `i` is the first index from which `p` stands in `s`.
pub open spec fn first_at(s: Seq<char>, p: Seq<char>, i: int) -> bool {
    &&& occurs_at(s, p, i)
    &&& forall|j: int| 0 <= j < i ==> !occurs_at(s, p, j)
}

/// The first index from which `p` stands in `s`.
pub open spec fn first_index(s: Seq<char>, p: Seq<char>) -> Option<int> {
    if holds(s, p) {
        Some(choose|i: int| first_at(s, p, i))
    } else {
        None
    }
}

/// There is one first index.
pub proof fn lemma_first_index(s: Seq<char>, p: Seq<char>, i: int)
    requires
        first_at(s, p, i),
    ensures
        first_index(s, p) == Some(i),
{
    let c = choose|c: int| first_at(s, p, c);
    assert(occurs_at(s, p, i));
    assert(first_at(s, p, c));
    if c < i {
        assert(!occurs_at(s, p, c));
    } else if i < c {
        assert(!occurs_at(s, p, i));
    }
}

/// The first index from which `p` stands in `v`.
pub fn find(v: &[char], p: &str) -> (r: Option<usize>)
    ensures
        match r {
            Some(i) => first_index(v@, p@) == Some(i as int) && first_at(v@, p@, i as int),
            None => first_index(v@, p@) is None && !holds(v@, p@),
        },
{
    let q = chars_of(p);
    let mut i: usize = 0;
    while i < v.len()
        invariant
            i <= v@.len(),
            q@ == p@,
            forall|j: int| 0 <= j < i ==> !occurs_at(v@, q@, j),
        decreases v.len() - i,
    {
        if matches_at(v, q.as_slice(), i) {
            proof {
                lemma_first_index(v@, p@, i as int);
            }
            return Some(i);
        }
        i += 1;
    }
    if q.len() == 0 {
        proof {
            assert(v@.subrange(i as int, i as int) =~= q@);
            lemma_first_index(v@, p@, i as int);
        }
        return Some(i);
    }
    None
}

/// Whether `c` stands somewhere in `v`.
pub fn has_char(v: &[char], c: char) -> (r: bool)
    ensures
        r == v@.contains(c),
{
    let mut i: usize = 0;
    while i < v.len()
        invariant
            i <= v@.len(),
            forall|j: int| 0 <= j < i ==> v@[j] != c,
        decreases v.len() - i,
    {
        if v[i] == c {
            return true;
        }
        i += 1;
    }
    false
}

/// The least index from `from` on at which `c` stands in `s`.
pub open spec fn index_from(s: Seq<char>, from: int, c: char) -> Option<int>
    decreases s.len() - from,
{
    if from < 0 || from >= s.len() {
        None
    } else if s[from] == c {
        Some(from)
    } else {
        index_from(s, from + 1, c)
    }
}

/// What `index_from` finds, without the recursion.
pub proof fn lemma_index_from(s: Seq<char>, from: int, c: char)
    requires
        0 <= from,
    ensures
        match index_from(s, from, c) {
            Some(i) => from <= i < s.len() && s[i] == c && (forall|j: int|
                from <= j < i ==> s[j] != c),
            None => forall|j: int| from <= j < s.len() ==> s[j] != c,
        },
    decreases s.len() - from,
{
    if from < s.len() && s[from] != c {
        lemma_index_from(s, from + 1, c);
    }
}

/// The parts of `s` between the separators `c`: one more than there are separators.
pub open spec fn split_on(s: Seq<char>, c: char) -> Seq<Seq<char>>
    decreases s.len(),
{
    match index_from(s, 0, c) {
        None => seq![s],
        Some(i) => {
            proof {
                lemma_index_from(s, 0, c);
            }
            seq![s.take(i)] + split_on(s.skip(i + 1), c)
        },
    }
}

/// The parts joined by `sep`.
pub open spec fn join(parts: Seq<Seq<char>>, sep: Seq<char>) -> Seq<char>
    decreases parts.len(),
{
    if parts.len() == 0 {
        Seq::empty()
    } else if parts.len() == 1 {
        parts[0]
    } else {
        parts[0] + sep + join(parts.skip(1), sep)
    }
}

/// A text of one's own.
pub fn owned(s: Option<&str>) -> (r: Option<String>)
    ensures
        text_of(r) == optional(s),
{
    match s {
        Some(s) => Some(s.to_owned()),
        None => None,
    }
}

/// The texts that a list of character vectors holds.
pub open spec fn texts(v: Seq<Vec<char>>) -> Seq<Seq<char>> {
    Seq::new(v.len(), |i: int| v[i]@)
}

/// The text that an optional string holds.
pub open spec fn optional(s: Option<&str>) -> Option<Seq<char>> {
    match s {
        Some(s) => Some(s@),
        None => None,
    }
}

/// The text that an optional string holds.
pub open spec fn text_of(s: Option<String>) -> Option<Seq<char>> {
    match s {
        Some(s) => Some(s@),
        None => None,
    }
}

/// The texts that a list of strings holds.
pub open spec fn strings(v: Seq<String>) -> Seq<Seq<char>> {
    Seq::new(v.len(), |i: int| v[i]@)
}

/// The parts of a text between the separators `c`.
pub fn split(v: &[char], c: char) -> (r: Vec<Vec<char>>)
    ensures
        texts(r@) == split_on(v@, c),
{
    let n: usize = v.len();
    let mut r: Vec<Vec<char>> = Vec::new();
    let mut start: usize = 0;
    let mut i: usize = 0;
    assert(v@.skip(0) =~= v@);
    assert(texts(r@) + split_on(v@, c) =~= split_on(v@, c));
    while i < n
        invariant
            start <= i <= n == v@.len(),
            forall|j: int| start <= j < i ==> v@[j] != c,
            texts(r@) + split_on(v@.skip(start as int), c) == split_on(v@, c),
        decreases n - i,
    {
        if v[i] == c {
            let ghost rest = v@.skip(start as int);
            proof {
                lemma_index_from(rest, 0, c);
                assert(rest[i - start] == c);
                assert forall|j: int| 0 <= j < i - start implies rest[j] != c by {
                    assert(rest[j] == v@[start + j]);
                }
                assert(index_from(rest, 0, c) == Some(i - start));
                assert(rest.skip(i - start + 1) =~= v@.skip(i + 1));
                assert(rest.take(i - start) =~= v@.subrange(start as int, i as int));
            }
            let ghost before = texts(r@);
            r.push(sub_chars(v, start, i));
            assert(texts(r@) =~= before.push(v@.subrange(start as int, i as int)));
            assert(texts(r@) + split_on(v@.skip(i + 1), c) =~= before + split_on(rest, c));
            start = i + 1;
        }
        i += 1;
    }
    let ghost rest = v@.skip(start as int);
    let ghost before = texts(r@);
    proof {
        lemma_index_from(rest, 0, c);
        assert forall|j: int| 0 <= j < rest.len() implies rest[j] != c by {
            assert(rest[j] == v@[start + j]);
        }
        assert(rest =~= v@.subrange(start as int, n as int));
    }
    r.push(sub_chars(v, start, n));
    assert(texts(r@) =~= before + split_on(rest, c));
    r
}

/// Splitting a text and joining the parts by the separator gives the text back.
pub proof fn lemma_split_join(s: Seq<char>, c: char)
    ensures
        join(split_on(s, c), seq![c]) == s,
        split_on(s, c).len() >= 1,
    decreases s.len(),
{
    lemma_index_from(s, 0, c);
    if let Some(i) = index_from(s, 0, c) {
        let rest = split_on(s.skip(i + 1), c);
        lemma_split_join(s.skip(i + 1), c);
        assert(split_on(s, c).skip(1) =~= rest);
        assert(s.take(i) + seq![c] + s.skip(i + 1) =~= s);
    }
}

/// The number of leading characters of `s` that are not white space.
pub open spec fn word_len(s: Seq<char>) -> nat
    decreases s.len(),
{
    if s.len() == 0 || is_space(s[0]) {
        0
    } else {
        1 + word_len(s.skip(1))
    }
}

/// A word ends at the first white space.
pub proof fn lemma_word_len(s: Seq<char>)
    ensures
        word_len(s) <= s.len(),
        forall|i: int| 0 <= i < word_len(s) ==> !is_space(#[trigger] s[i]),
        word_len(s) < s.len() ==> is_space(s[word_len(s) as int]),
    decreases s.len(),
{
    if s.len() > 0 && !is_space(s[0]) {
        lemma_word_len(s.skip(1));
        let w = word_len(s.skip(1));
        assert forall|i: int| 0 <= i < word_len(s) implies !is_space(#[trigger] s[i]) by {
            if i > 0 {
                assert(s.skip(1)[i - 1] == s[i]);
            }
        }
        if word_len(s) < s.len() {
            assert(s.skip(1)[w as int] == s[w as int + 1]);
        }
    }
}

/// Leading characters are cut off as long as they are of the class.
pub proof fn lemma_strip_leading(s: Seq<char>, k: CharClass)
    ensures
        strip_leading(s, k).len() <= s.len(),
        strip_leading(s, k) == s.skip(s.len() - strip_leading(s, k).len()),
        forall|i: int|
            0 <= i < s.len() - strip_leading(s, k).len() ==> k.has(#[trigger] s[i]),
        strip_leading(s, k).len() > 0 ==> !k.has(strip_leading(s, k)[0]),
    decreases s.len(),
{
    if s.len() > 0 && k.has(s[0]) {
        let t = s.skip(1);
        lemma_strip_leading(t, k);
        let n = s.len() - strip_leading(s, k).len();
        assert(t.skip(n - 1) =~= s.skip(n));
        assert forall|i: int| 0 <= i < n implies k.has(#[trigger] s[i]) by {
            if i > 0 {
                assert(t[i - 1] == s[i]);
            }
        }
    } else {
        assert(s.skip(0) =~= s);
    }
}

/// Trailing characters are cut off as long as they are of the class.
pub proof fn lemma_strip_trailing(s: Seq<char>, k: CharClass)
    ensures
        strip_trailing(s, k).len() <= s.len(),
        strip_trailing(s, k) == s.take(strip_trailing(s, k).len() as int),
        forall|i: int|
            strip_trailing(s, k).len() <= i < s.len() ==> k.has(#[trigger] s[i]),
        strip_trailing(s, k).len() > 0 ==> !k.has(strip_trailing(s, k).last()),
    decreases s.len(),
{
    if s.len() > 0 && k.has(s.last()) {
        let t = s.drop_last();
        lemma_strip_trailing(t, k);
        let n = strip_trailing(s, k).len() as int;
        assert(t.take(n) =~= s.take(n));
        assert forall|i: int| n <= i < s.len() implies k.has(#[trigger] s[i]) by {
            if i < s.len() - 1 {
                assert(t[i] == s[i]);
            }
        }
    } else {
        assert(s.take(s.len() as int) =~= s);
    }
}

/// The words of `s`: its longest runs of characters that are not white space.
pub open spec fn words(s: Seq<char>) -> Seq<Seq<char>>
    decreases s.len(),
{
    let t = strip_leading(s, CharClass::Space);
    if t.len() == 0 {
        Seq::empty()
    } else {
        let n = word_len(t) as int;
        proof {
            lemma_strip_leading(s, CharClass::Space);
            lemma_word_len(t);
        }
        seq![t.take(n)] + words(t.skip(n))
    }
}

/// `s` with its words separated by single spaces.
pub open spec fn compacted(s: Seq<char>) -> Seq<char> {
    join(words(s), seq![' '])
}

/// The words of a text.
pub fn split_whitespace(v: &[char]) -> (r: Vec<Vec<char>>)
    ensures
        texts(r@) == words(v@),
{
    let n: usize = v.len();
    let mut r: Vec<Vec<char>> = Vec::new();
    let mut i: usize = 0;
    assert(v@.skip(0) =~= v@);
    assert(texts(r@) + words(v@) =~= words(v@));
    while i < n
        invariant
            i <= n == v@.len(),
            texts(r@) + words(v@.skip(i as int)) == words(v@),
        decreases n - i,
    {
        let ghost rest = v@.skip(i as int);
        if is_whitespace(v[i]) {
            assert(rest.skip(1) =~= v@.skip(i + 1));
            assert(strip_leading(rest, CharClass::Space) == strip_leading(
                rest.skip(1),
                CharClass::Space,
            ));
            assert(words(rest) =~= words(rest.skip(1)));
            i += 1;
        } else {
            let start: usize = i;
            assert(v@.skip(i as int) =~= rest);
            while i < n && !is_whitespace(v[i])
                invariant
                    start <= i <= n == v@.len(),
                    rest == v@.skip(start as int),
                    word_len(rest) == (i - start) + word_len(v@.skip(i as int)),
                decreases n - i,
            {
                assert(v@.skip(i as int).skip(1) =~= v@.skip(i + 1));
                i += 1;
            }
            proof {
                assert(rest[0] == v@[start as int]);
                assert(word_len(v@.skip(i as int)) == 0);
                let w = i - start;
                assert(rest.take(w) =~= v@.subrange(start as int, i as int));
                assert(rest.skip(w) =~= v@.skip(i as int));
            }
            let ghost before = texts(r@);
            r.push(sub_chars(v, start, i));
            assert(texts(r@) =~= before.push(v@.subrange(start as int, i as int)));
            assert(strip_leading(rest, CharClass::Space) == rest);
            assert(texts(r@) + words(v@.skip(i as int)) =~= before + words(rest));
        }
    }
    assert(v@.skip(n as int) =~= Seq::<char>::empty());
    assert(words(v@.skip(n as int)) =~= Seq::<Seq<char>>::empty());
    assert(texts(r@) =~= words(v@));
    r
}

pub proof fn lemma_join_push(parts: Seq<Seq<char>>, sep: Seq<char>, last: Seq<char>)
    ensures
        join(parts.push(last), sep) == if parts.len() == 0 {
            last
        } else {
            join(parts, sep) + sep + last
        },
    decreases parts.len(),
{
    if parts.len() > 0 {
        lemma_join_push(parts.skip(1), sep, last);
        assert(parts.push(last).skip(1) =~= parts.skip(1).push(last));
        if parts.len() > 1 {
            assert(parts[0] + sep + (join(parts.skip(1), sep) + sep + last) =~= parts[0] + sep
                + join(parts.skip(1), sep) + sep + last);
        }
    }
}

/// Joins texts by a separator.
pub fn join_chars(parts: &Vec<Vec<char>>, sep: &str) -> (r: String)
    ensures
        r@ == join(texts(parts@), sep@),
{
    let mut r = String::new();
    let mut i: usize = 0;
    assert(texts(parts@).take(0) =~= Seq::<Seq<char>>::empty());
    while i < parts.len()
        invariant
            i <= parts@.len(),
            r@ == join(texts(parts@).take(i as int), sep@),
        decreases parts.len() - i,
    {
        let ghost done = texts(parts@).take(i as int);
        proof {
            lemma_join_push(done, sep@, parts@[i as int]@);
            assert(texts(parts@).take(i + 1) =~= done.push(parts@[i as int]@));
        }
        if i > 0 {
            r.append(sep);
        }
        push_chars(&mut r, parts[i].as_slice());
        assert(i == 0 ==> r@ =~= parts@[i as int]@);
        i += 1;
    }
    assert(texts(parts@).take(i as int) =~= texts(parts@));
    r
}

/// Joins strings by a separator.
pub fn join_strings(parts: &[String], sep: &str) -> (r: String)
    ensures
        r@ == join(strings(parts@), sep@),
{
    let mut r = String::new();
    let mut i: usize = 0;
    assert(strings(parts@).take(0) =~= Seq::<Seq<char>>::empty());
    while i < parts.len()
        invariant
            i <= parts@.len(),
            r@ == join(strings(parts@).take(i as int), sep@),
        decreases parts.len() - i,
    {
        let ghost done = strings(parts@).take(i as int);
        proof {
            lemma_join_push(done, sep@, parts@[i as int]@);
            assert(strings(parts@).take(i + 1) =~= done.push(parts@[i as int]@));
        }
        if i > 0 {
            r.append(sep);
        }
        r.append(parts[i].as_str());
        assert(i == 0 ==> r@ =~= parts@[i as int]@);
        i += 1;
    }
    assert(strings(parts@).take(i as int) =~= strings(parts@));
    r
}

/// A text with its words separated by single spaces.
pub fn compact_line(text: &str) -> (r: String)
    ensures
        r@ == compacted(text@),
{
    let v = chars_of(text);
    let w = split_whitespace(v.as_slice());
    proof {
        reveal_strlit(" ");
        assert(" "@ =~= seq![' ']);
    }
    join_chars(&w, " ")
}

/// The decimal digits of `n`.
pub open spec fn decimal(n: nat) -> Seq<char>
    decreases n,
{
    if n < 10 {
        seq![(48 + n) as char]
    } else {
        decimal(n / 10).push((48 + n % 10) as char)
    }
}

/// The decimal form of `n`, with a sign where it is negative.
pub open spec fn signed_decimal(n: int) -> Seq<char> {
    if n < 0 {
        seq!['-'] + decimal((-n) as nat)
    } else {
        decimal(n as nat)
    }
}

/// Appends the decimal digits of a number.
pub fn push_decimal(out: &mut String, n: u128)
    ensures
        final(out)@ == old(out)@ + decimal(n as nat),
    decreases n,
{
    if n >= 10 {
        push_decimal(out, n / 10);
    }
    let d: u8 = (n % 10) as u8;
    out.push((48 + d) as char);
    assert(out@ =~= old(out)@ + decimal(n as nat));
}

/// Appends the decimal form of a signed number.
pub fn push_signed(out: &mut String, n: i64)
    ensures
        final(out)@ == old(out)@ + signed_decimal(n as int),
{
    if n < 0 {
        out.push('-');
        let m: i128 = -(n as i128);
        push_decimal(out, m as u128);
        assert(out@ =~= old(out)@ + signed_decimal(n as int));
    } else {
        push_decimal(out, n as u128);
    }
}

/// Whether `c` is an ASCII digit.
pub open spec fn is_digit(c: char) -> bool {
    '0' <= c <= '9'
}

/// The number that a row of ASCII digits stands for.
pub open spec fn digits_value(s: Seq<char>) -> nat
    decreases s.len(),
{
    if s.len() == 0 {
        0
    } else {
        digits_value(s.drop_last()) * 10 + (s.last() as nat - 48) as nat
    }
}

/// The digits of an unsigned number, behind the plus sign that it may carry.
pub open spec fn unsigned_digits(s: Seq<char>) -> Seq<char> {
    if s.len() > 0 && s[0] == '+' {
        s.skip(1)
    } else {
        s
    }
}

/// The unsigned number that `s` spells: digits alone, behind a plus sign at most,
/// with a value of `max` or less.
pub open spec fn unsigned_value(s: Seq<char>, max: nat) -> Option<nat> {
    let d = unsigned_digits(s);
    if d.len() > 0 && (forall|i: int| 0 <= i < d.len() ==> is_digit(#[trigger] d[i]))
        && digits_value(d) <= max {
        Some(digits_value(d))
    } else {
        None
    }
}

/// Reads an unsigned number of at most `max`.
pub fn parse_unsigned(v: &[char], max: u64) -> (r: Option<u64>)
    ensures
        match r {
            Some(n) => unsigned_value(v@, max as nat) == Some(n as nat),
            None => unsigned_value(v@, max as nat) is None,
        },
{
    let n: usize = v.len();
    let start: usize = if n > 0 && v[0] == '+' { 1 } else { 0 };
    let ghost d = unsigned_digits(v@);
    assert(d =~= v@.skip(start as int));
    if start == n {
        return None;
    }
    let mut value: u128 = 0;
    let mut over: bool = false;
    let mut i: usize = start;
    assert(d.take(0) =~= Seq::<char>::empty());
    while i < n
        invariant
            start <= i <= n == v@.len(),
            d == v@.skip(start as int),
            d == unsigned_digits(v@),
            forall|j: int| 0 <= j < i - start ==> is_digit(#[trigger] d[j]),
            !over ==> value == digits_value(d.take(i - start)) && value <= max,
            over ==> digits_value(d.take(i - start)) > max,
        decreases n - i,
    {
        let c: char = v[i];
        let ghost k = i - start;
        assert(d[k] == c);
        if !('0' <= c && c <= '9') {
            assert(!is_digit(d[k]));
            return None;
        }
        assert(d.take(k + 1).drop_last() =~= d.take(k));
        assert(d.take(k + 1).last() == c);
        if !over {
            value = value * 10 + (c as u128 - 48);
            if value > max as u128 {
                over = true;
            }
        }
        i += 1;
    }
    assert(d.take(n - start) =~= d);
    if over {
        None
    } else {
        Some(value as u64)
    }
}

/// `c` with an ASCII capital made small.
pub open spec fn ascii_lower(c: char) -> char {
    if 'A' <= c <= 'Z' {
        (c as u32 + 32) as char
    } else {
        c
    }
}

/// Whether two texts are the same up to the case of ASCII letters.
pub open spec fn same_ignoring_case(a: Seq<char>, b: Seq<char>) -> bool {
    &&& a.len() == b.len()
    &&& forall|i: int| 0 <= i < a.len() ==> ascii_lower(#[trigger] a[i]) == ascii_lower(b[i])
}

fn lower(c: char) -> (r: char)
    ensures
        r == ascii_lower(c),
{
    if 'A' <= c && c <= 'Z' {
        ((c as u8) + 32) as char
    } else {
        c
    }
}

/// Whether two texts are the same up to the case of ASCII letters.
pub fn eq_ignore_ascii_case(a: &[char], b: &str) -> (r: bool)
    ensures
        r == same_ignoring_case(a@, b@),
{
    let y = chars_of(b);
    if a.len() != y.len() {
        return false;
    }
    let mut i: usize = 0;
    while i < a.len()
        invariant
            y@ == b@,
            i <= a@.len() == y@.len(),
            forall|j: int| 0 <= j < i ==> ascii_lower(#[trigger] a@[j]) == ascii_lower(y@[j]),
        decreases a.len() - i,
    {
        if lower(a[i]) != lower(y[i]) {
            return false;
        }
        i += 1;
    }
    true
}

/// The decimal form of a number is made of digits, and has its value.
pub proof fn lemma_decimal(n: nat)
    ensures
        decimal(n).len() > 0,
        forall|i: int| 0 <= i < decimal(n).len() ==> is_digit(#[trigger] decimal(n)[i]),
        digits_value(decimal(n)) == n,
    decreases n,
{
    let d = decimal(n);
    if n < 10 {
        assert(d.drop_last() =~= Seq::empty());
        assert(digits_value(Seq::<char>::empty()) == 0);
    } else {
        lemma_decimal(n / 10);
        assert(d.drop_last() =~= decimal(n / 10));
    }
}

/// A number that is written down is read back, unless it is too large.
pub proof fn law_written_number_is_read_back(n: nat, max: nat)
    ensures
        unsigned_value(decimal(n), max) == (if n <= max {
            Some(n)
        } else {
            None
        }),
{
    lemma_decimal(n);
    assert(is_digit(decimal(n)[0]));
}

/// Numbers that differ are written differently, and no number is written with a colon.
pub proof fn lemma_signed_decimal(a: int, b: int)
    ensures
        signed_decimal(a) == signed_decimal(b) ==> a == b,
        !signed_decimal(a).contains(':'),
{
    lemma_decimal(if a < 0 { (-a) as nat } else { a as nat });
    lemma_decimal(if b < 0 { (-b) as nat } else { b as nat });
    let s = signed_decimal(a);
    let t = signed_decimal(b);
    if a < 0 {
        assert(s.skip(1) =~= decimal((-a) as nat));
    } else {
        assert(is_digit(s[0]));
    }
    if b < 0 {
        assert(t.skip(1) =~= decimal((-b) as nat));
    } else {
        assert(is_digit(t[0]));
    }
    assert forall|i: int| 0 <= i < s.len() implies s[i] != ':' by {
        if a < 0 {
            if i > 0 {
                assert(s[i] == decimal((-a) as nat)[i - 1]);
            }
        } else {
            assert(is_digit(decimal(a as nat)[i]));
        }
    }
}

/// White space among the characters of ASCII: the space, the tabs, and what ends lines
/// and pages.
pub proof fn law_ascii_white_space(c: char)
    requires
        (c as u32) < 128,
    ensures
        is_space(c) <==> (c == ' ' || c == '\t' || c == '\n' || c == '\r' || c == '\u{b}' || c
            == '\u{c}'),
{
}

/// Characters of a class in front of a text are cut off, and nothing else.
pub proof fn lemma_leading_goes(front: Seq<char>, rest: Seq<char>, k: CharClass)
    requires
        forall|i: int| 0 <= i < front.len() ==> k.has(#[trigger] front[i]),
        rest.len() > 0 ==> !k.has(rest[0]),
    ensures
        strip_leading(front + rest, k) == rest,
    decreases front.len(),
{
    if front.len() == 0 {
        assert(front + rest =~= rest);
    } else {
        assert((front + rest)[0] == front[0]);
        assert((front + rest).skip(1) =~= front.skip(1) + rest);
        assert forall|i: int| 0 <= i < front.skip(1).len() implies k.has(
            #[trigger] front.skip(1)[i],
        ) by {
            assert(front.skip(1)[i] == front[i + 1]);
        }
        lemma_leading_goes(front.skip(1), rest, k);
    }
}

/// Characters of a class behind a text are cut off, and nothing else.
pub proof fn lemma_trailing_goes(rest: Seq<char>, back: Seq<char>, k: CharClass)
    requires
        forall|i: int| 0 <= i < back.len() ==> k.has(#[trigger] back[i]),
        rest.len() > 0 ==> !k.has(rest.last()),
    ensures
        strip_trailing(rest + back, k) == rest,
    decreases back.len(),
{
    if back.len() == 0 {
        assert(rest + back =~= rest);
    } else {
        assert(k.has(back[back.len() - 1]));
        assert((rest + back).last() == back[back.len() - 1]);
        assert((rest + back).drop_last() =~= rest + back.drop_last());
        assert forall|i: int| 0 <= i < back.drop_last().len() implies k.has(
            #[trigger] back.drop_last()[i],
        ) by {
            assert(back.drop_last()[i] == back[i]);
        }
        lemma_trailing_goes(rest, back.drop_last(), k);
    }
}

/// Characters of a class around a text are cut off, and nothing else.
pub proof fn lemma_both_go(front: Seq<char>, rest: Seq<char>, back: Seq<char>, k: CharClass)
    requires
        forall|i: int| 0 <= i < front.len() ==> k.has(#[trigger] front[i]),
        forall|i: int| 0 <= i < back.len() ==> k.has(#[trigger] back[i]),
        rest.len() > 0,
        !k.has(rest[0]),
        !k.has(rest.last()),
    ensures
        strip_both(front + rest + back, k) == rest,
{
    assert(front + rest + back =~= front + (rest + back));
    assert((rest + back)[0] == rest[0]);
    lemma_leading_goes(front, rest + back, k);
    lemma_trailing_goes(rest, back, k);
}

/// White space around a text is cut off, and nothing else.
pub proof fn law_trimming_takes_white_space_alone(
    front: Seq<char>,
    rest: Seq<char>,
    back: Seq<char>,
)
    requires
        is_blank(front),
        is_blank(back),
        rest.len() > 0,
        !is_space(rest[0]),
        !is_space(rest.last()),
    ensures
        trimmed(front + rest + back) == rest,
{
    lemma_both_go(front, rest, back, CharClass::Space);
}

/// Splitting takes out the separators and nothing else: no part holds one, and the parts
/// with the separators between them are the text.
pub proof fn law_split_is_at_every_separator(v: &[char], c: char, r: Vec<Vec<char>>)
    requires
        call_ensures(split, (v, c), r),
    ensures
        join(texts(r@), seq![c]) == v@,
        r@.len() > 0,
        forall|i: int| 0 <= i < r@.len() ==> !(#[trigger] r@[i])@.contains(c),
{
    lemma_split_join(v@, c);
    assert(texts(r@).len() == r@.len());
    assert forall|i: int| 0 <= i < r@.len() implies !(#[trigger] r@[i])@.contains(c) by {
        lemma_part_has_no_separator(v@, c, i);
        assert(texts(r@)[i] == r@[i]@);
    }
}

/// No part of a text that was split holds the separator.
pub proof fn lemma_part_has_no_separator(s: Seq<char>, c: char, i: int)
    requires
        0 <= i < split_on(s, c).len(),
    ensures
        !split_on(s, c)[i].contains(c),
    decreases s.len(),
{
    lemma_index_from(s, 0, c);
    match index_from(s, 0, c) {
        None => {
            assert(split_on(s, c)[i] == s);
        },
        Some(k) => {
            if i == 0 {
                assert(split_on(s, c)[0] == s.take(k));
                assert forall|j: int| 0 <= j < k implies s.take(k)[j] != c by {
                    assert(s.take(k)[j] == s[j]);
                }
            } else {
                lemma_part_has_no_separator(s.skip(k + 1), c, i - 1);
                assert(split_on(s, c)[i] == split_on(s.skip(k + 1), c)[i - 1]);
            }
        },
    }
}

/// A text in front of the first separator is the first part, and the parts of what is
/// behind it are the others.
pub proof fn lemma_split_front(first: Seq<char>, c: char, rest: Seq<char>)
    requires
        !first.contains(c),
    ensures
        split_on(first.push(c) + rest, c) == seq![first] + split_on(rest, c),
{
    let s = first.push(c) + rest;
    let n = first.len() as int;
    lemma_index_from(s, 0, c);
    assert(s[n] == c);
    assert forall|j: int| 0 <= j < n implies s[j] != c by {
        assert(s[j] == first[j]);
        assert(first.contains(first[j]));
    }
    assert(index_from(s, 0, c) == Some(n));
    assert(s.take(n) =~= first);
    assert(s.skip(n + 1) =~= rest);
}

/// A text without the separator is its only part.
pub proof fn lemma_split_one(s: Seq<char>, c: char)
    requires
        !s.contains(c),
    ensures
        split_on(s, c) == seq![s],
{
    lemma_index_from(s, 0, c);
    if let Some(i) = index_from(s, 0, c) {
        assert(s[i] == c);
    }
}

/// Joined texts stand one behind the other, with the separator between them.
pub proof fn law_joining_puts_the_separator_between(
    parts: Seq<Seq<char>>,
    sep: Seq<char>,
    last: Seq<char>,
)
    ensures
        join(Seq::empty(), sep) == Seq::<char>::empty(),
        join(seq![last], sep) == last,
        parts.len() > 0 ==> join(parts.push(last), sep) == join(parts, sep) + sep + last,
{
    lemma_join_push(parts, sep, last);
}

proof fn lemma_first_word(front: Seq<char>, word: Seq<char>, rest: Seq<char>)
    requires
        is_blank(front),
        word.len() > 0,
        forall|i: int| 0 <= i < word.len() ==> !is_space(#[trigger] word[i]),
        rest.len() > 0 ==> is_space(rest[0]),
    ensures
        words(front + word + rest) == seq![word] + words(rest),
{
    let s = front + word + rest;
    let t = word + rest;
    assert(s =~= front + t);
    assert(t[0] == word[0]);
    lemma_leading_goes(front, t, CharClass::Space);
    lemma_word_in_front(word, rest);
    assert(t.take(word.len() as int) =~= word);
    assert(t.skip(word.len() as int) =~= rest);
}

proof fn lemma_word_in_front(word: Seq<char>, rest: Seq<char>)
    requires
        forall|i: int| 0 <= i < word.len() ==> !is_space(#[trigger] word[i]),
        rest.len() > 0 ==> is_space(rest[0]),
    ensures
        word_len(word + rest) == word.len(),
    decreases word.len(),
{
    let t = word + rest;
    if word.len() > 0 {
        assert(t[0] == word[0]);
        assert(t.skip(1) =~= word.skip(1) + rest);
        assert forall|i: int| 0 <= i < word.skip(1).len() implies !is_space(
            #[trigger] word.skip(1)[i],
        ) by {
            assert(word.skip(1)[i] == word[i + 1]);
        }
        lemma_word_in_front(word.skip(1), rest);
    } else {
        assert(t =~= rest);
    }
}

/// A text has words exactly when it is not blank.
pub proof fn lemma_blank_has_no_words(s: Seq<char>)
    ensures
        words(s).len() == 0 <==> is_blank(s),
{
    lemma_strip_leading_blank(s);
}

/// A text on one line is its words in order, each but the first behind a single space.
pub proof fn law_compact_line_is_its_words(
    text: &str,
    r: String,
    front: Seq<char>,
    word: Seq<char>,
    rest: Seq<char>,
)
    requires
        call_ensures(compact_line, (text,), r),
        text@ == front + word + rest,
        is_blank(front),
        word.len() > 0,
        forall|i: int| 0 <= i < word.len() ==> !is_space(#[trigger] word[i]),
        rest.len() > 0 ==> is_space(rest[0]),
    ensures
        is_blank(rest) ==> r@ == word,
        !is_blank(rest) ==> r@ == word + seq![' '] + compacted(rest),
        compacted(rest).len() == 0 <==> is_blank(rest),
{
    lemma_first_word(front, word, rest);
    lemma_blank_has_no_words(rest);
    let all = seq![word] + words(rest);
    assert(all.skip(1) =~= words(rest));
    if is_blank(rest) {
        assert(words(rest) =~= Seq::empty());
        assert(all =~= seq![word]);
    } else {
        lemma_compacted_ends(rest);
    }
}

/// A blank text on one line is nothing.
pub proof fn law_blank_text_is_compacted_to_nothing(s: Seq<char>)
    requires
        is_blank(s),
    ensures
        compacted(s) == Seq::<char>::empty(),
{
    lemma_blank_has_no_words(s);
}

/// Words are not empty and hold no white space.
pub proof fn lemma_words_are_bare(s: Seq<char>, i: int)
    requires
        0 <= i < words(s).len(),
    ensures
        words(s)[i].len() > 0,
        forall|j: int| 0 <= j < words(s)[i].len() ==> !is_space(#[trigger] words(s)[i][j]),
    decreases s.len(),
{
    let t = strip_leading(s, CharClass::Space);
    lemma_strip_leading(s, CharClass::Space);
    lemma_word_len(t);
    let n = word_len(t) as int;
    if i == 0 {
        assert(words(s)[0] == t.take(n));
        assert forall|j: int| 0 <= j < n implies !is_space(#[trigger] words(s)[0][j]) by {
            assert(t.take(n)[j] == t[j]);
        }
    } else {
        assert(words(s)[i] == words(t.skip(n))[i - 1]);
        lemma_words_are_bare(t.skip(n), i - 1);
    }
}

proof fn lemma_join_ends(parts: Seq<Seq<char>>, sep: Seq<char>)
    requires
        parts.len() > 0,
        forall|i: int| 0 <= i < parts.len() ==> (#[trigger] parts[i]).len() > 0,
    ensures
        join(parts, sep).len() > 0,
        join(parts, sep)[0] == parts[0][0],
        join(parts, sep).last() == parts.last().last(),
    decreases parts.len(),
{
    if parts.len() > 1 {
        assert forall|i: int| 0 <= i < parts.skip(1).len() implies (
        #[trigger] parts.skip(1)[i]).len() > 0 by {
            assert(parts.skip(1)[i] == parts[i + 1]);
        }
        lemma_join_ends(parts.skip(1), sep);
        assert(parts.skip(1).last() == parts.last());
    }
}

/// A text on one line has no white space at its ends.
pub proof fn lemma_compacted_ends(s: Seq<char>)
    requires
        !is_blank(s),
    ensures
        compacted(s).len() > 0,
        !is_space(compacted(s)[0]),
        !is_space(compacted(s).last()),
{
    let w = words(s);
    lemma_blank_has_no_words(s);
    assert forall|i: int| 0 <= i < w.len() implies (#[trigger] w[i]).len() > 0 by {
        lemma_words_are_bare(s, i);
    }
    lemma_join_ends(w, seq![' ']);
    lemma_words_are_bare(s, 0);
    lemma_words_are_bare(s, w.len() - 1);
    assert(!is_space(w[0][0]));
    let last = w[w.len() - 1];
    assert(!is_space(last[last.len() - 1]));
}

/// Numbers are written in tens, the digits in their order and no zero in front.
pub proof fn law_numbers_are_written_in_tens(n: nat, d: int)
    requires
        0 <= d < 10,
    ensures
        decimal(d as nat) == seq!["0123456789"@[d]],
        n > 0 ==> decimal((10 * n + d) as nat) == decimal(n).push("0123456789"@[d]),
        n > 0 ==> signed_decimal(-(n as int)) == seq!['-'] + decimal(n),
        signed_decimal(n as int) == decimal(n),
{
    reveal_strlit("0123456789");
    assert((48 + d) as char == "0123456789"@[d]);
    let m = (10 * n + d) as nat;
    assert(m / 10 == n && m % 10 == d);
}

/// A text is read as a number only where it is made of digits, but for a plus in front.
pub proof fn law_only_digits_are_a_number(v: &[char], max: u64, r: Option<u64>, i: int)
    requires
        call_ensures(parse_unsigned, (v, max), r),
        0 <= i < v@.len(),
        !('0' <= v@[i] <= '9'),
        i > 0 || v@[i] != '+',
    ensures
        r is None,
{
    let d = unsigned_digits(v@);
    if v@[0] == '+' {
        assert(d[i - 1] == v@[i]);
        assert(!is_digit(d[i - 1]));
    } else {
        assert(!is_digit(d[i]));
    }
}

/// A number is read as it is written, with or without a plus in front, where it is not
/// too great; then and only then.
pub proof fn law_number_is_read_as_it_is_written(
    v: &[char],
    max: u64,
    r: Option<u64>,
    n: nat,
)
    requires
        call_ensures(parse_unsigned, (v, max), r),
        v@ == decimal(n) || v@ == seq!['+'] + decimal(n),
    ensures
        n <= max ==> r == Some(n as u64),
        n > max ==> r is None,
{
    lemma_decimal(n);
    let d = unsigned_digits(v@);
    if v@ == decimal(n) {
        assert(is_digit(decimal(n)[0]));
        assert(d == decimal(n));
    } else {
        assert(v@[0] == '+');
        assert(d =~= decimal(n));
    }
    assert(digits_value(d) == n);
}

/// Texts are the same but for case exactly when they are so letter by letter; a capital
/// letter is the same as its small one.
pub proof fn law_case_is_ignored(a: Seq<char>, b: Seq<char>, c: char, i: int)
    requires
        0 <= i < a.len(),
        'a' <= c <= 'z',
    ensures
        same_ignoring_case(a, a),
        same_ignoring_case(a.update(i, c), b) == same_ignoring_case(
            a.update(i, ((c as u32) - 32) as char),
            b,
        ),
        a.len() != b.len() ==> !same_ignoring_case(a, b),
{
    let up = ((c as u32) - 32) as char;
    let x = a.update(i, c);
    let y = a.update(i, up);
    assert(ascii_lower(c) == ascii_lower(up));
    assert forall|j: int| 0 <= j < a.len() implies ascii_lower(#[trigger] x[j]) == ascii_lower(
        y[j],
    ) by {
        if j != i {
            assert(x[j] == a[j] && y[j] == a[j]);
        }
    }
    if same_ignoring_case(x, b) {
        assert forall|j: int| 0 <= j < y.len() implies ascii_lower(#[trigger] y[j]) == ascii_lower(
            b[j],
        ) by {
            assert(ascii_lower(x[j]) == ascii_lower(b[j]));
        }
    }
    if same_ignoring_case(y, b) {
        assert forall|j: int| 0 <= j < x.len() implies ascii_lower(#[trigger] x[j]) == ascii_lower(
            b[j],
        ) by {
            assert(ascii_lower(y[j]) == ascii_lower(b[j]));
        }
    }
}

/// Two texts without capital letters are the same but for case only where they are equal.
pub proof fn law_small_letters_are_told_apart(a: Seq<char>, b: Seq<char>)
    requires
        same_ignoring_case(a, b),
        forall|i: int| 0 <= i < a.len() ==> !('A' <= #[trigger] a[i] <= 'Z'),
        forall|i: int| 0 <= i < b.len() ==> !('A' <= #[trigger] b[i] <= 'Z'),
    ensures
        a == b,
{
    assert forall|i: int| 0 <= i < a.len() implies a[i] == b[i] by {
        assert(ascii_lower(a[i]) == ascii_lower(b[i]));
    }
    assert(a =~= b);
}

/// A word at the end of a text, behind white space, is its last word.
pub proof fn lemma_last_word(front: Seq<char>, word: Seq<char>)
    requires
        word.len() > 0,
        forall|i: int| 0 <= i < word.len() ==> !is_space(#[trigger] word[i]),
        front.len() > 0 ==> is_space(front.last()),
    ensures
        words(front + word).len() > 0,
        words(front + word).last() == word,
    decreases front.len(),
{
    let none = Seq::<char>::empty();
    let s = front + word;
    let t = strip_leading(front, CharClass::Space);
    lemma_strip_leading(front, CharClass::Space);
    let d = front.len() - t.len();
    let gap = front.take(d);
    assert(front =~= gap + t);
    assert(is_blank(gap));
    if t.len() == 0 {
        assert(s =~= front + word + none);
        assert(is_blank(front)) by {
            assert(front =~= gap);
        }
        lemma_first_word(front, word, none);
        assert(words(none) =~= Seq::empty());
        assert(words(s) =~= seq![word]);
    } else {
        lemma_word_len(t);
        let n = word_len(t) as int;
        let first = t.take(n);
        let rest = t.skip(n);
        assert(t.last() == front.last());
        assert(n < t.len()) by {
            if n == t.len() {
                assert(!is_space(t[n - 1]));
            }
        }
        assert(n > 0);
        assert(rest.last() == front.last());
        assert(s =~= gap + first + (rest + word));
        assert((rest + word)[0] == t[n]);
        lemma_first_word(gap, first, rest + word);
        lemma_last_word(rest, word);
        let more = words(rest + word);
        assert((seq![first] + more).last() == more.last());
    }
}

/// A number below a power of ten has no more digits than there are tens in the power.
pub proof fn lemma_digits_of_a_number(n: nat, k: nat)
    requires
        k > 0,
        n < pow(10, k),
    ensures
        decimal(n).len() <= k,
    decreases k,
{
    reveal(pow);
    if n >= 10 {
        assert(pow(10, k) == 10 * pow(10, (k - 1) as nat));
        if k == 1 {
            assert(pow(10, 0) == 1);
        } else {
            lemma_digits_of_a_number(n / 10, (k - 1) as nat);
        }
    }
}

/// No number that the machine counts with has more than 20 digits.
pub proof fn lemma_count_has_few_digits(n: usize)
    ensures
        decimal(n as nat).len() <= 20,
{
    reveal_with_fuel(pow, 21);
    assert(pow(10, 20) == 100_000_000_000_000_000_000);
    lemma_digits_of_a_number(n as nat, 20);
}

/// A list of strings is looked at string by string, and an optional string for what it is.
pub proof fn law_texts_are_those_of_the_strings(
    v: Seq<String>,
    i: int,
    s: Option<String>,
    t: Option<&str>,
)
    ensures
        strings(v).len() == v.len(),
        0 <= i < v.len() ==> strings(v)[i] == v[i]@,
        s is Some ==> text_of(s) == Some(s->0@),
        s is None ==> text_of(s) is None,
        t is Some ==> optional(t) == Some(t->0@),
        t is None ==> optional(t) is None,
{
}

/// A string without the white space around it is what is left when white space is taken
/// away at both ends, and nothing else.
pub proof fn law_trimmed_string(
    s: &str,
    r: String,
    front: Seq<char>,
    rest: Seq<char>,
    back: Seq<char>,
)
    requires
        call_ensures(trim, (s,), r),
    ensures
        is_blank(s@) ==> r@.len() == 0,
        s@ == front + rest + back && is_blank(front) && is_blank(back) && rest.len() > 0
            && !is_space(rest[0]) && !is_space(rest.last()) ==> r@ == rest,
{
    law_blank_text_trims_to_nothing(s@);
    if s@ == front + rest + back && is_blank(front) && is_blank(back) && rest.len() > 0
        && !is_space(rest[0]) && !is_space(rest.last()) {
        law_trimming_takes_white_space_alone(front, rest, back);
    }
}

/// A string begins with another where the other stands at its front; what follows it is
/// left when it is taken away.
pub proof fn law_prefix_is_taken_away(
    s: &str,
    p: &str,
    begins: bool,
    rest: Option<String>,
    behind: Seq<char>,
)
    requires
        call_ensures(starts_with, (s, p), begins),
        call_ensures(strip_prefix, (s, p), rest),
    ensures
        s@ == p@ + behind ==> begins && text_of(rest) == Some(behind),
        begins <==> rest is Some,
        begins ==> s@ == p@ + rest->0@,
{
    if s@ == p@ + behind {
        assert(s@.subrange(0, p@.len() as int) =~= p@);
        assert(s@.skip(p@.len() as int) =~= behind);
    }
    if begins {
        assert(s@.subrange(0, p@.len() as int) == p@);
        assert(s@ =~= p@ + s@.skip(p@.len() as int));
    }
}

/// Two strings are the same exactly where their characters are.
pub proof fn law_strings_are_compared(a: &str, b: &str, r: bool, v: &[char], blank_one: bool)
    requires
        call_ensures(same_text, (a, b), r),
        call_ensures(blank, (v,), blank_one),
    ensures
        r <==> a@ == b@,
        blank_one <==> forall|i: int| 0 <= i < v@.len() ==> is_space(#[trigger] v@[i]),
{
}

/// A number is written behind what stands there.
pub proof fn law_number_is_appended(out: &mut String, n: u128)
    requires
        call_ensures(push_decimal, (out, n), ()),
    ensures
        final(out)@ == old(out)@ + decimal(n as nat),
{
}

/// A number with a sign is written behind what stands there.
pub proof fn law_signed_number_is_appended(out: &mut String, n: i64)
    requires
        call_ensures(push_signed, (out, n), ()),
    ensures
        n >= 0 ==> final(out)@ == old(out)@ + decimal(n as nat),
        n < 0 ==> final(out)@ == old(out)@ + (seq!['-'] + decimal((-n) as nat)),
{
}

/// A class of characters holds these and no others.
pub proof fn law_classes_hold_their_characters(c: char)
    ensures
        CharClass::Quote.has(c) <==> "`\"'"@.contains(c),
        CharClass::Closing.has(c) <==> ",.;:)]>"@.contains(c),
        CharClass::Newline.has(c) <==> c == '\n',
        CharClass::CarriageReturn.has(c) <==> c == '\r',
        CharClass::Backtick.has(c) <==> c == '`',
        CharClass::Space.has(c) <==> is_space(c),
{
    reveal_strlit("`\"'");
    reveal_strlit(",.;:)]>");
    let q = "`\"'"@;
    let p = ",.;:)]>"@;
    assert(q.len() == 3 && q[0] == '`' && q[1] == '"' && q[2] == '\'');
    assert(p.len() == 7 && p[0] == ',' && p[1] == '.' && p[2] == ';' && p[3] == ':' && p[4] == ')'
        && p[5] == ']' && p[6] == '>');
    if CharClass::Quote.has(c) {
        assert(q.contains(c));
    }
    if CharClass::Closing.has(c) {
        assert(p.contains(c));
    }
}

/// Beyond ASCII these characters are white space, and no others.
pub proof fn law_white_space_beyond_ascii(c: char)
    requires
        (c as u32) >= 128,
    ensures
        is_space(c) <==> (c == '\u{85}' || c == '\u{a0}' || c == '\u{1680}' || '\u{2000}' <= c
            <= '\u{200a}' || c == '\u{2028}' || c == '\u{2029}' || c == '\u{202f}' || c
            == '\u{205f}' || c == '\u{3000}'),
{
}

} // verus!
