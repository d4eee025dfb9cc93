//! Fitting text into Telegram's message size.
use vstd::prelude::*;

use crate::text;

verus! {

/// The greatest number of characters that one Telegram message may hold.
pub const MAX_MESSAGE_CHARS: usize = 4096;

/// `s` where it has at most `max` characters, else its first `max - 1` characters
/// and an ellipsis.
pub open spec fn shortened(s: Seq<char>, max: int) -> Seq<char> {
    if s.len() <= max {
        s
    } else {
        s.take(max - 1).push('…')
    }
}

/// The last characters of `s`: all of it where it has at most `max`, else an
/// ellipsis and its last `max - 1` characters.
pub open spec fn tail_of(s: Seq<char>, max: nat) -> Seq<char> {
    if s.len() <= max {
        s
    } else {
        let keep = if max > 0 { max - 1 } else { 0 };
        seq!['…'] + s.skip(s.len() - keep)
    }
}

/// Truncate a text to at most `max` characters, the last one "…" if truncated.
pub fn truncate(s: &str, max: usize) -> (r: String)
    requires
        max > 0 || s@.len() == 0,
    ensures
        r@ == shortened(s@, max as int),
{
    let v = text::chars_of(s);
    if v.len() <= max {
        text::string_of(v.as_slice())
    } else {
        let head = text::sub_chars(v.as_slice(), 0, max - 1);
        let mut r = text::string_of(head.as_slice());
        r.push('…');
        assert(head@ =~= v@.take(max - 1));
        r
    }
}

/// Truncate a text to Telegram's limit (for interim drafts; the final response
/// is split instead).
pub fn truncate_text(text: &str) -> (r: String)
    ensures
        r@ == shortened(text@, MAX_MESSAGE_CHARS as int),
        r@.len() <= MAX_MESSAGE_CHARS,
{
    truncate(text, MAX_MESSAGE_CHARS)
}

/// The end of a text in at most `max_chars` characters, but for the ellipsis that
/// stands alone where `max_chars` is 0.
pub fn tail_text(text: &str, max_chars: usize) -> (r: String)
    ensures
        r@ == tail_of(text@, max_chars as nat),
        max_chars > 0 ==> r@.len() <= max_chars,
{
    let v = text::chars_of(text);
    let total: usize = v.len();
    if total <= max_chars {
        return text::string_of(v.as_slice());
    }
    let keep: usize = if max_chars > 0 { max_chars - 1 } else { 0 };
    let mut r = String::new();
    r.push('…');
    let tail = text::sub_chars(v.as_slice(), total - keep, total);
    text::push_chars(&mut r, tail.as_slice());
    assert(r@ =~= tail_of(text@, max_chars as nat));
    r
}

/// Where a text longer than the limit is cut: behind the last newline among the
/// first `MAX_MESSAGE_CHARS` characters, or at the limit where there is none.
pub open spec fn cut_point(s: Seq<char>, limit: int) -> int
    decreases limit,
{
    if limit <= 0 {
        MAX_MESSAGE_CHARS as int
    } else if s[limit - 1] == '\n' {
        limit
    } else {
        cut_point(s, limit - 1)
    }
}

/// What `cut_point` finds, without the recursion.
pub proof fn lemma_cut_point(s: Seq<char>, limit: int)
    requires
        0 <= limit <= MAX_MESSAGE_CHARS,
    ensures
        1 <= cut_point(s, limit) <= MAX_MESSAGE_CHARS,
        ({
            let p = cut_point(s, limit);
            ||| p <= limit && s[p - 1] == '\n' && (forall|j: int| p <= j < limit ==> s[j] != '\n')
            ||| p == MAX_MESSAGE_CHARS && (forall|j: int| 0 <= j < limit ==> s[j] != '\n')
        }),
    decreases limit,
{
    if limit > 0 && s[limit - 1] != '\n' {
        lemma_cut_point(s, limit - 1);
    }
}

/// The messages that carry `s`, one after the other.
pub open spec fn chunks_of(s: Seq<char>) -> Seq<Seq<char>>
    decreases s.len(),
{
    if s.len() <= MAX_MESSAGE_CHARS {
        seq![s]
    } else {
        let p = cut_point(s, MAX_MESSAGE_CHARS as int);
        proof {
            lemma_cut_point(s, MAX_MESSAGE_CHARS as int);
        }
        seq![s.take(p)] + chunks_of(s.skip(p))
    }
}

fn find_cut(v: &[char], start: usize) -> (p: usize)
    requires
        start + MAX_MESSAGE_CHARS <= v@.len(),
    ensures
        p == cut_point(v@.skip(start as int), MAX_MESSAGE_CHARS as int),
        1 <= p <= MAX_MESSAGE_CHARS,
{
    let ghost s = v@.skip(start as int);
    let n: usize = v.len();
    let mut limit: usize = MAX_MESSAGE_CHARS;
    while limit > 0
        invariant
            s == v@.skip(start as int),
            limit <= MAX_MESSAGE_CHARS,
            start + MAX_MESSAGE_CHARS <= n == v@.len(),
            cut_point(s, limit as int) == cut_point(s, MAX_MESSAGE_CHARS as int),
        decreases limit,
    {
        if v[start + (limit - 1)] == '\n' {
            return limit;
        }
        limit -= 1;
    }
    MAX_MESSAGE_CHARS
}

/// Split a text into chunks that each fit into one Telegram message.
///
/// Splits on newline boundaries when possible to avoid breaking mid-sentence.
pub fn split_text(text: &str) -> (r: Vec<String>)
    ensures
        text::strings(r@) == chunks_of(text@),
{
    let v = text::chars_of(text);
    let n: usize = v.len();
    let mut r: Vec<String> = Vec::new();
    let mut start: usize = 0;
    assert(v@.skip(0) =~= v@);
    assert(text::strings(r@) + chunks_of(v@) =~= chunks_of(v@));
    while n - start > MAX_MESSAGE_CHARS
        invariant
            start <= n == v@.len(),
            v@ == text@,
            text::strings(r@) + chunks_of(v@.skip(start as int)) == chunks_of(text@),
        decreases n - start,
    {
        let p: usize = find_cut(v.as_slice(), start);
        let ghost rest = v@.skip(start as int);
        let ghost before = text::strings(r@);
        let part = text::sub_chars(v.as_slice(), start, start + p);
        assert(part@ =~= rest.take(p as int));
        r.push(text::string_of(part.as_slice()));
        assert(text::strings(r@) =~= before.push(rest.take(p as int)));
        assert(rest.skip(p as int) =~= v@.skip(start + p));
        assert(text::strings(r@) + chunks_of(v@.skip(start + p)) =~= before + chunks_of(rest));
        start = start + p;
    }
    let ghost before = text::strings(r@);
    let part = text::sub_chars(v.as_slice(), start, n);
    assert(part@ =~= v@.skip(start as int));
    r.push(text::string_of(part.as_slice()));
    assert(text::strings(r@) =~= before + chunks_of(v@.skip(start as int)));
    r
}

/// The texts one after the other.
pub open spec fn concat(parts: Seq<Seq<char>>) -> Seq<char>
    decreases parts.len(),
{
    if parts.len() == 0 {
        Seq::empty()
    } else {
        parts[0] + concat(parts.skip(1))
    }
}

/// The chunks of a text, one after the other, are the text.
pub proof fn law_chunks_rejoin(s: Seq<char>)
    ensures
        concat(chunks_of(s)) == s,
    decreases s.len(),
{
    if s.len() <= MAX_MESSAGE_CHARS {
        assert(chunks_of(s).skip(1) =~= Seq::<Seq<char>>::empty());
        assert(concat(chunks_of(s).skip(1)) =~= Seq::<char>::empty());
        assert(s + Seq::<char>::empty() =~= s);
    } else {
        let p = cut_point(s, MAX_MESSAGE_CHARS as int);
        lemma_cut_point(s, MAX_MESSAGE_CHARS as int);
        law_chunks_rejoin(s.skip(p));
        assert(chunks_of(s).skip(1) =~= chunks_of(s.skip(p)));
        assert(s.take(p) + s.skip(p) =~= s);
    }
}

/// Every chunk fits into one message. None is empty, unless the text is. Every
/// chunk but the last ends with a newline or is as long as a message can be.
pub proof fn law_chunks_fit(s: Seq<char>, i: int)
    requires
        0 <= i < chunks_of(s).len(),
    ensures
        chunks_of(s)[i].len() <= MAX_MESSAGE_CHARS,
        s.len() > 0 ==> chunks_of(s)[i].len() > 0,
        i < chunks_of(s).len() - 1 ==> chunks_of(s)[i].last() == '\n' || chunks_of(s)[i].len()
            == MAX_MESSAGE_CHARS,
    decreases s.len(),
{
    if s.len() > MAX_MESSAGE_CHARS {
        let p = cut_point(s, MAX_MESSAGE_CHARS as int);
        lemma_cut_point(s, MAX_MESSAGE_CHARS as int);
        if i > 0 {
            law_chunks_fit(s.skip(p), i - 1);
            assert(chunks_of(s)[i] == chunks_of(s.skip(p))[i - 1]);
        } else {
            assert(chunks_of(s)[0] == s.take(p));
            assert(s.take(p).last() == s[p - 1]);
        }
    }
}

/// A text that fits into one message is sent as it is.
pub proof fn law_short_text_is_one_chunk(s: Seq<char>)
    requires
        s.len() <= MAX_MESSAGE_CHARS,
    ensures
        chunks_of(s) == seq![s],
        shortened(s, MAX_MESSAGE_CHARS as int) == s,
{
}

/// Shortening never exceeds the limit, keeps what fits, and keeps the beginning
/// of what does not; shortening twice is shortening once.
pub proof fn law_shortened(s: Seq<char>, max: int)
    requires
        max > 0,
    ensures
        shortened(s, max).len() <= max,
        shortened(shortened(s, max), max) == shortened(s, max),
        s.len() > max ==> shortened(s, max).len() == max && shortened(s, max).last() == '…'
            && shortened(s, max).drop_last() == s.take(max - 1),
{
    if s.len() > max {
        assert(shortened(s, max).drop_last() =~= s.take(max - 1));
    }
}

/// Every text, even an empty one, has at least one chunk.
pub proof fn law_there_is_a_chunk(s: Seq<char>)
    ensures
        chunks_of(s).len() > 0,
{
}

/// A text put behind others stands behind them all.
pub proof fn lemma_concat_push(parts: Seq<Seq<char>>, last: Seq<char>)
    ensures
        concat(parts.push(last)) == concat(parts) + last,
    decreases parts.len(),
{
    if parts.len() == 0 {
        assert(parts.push(last).skip(1) =~= parts);
        assert(concat(parts) =~= Seq::<char>::empty());
        assert(concat(parts.push(last)) =~= last + concat(parts));
        assert(last + concat(parts) =~= concat(parts) + last);
    } else {
        lemma_concat_push(parts.skip(1), last);
        assert(parts.push(last).skip(1) =~= parts.skip(1).push(last));
        assert(concat(parts.push(last)) =~= concat(parts) + last);
    }
}

/// A text that is truncated keeps its beginning: all of it where it fits, else as much
/// as leaves room for the ellipsis behind it.
pub proof fn law_truncated_text_keeps_its_beginning(s: &str, max: usize, r: String)
    requires
        call_ensures(truncate, (s, max), r),
        max > 0,
    ensures
        s@.len() <= max ==> r@ == s@,
        s@.len() > max ==> r@.len() == max && r@.last() == '…' && r@.drop_last() == s@.take(
            max - 1,
        ),
{
    law_shortened(s@, max as int);
}

/// A message is truncated at 4096 characters.
pub proof fn law_message_is_truncated_at_the_limit(s: &str, r: String)
    requires
        call_ensures(truncate_text, (s,), r),
    ensures
        s@.len() <= 4096 ==> r@ == s@,
        s@.len() > 4096 ==> r@ == s@.take(4095) + seq!['…'],
{
    if s@.len() > 4096 {
        assert(r@ =~= s@.take(4095) + seq!['…']);
    }
}

/// The end of a text is all of it where it fits, else its last characters behind an
/// ellipsis, as many as there is room for.
pub proof fn law_tail_keeps_the_end(s: &str, max: usize, r: String)
    requires
        call_ensures(tail_text, (s, max), r),
        max > 0,
    ensures
        s@.len() <= max ==> r@ == s@,
        s@.len() > max ==> r@.len() == max && r@[0] == '…' && r@.skip(1) == s@.skip(
            s@.len() - max + 1,
        ),
{
    if s@.len() > max {
        assert(r@.skip(1) =~= s@.skip(s@.len() - max + 1));
    }
}

/// A long text is cut behind the last newline that the first message has room for, or
/// where the message is full if there is none; what is left is split in the same way.
pub proof fn law_cut_is_as_late_as_can_be(text: &str, parts: Vec<String>, p: int)
    requires
        call_ensures(split_text, (text,), parts),
        text@.len() > 4096,
        1 <= p <= 4096,
        text@[p - 1] == '\n' || (p == 4096 && forall|j: int| 0 <= j < 4096 ==> text@[j] != '\n'),
        forall|j: int| p <= j < 4096 ==> text@[j] != '\n',
    ensures
        parts@.len() > 1,
        parts@[0]@ == text@.take(p),
        text::strings(parts@).skip(1) == chunks_of(text@.skip(p)),
{
    let s = text@;
    let q = cut_point(s, MAX_MESSAGE_CHARS as int);
    lemma_cut_point(s, MAX_MESSAGE_CHARS as int);
    if q < p {
        assert(s[p - 1] != '\n');
    }
    if p < q && s[q - 1] == '\n' {
        assert(s[q - 1] != '\n');
    }
    assert(p == q);
    law_there_is_a_chunk(s.skip(p));
    assert(text::strings(parts@).len() == parts@.len());
    assert(text::strings(parts@)[0] == parts@[0]@);
    assert(text::strings(parts@).skip(1) =~= chunks_of(s.skip(p)));
}

/// A text is sent whole: its parts one after the other are the text, each fits into a
/// message of 4096 characters, and a text that fits into one is sent as one.
pub proof fn law_text_is_sent_whole(text: &str, parts: Vec<String>, i: int)
    requires
        call_ensures(split_text, (text,), parts),
        0 <= i < parts@.len(),
    ensures
        concat(text::strings(parts@)) == text@,
        parts@[i]@.len() <= 4096,
        text@.len() > 0 ==> parts@[i]@.len() > 0,
        text@.len() <= 4096 ==> parts@.len() == 1 && parts@[0]@ == text@,
{
    law_chunks_rejoin(text@);
    assert(text::strings(parts@).len() == parts@.len());
    law_chunks_fit(text@, i);
    assert(text::strings(parts@)[i] == parts@[i]@);
    if text@.len() <= 4096 {
        law_short_text_is_one_chunk(text@);
        assert(i == 0);
    }
}

} // verus!
