//! Messages that arrive shortly after one another, forwarded as one prompt.
use dashmap::DashMap;
use std::time::{Duration, Instant};
use vstd::prelude::*;
use vstd::string::*;

use crate::clock;
use crate::maps;
use crate::session::SessionKey;
use crate::text;

verus! {

/// A single part of an aggregated message batch.
#[derive(Debug, Clone)]
pub struct MessagePart {
    pub text: String,
}

/// Buffered state for a pending aggregation.
#[derive(Debug)]
pub struct AggregationState {
    pub parts: Vec<MessagePart>,
    /// When the batch is due, in nanoseconds since the aggregator was made.
    pub deadline: u128,
}

/// A batch as plain values: the texts of its parts, and when it is due.
#[verifier::ext_equal]
pub struct Batch {
    pub parts: Seq<Seq<char>>,
    pub deadline: nat,
}

/// The texts of message parts.
pub open spec fn part_texts(parts: Seq<MessagePart>) -> Seq<Seq<char>> {
    Seq::new(parts.len(), |i: int| parts[i].text@)
}

impl View for AggregationState {
    type V = Batch;

    open spec fn view(&self) -> Batch {
        Batch { parts: part_texts(self.parts@), deadline: self.deadline as nat }
    }
}

/// The moment `window` after `now`, or the last one that there is.
pub open spec fn due_at(now: nat, window: nat) -> nat {
    if now + window <= u128::MAX {
        now + window
    } else {
        u128::MAX as nat
    }
}

/// The batches after a part has arrived: it joins the batch of its key, or begins
/// one, and the batch is due at `deadline`.
pub open spec fn pushed(
    batches: Map<SessionKey, Batch>,
    key: SessionKey,
    part: Seq<char>,
    deadline: nat,
) -> Map<SessionKey, Batch> {
    let before = if batches.contains_key(key) {
        batches[key].parts
    } else {
        Seq::empty()
    };
    batches.insert(key, Batch { parts: before.push(part), deadline })
}

/// Whether the batch of a key is due.
pub open spec fn is_due(batches: Map<SessionKey, Batch>, key: SessionKey, now: nat) -> bool {
    batches.contains_key(key) && now >= batches[key].deadline
}

/// The batches after the one of a key has been taken, if it is due.
pub open spec fn taken(
    batches: Map<SessionKey, Batch>,
    key: SessionKey,
    now: nat,
) -> Map<SessionKey, Batch> {
    if is_due(batches, key, now) {
        batches.remove(key)
    } else {
        batches
    }
}

/// What is taken of the batch of a key: its parts, if it is due.
pub open spec fn parts_due(
    batches: Map<SessionKey, Batch>,
    key: SessionKey,
    now: nat,
) -> Option<Seq<Seq<char>>> {
    if is_due(batches, key, now) {
        Some(batches[key].parts)
    } else {
        None
    }
}

/// How long it is until the batch of a key is due, in nanoseconds.
pub open spec fn time_left(
    batches: Map<SessionKey, Batch>,
    key: SessionKey,
    now: nat,
) -> Option<nat> {
    if batches.contains_key(key) {
        if batches[key].deadline > now {
            Some(clock::capped((batches[key].deadline - now) as nat))
        } else {
            Some(0)
        }
    } else {
        None
    }
}

/// The texts of the parts that were taken.
pub open spec fn taken_texts(r: Option<Vec<MessagePart>>) -> Option<Seq<Seq<char>>> {
    match r {
        Some(parts) => Some(part_texts(parts@)),
        None => None,
    }
}

/// The length of an optional duration, in nanoseconds.
pub open spec fn wait_nanos(r: Option<Duration>) -> Option<nat> {
    match r {
        Some(d) => Some(clock::nanos_of(d)),
        None => None,
    }
}

/// The prompt that the parts of a batch make up.
pub open spec fn combined(parts: Seq<Seq<char>>) -> Seq<char> {
    text::join(parts, "\n\n"@)
}

/// What to do next about a batch that is waited for.
#[derive(Debug)]
pub enum DrainStep {
    /// The batch is due: this is its prompt.
    Ready(String),
    /// The batch is due after this time.
    Wait(Duration),
    /// The batch became due just now.
    Retry,
    /// There is no batch.
    Gone,
}

/// Aggregates sequential messages arriving within a short window
/// before forwarding them to gemini-cli as a single prompt.
///
/// This handles:
/// - Forwarded message batches
/// - Long messages split by Telegram into multiple parts
pub struct MessageAggregator {
    pending: DashMap<SessionKey, AggregationState>,
    window: Duration,
    origin: Instant,
}

impl MessageAggregator {
    /// The batches that are waited for.
    pub closed spec fn batches(&self) -> Map<SessionKey, Batch> {
        maps::pending_batches(self.pending).map_values(|s: AggregationState| s@)
    }

    /// The aggregation window.
    pub closed spec fn spec_window(&self) -> Duration {
        self.window
    }

    /// The moment from which all times count: when the aggregator was made.
    pub closed spec fn spec_origin(&self) -> Instant {
        self.origin
    }

    /// An aggregator that waits for `window` after each part.
    pub fn new(window: Duration) -> (r: Self)
        ensures
            r.batches() == (Map::<SessionKey, Batch>::empty()),
            r.spec_window() == window,
    {
        let r = MessageAggregator {
            pending: maps::new_batches(),
            window,
            origin: Instant::now(),
        };
        assert(r.batches() =~= Map::<SessionKey, Batch>::empty());
        r
    }

    /// Push a message part into the aggregation buffer.
    ///
    /// Returns `true` if this is the first part (caller should spawn the
    /// drain task), or `false` if appended to an existing batch.
    pub fn push(&mut self, key: SessionKey, part: MessagePart) -> (r: bool)
        ensures
            r == !old(self).batches().contains_key(key),
            exists|now: nat|
                final(self).batches() == #[trigger] pushed(
                    old(self).batches(),
                    key,
                    part.text@,
                    due_at(now, clock::nanos_of(old(self).spec_window())),
                ),
            final(self).spec_window() == old(self).spec_window(),
            final(self).spec_origin() == old(self).spec_origin(),
    {
        let now: u128 = self.origin.elapsed().as_nanos();
        self.push_at(key, part, now)
    }

    /// Push a message part that arrived `now` nanoseconds after the aggregator was
    /// made.
    pub fn push_at(&mut self, key: SessionKey, part: MessagePart, now: u128) -> (r: bool)
        ensures
            r == !old(self).batches().contains_key(key),
            final(self).batches() == pushed(
                old(self).batches(),
                key,
                part.text@,
                due_at(now as nat, clock::nanos_of(old(self).spec_window())),
            ),
            final(self).spec_window() == old(self).spec_window(),
            final(self).spec_origin() == old(self).spec_origin(),
    {
        let window: u128 = self.window.as_nanos();
        let deadline: u128 = if now <= u128::MAX - window { now + window } else { u128::MAX };
        let ghost text = part.text@;
        let (first, mut parts): (bool, Vec<MessagePart>) = match maps::remove_batch(
            &mut self.pending,
            &key,
        ) {
            Some(state) => (false, state.parts),
            None => (true, Vec::new()),
        };
        let ghost old_parts = part_texts(parts@);
        parts.push(part);
        assert(part_texts(parts@) =~= old_parts.push(text));
        let _none = maps::insert_batch(
            &mut self.pending,
            key,
            AggregationState { parts, deadline },
        );
        proof {
            if first {
                assert(old_parts =~= Seq::<Seq<char>>::empty());
            }
            assert(self.batches() =~= pushed(old(self).batches(), key, text, deadline as nat));
        }
        first
    }

    /// Take the aggregated parts if the deadline has passed.
    /// Returns `None` if there's still time left or no batch exists.
    pub fn take_if_ready(&mut self, key: &SessionKey) -> (r: Option<Vec<MessagePart>>)
        ensures
            exists|now: nat|
                final(self).batches() == #[trigger] taken(old(self).batches(), *key, now)
                    && taken_texts(r) == parts_due(old(self).batches(), *key, now),
            final(self).spec_window() == old(self).spec_window(),
            final(self).spec_origin() == old(self).spec_origin(),
    {
        let now: u128 = self.origin.elapsed().as_nanos();
        self.take_at(key, now)
    }

    /// Take the aggregated parts if they are due `now` nanoseconds after the
    /// aggregator was made.
    pub fn take_at(&mut self, key: &SessionKey, now: u128) -> (r: Option<Vec<MessagePart>>)
        ensures
            final(self).batches() == taken(old(self).batches(), *key, now as nat),
            taken_texts(r) == parts_due(old(self).batches(), *key, now as nat),
            final(self).spec_window() == old(self).spec_window(),
            final(self).spec_origin() == old(self).spec_origin(),
    {
        let ready: bool = match maps::batch_deadline(&self.pending, key) {
            Some(deadline) => now >= deadline,
            None => false,
        };
        if ready {
            let r = match maps::remove_batch(&mut self.pending, key) {
                Some(state) => Some(state.parts),
                None => None,
            };
            assert(self.batches() =~= taken(old(self).batches(), *key, now as nat));
            r
        } else {
            None
        }
    }

    /// Return the remaining time until the aggregation deadline for a key.
    /// Returns `None` if no batch exists for this key.
    pub fn wait_deadline(&self, key: &SessionKey) -> (r: Option<Duration>)
        ensures
            exists|now: nat| wait_nanos(r) == #[trigger] time_left(self.batches(), *key, now),
    {
        let now: u128 = self.origin.elapsed().as_nanos();
        self.wait_at(key, now)
    }

    /// Return the time that remains until the deadline for a key, `now` nanoseconds
    /// after the aggregator was made.
    pub fn wait_at(&self, key: &SessionKey, now: u128) -> (r: Option<Duration>)
        ensures
            wait_nanos(r) == time_left(self.batches(), *key, now as nat),
    {
        match maps::batch_deadline(&self.pending, key) {
            Some(deadline) => {
                if deadline > now {
                    Some(clock::duration_of(deadline - now))
                } else {
                    Some(clock::duration_of(0))
                }
            },
            None => None,
        }
    }

    /// What to do next about the batch of a key.
    pub fn drain_step(&mut self, key: &SessionKey) -> (r: DrainStep)
        ensures
            exists|now: nat, later: nat|
                final(self).batches() == taken(old(self).batches(), *key, now)
                    && #[trigger] step_is(r, old(self).batches(), *key, now, later),
            final(self).spec_window() == old(self).spec_window(),
            final(self).spec_origin() == old(self).spec_origin(),
    {
        let now: u128 = self.origin.elapsed().as_nanos();
        let later: u128 = self.origin.elapsed().as_nanos();
        self.drain_step_at(key, now, later)
    }

    /// What to do next about the batch of a key: it is taken if it is due at `now`,
    /// else it is waited for from `later` on.
    pub fn drain_step_at(&mut self, key: &SessionKey, now: u128, later: u128) -> (r: DrainStep)
        ensures
            final(self).batches() == taken(old(self).batches(), *key, now as nat),
            step_is(r, old(self).batches(), *key, now as nat, later as nat),
            final(self).spec_window() == old(self).spec_window(),
            final(self).spec_origin() == old(self).spec_origin(),
    {
        if let Some(parts) = self.take_at(key, now) {
            return DrainStep::Ready(MessageAggregator::combine(parts.as_slice()));
        }
        match self.wait_at(key, later) {
            Some(d) => {
                if d.as_nanos() == 0 {
                    DrainStep::Retry
                } else {
                    DrainStep::Wait(d)
                }
            },
            None => DrainStep::Gone,
        }
    }

    /// Combine message parts into a single prompt string.
    pub fn combine(parts: &[MessagePart]) -> (r: String)
        ensures
            r@ == combined(part_texts(parts@)),
    {
        let mut texts: Vec<String> = Vec::new();
        let mut i: usize = 0;
        while i < parts.len()
            invariant
                i <= parts@.len(),
                texts@.len() == i,
                forall|j: int| 0 <= j < i ==> texts@[j]@ == parts@[j].text@,
            decreases parts.len() - i,
        {
            texts.push(parts[i].text.clone());
            i += 1;
        }
        assert(text::strings(texts@) =~= part_texts(parts@));
        text::join_strings(texts.as_slice(), "\n\n")
    }

    /// The aggregation window duration.
    pub fn window(&self) -> (r: Duration)
        ensures
            r == self.spec_window(),
    {
        self.window
    }
}

/// Whether `r` is the step for the batch of a key: its prompt where it is due at
/// `now`, else the time that is left at `later`.
pub open spec fn step_is(
    r: DrainStep,
    batches: Map<SessionKey, Batch>,
    key: SessionKey,
    now: nat,
    later: nat,
) -> bool {
    match parts_due(batches, key, now) {
        Some(parts) => r matches DrainStep::Ready(prompt) && prompt@ == combined(parts),
        None => match time_left(batches, key, later) {
            Some(left) => if left == 0 {
                r is Retry
            } else {
                r matches DrainStep::Wait(d) && clock::nanos_of(d) == left
            },
            None => r is Gone,
        },
    }
}

/// A part leaves the batches of all other keys alone.
pub proof fn law_keys_are_isolated(
    batches: Map<SessionKey, Batch>,
    key: SessionKey,
    other: SessionKey,
    part: Seq<char>,
    deadline: nat,
    now: nat,
)
    requires
        key != other,
    ensures
        pushed(batches, key, part, deadline).contains_key(other) == batches.contains_key(other),
        pushed(batches, key, part, deadline)[other] == batches[other] || !batches.contains_key(
            other,
        ),
        taken(batches, key, now).contains_key(other) == batches.contains_key(other),
        parts_due(pushed(batches, key, part, deadline), other, now) == parts_due(
            batches,
            other,
            now,
        ),
{
}

/// The batches after some parts have arrived under one key, each with the deadline
/// that it sets.
pub open spec fn pushed_all(
    batches: Map<SessionKey, Batch>,
    key: SessionKey,
    parts: Seq<(Seq<char>, nat)>,
) -> Map<SessionKey, Batch>
    decreases parts.len(),
{
    if parts.len() == 0 {
        batches
    } else {
        pushed(
            pushed_all(batches, key, parts.drop_last()),
            key,
            parts.last().0,
            parts.last().1,
        )
    }
}

/// However many parts arrive under one key, they are taken together, in the order in
/// which they arrived, once the window after the last has passed, and not before.
pub proof fn law_parts_are_taken_together(
    batches: Map<SessionKey, Batch>,
    key: SessionKey,
    parts: Seq<(Seq<char>, nat)>,
    now: nat,
)
    requires
        !batches.contains_key(key),
        parts.len() > 0,
    ensures
        parts_due(pushed_all(batches, key, parts), key, now) == (if now >= parts.last().1 {
            Some(Seq::new(parts.len(), |i: int| parts[i].0))
        } else {
            None
        }),
{
    lemma_pushed_all(batches, key, parts);
}

proof fn lemma_pushed_all(
    batches: Map<SessionKey, Batch>,
    key: SessionKey,
    parts: Seq<(Seq<char>, nat)>,
)
    requires
        !batches.contains_key(key),
    ensures
        ({
            let after = pushed_all(batches, key, parts);
            &&& after.contains_key(key) == (parts.len() > 0)
            &&& parts.len() > 0 ==> after[key] == (Batch {
                parts: Seq::new(parts.len(), |i: int| parts[i].0),
                deadline: parts.last().1,
            })
        }),
    decreases parts.len(),
{
    if parts.len() > 0 {
        lemma_pushed_all(batches, key, parts.drop_last());
        assert(pushed_all(batches, key, parts)[key].parts =~= Seq::new(
            parts.len(),
            |i: int| parts[i].0,
        ));
    }
}

/// A batch is taken once.
pub proof fn law_taken_once(
    batches: Map<SessionKey, Batch>,
    key: SessionKey,
    now: nat,
    later: nat,
)
    requires
        parts_due(batches, key, now) is Some,
    ensures
        parts_due(taken(batches, key, now), key, later) is None,
        time_left(taken(batches, key, now), key, later) is None,
{
}

/// A batch of one part is that part.
pub proof fn law_one_part_is_the_prompt(part: Seq<char>)
    ensures
        combined(seq![part]) == part,
{
}

/// A step of a run: a part arrives, or a batch is asked for, at some time.
pub enum AggregatorStep {
    Push { key: SessionKey, part: Seq<char>, now: nat },
    Take { key: SessionKey, now: nat },
}

/// The batches after a run that began without any.
pub open spec fn batches_after(steps: Seq<AggregatorStep>, window: nat) -> Map<SessionKey, Batch>
    decreases steps.len(),
{
    if steps.len() == 0 {
        Map::empty()
    } else {
        let batches = batches_after(steps.drop_last(), window);
        match steps.last() {
            AggregatorStep::Push { key, part, now } => pushed(
                batches,
                key,
                part,
                due_at(now, window),
            ),
            AggregatorStep::Take { key, now } => taken(batches, key, now),
        }
    }
}

/// The parts that arrived under a key since the beginning, or since the last time that
/// a batch was taken under it, and when the last of them arrived. A batch is taken when
/// it is asked for a whole window after its last part.
pub open spec fn arrived(steps: Seq<AggregatorStep>, window: nat, key: SessionKey) -> (
    Seq<Seq<char>>,
    nat,
)
    decreases steps.len(),
{
    if steps.len() == 0 {
        (Seq::empty(), 0)
    } else {
        let before = arrived(steps.drop_last(), window, key);
        match steps.last() {
            AggregatorStep::Push { key: k, part, now } if k == key => (before.0.push(part), now),
            AggregatorStep::Take { key: k, now } if k == key && before.0.len() > 0 && now
                >= before.1 + window => (Seq::empty(), before.1),
            _ => before,
        }
    }
}

/// Whether the times at which parts arrive in a run leave room for the window.
pub open spec fn times_fit(steps: Seq<AggregatorStep>, window: nat) -> bool {
    forall|i: int|
        0 <= i < steps.len() ==> match #[trigger] steps[i] {
            AggregatorStep::Push { now, .. } => now + window <= u128::MAX,
            AggregatorStep::Take { .. } => true,
        }
}

proof fn lemma_arrived(steps: Seq<AggregatorStep>, window: nat, key: SessionKey)
    requires
        times_fit(steps, window),
    ensures
        ({
            let batches = batches_after(steps, window);
            let (parts, last) = arrived(steps, window, key);
            &&& batches.contains_key(key) == (parts.len() > 0)
            &&& parts.len() > 0 ==> batches[key] == (Batch { parts, deadline: last + window })
        }),
    decreases steps.len(),
{
    if steps.len() > 0 {
        let init = steps.drop_last();
        assert forall|i: int| 0 <= i < init.len() implies match #[trigger] init[i] {
            AggregatorStep::Push { now, .. } => now + window <= u128::MAX,
            AggregatorStep::Take { .. } => true,
        } by {
            assert(init[i] == steps[i]);
        }
        lemma_arrived(init, window, key);
        assert(steps[steps.len() - 1] == steps.last());
        if let AggregatorStep::Push { key: k, part, now } = steps.last() {
            if k == key {
                assert(batches_after(steps, window)[key].parts =~= arrived(
                    steps,
                    window,
                    key,
                ).0);
            }
        }
    }
}

/// Over any run, a batch is handed out exactly when parts have arrived under its key
/// and a whole window has passed since the last: all of them, in order. After that the
/// key begins anew; as long as it is not handed out, nothing changes.
pub proof fn law_batch_is_what_arrived(
    steps: Seq<AggregatorStep>,
    window: nat,
    key: SessionKey,
    now: nat,
)
    requires
        times_fit(steps, window),
    ensures
        ({
            let batches = batches_after(steps, window);
            let (parts, last) = arrived(steps, window, key);
            &&& parts_due(batches, key, now) == (if parts.len() > 0 && now >= last + window {
                Some(parts)
            } else {
                None
            })
            &&& batches.contains_key(key) == (parts.len() > 0)
            &&& parts_due(batches, key, now) is Some ==> !taken(batches, key, now).contains_key(key)
            &&& parts_due(batches, key, now) is None ==> taken(batches, key, now) == batches
        }),
{
    lemma_arrived(steps, window, key);
}

/// Many parts follow one another in a prompt, with an empty line between them.
pub proof fn law_prompt_is_the_parts_in_order(
    parts: &[MessagePart],
    r: String,
    front: &[MessagePart],
    before: String,
)
    requires
        call_ensures(MessageAggregator::combine, (parts,), r),
        call_ensures(MessageAggregator::combine, (front,), before),
        parts@.len() > 0,
        front@ == parts@.drop_last(),
    ensures
        parts@.len() == 1 ==> r@ == parts@[0].text@,
        parts@.len() > 1 ==> r@ == before@ + "\n\n"@ + parts@.last().text@,
{
    let texts = part_texts(parts@);
    let first = part_texts(front@);
    let last = parts@.last().text@;
    assert(texts =~= first.push(last));
    text::law_joining_puts_the_separator_between(first, "\n\n"@, last);
    if parts@.len() == 1 {
        assert(texts =~= seq![last]);
    }
}

/// Every part puts the end of the window off, and is the last of its batch.
pub proof fn law_part_is_the_last_of_its_batch(
    batches: Map<SessionKey, Batch>,
    key: SessionKey,
    part: Seq<char>,
    now: nat,
    window: nat,
)
    requires
        now + window <= u128::MAX,
    ensures
        ({
            let after = pushed(batches, key, part, due_at(now, window));
            &&& after.contains_key(key)
            &&& after[key].deadline == now + window
            &&& batches.contains_key(key) ==> after[key].parts == batches[key].parts + seq![part]
            &&& !batches.contains_key(key) ==> after[key].parts == seq![part]
        }),
{
    let after = pushed(batches, key, part, due_at(now, window));
    if batches.contains_key(key) {
        assert(after[key].parts =~= batches[key].parts + seq![part]);
    } else {
        assert(after[key].parts =~= seq![part]);
    }
}

/// A batch is waited for until its window is over, and then it is ready.
pub proof fn law_batch_is_waited_for(
    aggregator: &MessageAggregator,
    key: &SessionKey,
    now: u128,
    r: Option<Duration>,
)
    requires
        call_ensures(MessageAggregator::wait_at, (aggregator, key, now), r),
    ensures
        r is Some <==> aggregator.batches().contains_key(*key),
        r is Some && aggregator.batches()[*key].deadline <= now ==> clock::nanos_of(r->0) == 0,
        r is Some && now < aggregator.batches()[*key].deadline <= 18_446_744_073_709_551_615
            * 1_000_000_000 ==> clock::nanos_of(r->0) + now == aggregator.batches()[*key].deadline,
        parts_due(aggregator.batches(), *key, now as nat) is Some <==> r is Some
            && aggregator.batches()[*key].deadline <= now,
        parts_due(aggregator.batches(), *key, now as nat) is Some ==> parts_due(
            aggregator.batches(),
            *key,
            now as nat,
        )->0 == aggregator.batches()[*key].parts,
{
}

/// What is done about a batch: it is handed over as one prompt when it is due, and waited
/// for before.
pub proof fn law_batch_is_handed_over_when_it_is_due(
    r: DrainStep,
    batches: Map<SessionKey, Batch>,
    key: SessionKey,
    now: nat,
    later: nat,
)
    requires
        step_is(r, batches, key, now, later),
    ensures
        !batches.contains_key(key) ==> r is Gone,
        batches.contains_key(key) && batches[key].deadline <= now ==> r is Ready && r->Ready_0@
            == text::join(batches[key].parts, "\n\n"@),
        batches.contains_key(key) && now < batches[key].deadline <= later ==> r is Retry,
        batches.contains_key(key) && now < batches[key].deadline && later < batches[key].deadline
            ==> r is Wait,
{
}

/// A part that arrives begins a batch or is the last of one, and puts its end off; other
/// batches stay as they are.
pub proof fn law_part_is_pushed(
    aggregator: &mut MessageAggregator,
    key: SessionKey,
    part: MessagePart,
    now: u128,
    r: bool,
    other: SessionKey,
)
    requires
        call_ensures(MessageAggregator::push_at, (aggregator, key, part, now), r),
        now + clock::nanos_of(old(aggregator).spec_window()) <= u128::MAX,
    ensures
        ({
            let before = old(aggregator).batches();
            let after = final(aggregator).batches();
            &&& r <==> !before.contains_key(key)
            &&& after.contains_key(key)
            &&& r ==> after[key].parts == seq![part.text@]
            &&& !r ==> after[key].parts == before[key].parts + seq![part.text@]
            &&& after[key].deadline == now + clock::nanos_of(old(aggregator).spec_window())
            &&& other != key ==> after.contains_key(other) == before.contains_key(other)
            &&& other != key && before.contains_key(other) ==> after[other] == before[other]
        }),
{
    law_part_is_the_last_of_its_batch(
        old(aggregator).batches(),
        key,
        part.text@,
        now as nat,
        clock::nanos_of(old(aggregator).spec_window()),
    );
}

/// A batch is taken when its window is over, all of it and for good, and not before.
pub proof fn law_batch_is_taken_when_it_is_due(
    aggregator: &mut MessageAggregator,
    key: &SessionKey,
    now: u128,
    r: Option<Vec<MessagePart>>,
    i: int,
)
    requires
        call_ensures(MessageAggregator::take_at, (aggregator, key, now), r),
    ensures
        ({
            let before = old(aggregator).batches();
            let after = final(aggregator).batches();
            let due = before.contains_key(*key) && before[*key].deadline <= now;
            &&& r is Some <==> due
            &&& due ==> !after.contains_key(*key) && r->0@.len() == before[*key].parts.len()
            &&& due && 0 <= i < r->0@.len() ==> r->0@[i].text@ == before[*key].parts[i]
            &&& !due ==> after == before
        }),
{
    if r is Some {
        let texts = part_texts(r->0@);
        assert(texts.len() == r->0@.len());
        if 0 <= i < r->0@.len() {
            assert(texts[i] == r->0@[i].text@);
        }
    }
}

/// A batch that is due is handed over as one prompt; one that is not is waited for, and
/// stays.
pub proof fn law_batch_is_drained(
    aggregator: &mut MessageAggregator,
    key: &SessionKey,
    now: u128,
    later: u128,
    r: DrainStep,
)
    requires
        call_ensures(MessageAggregator::drain_step_at, (aggregator, key, now, later), r),
    ensures
        ({
            let before = old(aggregator).batches();
            let after = final(aggregator).batches();
            let there = before.contains_key(*key);
            &&& !there ==> r is Gone && after == before
            &&& there && before[*key].deadline <= now ==> r is Ready && r->Ready_0@ == text::join(
                before[*key].parts,
                "\n\n"@,
            ) && !after.contains_key(*key)
            &&& there && now < before[*key].deadline ==> !(r is Ready) && !(r is Gone) && after
                == before
        }),
{
}

} // verus!
