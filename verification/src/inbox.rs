//! Messages on their way to a prompt, with the files that came with them.
use std::time::{Duration, Instant};
use vstd::prelude::*;
use vstd::string::*;

use crate::aggregator;
use crate::aggregator::{Batch, DrainStep, MessageAggregator, MessagePart};
use crate::clock;
use crate::queue;
use crate::queue::QueuedRequest;
use crate::session::SessionKey;
use crate::text;

verus! {

/// The files of a key, in the order in which they came.
pub open spec fn files_of(files: Seq<(SessionKey, Seq<char>)>, key: SessionKey) -> Seq<Seq<char>>
    decreases files.len(),
{
    if files.len() == 0 {
        Seq::empty()
    } else if files.last().0 == key {
        files_of(files.drop_last(), key).push(files.last().1)
    } else {
        files_of(files.drop_last(), key)
    }
}

/// The files of all keys but one, in the order in which they came.
pub open spec fn files_without(files: Seq<(SessionKey, Seq<char>)>, key: SessionKey) -> Seq<
    (SessionKey, Seq<char>),
>
    decreases files.len(),
{
    if files.len() == 0 {
        Seq::empty()
    } else if files.last().0 == key {
        files_without(files.drop_last(), key)
    } else {
        files_without(files.drop_last(), key).push(files.last())
    }
}

/// The files after another one has come, if one has.
pub open spec fn with_file(
    files: Seq<(SessionKey, Seq<char>)>,
    key: SessionKey,
    file: Option<Seq<char>>,
) -> Seq<(SessionKey, Seq<char>)> {
    match file {
        Some(file) => files.push((key, file)),
        None => files,
    }
}

/// The files after those of a batch have been handed out, if it is due.
pub open spec fn files_after(
    batches: Map<SessionKey, Batch>,
    files: Seq<(SessionKey, Seq<char>)>,
    key: SessionKey,
    now: nat,
) -> Seq<(SessionKey, Seq<char>)> {
    if aggregator::is_due(batches, key, now) {
        files_without(files, key)
    } else {
        files
    }
}

/// What to do next about a batch that is waited for.
#[derive(Debug)]
pub enum InboxStep {
    /// The batch is due: this is its prompt, with its files.
    Ready(QueuedRequest),
    /// The batch is due after this time.
    Wait(Duration),
    /// The batch became due just now.
    Retry,
    /// There is no batch.
    Gone,
}

/// Whether `r` is the step for the batch of a key: its prompt and its files where it is
/// due at `now`, else the time that is left at `later`.
pub open spec fn inbox_step_is(
    r: InboxStep,
    batches: Map<SessionKey, Batch>,
    files: Seq<(SessionKey, Seq<char>)>,
    key: SessionKey,
    now: nat,
    later: nat,
) -> bool {
    match aggregator::parts_due(batches, key, now) {
        Some(parts) => r matches InboxStep::Ready(request) && queue::request_of(request) == (
            aggregator::combined(parts),
            files_of(files, key),
        ),
        None => match aggregator::time_left(batches, key, later) {
            Some(left) => if left == 0 {
                r is Retry
            } else {
                r matches InboxStep::Wait(d) && clock::nanos_of(d) == left
            },
            None => r is Gone,
        },
    }
}

/// The files as plain values.
pub open spec fn file_texts(files: Seq<(SessionKey, String)>) -> Seq<(SessionKey, Seq<char>)> {
    Seq::new(files.len(), |i: int| (files[i].0, files[i].1@))
}

/// Whether two keys are the same.
fn same_key(a: SessionKey, b: SessionKey) -> (r: bool)
    ensures
        r == (a == b),
{
    a.0 == b.0 && match (a.1, b.1) {
        (Some(x), Some(y)) => x == y,
        (None, None) => true,
        _ => false,
    }
}

/// The messages that are gathered into prompts, and the files that came with them.
pub struct Inbox {
    aggregator: MessageAggregator,
    files: Vec<(SessionKey, String)>,
}

impl Inbox {
    /// The batches that are waited for.
    pub closed spec fn batches(&self) -> Map<SessionKey, Batch> {
        self.aggregator.batches()
    }

    /// The files that wait with their batches, in the order in which they came.
    pub closed spec fn files(&self) -> Seq<(SessionKey, Seq<char>)> {
        file_texts(self.files@)
    }

    /// The aggregation window.
    pub closed spec fn window(&self) -> Duration {
        self.aggregator.spec_window()
    }

    /// The moment from which all times count: when the inbox was made.
    pub closed spec fn origin(&self) -> Instant {
        self.aggregator.spec_origin()
    }

    /// An inbox that waits for `window` after each part.
    pub fn new(window: Duration) -> (r: Self)
        ensures
            r.batches() == (Map::<SessionKey, Batch>::empty()),
            r.files() == Seq::<(SessionKey, Seq<char>)>::empty(),
            r.window() == window,
    {
        let r = Inbox { aggregator: MessageAggregator::new(window), files: Vec::new() };
        assert(r.files() =~= Seq::<(SessionKey, Seq<char>)>::empty());
        r
    }

    fn add_file(&mut self, key: SessionKey, file: Option<String>)
        ensures
            final(self).files() == with_file(old(self).files(), key, text::text_of(file)),
            final(self).batches() == old(self).batches(),
            final(self).window() == old(self).window(),
            final(self).origin() == old(self).origin(),
    {
        if let Some(file) = file {
            let ghost t = file@;
            self.files.push((key, file));
            assert(self.files() =~= old(self).files().push((key, t)));
        }
    }

    /// A message part has come, with its file if it has one. Returns whether it begins a
    /// batch.
    pub fn push(&mut self, key: SessionKey, part: MessagePart, file: Option<String>) -> (r: bool)
        ensures
            r == !old(self).batches().contains_key(key),
            exists|now: nat|
                final(self).batches() == #[trigger] aggregator::pushed(
                    old(self).batches(),
                    key,
                    part.text@,
                    aggregator::due_at(now, clock::nanos_of(old(self).window())),
                ),
            final(self).files() == with_file(old(self).files(), key, text::text_of(file)),
            final(self).window() == old(self).window(),
            final(self).origin() == old(self).origin(),
    {
        self.add_file(key, file);
        self.aggregator.push(key, part)
    }

    /// A message part has come `now` nanoseconds after the inbox was made.
    pub fn push_at(
        &mut self,
        key: SessionKey,
        part: MessagePart,
        file: Option<String>,
        now: u128,
    ) -> (r: bool)
        ensures
            r == !old(self).batches().contains_key(key),
            final(self).batches() == aggregator::pushed(
                old(self).batches(),
                key,
                part.text@,
                aggregator::due_at(now as nat, clock::nanos_of(old(self).window())),
            ),
            final(self).files() == with_file(old(self).files(), key, text::text_of(file)),
            final(self).window() == old(self).window(),
            final(self).origin() == old(self).origin(),
    {
        self.add_file(key, file);
        self.aggregator.push_at(key, part, now)
    }

    /// Take out the files of a key.
    fn take_files(&mut self, key: SessionKey) -> (r: Vec<String>)
        ensures
            text::strings(r@) == files_of(old(self).files(), key),
            final(self).files() == files_without(old(self).files(), key),
            final(self).batches() == old(self).batches(),
            final(self).window() == old(self).window(),
            final(self).origin() == old(self).origin(),
    {
        let ghost all = self.files();
        let n: usize = self.files.len();
        let mut mine: Vec<String> = Vec::new();
        let mut others: Vec<(SessionKey, String)> = Vec::new();
        let mut i: usize = 0;
        assert(text::strings(mine@) =~= files_of(all.take(0), key));
        assert(file_texts(others@) =~= files_without(all.take(0), key));
        while i < n
            invariant
                i <= n,
                n == self.files@.len(),
                all == file_texts(self.files@),
                *self == *old(self),
                text::strings(mine@) == files_of(all.take(i as int), key),
                file_texts(others@) == files_without(all.take(i as int), key),
            decreases n - i,
        {
            let ghost before = text::strings(mine@);
            let ghost rest = file_texts(others@);
            let owner: SessionKey = self.files[i].0;
            let file = self.files[i].1.clone();
            let ghost t = file@;
            proof {
                let next = all.take(i + 1);
                assert(next.drop_last() =~= all.take(i as int));
                assert(next.last() == (owner, t));
            }
            if same_key(owner, key) {
                mine.push(file);
                assert(text::strings(mine@) =~= before.push(t));
            } else {
                others.push((owner, file));
                assert(file_texts(others@) =~= rest.push((owner, t)));
            }
            i += 1;
        }
        assert(all.take(n as int) =~= all);
        self.files = others;
        mine
    }

    /// The step that a step of the aggregator becomes.
    fn with_files(&mut self, key: SessionKey, step: DrainStep) -> (r: InboxStep)
        ensures
            match step {
                DrainStep::Ready(prompt) => r matches InboxStep::Ready(request)
                    && queue::request_of(request) == (prompt@, files_of(old(self).files(), key)),
                DrainStep::Wait(d) => r == InboxStep::Wait(d),
                DrainStep::Retry => r is Retry,
                DrainStep::Gone => r is Gone,
            },
            final(self).files() == (if step is Ready {
                files_without(old(self).files(), key)
            } else {
                old(self).files()
            }),
            final(self).batches() == old(self).batches(),
            final(self).window() == old(self).window(),
            final(self).origin() == old(self).origin(),
    {
        match step {
            DrainStep::Ready(text) => {
                let files = self.take_files(key);
                InboxStep::Ready(QueuedRequest { text, files })
            },
            DrainStep::Wait(d) => InboxStep::Wait(d),
            DrainStep::Retry => InboxStep::Retry,
            DrainStep::Gone => InboxStep::Gone,
        }
    }

    /// What to do next about the batch of a key.
    pub fn drain_step(&mut self, key: &SessionKey) -> (r: InboxStep)
        ensures
            exists|now: nat, later: nat|
                final(self).batches() == aggregator::taken(old(self).batches(), *key, now)
                    && final(self).files() == files_after(
                    old(self).batches(),
                    old(self).files(),
                    *key,
                    now,
                ) && #[trigger] inbox_step_is(
                    r,
                    old(self).batches(),
                    old(self).files(),
                    *key,
                    now,
                    later,
                ),
            final(self).window() == old(self).window(),
            final(self).origin() == old(self).origin(),
    {
        let step = self.aggregator.drain_step(key);
        let ghost (now, later) = choose|now: nat, later: nat|
            self.batches() == aggregator::taken(old(self).batches(), *key, now)
                && #[trigger] aggregator::step_is(step, old(self).batches(), *key, now, later);
        let r = self.with_files(*key, step);
        assert(inbox_step_is(r, old(self).batches(), old(self).files(), *key, now, later));
        r
    }

    /// What to do next about the batch of a key: it is taken if it is due at `now`,
    /// else it is waited for from `later` on.
    pub fn drain_step_at(&mut self, key: &SessionKey, now: u128, later: u128) -> (r: InboxStep)
        ensures
            final(self).batches() == aggregator::taken(old(self).batches(), *key, now as nat),
            final(self).files() == files_after(
                old(self).batches(),
                old(self).files(),
                *key,
                now as nat,
            ),
            inbox_step_is(
                r,
                old(self).batches(),
                old(self).files(),
                *key,
                now as nat,
                later as nat,
            ),
            final(self).window() == old(self).window(),
            final(self).origin() == old(self).origin(),
    {
        let step = self.aggregator.drain_step_at(key, now, later);
        self.with_files(*key, step)
    }
}

/// What happens to an inbox.
pub enum InboxEvent {
    Push { key: SessionKey, part: Seq<char>, file: Option<Seq<char>>, now: nat },
    Drain { key: SessionKey, now: nat },
}

/// The batches and the files after a run that began without any.
pub open spec fn inbox_after(events: Seq<InboxEvent>, window: nat) -> (
    Map<SessionKey, Batch>,
    Seq<(SessionKey, Seq<char>)>,
)
    decreases events.len(),
{
    if events.len() == 0 {
        (Map::empty(), Seq::empty())
    } else {
        let (batches, files) = inbox_after(events.drop_last(), window);
        match events.last() {
            InboxEvent::Push { key, part, file, now } => (
                aggregator::pushed(batches, key, part, aggregator::due_at(now, window)),
                with_file(files, key, file),
            ),
            InboxEvent::Drain { key, now } => (
                aggregator::taken(batches, key, now),
                files_after(batches, files, key, now),
            ),
        }
    }
}

/// The files that came under a key since the beginning, or since a batch was last
/// handed out under it.
pub open spec fn files_since(events: Seq<InboxEvent>, window: nat, key: SessionKey) -> Seq<
    Seq<char>,
>
    decreases events.len(),
{
    if events.len() == 0 {
        Seq::empty()
    } else {
        let before = files_since(events.drop_last(), window, key);
        match events.last() {
            InboxEvent::Push { key: k, file: Some(file), .. } if k == key => before.push(file),
            InboxEvent::Drain { key: k, now } if k == key && aggregator::is_due(
                inbox_after(events.drop_last(), window).0,
                key,
                now,
            ) => Seq::empty(),
            _ => before,
        }
    }
}

proof fn lemma_files_apart(files: Seq<(SessionKey, Seq<char>)>, key: SessionKey, other: SessionKey)
    ensures
        files_of(files_without(files, key), other) == (if other == key {
            Seq::empty()
        } else {
            files_of(files, other)
        }),
    decreases files.len(),
{
    if files.len() > 0 {
        let init = files.drop_last();
        lemma_files_apart(init, key, other);
        if files.last().0 != key {
            let kept = files_without(init, key).push(files.last());
            assert(kept.drop_last() =~= files_without(init, key));
        }
    }
}

/// Over any run, the files that wait under a key, and are handed out with its next batch,
/// are those that came under it since its last batch, in the order in which they came.
pub proof fn law_files_come_with_their_batch(
    events: Seq<InboxEvent>,
    window: nat,
    key: SessionKey,
)
    ensures
        files_of(inbox_after(events, window).1, key) == files_since(events, window, key),
    decreases events.len(),
{
    if events.len() > 0 {
        let init = events.drop_last();
        law_files_come_with_their_batch(init, window, key);
        let files = inbox_after(init, window).1;
        match events.last() {
            InboxEvent::Push { key: k, file, .. } => {
                if let Some(f) = file {
                    assert(files.push((k, f)).drop_last() =~= files);
                }
            },
            InboxEvent::Drain { key: k, .. } => {
                lemma_files_apart(files, k, key);
            },
        }
    }
}

/// No file is without a batch: where no batch waits under a key, no file does.
pub proof fn law_no_file_is_left_behind(events: Seq<InboxEvent>, window: nat, key: SessionKey)
    ensures
        !inbox_after(events, window).0.contains_key(key) ==> files_of(
            inbox_after(events, window).1,
            key,
        ).len() == 0,
    decreases events.len(),
{
    if events.len() > 0 {
        let init = events.drop_last();
        law_no_file_is_left_behind(init, window, key);
        let files = inbox_after(init, window).1;
        match events.last() {
            InboxEvent::Push { key: k, file, .. } => {
                if let Some(f) = file {
                    assert(files.push((k, f)).drop_last() =~= files);
                }
            },
            InboxEvent::Drain { key: k, .. } => {
                lemma_files_apart(files, k, key);
            },
        }
    }
}

/// A file waits under its own key, behind those that came before it; the files of one key
/// are handed out without those of the others, which stay as they are.
pub proof fn law_files_wait_under_their_own_key(
    files: Seq<(SessionKey, Seq<char>)>,
    key: SessionKey,
    other: SessionKey,
    file: Seq<char>,
)
    ensures
        with_file(files, key, None) == files,
        files_of(with_file(files, key, Some(file)), key) == files_of(files, key) + seq![file],
        other != key ==> files_of(with_file(files, key, Some(file)), other) == files_of(
            files,
            other,
        ),
        files_of(files_without(files, key), key).len() == 0,
        other != key ==> files_of(files_without(files, key), other) == files_of(files, other),
        files_of(Seq::empty(), key).len() == 0,
{
    let more = files.push((key, file));
    assert(more.drop_last() =~= files);
    assert(files_of(files, key).push(file) =~= files_of(files, key) + seq![file]);
    lemma_files_apart(files, key, key);
    lemma_files_apart(files, key, other);
}

/// A batch that is due becomes one prompt with the files of its key; one that is not stays.
pub proof fn law_batch_is_handed_over_with_its_files(
    r: InboxStep,
    batches: Map<SessionKey, Batch>,
    files: Seq<(SessionKey, Seq<char>)>,
    key: SessionKey,
    now: nat,
    later: nat,
)
    requires
        inbox_step_is(r, batches, files, key, now, later),
    ensures
        !batches.contains_key(key) ==> r is Gone,
        batches.contains_key(key) && batches[key].deadline <= now ==> r is Ready
            && r->Ready_0.text@ == text::join(batches[key].parts, "\n\n"@) && text::strings(
            r->Ready_0.files@,
        ) == files_of(files, key) && files_of(
            files_after(batches, files, key, now),
            key,
        ).len() == 0,
        batches.contains_key(key) && now < batches[key].deadline ==> !(r is Ready) && files_after(
            batches,
            files,
            key,
            now,
        ) == files,
{
    lemma_files_apart(files, key, key);
}

/// A message that comes waits in its batch, with its file where it has one.
pub proof fn law_message_waits_with_its_file(
    inbox: &mut Inbox,
    key: SessionKey,
    part: MessagePart,
    file: Option<String>,
    now: u128,
    r: bool,
)
    requires
        call_ensures(Inbox::push_at, (inbox, key, part, file, now), r),
    ensures
        ({
            let before = old(inbox).batches();
            let after = final(inbox).batches();
            &&& r <==> !before.contains_key(key)
            &&& after.contains_key(key)
            &&& r ==> after[key].parts == seq![part.text@]
            &&& !r ==> after[key].parts == before[key].parts + seq![part.text@]
            &&& file is Some ==> files_of(final(inbox).files(), key) == files_of(
                old(inbox).files(),
                key,
            ) + seq![file->0@]
            &&& file is None ==> final(inbox).files() == old(inbox).files()
        }),
{
    let before = old(inbox).batches();
    let after = final(inbox).batches();
    if before.contains_key(key) {
        assert(after[key].parts =~= before[key].parts + seq![part.text@]);
    } else {
        assert(after[key].parts =~= seq![part.text@]);
    }
    if file is Some {
        law_files_wait_under_their_own_key(old(inbox).files(), key, key, file->0@);
    }
}

/// A batch that is due leaves with its prompt and all its files; one that is not stays with
/// them.
pub proof fn law_inbox_is_drained(
    inbox: &mut Inbox,
    key: &SessionKey,
    now: u128,
    later: u128,
    r: InboxStep,
)
    requires
        call_ensures(Inbox::drain_step_at, (inbox, key, now, later), r),
    ensures
        ({
            let before = old(inbox).batches();
            let after = final(inbox).batches();
            let there = before.contains_key(*key);
            &&& !there ==> r is Gone
            &&& there && before[*key].deadline <= now ==> r is Ready && r->Ready_0.text@
                == text::join(before[*key].parts, "\n\n"@) && text::strings(r->Ready_0.files@)
                == files_of(old(inbox).files(), *key) && !after.contains_key(*key) && files_of(
                final(inbox).files(),
                *key,
            ).len() == 0
            &&& there && now < before[*key].deadline ==> !(r is Ready) && after == before
                && final(inbox).files() == old(inbox).files()
        }),
{
    lemma_files_apart(old(inbox).files(), *key, *key);
}

} // verus!
