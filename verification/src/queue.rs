//! Requests that wait for their session: one runs at a time, the others in order
//! after it.
use dashmap::DashMap;
use std::collections::VecDeque;
use vstd::prelude::*;
use vstd::string::*;

use crate::maps;
use crate::session::SessionKey;
use crate::text;

verus! {

/// A queued user request waiting to be processed for a session.
#[derive(Debug)]
pub struct QueuedRequest {
    pub text: String,
    /// The files that the request is about.
    pub files: Vec<String>,
}

/// A request as plain values: its text and its files.
pub open spec fn request_of(r: QueuedRequest) -> (Seq<char>, Seq<Seq<char>>) {
    (r.text@, text::strings(r.files@))
}

/// Per-session query queue state.
#[derive(Debug)]
pub struct SessionQueue {
    pub running: bool,
    pub pending: VecDeque<QueuedRequest>,
}

/// A queue as plain values: whether someone works it off, and what waits in it.
#[verifier::ext_equal]
pub struct Queue {
    pub running: bool,
    pub pending: Seq<(Seq<char>, Seq<Seq<char>>)>,
}

impl View for SessionQueue {
    type V = Queue;

    open spec fn view(&self) -> Queue {
        Queue {
            running: self.running,
            pending: Seq::new(self.pending@.len(), |i: int| request_of(self.pending@[i])),
        }
    }
}

/// The queue of a session; an empty one that nobody works off where there is none.
pub open spec fn queue_at(queues: Map<SessionKey, Queue>, key: SessionKey) -> Queue {
    if queues.contains_key(key) {
        queues[key]
    } else {
        Queue { running: false, pending: Seq::empty() }
    }
}

/// The queues after a request has come: it waits at the end of its queue, and someone
/// works the queue off.
pub open spec fn enqueued(
    queues: Map<SessionKey, Queue>,
    key: SessionKey,
    request: (Seq<char>, Seq<Seq<char>>),
) -> Map<SessionKey, Queue> {
    queues.insert(
        key,
        Queue { running: true, pending: queue_at(queues, key).pending.push(request) },
    )
}

/// The queues after the next request has been taken: a queue in which nothing waits
/// is given up.
pub open spec fn advanced(queues: Map<SessionKey, Queue>, key: SessionKey) -> Map<
    SessionKey,
    Queue,
> {
    let queue = queue_at(queues, key);
    if queue.pending.len() > 0 {
        queues.insert(key, Queue { running: queue.running, pending: queue.pending.skip(1) })
    } else {
        queues.remove(key)
    }
}

/// The next request of a queue.
pub open spec fn next_request(queues: Map<SessionKey, Queue>, key: SessionKey) -> Option<
    (Seq<char>, Seq<Seq<char>>),
> {
    let queue = queue_at(queues, key);
    if queue.pending.len() > 0 {
        Some(queue.pending[0])
    } else {
        None
    }
}

/// What to do about a request that has come.
#[derive(Debug, Clone, Copy, PartialEq, Eq, Structural)]
pub enum Enqueued {
    /// Start to work its queue off.
    StartWorker,
    /// It waits at this place of its queue.
    Queued(usize),
}

/// Registry of per-session query queues.
pub struct QueryRegistry {
    queues: DashMap<SessionKey, SessionQueue>,
}

impl QueryRegistry {
    /// The queues of the sessions that have requests.
    pub closed spec fn queues(&self) -> Map<SessionKey, Queue> {
        maps::queues(self.queues).map_values(|q: SessionQueue| q@)
    }

    /// A registry without requests.
    pub fn new() -> (r: Self)
        ensures
            r.queues() == (Map::<SessionKey, Queue>::empty()),
    {
        let r = QueryRegistry { queues: maps::new_queues() };
        assert(r.queues() =~= (Map::<SessionKey, Queue>::empty()));
        r
    }

    /// Enqueue a user query for a session.
    pub fn enqueue(&mut self, key: SessionKey, request: QueuedRequest) -> (r: Enqueued)
        ensures
            final(self).queues() == enqueued(old(self).queues(), key, request_of(request)),
            r == (if queue_at(old(self).queues(), key).running {
                Enqueued::Queued(
                    (queue_at(old(self).queues(), key).pending.len() + 1) as usize,
                )
            } else {
                Enqueued::StartWorker
            }),
            queue_at(old(self).queues(), key).pending.len() < usize::MAX,
    {
        let ghost before = queue_at(self.queues(), key);
        let ghost item = request_of(request);
        let mut queue = match maps::remove_queue(&mut self.queues, &key) {
            Some(queue) => queue,
            None => SessionQueue { running: false, pending: VecDeque::new() },
        };
        assert(queue@ =~= before);
        queue.pending.push_back(request);
        let position: usize = queue.pending.len();
        let running = queue.running;
        queue.running = true;
        assert(queue@ =~= (Queue { running: true, pending: before.pending.push(item) }));
        assert(queue@.pending.len() == queue.pending@.len());
        let _none = maps::insert_queue(&mut self.queues, key, queue);
        assert(self.queues() =~= enqueued(old(self).queues(), key, item));
        if running {
            Enqueued::Queued(position)
        } else {
            Enqueued::StartWorker
        }
    }

    /// The next request to process for a session; none where nothing waits, and then
    /// the work is over.
    pub fn next(&mut self, key: &SessionKey) -> (r: Option<QueuedRequest>)
        ensures
            final(self).queues() == advanced(old(self).queues(), *key),
            match r {
                Some(request) => next_request(old(self).queues(), *key) == Some(
                    request_of(request),
                ),
                None => next_request(old(self).queues(), *key) is None,
            },
    {
        let ghost before = queue_at(self.queues(), *key);
        match maps::remove_queue(&mut self.queues, key) {
            Some(mut queue) => {
                assert(queue@ =~= before);
                match queue.pending.pop_front() {
                    Some(request) => {
                        assert(before.pending[0] == request_of(request));
                        assert(queue@ =~= (Queue {
                            running: before.running,
                            pending: before.pending.skip(1),
                        }));
                        let _none = maps::insert_queue(&mut self.queues, *key, queue);
                        assert(self.queues() =~= advanced(old(self).queues(), *key));
                        Some(request)
                    },
                    None => {
                        assert(before.pending.len() == 0);
                        assert(self.queues() =~= advanced(old(self).queues(), *key));
                        None
                    },
                }
            },
            None => {
                assert(self.queues() =~= advanced(old(self).queues(), *key));
                None
            },
        }
    }
}

/// What the user is told of a request that waits at a place.
pub open spec fn notice_of(position: nat) -> Seq<char> {
    if position == 1 {
        "⏳ Another request is running. Yours is queued next."@
    } else {
        "⏳ Request queued (position #"@ + text::decimal(position) + ")."@
    }
}

/// What the user is told of a request that waits.
pub fn queue_notice(position: usize) -> (r: String)
    ensures
        r@ == notice_of(position as nat),
{
    if position == 1 {
        "⏳ Another request is running. Yours is queued next.".to_owned()
    } else {
        let mut r = "⏳ Request queued (position #".to_owned();
        text::push_decimal(&mut r, position as u128);
        r.append(").");
        r
    }
}

/// While someone works a queue off, no request makes another one start.
pub proof fn law_one_worker_per_session(
    queues: Map<SessionKey, Queue>,
    key: SessionKey,
    first: (Seq<char>, Seq<Seq<char>>),
)
    ensures
        queue_at(enqueued(queues, key, first), key).running,
        next_request(queues, key) is Some && queue_at(queues, key).running ==> queue_at(
            advanced(queues, key),
            key,
        ).running,
        next_request(queues, key) is None ==> !queue_at(advanced(queues, key), key).running,
{
}

/// The requests of a session are processed in the order in which they came.
pub proof fn law_first_come_first_served(
    queues: Map<SessionKey, Queue>,
    key: SessionKey,
    request: (Seq<char>, Seq<Seq<char>>),
    k: int,
)
    requires
        0 <= k < queue_at(queues, key).pending.len(),
    ensures
        next_request(enqueued(queues, key, request), key) == next_request(queues, key),
        queue_at(enqueued(queues, key, request), key).pending[k] == queue_at(
            queues,
            key,
        ).pending[k],
        queue_at(enqueued(queues, key, request), key).pending.last() == request,
        k > 0 ==> queue_at(advanced(queues, key), key).pending[k - 1] == queue_at(
            queues,
            key,
        ).pending[k],
{
}

/// A request that comes when nothing waits is the next one.
pub proof fn law_request_is_not_lost(
    queues: Map<SessionKey, Queue>,
    key: SessionKey,
    request: (Seq<char>, Seq<Seq<char>>),
)
    requires
        next_request(queues, key) is None,
    ensures
        next_request(enqueued(queues, key, request), key) == Some(request),
{
}

/// The queues of other sessions are left alone.
pub proof fn law_queues_are_isolated(
    queues: Map<SessionKey, Queue>,
    key: SessionKey,
    other: SessionKey,
    request: (Seq<char>, Seq<Seq<char>>),
)
    requires
        key != other,
    ensures
        queue_at(enqueued(queues, key, request), other) == queue_at(queues, other),
        queue_at(advanced(queues, key), other) == queue_at(queues, other),
{
}

/// A step of a run: a request comes, or the next one is asked for.
pub enum QueueStep {
    Enqueue(SessionKey, (Seq<char>, Seq<Seq<char>>)),
    Next(SessionKey),
}

/// The queues after a run that began without any.
pub open spec fn queues_after(steps: Seq<QueueStep>) -> Map<SessionKey, Queue>
    decreases steps.len(),
{
    if steps.len() == 0 {
        Map::empty()
    } else {
        let queues = queues_after(steps.drop_last());
        match steps.last() {
            QueueStep::Enqueue(key, request) => enqueued(queues, key, request),
            QueueStep::Next(key) => advanced(queues, key),
        }
    }
}

/// The requests of a session that came in a run.
pub open spec fn came_in(steps: Seq<QueueStep>, key: SessionKey) -> Seq<
    (Seq<char>, Seq<Seq<char>>),
>
    decreases steps.len(),
{
    if steps.len() == 0 {
        Seq::empty()
    } else {
        let before = came_in(steps.drop_last(), key);
        match steps.last() {
            QueueStep::Enqueue(k, request) if k == key => before.push(request),
            _ => before,
        }
    }
}

/// The requests of a session that were handed out in a run.
pub open spec fn handed_out(steps: Seq<QueueStep>, key: SessionKey) -> Seq<
    (Seq<char>, Seq<Seq<char>>),
>
    decreases steps.len(),
{
    if steps.len() == 0 {
        Seq::empty()
    } else {
        let before = handed_out(steps.drop_last(), key);
        match steps.last() {
            QueueStep::Next(k) if k == key => match next_request(
                queues_after(steps.drop_last()),
                key,
            ) {
                Some(request) => before.push(request),
                None => before,
            },
            _ => before,
        }
    }
}

/// Over any run, the requests of a session that were handed out and then those that
/// wait are the ones that came: each is handed out once, in the order in which it came.
pub proof fn law_each_request_is_handed_out_once_in_order(steps: Seq<QueueStep>, key: SessionKey)
    ensures
        handed_out(steps, key) + queue_at(queues_after(steps), key).pending == came_in(steps, key),
    decreases steps.len(),
{
    if steps.len() == 0 {
        assert(handed_out(steps, key) + queue_at(queues_after(steps), key).pending =~= came_in(
            steps,
            key,
        ));
    } else {
        let init = steps.drop_last();
        law_each_request_is_handed_out_once_in_order(init, key);
        assert(handed_out(steps, key) + queue_at(queues_after(steps), key).pending =~= came_in(
            steps,
            key,
        ));
    }
}

/// How many workers process the requests of a session after a run: one starts with a
/// request that finds none, and one ends when nothing waits.
pub open spec fn workers(steps: Seq<QueueStep>, key: SessionKey) -> int
    decreases steps.len(),
{
    if steps.len() == 0 {
        0
    } else {
        let init = steps.drop_last();
        let queues = queues_after(init);
        workers(init, key) + match steps.last() {
            QueueStep::Enqueue(k, _) if k == key && !queue_at(queues, key).running => 1int,
            QueueStep::Next(k) if k == key && next_request(queues, key) is None => -1int,
            _ => 0int,
        }
    }
}

/// Whether only workers ask for the next request.
pub open spec fn is_orderly(steps: Seq<QueueStep>) -> bool
    decreases steps.len(),
{
    steps.len() == 0 || {
        &&& is_orderly(steps.drop_last())
        &&& steps.last() matches QueueStep::Next(key) ==> workers(steps.drop_last(), key) > 0
    }
}

/// Over any run in which only workers ask, a session never has more than one, and it
/// has one as long as a request waits.
pub proof fn law_never_more_than_one_worker(steps: Seq<QueueStep>, key: SessionKey)
    requires
        is_orderly(steps),
    ensures
        workers(steps, key) == (if queue_at(queues_after(steps), key).running {
            1int
        } else {
            0
        }),
        queue_at(queues_after(steps), key).pending.len() > 0 ==> workers(steps, key) == 1,
    decreases steps.len(),
{
    if steps.len() > 0 {
        law_never_more_than_one_worker(steps.drop_last(), key);
    }
}

/// A run in which the next request of a session is then asked for `n` times.
pub open spec fn then_asked(steps: Seq<QueueStep>, key: SessionKey, n: nat) -> Seq<QueueStep>
    decreases n,
{
    if n == 0 {
        steps
    } else {
        then_asked(steps, key, (n - 1) as nat).push(QueueStep::Next(key))
    }
}

proof fn lemma_asked(steps: Seq<QueueStep>, key: SessionKey, n: nat)
    requires
        n <= queue_at(queues_after(steps), key).pending.len(),
    ensures
        queue_at(queues_after(then_asked(steps, key, n)), key).pending == queue_at(
            queues_after(steps),
            key,
        ).pending.skip(n as int),
        came_in(then_asked(steps, key, n), key) == came_in(steps, key),
    decreases n,
{
    let waiting = queue_at(queues_after(steps), key).pending;
    if n == 0 {
        assert(waiting.skip(0) =~= waiting);
    } else {
        let m = (n - 1) as nat;
        let before = then_asked(steps, key, m);
        lemma_asked(steps, key, m);
        assert(then_asked(steps, key, n).drop_last() =~= before);
        assert(waiting.skip(m as int).skip(1) =~= waiting.skip(n as int));
    }
}

/// A worker that asks as often as requests wait has handed out all that came, and is
/// then told that nothing is left.
pub proof fn law_queue_is_worked_off(steps: Seq<QueueStep>, key: SessionKey)
    ensures
        ({
            let n = queue_at(queues_after(steps), key).pending.len();
            let done = then_asked(steps, key, n);
            &&& handed_out(done, key) == came_in(steps, key)
            &&& next_request(queues_after(done), key) is None
        }),
{
    let n = queue_at(queues_after(steps), key).pending.len();
    let done = then_asked(steps, key, n);
    lemma_asked(steps, key, n);
    law_each_request_is_handed_out_once_in_order(done, key);
    assert(handed_out(done, key) + queue_at(queues_after(done), key).pending =~= handed_out(
        done,
        key,
    ));
}

/// A request waits behind all that wait already, and the first of them is the next.
pub proof fn law_request_waits_at_the_end(
    queues: Map<SessionKey, Queue>,
    key: SessionKey,
    request: (Seq<char>, Seq<Seq<char>>),
    queue: Queue,
)
    requires
        queues.contains_key(key),
        queues[key] == queue,
    ensures
        enqueued(queues, key, request).contains_key(key),
        enqueued(queues, key, request)[key] == (Queue {
            running: true,
            pending: queue.pending + seq![request],
        }),
        queue.pending.len() > 0 ==> next_request(queues, key) == Some(queue.pending.first())
            && advanced(queues, key)[key] == (Queue {
            running: queue.running,
            pending: queue.pending.drop_first(),
        }) && advanced(queues, key).contains_key(key),
        queue.pending.len() == 0 ==> next_request(queues, key) is None && !advanced(
            queues,
            key,
        ).contains_key(key),
{
    assert(queue.pending.push(request) =~= queue.pending + seq![request]);
    assert(queue.pending.skip(1) =~= queue.pending.drop_first());
}

/// A user is told at which place a request waits.
pub proof fn law_place_is_told(position: usize, r: String)
    requires
        call_ensures(queue_notice, (position,), r),
    ensures
        position == 1 ==> r@ == "⏳ Another request is running. Yours is queued next."@,
        position != 1 ==> r@ == "⏳ Request queued (position #"@ + text::decimal(position as nat)
            + ")."@,
{
}

/// A request waits at the end of its queue, and is told its place where another one runs;
/// the queues of other sessions stay as they are.
pub proof fn law_request_is_enqueued(
    registry: &mut QueryRegistry,
    key: SessionKey,
    request: QueuedRequest,
    r: Enqueued,
    other: SessionKey,
)
    requires
        call_ensures(QueryRegistry::enqueue, (registry, key, request), r),
    ensures
        ({
            let before = old(registry).queues();
            let after = final(registry).queues();
            let item = (request.text@, text::strings(request.files@));
            let waiting = if before.contains_key(key) { before[key].pending } else { Seq::empty() };
            let runs = before.contains_key(key) && before[key].running;
            &&& after.contains_key(key)
            &&& after[key].running
            &&& after[key].pending == waiting + seq![item]
            &&& runs ==> r is Queued && r->Queued_0 == waiting.len() + 1
            &&& !runs ==> r is StartWorker
            &&& other != key ==> after.contains_key(other) == before.contains_key(other)
            &&& other != key && before.contains_key(other) ==> after[other] == before[other]
        }),
{
    let before = old(registry).queues();
    let item = (request.text@, text::strings(request.files@));
    let waiting = queue_at(before, key).pending;
    assert(waiting.push(item) =~= waiting + seq![item]);
}

/// The next request is the first that waits, and leaves its queue; where none waits, the
/// queue is given up.
pub proof fn law_next_request_is_the_first(
    registry: &mut QueryRegistry,
    key: &SessionKey,
    r: Option<QueuedRequest>,
    other: SessionKey,
)
    requires
        call_ensures(QueryRegistry::next, (registry, key), r),
    ensures
        ({
            let before = old(registry).queues();
            let after = final(registry).queues();
            let waits = before.contains_key(*key) && before[*key].pending.len() > 0;
            &&& r is Some <==> waits
            &&& waits ==> r->0.text@ == before[*key].pending[0].0 && text::strings(r->0.files@)
                == before[*key].pending[0].1
            &&& waits ==> after.contains_key(*key) && after[*key].running == before[*key].running
                && after[*key].pending == before[*key].pending.drop_first()
            &&& !waits ==> !after.contains_key(*key)
            &&& other != *key ==> after.contains_key(other) == before.contains_key(other)
            &&& other != *key && before.contains_key(other) ==> after[other] == before[other]
        }),
{
    let before = old(registry).queues();
    if before.contains_key(*key) && before[*key].pending.len() > 0 {
        assert(before[*key].pending.skip(1) =~= before[*key].pending.drop_first());
    }
}

} // verus!
