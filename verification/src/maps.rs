//! The outside crate's concurrent maps, as the library uses them.
//!
//! `DashMap` is a hash map with locks inside. Each function here has the map for
//! itself while it runs and keeps no reference into it, so what is claimed is what a
//! plain map does.
use dashmap::DashMap;
use std::collections::VecDeque;
use tokio_util::sync::CancellationToken;
use vstd::prelude::*;

use crate::aggregator::AggregationState;
use crate::queue::SessionQueue;
use crate::session::SessionKey;

verus! {

/// `dashmap::DashMap`, a map from keys to values.
#[verifier::external_type_specification]
#[verifier::external_body]
#[verifier::reject_recursive_types(K)]
#[verifier::reject_recursive_types(V)]
#[verifier::reject_recursive_types(S)]
pub struct ExDashMap<K, V, S>(DashMap<K, V, S>);

/// What a map of message batches holds.
pub uninterp spec fn pending_batches(m: DashMap<SessionKey, AggregationState>) -> Map<
    SessionKey,
    AggregationState,
>;

/// `DashMap::new` makes a map that holds nothing.
#[verifier::external_body]
pub(crate) fn new_batches() -> (r: DashMap<SessionKey, AggregationState>)
    ensures
        pending_batches(r) == (Map::<SessionKey, AggregationState>::empty()),
{
    DashMap::new()
}

/// `DashMap::insert` puts a value under a key and returns the one that it replaces.
#[verifier::external_body]
pub(crate) fn insert_batch(
    m: &mut DashMap<SessionKey, AggregationState>,
    key: SessionKey,
    value: AggregationState,
) -> (r: Option<AggregationState>)
    ensures
        pending_batches(*final(m)) == pending_batches(*old(m)).insert(key, value),
        r == pending_batches(*old(m)).get(key),
{
    m.insert(key, value)
}

/// `DashMap::remove` takes out what stands under a key and returns it.
#[verifier::external_body]
pub(crate) fn remove_batch(
    m: &mut DashMap<SessionKey, AggregationState>,
    key: &SessionKey,
) -> (r: Option<AggregationState>)
    ensures
        pending_batches(*final(m)) == pending_batches(*old(m)).remove(*key),
        r == pending_batches(*old(m)).get(*key),
{
    m.remove(key).map(|entry| entry.1)
}

/// `DashMap::get` returns what stands under a key; here its deadline.
#[verifier::external_body]
pub(crate) fn batch_deadline(
    m: &DashMap<SessionKey, AggregationState>,
    key: &SessionKey,
) -> (r: Option<u128>)
    ensures
        r is Some == pending_batches(*m).contains_key(*key),
        r is Some ==> r == Some(pending_batches(*m)[*key].deadline),
{
    m.get(key).map(|state| state.deadline)
}

/// What a map of numbers holds.
pub uninterp spec fn numbers(m: DashMap<SessionKey, usize>) -> Map<SessionKey, usize>;

/// `DashMap::new` makes a map that holds nothing.
#[verifier::external_body]
pub(crate) fn new_numbers() -> (r: DashMap<SessionKey, usize>)
    ensures
        numbers(r) == (Map::<SessionKey, usize>::empty()),
{
    DashMap::new()
}

/// `DashMap::get` returns what stands under a key.
#[verifier::external_body]
pub(crate) fn number_at(m: &DashMap<SessionKey, usize>, key: &SessionKey) -> (r: Option<usize>)
    ensures
        r == numbers(*m).get(*key),
{
    m.get(key).map(|n| *n)
}

/// `DashMap::contains_key` tells whether anything stands under a key.
#[verifier::external_body]
pub(crate) fn has_number(m: &DashMap<SessionKey, usize>, key: &SessionKey) -> (r: bool)
    ensures
        r == numbers(*m).contains_key(*key),
{
    m.contains_key(key)
}

/// `DashMap::insert` puts a value under a key and returns the one that it replaces.
#[verifier::external_body]
pub(crate) fn insert_number(
    m: &mut DashMap<SessionKey, usize>,
    key: SessionKey,
    value: usize,
) -> (r: Option<usize>)
    ensures
        numbers(*final(m)) == numbers(*old(m)).insert(key, value),
        r == numbers(*old(m)).get(key),
{
    m.insert(key, value)
}

/// `DashMap::remove` takes out what stands under a key and returns it.
#[verifier::external_body]
pub(crate) fn remove_number(
    m: &mut DashMap<SessionKey, usize>,
    key: &SessionKey,
) -> (r: Option<usize>)
    ensures
        numbers(*final(m)) == numbers(*old(m)).remove(*key),
        r == numbers(*old(m)).get(*key),
{
    m.remove(key).map(|entry| entry.1)
}

/// `DashMap::len` returns the number of entries.
#[verifier::external_body]
pub(crate) fn count_numbers(m: &DashMap<SessionKey, usize>) -> (r: usize)
    ensures
        r == numbers(*m).dom().len(),
{
    m.len()
}

/// What a map of recent messages holds.
pub uninterp spec fn histories(m: DashMap<SessionKey, VecDeque<String>>) -> Map<
    SessionKey,
    VecDeque<String>,
>;

/// `DashMap::new` makes a map that holds nothing.
#[verifier::external_body]
pub(crate) fn new_histories() -> (r: DashMap<SessionKey, VecDeque<String>>)
    ensures
        histories(r) == (Map::<SessionKey, VecDeque<String>>::empty()),
{
    DashMap::new()
}

/// `DashMap::insert` puts a value under a key and returns the one that it replaces.
#[verifier::external_body]
pub(crate) fn insert_history(
    m: &mut DashMap<SessionKey, VecDeque<String>>,
    key: SessionKey,
    value: VecDeque<String>,
) -> (r: Option<VecDeque<String>>)
    ensures
        histories(*final(m)) == histories(*old(m)).insert(key, value),
        r == histories(*old(m)).get(key),
{
    m.insert(key, value)
}

/// `DashMap::remove` takes out what stands under a key and returns it.
#[verifier::external_body]
pub(crate) fn remove_history(
    m: &mut DashMap<SessionKey, VecDeque<String>>,
    key: &SessionKey,
) -> (r: Option<VecDeque<String>>)
    ensures
        histories(*final(m)) == histories(*old(m)).remove(*key),
        r == histories(*old(m)).get(*key),
{
    m.remove(key).map(|entry| entry.1)
}

/// What a map of queues holds.
pub uninterp spec fn queues(m: DashMap<SessionKey, SessionQueue>) -> Map<SessionKey, SessionQueue>;

/// `DashMap::new` makes a map that holds nothing.
#[verifier::external_body]
pub(crate) fn new_queues() -> (r: DashMap<SessionKey, SessionQueue>)
    ensures
        queues(r) == (Map::<SessionKey, SessionQueue>::empty()),
{
    DashMap::new()
}

/// `DashMap::insert` puts a value under a key and returns the one that it replaces.
#[verifier::external_body]
pub(crate) fn insert_queue(
    m: &mut DashMap<SessionKey, SessionQueue>,
    key: SessionKey,
    value: SessionQueue,
) -> (r: Option<SessionQueue>)
    ensures
        queues(*final(m)) == queues(*old(m)).insert(key, value),
        r == queues(*old(m)).get(key),
{
    m.insert(key, value)
}

/// `DashMap::remove` takes out what stands under a key and returns it.
#[verifier::external_body]
pub(crate) fn remove_queue(
    m: &mut DashMap<SessionKey, SessionQueue>,
    key: &SessionKey,
) -> (r: Option<SessionQueue>)
    ensures
        queues(*final(m)) == queues(*old(m)).remove(*key),
        r == queues(*old(m)).get(*key),
{
    m.remove(key).map(|entry| entry.1)
}

/// `tokio_util::sync::CancellationToken`, which tells all its clones when it is
/// cancelled.
#[verifier::external_type_specification]
#[verifier::external_body]
pub struct ExCancellationToken(CancellationToken);

/// What a map of cancellation tokens holds, by the texts of its keys.
pub uninterp spec fn tokens(m: DashMap<String, CancellationToken>) -> Map<
    Seq<char>,
    CancellationToken,
>;

/// `DashMap::new` makes a map that holds nothing.
#[verifier::external_body]
pub(crate) fn new_tokens() -> (r: DashMap<String, CancellationToken>)
    ensures
        tokens(r) == (Map::<Seq<char>, CancellationToken>::empty()),
{
    DashMap::new()
}

/// `DashMap::insert` puts a value under a key and returns the one that it replaces.
#[verifier::external_body]
pub(crate) fn insert_token(
    m: &mut DashMap<String, CancellationToken>,
    key: String,
    value: CancellationToken,
) -> (r: Option<CancellationToken>)
    ensures
        tokens(*final(m)) == tokens(*old(m)).insert(key@, value),
        r == tokens(*old(m)).get(key@),
{
    m.insert(key, value)
}

/// `DashMap::remove` takes out the entry under a key and returns it.
#[verifier::external_body]
pub(crate) fn remove_token(
    m: &mut DashMap<String, CancellationToken>,
    key: &str,
) -> (r: Option<(String, CancellationToken)>)
    ensures
        tokens(*final(m)) == tokens(*old(m)).remove(key@),
        r is Some == tokens(*old(m)).contains_key(key@),
        r matches Some(entry) ==> entry.0@ == key@ && entry.1 == tokens(*old(m))[key@],
{
    m.remove(key)
}

/// `DashMap::len` returns the number of entries.
#[verifier::external_body]
pub(crate) fn count_tokens(m: &DashMap<String, CancellationToken>) -> (r: usize)
    ensures
        r == tokens(*m).dom().len(),
{
    m.len()
}

} // verus!
