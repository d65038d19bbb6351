//! Declarations of the outside types and functions that the library calls, with the contracts
//! that the library relies on. Nothing in this file is proved: each contract restates what the
//! outside crate's source or documentation shows.
use vstd::prelude::*;
use std::hash::{BuildHasher, Hash};
use priority_queue::PriorityQueue;
use rustc_hash::FxBuildHasher;

verus! {

/// `ahash::RandomState`, the default hasher builder of indexed chunk storages. Opaque: the
/// library only carries it around and hands it to [`hash_of`].
#[verifier::external_type_specification]
#[verifier::external_body]
pub struct ExAhashRandomState(ahash::RandomState);

/// Calls `ahash::RandomState::new()`, which builds a hasher builder from random keys. Nothing is
/// stated of the result: its keys differ from one call to the next.
#[verifier::external_body]
pub(crate) fn new_random_state() -> ahash::RandomState {
    ahash::RandomState::new()
}

/// Calls `BuildHasher::hash_one` of std. Nothing is stated of the result: it depends on the keys
/// of the hasher builder, which are random for `ahash::RandomState`.
#[verifier::external_body]
pub(crate) fn hash_of<T: Hash, S: BuildHasher>(state: &S, value: &T) -> u64 {
    state.hash_one(value)
}

/// A hashbrown `HashTable` of `(hash, index)` entries: the index of a stored value, together
/// with the hash it was inserted with.
#[verifier::external_body]
pub struct ValueIndexTable {
    table: hashbrown::HashTable<(u64, usize)>,
}

/// The entries of a [`ValueIndexTable`].
pub uninterp spec fn value_index_entries(t: ValueIndexTable) -> Set<(u64, usize)>;

/// Calls `hashbrown::HashTable::new()`, which creates a table with no entries.
#[verifier::external_body]
pub(crate) fn value_index_table_new() -> (r: ValueIndexTable)
    ensures
        value_index_entries(r) == Set::<(u64, usize)>::empty(),
{
    ValueIndexTable { table: hashbrown::HashTable::new() }
}

/// Calls `hashbrown::HashTable::insert_unique(hash, (hash, index), |e| e.0)`, which adds the entry
/// without looking for an equal one. The rehashing closure returns the hash each entry was
/// inserted with, as the method's documentation demands.
#[verifier::external_body]
pub(crate) fn value_index_table_insert(t: &mut ValueIndexTable, hash: u64, index: usize)
    ensures
        value_index_entries(*final(t)) == value_index_entries(*old(t)).insert((hash, index)),
{
    t.table.insert_unique(hash, (hash, index), |e: &(u64, usize)| e.0);
}

/// Calls `hashbrown::HashTable::find(hash, eq)` with `eq` the verified
/// [`crate::storage::index_entry_matches`] for `values`, `data` and `hash`, and returns the index
/// of the entry found. The method calls `eq` for every entry with the given hash and returns one
/// for which `eq` held: so an index comes back exactly when some entry with this hash matches,
/// and the entry it comes from is in the table and matches.
#[verifier::external_body]
pub(crate) fn value_index_table_find<T: PartialEq>(t: &ValueIndexTable, hash: u64, values: &Vec<T>, data: &T) -> (r: Option<
    usize,
>)
    requires
        vstd::laws_eq::obeys_concrete_eq::<T>(),
    ensures
        r matches Some(i) ==> value_index_entries(*t).contains((hash, i)) && crate::storage::spec_entry_matches(
            values@,
            *data,
            hash,
            (hash, i),
        ),
        (exists|e: (u64, usize)|
            #[trigger] value_index_entries(*t).contains(e) && e.0 == hash && crate::storage::spec_entry_matches(
                values@,
                *data,
                hash,
                e,
            )) ==> r is Some,
{
    t.table.find(hash, |e: &(u64, usize)| crate::storage::index_entry_matches(values, data, hash, e)).map(
        |e: &(u64, usize)| e.1,
    )
}

/// `priority_queue::PriorityQueue`: a max-priority queue whose items are kept in a hash map.
#[verifier::external_type_specification]
#[verifier::external_body]
#[verifier::reject_recursive_types(I)]
#[verifier::reject_recursive_types(P)]
#[verifier::reject_recursive_types(H)]
pub struct ExPriorityQueue<I, P, H>(PriorityQueue<I, P, H>);

/// `rustc_hash::FxBuildHasher`: a hasher builder without state.
#[verifier::external_type_specification]
#[verifier::external_body]
pub struct ExFxBuildHasher(FxBuildHasher);

/// The components of a chunk position, as a job priority queue holds them.
pub type JobKey = (i32, i32, i32);

/// An item of a job priority queue with its priority.
pub type JobEntry = (JobKey, u32);

/// The priority queue of chunk jobs: chunk position components with `u32` priorities.
pub type JobPriorityQueue = PriorityQueue<JobKey, u32, FxBuildHasher>;

/// The items of a chunk job priority queue (chunk position components), each with its priority.
pub uninterp spec fn job_priorities(q: JobPriorityQueue) -> Map<(i32, i32, i32), u32>;

/// Calls `PriorityQueue::default()`, which creates an empty queue.
#[verifier::external_body]
pub(crate) fn job_pq_new() -> (r: JobPriorityQueue)
    ensures
        job_priorities(r).dom() == Set::<JobKey>::empty(),
{
    PriorityQueue::default()
}

/// Calls `PriorityQueue::push_increase(item, priority)`. As its source shows: an absent item is
/// inserted and `None` returned; a present item with a lower priority gets the new priority and
/// its old priority is returned; otherwise nothing changes and `priority` is returned.
#[verifier::external_body]
pub(crate) fn job_pq_push_increase(q: &mut JobPriorityQueue, item: (i32, i32, i32), priority: u32) -> (r: Option<u32>)
    ensures
        !job_priorities(*old(q)).contains_key(item) ==> job_priorities(*final(q)) == job_priorities(*old(q)).insert(item, priority)
            && r is None,
        job_priorities(*old(q)).contains_key(item) && job_priorities(*old(q))[item] < priority ==> job_priorities(*final(q))
            == job_priorities(*old(q)).insert(item, priority) && r == Some(job_priorities(*old(q))[item]),
        job_priorities(*old(q)).contains_key(item) && job_priorities(*old(q))[item] >= priority ==> job_priorities(*final(q))
            == job_priorities(*old(q)) && r == Some(priority),
{
    q.push_increase(item, priority)
}

/// Calls `PriorityQueue::push(item, priority)`: the item gets the priority, whether it was
/// present or not, and its old priority is returned if it was present.
#[verifier::external_body]
pub(crate) fn job_pq_push(q: &mut JobPriorityQueue, item: (i32, i32, i32), priority: u32) -> (r: Option<u32>)
    ensures
        job_priorities(*final(q)) == job_priorities(*old(q)).insert(item, priority),
        r == (if job_priorities(*old(q)).contains_key(item) {
            Some(job_priorities(*old(q))[item])
        } else {
            None
        }),
{
    q.push(item, priority)
}

/// Calls `PriorityQueue::remove(&item)`: a present item is removed and returned with its
/// priority; otherwise nothing changes and `None` is returned.
#[verifier::external_body]
pub(crate) fn job_pq_remove(q: &mut JobPriorityQueue, item: (i32, i32, i32)) -> (r: Option<JobEntry>)
    ensures
        job_priorities(*final(q)) == job_priorities(*old(q)).remove(item),
        r == (if job_priorities(*old(q)).contains_key(item) {
            Some((item, job_priorities(*old(q))[item]))
        } else {
            None
        }),
{
    q.remove(&item)
}

/// Calls `PriorityQueue::get_priority(&item)` and copies the priority out.
#[verifier::external_body]
pub(crate) fn job_pq_get_priority(q: &JobPriorityQueue, item: (i32, i32, i32)) -> (r: Option<u32>)
    ensures
        r == (if job_priorities(*q).contains_key(item) {
            Some(job_priorities(*q)[item])
        } else {
            None
        }),
{
    q.get_priority(&item).copied()
}

/// Calls `PriorityQueue::change_priority(&item, priority)`: a present item gets the new priority
/// and its old one is returned; otherwise nothing changes and `None` is returned.
#[verifier::external_body]
pub(crate) fn job_pq_change_priority(q: &mut JobPriorityQueue, item: (i32, i32, i32), priority: u32) -> (r: Option<u32>)
    ensures
        job_priorities(*old(q)).contains_key(item) ==> job_priorities(*final(q)) == job_priorities(*old(q)).insert(item, priority)
            && r == Some(job_priorities(*old(q))[item]),
        !job_priorities(*old(q)).contains_key(item) ==> job_priorities(*final(q)) == job_priorities(*old(q)) && r is None,
{
    q.change_priority(&item, priority)
}

/// Calls `PriorityQueue::pop()`: an empty queue gives `None`; otherwise an item with the
/// greatest priority is removed and returned with its priority. Which of several items with the
/// greatest priority comes out is left open.
#[verifier::external_body]
pub(crate) fn job_pq_pop(q: &mut JobPriorityQueue) -> (r: Option<JobEntry>)
    ensures
        r is None <==> job_priorities(*old(q)).dom() == Set::<JobKey>::empty(),
        r is None ==> job_priorities(*final(q)) == job_priorities(*old(q)),
        r matches Some((item, priority)) ==> job_priorities(*old(q)).contains_key(item) && job_priorities(*old(q))[item]
            == priority && job_priorities(*final(q)) == job_priorities(*old(q)).remove(item) && forall|other: (i32, i32, i32)|
            #[trigger] job_priorities(*old(q)).contains_key(other) ==> job_priorities(*old(q))[other] <= priority,
{
    q.pop()
}

/// Calls `PriorityQueue::iter()` and collects the items: each item of the queue comes out once,
/// in an order that is left open.
#[verifier::external_body]
pub(crate) fn job_pq_items(q: &JobPriorityQueue) -> (r: Vec<(i32, i32, i32)>)
    ensures
        forall|item: (i32, i32, i32)| r@.contains(item) <==> job_priorities(*q).contains_key(item),
        r@.no_duplicates(),
{
    q.iter().map(|(item, _)| *item).collect()
}

} // verus!
