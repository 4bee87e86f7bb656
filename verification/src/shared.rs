//! The concurrent containers the core's shared state lives in, and the
//! contracts this crate relies on for them.
//!
//! The job queue is crossbeam's `SegQueue` (an unbounded multi-producer
//! multi-consumer queue), the processed set is dashmap's `DashSet`, and the
//! statement index is dashmap's `DashMap`. Their contents are named by
//! uninterpreted spec functions; each wrapper below states, over those names,
//! what the container's own source shows the call does. Pop order is left
//! open: the queue's contents are a multiset, and a popped element is only
//! promised to be one of them.

use vstd::multiset::Multiset;
use vstd::prelude::*;

use crate::symbol_box::Mark;
use crate::types::ResolvedId;

verus! {

#[verifier::external_type_specification]
#[verifier::external_body]
#[verifier::reject_recursive_types(T)]
pub struct ExSegQueue<T>(crossbeam::queue::SegQueue<T>);

#[verifier::external_type_specification]
#[verifier::external_body]
#[verifier::reject_recursive_types(K)]
#[verifier::reject_recursive_types(S)]
pub struct ExDashSet<K, S>(dashmap::DashSet<K, S>);

#[verifier::external_type_specification]
#[verifier::external_body]
#[verifier::reject_recursive_types(K)]
#[verifier::reject_recursive_types(V)]
#[verifier::reject_recursive_types(S)]
pub struct ExDashMap<K, V, S>(dashmap::DashMap<K, V, S>);

/// The job queue: pending module references awaiting a worker.
pub type JobQueue = crossbeam::queue::SegQueue<ResolvedId>;

/// The processed set: module ids already claimed by some worker.
pub type ProcessedSet = dashmap::DashSet<String, std::collections::hash_map::RandomState>;

/// The statement index: for every allocated mark, which module and which
/// statement position declared it.
pub type StatementIndex = dashmap::DashMap<
    Mark,
    (String, usize),
    std::collections::hash_map::RandomState,
>;

/// What the job queue holds: the view of each queued reference, with
/// multiplicity — the same module may be pushed once per importer.
pub uninterp spec fn queue_contents(q: JobQueue) -> Multiset<(Seq<char>, bool)>;

/// What the processed set holds: the ids already claimed.
pub uninterp spec fn set_contents(s: ProcessedSet) -> Set<Seq<char>>;

/// What the statement index holds: mark to (module id, statement position).
pub uninterp spec fn index_contents(m: StatementIndex) -> Map<Mark, (Seq<char>, usize)>;

/// Relies on crossbeam's `SegQueue::new`: creates an empty queue.
#[verifier::external_body]
pub fn queue_new() -> (q: JobQueue)
    ensures
        queue_contents(q) == Multiset::<(Seq<char>, bool)>::empty(),
{
    crossbeam::queue::SegQueue::new()
}

/// Relies on crossbeam's `SegQueue::push`: adds one element; never blocks and
/// never fails.
#[verifier::external_body]
pub fn queue_push(q: &mut JobQueue, r: ResolvedId)
    ensures
        queue_contents(*final(q)) == queue_contents(*old(q)).insert(r@),
{
    q.push(r)
}

/// Relies on crossbeam's `SegQueue::pop`: removes and returns one queued
/// element, or `None` exactly when the queue is empty.
#[verifier::external_body]
pub fn queue_pop(q: &mut JobQueue) -> (r: Option<ResolvedId>)
    ensures
        match r {
            Some(x) => queue_contents(*old(q)).contains(x@) && queue_contents(*final(q))
                == queue_contents(*old(q)).remove(x@),
            None => queue_contents(*old(q)).len() == 0 && queue_contents(*final(q))
                == queue_contents(*old(q)),
        },
{
    q.pop()
}

/// Relies on dashmap's `DashSet::new`: creates an empty set.
#[verifier::external_body]
pub fn processed_new() -> (s: ProcessedSet)
    ensures
        set_contents(s) == Set::<Seq<char>>::empty(),
{
    dashmap::DashSet::new()
}

/// Relies on dashmap's `DashSet::contains`: membership test.
#[verifier::external_body]
pub fn processed_contains(s: &ProcessedSet, id: &String) -> (r: bool)
    ensures
        r == set_contents(*s).contains(id@),
{
    s.contains(id)
}

/// Relies on dashmap's `DashSet::insert`: adds the key, atomically reporting
/// whether it was absent before.
#[verifier::external_body]
pub fn processed_insert(s: &mut ProcessedSet, id: String) -> (r: bool)
    ensures
        r == !set_contents(*old(s)).contains(id@),
        set_contents(*final(s)) == set_contents(*old(s)).insert(id@),
{
    s.insert(id)
}

/// Relies on dashmap's `DashSet::len`: the number of elements held.
#[verifier::external_body]
pub fn processed_len(s: &ProcessedSet) -> (n: usize)
    requires
        set_contents(*s).finite(),
    ensures
        n == set_contents(*s).len(),
{
    s.len()
}

/// Relies on dashmap's `DashMap::new`: creates an empty map.
#[verifier::external_body]
pub fn index_new() -> (m: StatementIndex)
    ensures
        index_contents(m) == (Map::<Mark, (Seq<char>, usize)>::empty()),
{
    dashmap::DashMap::new()
}

/// Relies on dashmap's `DashMap::insert`: maps the key to the value.
#[verifier::external_body]
pub fn index_insert(m: &mut StatementIndex, mark: Mark, module_id: String, stmt: usize)
    ensures
        index_contents(*final(m)) == index_contents(*old(m)).insert(mark, (module_id@, stmt)),
{
    m.insert(mark, (module_id, stmt));
}

/// Relies on dashmap's `DashMap::get`: looks the key up.
#[verifier::external_body]
pub fn index_get(m: &StatementIndex, mark: Mark) -> (r: Option<(String, usize)>)
    ensures
        match r {
            Some(p) => index_contents(*m).contains_key(mark) && index_contents(*m)[mark] == (
                p.0@,
                p.1,
            ),
            None => !index_contents(*m).contains_key(mark),
        },
{
    match m.get(&mark) {
        Some(entry) => Some(entry.value().clone()),
        None => None,
    }
}

} // verus!
