//! The registry of live instances: a bounded store keyed by worker handle,
//! ordered by recency of use, whose entries expire when idle.

use crate::load::{load_metric, load_of, Config, InstanceStatistics, MAX_LOAD};
use crate::lru::{
    cache_capacity, cache_entries, cache_get, cache_insert, cache_live, cache_new, cache_peek,
    cache_purge, cache_remove, distinct_keys, expired_from, has_key, inserted, lemma_push_fresh,
    lemma_skip_keeps, lemma_without, position, promoted, recent, trimmed, value_of, without,
};
use crate::types::{ExecutionError, GenericError, RuntimeId, Startup, WorkerHandle};
use lru_time_cache::LruCache;
use std::collections::HashMap;
use vstd::prelude::*;

verus! {

broadcast use vstd::std_specs::hash::group_hash_axioms;

/// What a runtime holds, as plain values.
pub struct RuntimeView {
    pub id: Seq<char>,
    pub config: Config,
    /// `(handle, instance)` pairs, least recently used first.
    pub entries: Seq<(u64, u64)>,
    /// The memory last reported for a handle.
    pub memory: Map<u64, usize>,
}

/// The memory on record for `handle`: zero until something was reported.
pub open spec fn memory_bytes(memory: Map<u64, usize>, handle: u64) -> nat {
    if memory.contains_key(handle) {
        memory[handle] as nat
    } else {
        0
    }
}

/// The memory on record for all of `s` together.
pub open spec fn memory_total(s: Seq<(u64, u64)>, memory: Map<u64, usize>) -> nat
    decreases s.len(),
{
    if s.len() == 0 {
        0
    } else {
        memory_total(s.drop_last(), memory) + memory_bytes(memory, s.last().0)
    }
}

/// The handles that have an entry in `s`.
pub open spec fn key_set(s: Seq<(u64, u64)>) -> Set<u64> {
    Set::new(|key: u64| has_key(s, key))
}

/// The handles of `s`, in its order.
pub open spec fn handle_ids(s: Seq<(u64, u64)>) -> Seq<u64> {
    s.map_values(|e: (u64, u64)| e.0)
}

/// The live instances of one runtime process, with the memory they last
/// reported.
pub struct Runtime {
    id: RuntimeId,
    config: Config,
    instances: LruCache<u64, u64>,
    memory: HashMap<u64, usize>,
}

impl View for Runtime {
    type V = RuntimeView;

    closed spec fn view(&self) -> RuntimeView {
        RuntimeView {
            id: self.id.id@,
            config: self.config,
            entries: cache_entries(self.instances),
            memory: self.memory@,
        }
    }
}

impl Runtime {
    /// The store was made with the configured capacity.
    pub closed spec fn linked(&self) -> bool {
        cache_capacity(self.instances) == self.config.max_num_of_instances
    }

    /// No handle occurs twice, and there are never more entries than the
    /// configured capacity.
    pub open spec fn wf(&self) -> bool {
        &&& self.linked()
        &&& distinct_keys(self@.entries)
        &&& 1 <= self@.config.max_num_of_instances
        &&& self@.entries.len() <= self@.config.max_num_of_instances
    }

    /// An empty runtime.
    pub fn new(id: RuntimeId, config: Config) -> (rt: Runtime)
        requires
            1 <= config.max_num_of_instances,
            config.max_num_of_instances * 8 <= isize::MAX,
        ensures
            rt.wf(),
            rt@ == (RuntimeView {
                id: id.id@,
                config,
                entries: Seq::empty(),
                memory: Map::empty(),
            }),
    {
        let instances = cache_new(config.max_inactive_time_ms, config.max_num_of_instances);
        Runtime { id, config, instances, memory: HashMap::new() }
    }

    /// This runtime's identifier.
    pub fn id(&self) -> (id: RuntimeId)
        ensures
            id.id@ == self@.id,
    {
        RuntimeId { id: self.id.id.clone() }
    }

    /// The limits this runtime was built with.
    pub fn config(&self) -> (config: Config)
        ensures
            config == self@.config,
    {
        self.config
    }

    /// The handles that have not expired, most recently used first. Nothing is
    /// promoted or removed. How many of the entries still count is for the
    /// clock to decide; those that do are the most recently used ones.
    pub fn list(&self) -> (r: Result<Vec<WorkerHandle>, GenericError>)
        requires
            self.wf(),
        ensures
            r matches Ok(handles) && handles@.len() <= self@.entries.len() && handles@.map_values(
                |h: WorkerHandle| h.id,
            ) == handle_ids(recent(self@.entries, handles@.len() as int)),
    {
        let live = cache_live(&self.instances);
        let handles = handles_of(&live);
        proof {
            let n = handles@.len() as int;
            assert(n == live@.len());
            assert(live@ == recent(self@.entries, n));
        }
        Ok(handles)
    }

    /// Removes the entry of `worker_handle`, expired or not, and says whether
    /// there was one. A second call for the same handle finds none.
    pub fn terminate(&mut self, worker_handle: &WorkerHandle) -> (existed: bool)
        requires
            old(self).wf(),
        ensures
            final(self).wf(),
            existed == has_key(old(self)@.entries, worker_handle.id),
            final(self)@ == (RuntimeView {
                entries: without(old(self)@.entries, worker_handle.id),
                memory: old(self)@.memory.remove(worker_handle.id),
                ..old(self)@
            }),
            !has_key(final(self)@.entries, worker_handle.id),
    {
        self.remove(worker_handle).is_some()
    }

    /// Removes the entry of `worker_handle`, expired or not, and hands back
    /// the instance it held.
    pub fn remove(&mut self, worker_handle: &WorkerHandle) -> (instance: Option<u64>)
        requires
            old(self).wf(),
        ensures
            final(self).wf(),
            instance == value_of(old(self)@.entries, worker_handle.id),
            final(self)@ == (RuntimeView {
                entries: without(old(self)@.entries, worker_handle.id),
                memory: old(self)@.memory.remove(worker_handle.id),
                ..old(self)@
            }),
            !has_key(final(self)@.entries, worker_handle.id),
    {
        proof {
            lemma_without(self@.entries, worker_handle.id);
        }
        let removed = cache_remove(&mut self.instances, worker_handle.id);
        self.memory.remove(&worker_handle.id);
        removed
    }

    /// Looks `worker_handle` up for a request and marks it most recently
    /// used. Entries that the clock has expired leave first, least recently
    /// used first; the handle is found if it is among the rest.
    pub fn fetch(&mut self, worker_handle: &WorkerHandle) -> (r: Result<u64, ExecutionError>)
        requires
            old(self).wf(),
        ensures
            final(self).wf(),
            exists|n: int|
                0 <= n <= old(self)@.entries.len() && final(self)@ == (RuntimeView {
                    entries: promoted(#[trigger] old(self)@.entries.skip(n), worker_handle.id),
                    ..old(self)@
                }) && r == (match value_of(old(self)@.entries.skip(n), worker_handle.id) {
                    Some(instance) => Ok::<u64, ExecutionError>(instance),
                    None => Err(ExecutionError::NoSuchWorker),
                }),
            !has_key(old(self)@.entries, worker_handle.id) ==> r == Err::<u64, ExecutionError>(
                ExecutionError::NoSuchWorker,
            ),
            r matches Ok(instance) ==> value_of(old(self)@.entries, worker_handle.id) == Some(
                instance,
            ) && final(self)@.entries.last() == (worker_handle.id, instance),
            r is Err ==> r == Err::<u64, ExecutionError>(ExecutionError::NoSuchWorker)
                && expired_from(old(self)@.entries, final(self)@.entries),
    {
        let key = worker_handle.id;
        let (found, expired) = cache_get(&mut self.instances, key);
        proof {
            let before = old(self)@.entries;
            let n = expired@.len() as int;
            let live = before.skip(n);
            lemma_skip_keeps(before, n, key);
            lemma_without(live, key);
            if has_key(live, key) {
                let entry = live[position(live, key)];
                assert(entry.0 == key);
                lemma_push_fresh(without(live, key), key, entry.1);
            }
        }
        match found {
            Some(instance) => Ok(instance),
            None => Err(ExecutionError::NoSuchWorker),
        }
    }

    /// Records how the start of an instance ended. A started instance is
    /// stored under `worker_handle` as the most recently used entry, with no
    /// memory on record: entries that the clock has expired leave first; if
    /// the store is then still full, the least recently used entries leave.
    /// A failed start changes nothing.
    pub fn spawn(&mut self, worker_handle: WorkerHandle, startup: Startup) -> (r: Result<
        WorkerHandle,
        GenericError,
    >)
        requires
            old(self).wf(),
        ensures
            final(self).wf(),
            match startup {
                Startup::Ready(instance) => {
                    &&& r == Ok::<WorkerHandle, GenericError>(worker_handle)
                    &&& exists|n: int|
                        0 <= n <= old(self)@.entries.len() && final(self)@ == (RuntimeView {
                            entries: inserted(
                                #[trigger] old(self)@.entries.skip(n),
                                old(self)@.config.max_num_of_instances as nat,
                                worker_handle.id,
                                instance,
                            ),
                            memory: old(self)@.memory.remove(worker_handle.id),
                            ..old(self)@
                        })
                    &&& final(self)@.entries.last() == (worker_handle.id, instance)
                },
                Startup::Failed(e) => r == Err::<WorkerHandle, GenericError>(e) && final(self)@
                    == old(self)@,
                Startup::Dropped => {
                    &&& final(self)@ == old(self)@
                    &&& r matches Err(GenericError::ScriptInitException(message))
                    &&& message@ == "script initialization failed"@
                },
            },
    {
        match startup {
            Startup::Ready(instance) => {
                let key = worker_handle.id;
                let (_previous, expired) = cache_insert(&mut self.instances, key, instance);
                self.memory.remove(&key);
                proof {
                    let before = old(self)@.entries;
                    let capacity = old(self)@.config.max_num_of_instances as nat;
                    let n = expired@.len() as int;
                    let live = before.skip(n);
                    lemma_skip_keeps(before, n, key);
                    lemma_without(live, key);
                    if has_key(live, key) {
                        lemma_push_fresh(without(live, key), key, instance);
                    } else {
                        let kept = trimmed(live, capacity);
                        if live.len() >= capacity {
                            lemma_skip_keeps(live, live.len() - capacity + 1, key);
                        }
                        lemma_push_fresh(kept, key, instance);
                    }
                }
                Ok(worker_handle)
            },
            Startup::Failed(e) => Err(e),
            Startup::Dropped => Err(
                GenericError::ScriptInitException("script initialization failed".to_owned()),
            ),
        }
    }

    /// Takes in the statistics reported for `worker_handle`: the memory is put
    /// on record if the handle has an entry that the clock has not expired.
    /// Nothing is promoted or removed.
    ///
    /// The entry is looked up without promotion; what is done with the answer
    /// is `record_memory`.
    ///
    /// For a handle without an entry nothing changes. For one with an entry
    /// the clock decides whether it still counts, so either the memory is put
    /// on record or nothing changes.
    pub fn update_stats(&mut self, worker_handle: &WorkerHandle, stats: InstanceStatistics)
        requires
            old(self).wf(),
        ensures
            final(self).wf(),
            final(self)@ == old(self)@ || (has_key(old(self)@.entries, worker_handle.id)
                && final(self)@ == (RuntimeView {
                memory: old(self)@.memory.insert(worker_handle.id, stats.used_memory_bytes),
                ..old(self)@
            })),
    {
        let found = cache_peek(&self.instances, worker_handle.id);
        self.record_memory(worker_handle, found, stats);
    }

    /// Puts the memory of `stats` on record for `worker_handle` where `found`
    /// holds the instance that a lookup gave for it, and changes nothing
    /// where the lookup gave none. The entries stay as they are.
    pub fn record_memory(
        &mut self,
        worker_handle: &WorkerHandle,
        found: Option<u64>,
        stats: InstanceStatistics,
    )
        requires
            old(self).wf(),
        ensures
            final(self).wf(),
            found.is_some() ==> final(self)@ == (RuntimeView {
                memory: old(self)@.memory.insert(worker_handle.id, stats.used_memory_bytes),
                ..old(self)@
            }),
            found.is_none() ==> final(self)@ == old(self)@,
    {
        if found.is_some() {
            self.memory.insert(worker_handle.id, stats.used_memory_bytes);
        }
    }

    /// The load of this runtime: the memory on record for the entries that
    /// have not expired against the soft threshold, plus their number against
    /// the capacity.
    pub fn load(&self) -> (r: Result<u16, GenericError>)
        requires
            self.wf(),
        ensures
            r matches Ok(load) && load <= MAX_LOAD && exists|n: int|
                0 <= n <= self@.entries.len() && load == load_of(
                    memory_total(#[trigger] recent(self@.entries, n), self@.memory),
                    n as nat,
                    self@.config,
                ),
    {
        let live = cache_live(&self.instances);
        let num_instances = live.len();
        let mut total_memory: u128 = 0;
        let mut i: usize = 0;
        while i < live.len()
            invariant
                i <= live.len(),
                total_memory == memory_total(live@.take(i as int), self.memory@),
                total_memory <= i * usize::MAX,
            decreases live.len() - i,
        {
            let bytes: usize = match self.memory.get(&live[i].0) {
                Some(bytes) => *bytes,
                None => 0,
            };
            proof {
                assert(live@.take(i + 1).drop_last() =~= live@.take(i as int));
                assert(live@.take(i + 1).last() == live@[i as int]);
                assert((i + 1) * usize::MAX == i * usize::MAX + usize::MAX) by (nonlinear_arith);
                assert(i * usize::MAX <= 0xffff_ffff_ffff_ffff * 0xffff_ffff_ffff_ffff)
                    by (nonlinear_arith)
                    requires
                        i <= 0xffff_ffff_ffff_ffff,
                        usize::MAX <= 0xffff_ffff_ffff_ffff,
                ;
            }
            total_memory = total_memory + bytes as u128;
            i = i + 1;
        }
        proof {
            assert(live@.take(live@.len() as int) =~= live@);
        }
        Ok(load_metric(total_memory, num_instances, &self.config))
    }

    /// Drops the entries that the clock has expired, least recently used
    /// first, and the memory on record for every handle that has no unexpired
    /// entry any more. Nothing else changes.
    pub fn lru_gc(&mut self)
        requires
            old(self).wf(),
        ensures
            final(self).wf(),
            expired_from(old(self)@.entries, final(self)@.entries),
            exists|n: int|
                0 <= n <= final(self)@.entries.len() && final(self)@.memory == old(
                    self,
                )@.memory.restrict(key_set(#[trigger] recent(final(self)@.entries, n))),
            final(self)@.id == old(self)@.id,
            final(self)@.config == old(self)@.config,
    {
        cache_purge(&mut self.instances);
        proof {
            let before = old(self)@.entries;
            let after = self@.entries;
            let n = choose|n: int| 0 <= n <= before.len() && after == #[trigger] before.skip(n);
            lemma_skip_keeps(before, n, 0);
        }
        let live = cache_live(&self.instances);
        let kept = self.memory_of(&live);
        self.memory = kept;
        assert(live@ == recent(self@.entries, live@.len() as int));
    }

    /// The memory on record for the handles of `live`, and for no others.
    fn memory_of(&self, live: &Vec<(u64, u64)>) -> (kept: HashMap<u64, usize>)
        ensures
            kept@ == self@.memory.restrict(key_set(live@)),
    {
        let mut kept: HashMap<u64, usize> = HashMap::new();
        let mut i: usize = 0;
        while i < live.len()
            invariant
                i <= live@.len(),
                kept@ == self.memory@.restrict(key_set(live@.take(i as int))),
            decreases live@.len() - i,
        {
            let key = live[i].0;
            proof {
                let shorter = live@.take(i as int);
                let longer = live@.take(i + 1);
                assert(longer[i as int].0 == key);
                assert forall|other: u64| has_key(longer, other) <==> (has_key(shorter, other)
                    || other == key) by {
                    if has_key(longer, other) {
                        let p = position(longer, other);
                        if p < i {
                            assert(shorter[p] == longer[p]);
                        }
                    }
                    if has_key(shorter, other) {
                        let p = position(shorter, other);
                        assert(shorter[p] == longer[p]);
                    }
                }
                assert(key_set(longer) =~= key_set(shorter).insert(key));
            }
            match self.memory.get(&key) {
                Some(bytes) => {
                    kept.insert(key, *bytes);
                    assert(kept@ =~= self.memory@.restrict(key_set(live@.take(i + 1))));
                },
                None => {
                    assert(kept@ =~= self.memory@.restrict(key_set(live@.take(i + 1))));
                },
            }
            i = i + 1;
        }
        proof {
            assert(live@.take(live@.len() as int) =~= live@);
        }
        kept
    }
}

/// The handles of the entries `live`, one for one and in their order.
pub fn handles_of(live: &Vec<(u64, u64)>) -> (handles: Vec<WorkerHandle>)
    ensures
        handles@.len() == live@.len(),
        handles@.map_values(|h: WorkerHandle| h.id) == handle_ids(live@),
{
    let mut handles: Vec<WorkerHandle> = Vec::new();
    let mut i: usize = 0;
    while i < live.len()
        invariant
            i <= live.len(),
            handles@.len() == i,
            forall|j: int| 0 <= j < i ==> (#[trigger] handles@[j]).id == live@[j].0,
        decreases live.len() - i,
    {
        handles.push(WorkerHandle { id: live[i].0 });
        i = i + 1;
    }
    assert(handles@.map_values(|h: WorkerHandle| h.id) =~= handle_ids(live@));
    handles
}

} // verus!
