//! Priority queues of jobs keyed by chunk position, and the queueing rules of mesh building jobs.
use vstd::prelude::*;
use std::collections::HashMap;
use crate::math::IVec3;
use crate::bounding_box::ChunkPos;
use crate::neighbors::{NeighborSelection, spec_is_valid_neighbor_position, lex_less};
use crate::mesh_state::{BuildChunkMeshEvent, ChunkMeshData, MeshJobUrgency, MesherError, RemoveChunkMeshEvent};
use crate::outside::{
    JobPriorityQueue,
    job_priorities, job_pq_new, job_pq_push_increase, job_pq_push, job_pq_remove, job_pq_get_priority,
    job_pq_change_priority, job_pq_pop, job_pq_items,
};

verus! {

broadcast use vstd::std_specs::hash::group_hash_axioms;

/// The components of a chunk position, as the priority queue holds them.
pub open spec fn pos_tuple(p: ChunkPos) -> (i32, i32, i32) {
    (p.0.x, p.0.y, p.0.z)
}

/// The key under which the item of a chunk position is stored: the three components, each
/// shifted to be non-negative, as the digits of a number in base `2^32`.
pub open spec fn item_key(p: ChunkPos) -> u128 {
    ((p.0.x + 0x8000_0000) * 0x1_0000_0000_0000_0000 + (p.0.y + 0x8000_0000) * 0x1_0000_0000 + (p.0.z
        + 0x8000_0000)) as u128
}

pub(crate) proof fn lemma_item_key_injective(p: ChunkPos, q: ChunkPos)
    ensures
        item_key(p) == item_key(q) ==> p == q,
{
    let a1 = p.0.x + 0x8000_0000;
    let b1 = p.0.y + 0x8000_0000;
    let c1 = p.0.z + 0x8000_0000;
    let a2 = q.0.x + 0x8000_0000;
    let b2 = q.0.y + 0x8000_0000;
    let c2 = q.0.z + 0x8000_0000;
    assert(0 <= a1 * 0x1_0000_0000_0000_0000 + b1 * 0x1_0000_0000 + c1 < 0x1_0000_0000_0000_0000_0000_0000) by (nonlinear_arith)
        requires 0 <= a1 < 0x1_0000_0000, 0 <= b1 < 0x1_0000_0000, 0 <= c1 < 0x1_0000_0000;
    assert(0 <= a2 * 0x1_0000_0000_0000_0000 + b2 * 0x1_0000_0000 + c2 < 0x1_0000_0000_0000_0000_0000_0000) by (nonlinear_arith)
        requires 0 <= a2 < 0x1_0000_0000, 0 <= b2 < 0x1_0000_0000, 0 <= c2 < 0x1_0000_0000;
    if item_key(p) == item_key(q) {
        assert(a1 == a2 && b1 == b2 && c1 == c2) by (nonlinear_arith)
            requires
                0 <= a1 < 0x1_0000_0000, 0 <= b1 < 0x1_0000_0000, 0 <= c1 < 0x1_0000_0000,
                0 <= a2 < 0x1_0000_0000, 0 <= b2 < 0x1_0000_0000, 0 <= c2 < 0x1_0000_0000,
                a1 * 0x1_0000_0000_0000_0000 + b1 * 0x1_0000_0000 + c1 == a2 * 0x1_0000_0000_0000_0000 + b2
                    * 0x1_0000_0000 + c2;
        assert(p.0 == q.0);
    }
}

pub(crate) fn item_key_of(p: ChunkPos) -> (r: u128)
    ensures
        r == item_key(p),
{
    let a = (p.0.x as i64 + 0x8000_0000) as u128;
    let b = (p.0.y as i64 + 0x8000_0000) as u128;
    let c = (p.0.z as i64 + 0x8000_0000) as u128;
    proof {
        assert(a * 0x1_0000_0000_0000_0000 + b * 0x1_0000_0000 + c < 0x1_0000_0000_0000_0000_0000_0000) by (nonlinear_arith)
            requires a < 0x1_0000_0000, b < 0x1_0000_0000, c < 0x1_0000_0000;
    }
    a * 0x1_0000_0000_0000_0000 + b * 0x1_0000_0000 + c
}

/// A priority queue keyed with chunk positions: each position holds a priority and an item.
pub struct ChunkJobQueue<T> {
    priorities: JobPriorityQueue,
    items: HashMap<u128, T>,
}

impl<T> ChunkJobQueue<T> {
    pub closed spec fn spec_priorities(&self) -> Map<(i32, i32, i32), u32> {
        job_priorities(self.priorities)
    }

    pub closed spec fn spec_items(&self) -> Map<u128, T> {
        self.items@
    }

    /// A position holds a priority exactly when it holds an item.
    pub closed spec fn wf(&self) -> bool {
        forall|p: ChunkPos| #[trigger] self.spec_priorities().contains_key(pos_tuple(p)) == self.spec_items().contains_key(item_key(p))
    }

    /// The queue as a map from chunk positions to their priority and item.
    pub closed spec fn view(&self) -> Map<ChunkPos, (u32, T)> {
        Map::new(
            |p: ChunkPos| self.spec_priorities().contains_key(pos_tuple(p)),
            |p: ChunkPos| (self.spec_priorities()[pos_tuple(p)], self.spec_items()[item_key(p)]),
        )
    }

    /// An empty queue.
    pub fn new() -> (r: ChunkJobQueue<T>)
        ensures
            r.wf(),
            r@ == Map::<ChunkPos, (u32, T)>::empty(),
    {
        let r = ChunkJobQueue { priorities: job_pq_new(), items: HashMap::new() };
        assert(r@ =~= Map::<ChunkPos, (u32, T)>::empty());
        r
    }

    /// Add an item at the given chunk position, raising its priority to `priority` if that is
    /// higher. Returns the old item at this chunk position if there was one.
    pub fn push(&mut self, chunk_pos: ChunkPos, item: T, priority: u32) -> (r: Option<T>)
        requires
            old(self).wf(),
        ensures
            final(self).wf(),
            final(self)@ == old(self)@.insert(chunk_pos, (if old(self)@.contains_key(chunk_pos) && old(self)@[chunk_pos].0 > priority {
                old(self)@[chunk_pos].0
            } else {
                priority
            }, item)),
            r == (if old(self)@.contains_key(chunk_pos) {
                Some(old(self)@[chunk_pos].1)
            } else {
                None
            }),
    {
        let ghost before = *self;
        let key = item_key_of(chunk_pos);
        let t = (chunk_pos.0.x, chunk_pos.0.y, chunk_pos.0.z);
        let _ = job_pq_push_increase(&mut self.priorities, t, priority);
        let previous = self.items.insert(key, item);
        proof {
            assert forall|p: ChunkPos| #[trigger] self.spec_priorities().contains_key(pos_tuple(p)) == self.spec_items().contains_key(item_key(p)) by {
                lemma_item_key_injective(p, chunk_pos);
                assert(before.spec_priorities().contains_key(pos_tuple(p)) == before.spec_items().contains_key(item_key(p)));
            }
            assert(before.spec_priorities().contains_key(pos_tuple(chunk_pos)) == before.spec_items().contains_key(item_key(chunk_pos)));
            assert forall|p: ChunkPos| p != chunk_pos implies pos_tuple(p) != pos_tuple(chunk_pos) && item_key(p) != item_key(chunk_pos) by {
                lemma_item_key_injective(p, chunk_pos);
            }
            assert(self@ =~= before@.insert(chunk_pos, (if before@.contains_key(chunk_pos) && before@[chunk_pos].0 > priority {
                before@[chunk_pos].0
            } else {
                priority
            }, item)));
        }
        previous
    }
}

impl<T> ChunkJobQueue<T> {
    /// Remove the item at a chunk position, returning it if there was one.
    pub fn remove(&mut self, chunk_pos: ChunkPos) -> (r: Option<T>)
        requires
            old(self).wf(),
        ensures
            final(self).wf(),
            final(self)@ == old(self)@.remove(chunk_pos),
            r == (if old(self)@.contains_key(chunk_pos) {
                Some(old(self)@[chunk_pos].1)
            } else {
                None
            }),
    {
        let ghost before = *self;
        let key = item_key_of(chunk_pos);
        let _ = job_pq_remove(&mut self.priorities, (chunk_pos.0.x, chunk_pos.0.y, chunk_pos.0.z));
        let removed = self.items.remove(&key);
        proof {
            assert forall|p: ChunkPos| #[trigger] self.spec_priorities().contains_key(pos_tuple(p)) == self.spec_items().contains_key(item_key(p)) by {
                lemma_item_key_injective(p, chunk_pos);
                assert(before.spec_priorities().contains_key(pos_tuple(p)) == before.spec_items().contains_key(item_key(p)));
            }
            assert(before.spec_priorities().contains_key(pos_tuple(chunk_pos)) == before.spec_items().contains_key(item_key(chunk_pos)));
            assert forall|p: ChunkPos| p != chunk_pos implies pos_tuple(p) != pos_tuple(chunk_pos) && item_key(p) != item_key(chunk_pos) by {
                lemma_item_key_injective(p, chunk_pos);
            }
            assert(self@ =~= before@.remove(chunk_pos));
        }
        removed
    }

    /// The item at a chunk position, if there is one.
    pub fn get(&self, chunk_pos: ChunkPos) -> (r: Option<&T>)
        requires
            self.wf(),
        ensures
            r == (if self@.contains_key(chunk_pos) {
                Some(&self@[chunk_pos].1)
            } else {
                None
            }),
    {
        let key = item_key_of(chunk_pos);
        proof {
            assert(self.spec_priorities().contains_key(pos_tuple(chunk_pos)) == self.spec_items().contains_key(item_key(chunk_pos)));
        }
        self.items.get(&key)
    }

    /// The priority at a chunk position, if there is one.
    pub fn get_priority(&self, chunk_pos: ChunkPos) -> (r: Option<u32>)
        requires
            self.wf(),
        ensures
            r == (if self@.contains_key(chunk_pos) {
                Some(self@[chunk_pos].0)
            } else {
                None
            }),
    {
        job_pq_get_priority(&self.priorities, (chunk_pos.0.x, chunk_pos.0.y, chunk_pos.0.z))
    }

    /// Remove the chunk position with the highest priority and return it with its item, `None`
    /// if the queue is empty. Which of several positions with the highest priority comes out is
    /// left open.
    pub fn pop(&mut self) -> (r: Option<(ChunkPos, T)>)
        requires
            old(self).wf(),
        ensures
            final(self).wf(),
            r is None <==> old(self)@ == Map::<ChunkPos, (u32, T)>::empty(),
            r is None ==> final(self)@ == old(self)@,
            r matches Some((p, item)) ==> old(self)@.contains_key(p) && old(self)@[p].1 == item && final(self)@
                == old(self)@.remove(p) && forall|q: ChunkPos| #[trigger] old(self)@.contains_key(q) ==> old(self)@[q].0
                <= old(self)@[p].0,
    {
        let ghost before = *self;
        let popped = job_pq_pop(&mut self.priorities);
        match popped {
            None => {
                proof {
                    assert(before@ =~= Map::<ChunkPos, (u32, T)>::empty()) by {
                        assert forall|p: ChunkPos| !before@.contains_key(p) by {
                            assert(!before.spec_priorities().contains_key(pos_tuple(p)));
                        }
                    }
                }
                None
            },
            Some((t, _priority)) => {
                let chunk_pos = ChunkPos::new(t.0, t.1, t.2);
                let key = item_key_of(chunk_pos);
                proof {
                    assert(pos_tuple(chunk_pos) == t);
                    assert(before.spec_priorities().contains_key(pos_tuple(chunk_pos)) == before.spec_items().contains_key(item_key(chunk_pos)));
                    if before@ == Map::<ChunkPos, (u32, T)>::empty() {
                        assert(before@.contains_key(chunk_pos));
                    }
                }
                match self.items.remove(&key) {
                    Some(item) => {
                        proof {
                            assert forall|p: ChunkPos| #[trigger] self.spec_priorities().contains_key(pos_tuple(p)) == self.spec_items().contains_key(item_key(p)) by {
                                lemma_item_key_injective(p, chunk_pos);
                                assert(before.spec_priorities().contains_key(pos_tuple(p)) == before.spec_items().contains_key(item_key(p)));
                            }
                            assert forall|p: ChunkPos| p != chunk_pos implies pos_tuple(p) != pos_tuple(chunk_pos) && item_key(p) != item_key(chunk_pos) by {
                                lemma_item_key_injective(p, chunk_pos);
                            }
                            assert(self@ =~= before@.remove(chunk_pos));
                            assert forall|q: ChunkPos| #[trigger] before@.contains_key(q) implies before@[q].0 <= before@[chunk_pos].0 by {
                                assert(before.spec_priorities().contains_key(pos_tuple(q)));
                            }
                        }
                        Some((chunk_pos, item))
                    },
                    None => None,
                }
            },
        }
    }

    /// Recalculate the priority of every item in the queue with `callback`, which gets each
    /// chunk position and its item.
    pub fn recalculate_priorities<F: Fn(ChunkPos, &T) -> u32>(&mut self, callback: F)
        requires
            old(self).wf(),
            forall|p: ChunkPos, item: &T| call_requires(callback, (p, item)),
        ensures
            final(self).wf(),
            final(self)@.dom() == old(self)@.dom(),
            forall|p: ChunkPos|
                #[trigger] final(self)@.contains_key(p) ==> final(self)@[p].1 == old(self)@[p].1 && call_ensures(
                    callback,
                    (p, &old(self)@[p].1),
                    final(self)@[p].0,
                ),
    {
        let ghost before = *self;
        let items = job_pq_items(&self.priorities);
        let mut i: usize = 0;
        while i < items.len()
            invariant
                0 <= i <= items@.len(),
                items@.no_duplicates(),
                forall|t: (i32, i32, i32)| items@.contains(t) <==> before.spec_priorities().contains_key(t),
                before.wf(),
                self.spec_items() == before.spec_items(),
                self.spec_priorities().dom() == before.spec_priorities().dom(),
                forall|p: ChunkPos| #![trigger self.spec_priorities()[pos_tuple(p)]]
                    before.spec_priorities().contains_key(pos_tuple(p)) ==> (if exists|k: int| 0 <= k < i && items@[k] == pos_tuple(p) {
                        call_ensures(callback, (p, &before.spec_items()[item_key(p)]), self.spec_priorities()[pos_tuple(p)])
                    } else {
                        self.spec_priorities()[pos_tuple(p)] == before.spec_priorities()[pos_tuple(p)]
                    }),
                forall|p: ChunkPos, item: &T| call_requires(callback, (p, item)),
            decreases items@.len() - i,
        {
            let t = items[i];
            let chunk_pos = ChunkPos::new(t.0, t.1, t.2);
            let key = item_key_of(chunk_pos);
            proof {
                assert(items@.contains(t));
                assert(pos_tuple(chunk_pos) == t);
                assert(before.spec_priorities().contains_key(pos_tuple(chunk_pos)) == before.spec_items().contains_key(item_key(chunk_pos)));
            }
            let ghost mid = self.spec_priorities();
            match self.items.get(&key) {
                Some(item) => {
                    let priority = callback(chunk_pos, item);
                    let _ = job_pq_change_priority(&mut self.priorities, t, priority);
                    proof {
                        assert forall|p: ChunkPos| #![trigger self.spec_priorities()[pos_tuple(p)]]
                            before.spec_priorities().contains_key(pos_tuple(p)) implies (if exists|k: int| 0 <= k < i + 1 && items@[k] == pos_tuple(p) {
                                call_ensures(callback, (p, &before.spec_items()[item_key(p)]), self.spec_priorities()[pos_tuple(p)])
                            } else {
                                self.spec_priorities()[pos_tuple(p)] == before.spec_priorities()[pos_tuple(p)]
                            }) by {
                            if pos_tuple(p) == t {
                                assert(p == chunk_pos);
                                assert(items@[i as int] == pos_tuple(p));
                            } else {
                                assert(mid[pos_tuple(p)] == self.spec_priorities()[pos_tuple(p)]);
                                if exists|k: int| 0 <= k < i + 1 && items@[k] == pos_tuple(p) {
                                    let k = choose|k: int| 0 <= k < i + 1 && items@[k] == pos_tuple(p);
                                    assert(k < i);
                                }
                            }
                        }
                        assert(self.spec_priorities().dom() =~= before.spec_priorities().dom());
                    }
                },
                None => {},
            }
            i = i + 1;
        }
        proof {
            assert forall|p: ChunkPos| #[trigger] self.spec_priorities().contains_key(pos_tuple(p)) == self.spec_items().contains_key(item_key(p)) by {
                assert(before.spec_priorities().contains_key(pos_tuple(p)) == before.spec_items().contains_key(item_key(p)));
            }
            assert(self@.dom() =~= before@.dom());
            assert forall|p: ChunkPos| #[trigger] self@.contains_key(p) implies self@[p].1 == before@[p].1 && call_ensures(
                callback,
                (p, &before@[p].1),
                self@[p].0,
            ) by {
                assert(before.spec_priorities().contains_key(pos_tuple(p)));
                assert(items@.contains(pos_tuple(p)));
                let k = choose|k: int| 0 <= k < items@.len() && items@[k] == pos_tuple(p);
                assert(self.spec_priorities()[pos_tuple(p)] == self.spec_priorities()[pos_tuple(p)]);
            }
        }
    }
}

/// The queue after a factory's output was applied at a chunk position: unchanged for `None`,
/// otherwise with the produced priority and item there.
pub open spec fn apply_factory_output<T>(queue: Map<ChunkPos, (u32, T)>, chunk_pos: ChunkPos, out: Option<(u32, T)>) -> Map<
    ChunkPos,
    (u32, T),
> {
    match out {
        None => queue,
        Some((priority, item)) => queue.insert(chunk_pos, (priority, item)),
    }
}

impl<T> ChunkJobQueue<T> {
    /// Add an item by calling `factory` with the priority and item at the chunk position (`None`
    /// if there is none). If the factory returns a priority and an item, they replace whatever
    /// was there, whatever its priority (unlike [`ChunkJobQueue::push`], this can lower a
    /// priority); if it returns `None`, nothing changes.
    pub fn push_with<F>(&mut self, chunk_pos: ChunkPos, factory: F)
        where
            F: FnOnce(Option<(u32, &T)>) -> Option<(u32, T)>,
        requires
            old(self).wf(),
            forall|arg: Option<(u32, &T)>| call_requires(factory, (arg,)),
        ensures
            final(self).wf(),
            exists|out: Option<(u32, T)>|
                call_ensures(
                    factory,
                    ((if old(self)@.contains_key(chunk_pos) {
                        Some((old(self)@[chunk_pos].0, &old(self)@[chunk_pos].1))
                    } else {
                        None
                    }),),
                    out,
                ) && final(self)@ == #[trigger] apply_factory_output(old(self)@, chunk_pos, out),
    {
        let ghost before = *self;
        let key = item_key_of(chunk_pos);
        let t = (chunk_pos.0.x, chunk_pos.0.y, chunk_pos.0.z);
        proof {
            assert(before.spec_priorities().contains_key(pos_tuple(chunk_pos)) == before.spec_items().contains_key(item_key(chunk_pos)));
        }
        let produced = match job_pq_get_priority(&self.priorities, t) {
            Some(priority) => match self.items.get(&key) {
                Some(item) => factory(Some((priority, item))),
                None => return,
            },
            None => factory(None),
        };
        let ghost out = produced;
        proof {
            assert(call_ensures(
                factory,
                ((if before@.contains_key(chunk_pos) {
                    Some((before@[chunk_pos].0, &before@[chunk_pos].1))
                } else {
                    None
                }),),
                out,
            ));
        }
        match produced {
            None => {
                assert(self@ == apply_factory_output(before@, chunk_pos, out));
            },
            Some((priority, item)) => {
                let _ = job_pq_push(&mut self.priorities, t, priority);
                let _ = self.items.insert(key, item);
                proof {
                    assert forall|p: ChunkPos| #[trigger] self.spec_priorities().contains_key(pos_tuple(p)) == self.spec_items().contains_key(item_key(p)) by {
                        lemma_item_key_injective(p, chunk_pos);
                        assert(before.spec_priorities().contains_key(pos_tuple(p)) == before.spec_items().contains_key(item_key(p)));
                    }
                    assert forall|p: ChunkPos| p != chunk_pos implies pos_tuple(p) != pos_tuple(chunk_pos) && item_key(p) != item_key(chunk_pos) by {
                        lemma_item_key_injective(p, chunk_pos);
                    }
                    assert(self@ =~= before@.insert(chunk_pos, (priority, item)));
                    assert(self@ == apply_factory_output(before@, chunk_pos, out));
                }
            },
        }
    }
}

/// A queue never holds a priority without an item at the same chunk position, nor an item
/// without a priority: every chunk position in the queue's view has both.
pub proof fn lemma_queue_priority_iff_item<T>(q: ChunkJobQueue<T>, p: ChunkPos)
    requires
        q.wf(),
    ensures
        q@.contains_key(p) <==> q.spec_priorities().contains_key(pos_tuple(p)),
        q.spec_priorities().contains_key(pos_tuple(p)) <==> q.spec_items().contains_key(item_key(p)),
{
}

/// A mesh building job: the chunk to mesh and the tick its build event was sent on. Two jobs
/// are equal when they are for the same chunk, whatever their ticks.
#[derive(Copy, Clone, Debug)]
pub struct MeshBuilderJob {
    pub chunk_pos: ChunkPos,
    pub tick: u64,
}

impl PartialEq for MeshBuilderJob {
    fn eq(&self, other: &Self) -> (r: bool) {
        self.chunk_pos == other.chunk_pos
    }
}

impl vstd::std_specs::cmp::PartialEqSpecImpl for MeshBuilderJob {
    open spec fn obeys_eq_spec() -> bool {
        true
    }

    open spec fn eq_spec(&self, other: &Self) -> bool {
        self.chunk_pos == other.chunk_pos
    }
}

impl Eq for MeshBuilderJob {
}

/// What queueing `job` with `priority` leaves at its chunk position, given what was there: the
/// job with the higher of the two priorities if nothing was there or the existing job is not
/// newer; nothing new otherwise.
pub open spec fn newer_job_decision(existing: Option<(u32, MeshBuilderJob)>, job: MeshBuilderJob, priority: u32) -> Option<
    (u32, MeshBuilderJob),
> {
    match existing {
        Some((ex_priority, ex_job)) => if ex_job.tick <= job.tick {
            Some((if ex_priority >= priority {
                ex_priority
            } else {
                priority
            }, job))
        } else {
            None
        },
        None => Some((priority, job)),
    }
}

/// A queue after `job` was queued with `priority` unless a newer job for the same chunk was
/// already there.
pub open spec fn queued_if_newer(
    queue: Map<ChunkPos, (u32, MeshBuilderJob)>,
    job: MeshBuilderJob,
    priority: u32,
) -> Map<ChunkPos, (u32, MeshBuilderJob)> {
    apply_factory_output(
        queue,
        job.chunk_pos,
        newer_job_decision(if queue.contains_key(job.chunk_pos) {
            Some(queue[job.chunk_pos])
        } else {
            None
        }, job, priority),
    )
}

/// The job at every chunk position of a mesh building queue is filed under that position.
pub open spec fn jobs_filed_by_position(queue: Map<ChunkPos, (u32, MeshBuilderJob)>) -> bool {
    forall|p: ChunkPos| #[trigger] queue.contains_key(p) ==> queue[p].1.chunk_pos == p
}

/// The queueing rules of mesh building jobs for one level of detail: a job only replaces an
/// older (or equally old) job for the same chunk, keeping the higher priority, and a removal
/// only removes jobs older than itself.
pub struct MeshBuilderJobQueue {
    queue: ChunkJobQueue<MeshBuilderJob>,
}

impl MeshBuilderJobQueue {
    pub closed spec fn view(&self) -> Map<ChunkPos, (u32, MeshBuilderJob)> {
        self.queue@
    }

    pub closed spec fn wf(&self) -> bool {
        self.queue.wf() && jobs_filed_by_position(self.queue@)
    }

    /// An empty queue.
    pub fn new() -> (r: MeshBuilderJobQueue)
        ensures
            r.wf(),
            r@ == Map::<ChunkPos, (u32, MeshBuilderJob)>::empty(),
    {
        MeshBuilderJobQueue { queue: ChunkJobQueue::new() }
    }

    /// Queue `job` with `priority`, unless a newer job for the same chunk is already queued. An
    /// existing job that is not newer is replaced, and the higher of the two priorities kept.
    pub fn queue_if_newer(&mut self, job: MeshBuilderJob, priority: u32)
        requires
            old(self).wf(),
        ensures
            final(self).wf(),
            final(self)@ == queued_if_newer(old(self)@, job, priority),
            old(self)@.contains_key(job.chunk_pos) && old(self)@[job.chunk_pos].1.tick <= job.tick ==> final(self)@[job.chunk_pos]
                == (if old(self)@[job.chunk_pos].0 >= priority {
                old(self)@[job.chunk_pos].0
            } else {
                priority
            }, job),
            !old(self)@.contains_key(job.chunk_pos) ==> final(self)@[job.chunk_pos] == (priority, job),
    {
        proof {
            lemma_queue_if_newer_keeps_highest_priority(old(self)@, job, priority);
        }
        let ghost before = self.queue@;
        let factory = |existing: Option<(u32, &MeshBuilderJob)>| -> (r: Option<(u32, MeshBuilderJob)>)
            ensures
                r == newer_job_decision(match existing {
                    Some((p, j)) => Some((p, *j)),
                    None => None,
                }, job, priority),
            {
                match existing {
                    Some((ex_priority, ex_job)) => {
                        if ex_job.tick <= job.tick {
                            let p = if ex_priority >= priority {
                                ex_priority
                            } else {
                                priority
                            };
                            Some((p, job))
                        } else {
                            None
                        }
                    },
                    None => Some((priority, job)),
                }
            };
        self.queue.push_with(job.chunk_pos, factory);
        proof {
            let out = choose|out: Option<(u32, MeshBuilderJob)>|
                call_ensures(
                    factory,
                    ((if before.contains_key(job.chunk_pos) {
                        Some((before[job.chunk_pos].0, &before[job.chunk_pos].1))
                    } else {
                        None
                    }),),
                    out,
                ) && self.queue@ == #[trigger] apply_factory_output(before, job.chunk_pos, out);
            assert(self.queue@ == queued_if_newer(before, job, priority));
            assert forall|p: ChunkPos| #[trigger] self.queue@.contains_key(p) implies self.queue@[p].1.chunk_pos == p by {
                if p != job.chunk_pos {
                    assert(before.contains_key(p));
                }
            }
        }
    }

    /// Queue the job of a build event for `chunk_pos` at `tick`, then the same job for every
    /// selected neighbor that has a mesh (`meshed`), each only if no newer job is queued for it.
    /// Neighbors are queued because their old meshes may not line up with the new one.
    pub fn queue_build_event(
        &mut self,
        chunk_pos: ChunkPos,
        tick: u64,
        priority: u32,
        neighbors: NeighborSelection,
        meshed: NeighborSelection,
    )
        requires
            old(self).wf(),
            forall|off: IVec3| #[trigger] neighbors.spec_selected(off) ==> neighbor_in_range(chunk_pos, off),
        ensures
            final(self).wf(),
            final(self)@ == neighbors_queued(
                queued_if_newer(old(self)@, MeshBuilderJob { chunk_pos, tick }, priority),
                chunk_pos,
                tick,
                priority,
                neighbors,
                meshed,
            ),
    {
        self.queue_if_newer(MeshBuilderJob { chunk_pos, tick }, priority);
        let ghost after_center = self@;
        let selected = neighbors.selected();
        let mut i: usize = 0;
        proof {
            assert(self@ =~= offsets_queued(after_center, chunk_pos, tick, priority, selected@.subrange(0, 0), meshed));
        }
        while i < selected.len()
            invariant
                self.wf(),
                0 <= i <= selected@.len(),
                forall|p: IVec3| #![trigger selected@.contains(p)] #![trigger neighbors.spec_selected(p)] selected@.contains(p) <==> neighbors.spec_selected(p),
                forall|a: int, b: int| 0 <= a < b < selected@.len() ==> lex_less(selected@[a], selected@[b]),
                forall|off: IVec3| #[trigger] neighbors.spec_selected(off) ==> neighbor_in_range(chunk_pos, off),
                self@ == offsets_queued(after_center, chunk_pos, tick, priority, selected@.subrange(0, i as int), meshed),
            decreases selected@.len() - i,
        {
            let offset = selected[i];
            proof {
                assert(selected@.contains(offset));
                assert(spec_is_valid_neighbor_position(offset));
            }
            let nb = ChunkPos::new(chunk_pos.0.x + offset.x, chunk_pos.0.y + offset.y, chunk_pos.0.z + offset.z);
            let has_mesh = match meshed.get(offset) {
                Ok(b) => b,
                Err(_) => false,
            };
            let ghost cur = self@;
            if has_mesh {
                self.queue_if_newer(MeshBuilderJob { chunk_pos: nb, tick }, priority);
            }
            proof {
                let done = selected@.subrange(0, i as int);
                let next = selected@.subrange(0, i + 1);
                assert(nb == neighbor_chunk(chunk_pos, offset));
                assert forall|k: int| 0 <= k < done.len() implies #[trigger] neighbor_chunk(chunk_pos, done[k]) != nb by {
                    assert(lex_less(selected@[k], selected@[i as int]));
                    assert(selected@.contains(selected@[k]));
                    assert(neighbors.spec_selected(selected@[k]));
                    lemma_neighbor_chunk_injective(chunk_pos, done[k], offset);
                }
                assert(!offset_target(chunk_pos, done, meshed, nb));
                assert forall|p: ChunkPos| offset_target(chunk_pos, next, meshed, p) == (offset_target(chunk_pos, done, meshed, p)
                    || (meshed.spec_selected(offset) && p == nb)) by {
                    if offset_target(chunk_pos, next, meshed, p) {
                        let k = choose|k: int| 0 <= k < next.len() && meshed.spec_selected(next[k]) && #[trigger] neighbor_chunk(chunk_pos, next[k]) == p;
                        if k < i {
                            assert(done[k] == next[k]);
                        }
                    }
                    if offset_target(chunk_pos, done, meshed, p) {
                        let k = choose|k: int| 0 <= k < done.len() && meshed.spec_selected(done[k]) && #[trigger] neighbor_chunk(chunk_pos, done[k]) == p;
                        assert(next[k] == done[k]);
                    }
                    if meshed.spec_selected(offset) && p == nb {
                        assert(next[i as int] == offset);
                    }
                }
                if has_mesh {
                    assert(self@ =~= offsets_queued(after_center, chunk_pos, tick, priority, next, meshed));
                } else {
                    assert(self@ =~= offsets_queued(after_center, chunk_pos, tick, priority, next, meshed));
                }
            }
            i = i + 1;
        }
        proof {
            assert(selected@.subrange(0, selected@.len() as int) =~= selected@);
            assert forall|p: ChunkPos| offset_target(chunk_pos, selected@, meshed, p) == neighbor_target(chunk_pos, neighbors, meshed, p) by {
                if offset_target(chunk_pos, selected@, meshed, p) {
                    let k = choose|k: int| 0 <= k < selected@.len() && meshed.spec_selected(selected@[k]) && #[trigger] neighbor_chunk(chunk_pos, selected@[k]) == p;
                    assert(selected@.contains(selected@[k]));
                }
                if neighbor_target(chunk_pos, neighbors, meshed, p) {
                    let off = choose|off: IVec3| neighbors.spec_selected(off) && meshed.spec_selected(off) && #[trigger] neighbor_chunk(chunk_pos, off) == p;
                    assert(selected@.contains(off));
                    let k = choose|k: int| 0 <= k < selected@.len() && selected@[k] == off;
                    assert(neighbor_chunk(chunk_pos, selected@[k]) == p);
                }
            }
            assert(self@ =~= neighbors_queued(after_center, chunk_pos, tick, priority, neighbors, meshed));
        }
    }

    /// Handle a build event with background urgency: queue its job at the event's priority, as
    /// [`MeshBuilderJobQueue::queue_build_event`] does. `meshed` holds the neighbor offsets of the
    /// event's chunk whose chunks have a mesh.
    pub fn handle_build_mesh_event(&mut self, event: BuildChunkMeshEvent, meshed: NeighborSelection)
        requires
            old(self).wf(),
            event.urgency is P1,
            forall|off: IVec3| #[trigger] event.neighbors.spec_selected(off) ==> neighbor_in_range(event.chunk_pos, off),
        ensures
            final(self).wf(),
            final(self)@ == neighbors_queued(
                queued_if_newer(old(self)@, MeshBuilderJob { chunk_pos: event.chunk_pos, tick: event.tick }, event.urgency->P1_0),
                event.chunk_pos,
                event.tick,
                event.urgency->P1_0,
                event.neighbors,
                meshed,
            ),
    {
        let priority = match event.urgency {
            MeshJobUrgency::P1(p) => p,
            MeshJobUrgency::P0 => 0,
        };
        self.queue_build_event(event.chunk_pos, event.tick, priority, event.neighbors, meshed);
    }

    /// Handle a removal event: remove the queued job for its chunk if that job is older than
    /// the event; a newer job stays.
    pub fn handle_remove_mesh_event(&mut self, event: RemoveChunkMeshEvent)
        requires
            old(self).wf(),
        ensures
            final(self).wf(),
            final(self)@ == (if old(self)@.contains_key(event.chunk_pos) && old(self)@[event.chunk_pos].1.tick < event.tick {
                old(self)@.remove(event.chunk_pos)
            } else {
                old(self)@
            }),
    {
        self.remove_if_older(event.chunk_pos, event.tick)
    }

    /// Remove the queued job for `chunk_pos` if it is older than the removal (sent at `tick`);
    /// a newer job stays.
    pub fn remove_if_older(&mut self, chunk_pos: ChunkPos, tick: u64)
        requires
            old(self).wf(),
        ensures
            final(self).wf(),
            final(self)@ == (if old(self)@.contains_key(chunk_pos) && old(self)@[chunk_pos].1.tick < tick {
                old(self)@.remove(chunk_pos)
            } else {
                old(self)@
            }),
    {
        let existing_tick = match self.queue.get(chunk_pos) {
            None => return,
            Some(job) => job.tick,
        };
        // The existing job is newer than the removal event.
        if existing_tick >= tick {
            return;
        }
        let _ = self.queue.remove(chunk_pos);
    }

    /// Remove and return the queued job with the highest priority, `None` if there is none.
    pub fn pop(&mut self) -> (r: Option<MeshBuilderJob>)
        requires
            old(self).wf(),
        ensures
            final(self).wf(),
            r is None <==> old(self)@ == Map::<ChunkPos, (u32, MeshBuilderJob)>::empty(),
            r matches Some(job) ==> old(self)@.contains_key(job.chunk_pos) && old(self)@[job.chunk_pos].1 == job
                && final(self)@ == old(self)@.remove(job.chunk_pos) && forall|q: ChunkPos|
                #[trigger] old(self)@.contains_key(q) ==> old(self)@[q].0 <= old(self)@[job.chunk_pos].0,
    {
        match self.queue.pop() {
            Some((p, job)) => {
                proof {
                    assert(self.queue@.dom() == old(self).queue@.remove(p).dom());
                    assert forall|q: ChunkPos| #[trigger] self.queue@.contains_key(q) implies self.queue@[q].1.chunk_pos == q by {
                        assert(old(self).queue@.contains_key(q));
                    }
                }
                Some(job)
            },
            None => None,
        }
    }

    /// Recalculate the priority of every queued job with `priority_of`, which gets each job's
    /// chunk position and the job (a closeness to the observers, say). The jobs themselves stay.
    pub fn recalculate_priorities<F: Fn(ChunkPos, &MeshBuilderJob) -> u32>(&mut self, priority_of: F)
        requires
            old(self).wf(),
            forall|p: ChunkPos, job: &MeshBuilderJob| call_requires(priority_of, (p, job)),
        ensures
            final(self).wf(),
            final(self)@.dom() == old(self)@.dom(),
            forall|p: ChunkPos|
                #[trigger] final(self)@.contains_key(p) ==> final(self)@[p].1 == old(self)@[p].1 && call_ensures(
                    priority_of,
                    (p, &old(self)@[p].1),
                    final(self)@[p].0,
                ),
    {
        self.queue.recalculate_priorities(priority_of);
        proof {
            assert forall|q: ChunkPos| #[trigger] self.queue@.contains_key(q) implies self.queue@[q].1.chunk_pos == q by {
                assert(old(self).queue@.contains_key(q));
            }
        }
    }
}

/// A queue of mesh building jobs, one per chunk, each with the tick of its most recent
/// request and its priority.
pub struct TickedMeshJobQueue(ChunkJobQueue<u64>);

impl TickedMeshJobQueue {
    /// The priority and tick of the job queued for each chunk.
    pub closed spec fn view(&self) -> Map<ChunkPos, (u32, u64)> {
        self.0@
    }

    pub closed spec fn wf(&self) -> bool {
        self.0.wf()
    }

    /// An empty queue.
    pub fn new() -> (r: TickedMeshJobQueue)
        ensures
            r.wf(),
            r@ == Map::<ChunkPos, (u32, u64)>::empty(),
    {
        TickedMeshJobQueue(ChunkJobQueue::new())
    }

    /// Queue a job for a chunk. If one is already queued, it keeps the newer of the two ticks
    /// and the higher of the two priorities.
    pub fn push(&mut self, chunk_pos: ChunkPos, tick: u64, priority: u32)
        requires
            old(self).wf(),
        ensures
            final(self).wf(),
            final(self)@ == old(self)@.insert(chunk_pos, if old(self)@.contains_key(chunk_pos) {
                (
                    if old(self)@[chunk_pos].0 >= priority { old(self)@[chunk_pos].0 } else { priority },
                    if old(self)@[chunk_pos].1 >= tick { old(self)@[chunk_pos].1 } else { tick },
                )
            } else {
                (priority, tick)
            }),
    {
        let newest = match self.0.get(chunk_pos) {
            Some(existing) => if *existing >= tick {
                *existing
            } else {
                tick
            },
            None => tick,
        };
        let _ = self.0.push(chunk_pos, newest, priority);
    }

    /// Remove and return the job with the highest priority, `None` if there is none.
    pub fn pop(&mut self) -> (r: Option<MeshBuilderJob>)
        requires
            old(self).wf(),
        ensures
            final(self).wf(),
            r is None <==> old(self)@ == Map::<ChunkPos, (u32, u64)>::empty(),
            r matches Some(job) ==> old(self)@.contains_key(job.chunk_pos) && old(self)@[job.chunk_pos].1 == job.tick
                && final(self)@ == old(self)@.remove(job.chunk_pos) && forall|q: ChunkPos|
                #[trigger] old(self)@.contains_key(q) ==> old(self)@[q].0 <= old(self)@[job.chunk_pos].0,
    {
        match self.0.pop() {
            Some((chunk_pos, tick)) => Some(MeshBuilderJob { chunk_pos, tick }),
            None => None,
        }
    }

    /// Remove the job queued for a chunk, but only if it is older than the removal at `tick`.
    pub fn remove(&mut self, chunk_pos: ChunkPos, tick: u64)
        requires
            old(self).wf(),
        ensures
            final(self).wf(),
            final(self)@ == (if old(self)@.contains_key(chunk_pos) && old(self)@[chunk_pos].1 < tick {
                old(self)@.remove(chunk_pos)
            } else {
                old(self)@
            }),
    {
        let contained = match self.0.get(chunk_pos) {
            Some(t) => *t,
            None => return,
        };
        if contained < tick {
            let _ = self.0.remove(chunk_pos);
        }
    }
}

/// The chunk position at an offset from another.
pub open spec fn neighbor_chunk(chunk_pos: ChunkPos, offset: IVec3) -> ChunkPos {
    ChunkPos(
        IVec3 {
            x: (chunk_pos.0.x + offset.x) as i32,
            y: (chunk_pos.0.y + offset.y) as i32,
            z: (chunk_pos.0.z + offset.z) as i32,
        },
    )
}

/// The chunk at `offset` from `chunk_pos` has a position that fits in `i32`.
pub open spec fn neighbor_in_range(chunk_pos: ChunkPos, offset: IVec3) -> bool {
    &&& i32::MIN <= chunk_pos.0.x + offset.x <= i32::MAX
    &&& i32::MIN <= chunk_pos.0.y + offset.y <= i32::MAX
    &&& i32::MIN <= chunk_pos.0.z + offset.z <= i32::MAX
}

proof fn lemma_neighbor_chunk_injective(chunk_pos: ChunkPos, a: IVec3, b: IVec3)
    requires
        neighbor_in_range(chunk_pos, a),
        neighbor_in_range(chunk_pos, b),
        a != b,
    ensures
        neighbor_chunk(chunk_pos, a) != neighbor_chunk(chunk_pos, b),
{
    if neighbor_chunk(chunk_pos, a) == neighbor_chunk(chunk_pos, b) {
        assert(neighbor_chunk(chunk_pos, a).0.x == neighbor_chunk(chunk_pos, b).0.x);
        assert(neighbor_chunk(chunk_pos, a).0.y == neighbor_chunk(chunk_pos, b).0.y);
        assert(neighbor_chunk(chunk_pos, a).0.z == neighbor_chunk(chunk_pos, b).0.z);
        assert(a == b);
    }
}

/// `p` is the chunk at one of the given offsets that has a mesh.
pub open spec fn offset_target(chunk_pos: ChunkPos, offsets: Seq<IVec3>, meshed: NeighborSelection, p: ChunkPos) -> bool {
    exists|k: int| 0 <= k < offsets.len() && meshed.spec_selected(offsets[k]) && #[trigger] neighbor_chunk(chunk_pos, offsets[k]) == p
}

/// `p` is the chunk at a selected neighbor offset that has a mesh.
pub open spec fn neighbor_target(chunk_pos: ChunkPos, neighbors: NeighborSelection, meshed: NeighborSelection, p: ChunkPos) -> bool {
    exists|off: IVec3| neighbors.spec_selected(off) && meshed.spec_selected(off) && #[trigger] neighbor_chunk(chunk_pos, off) == p
}

/// A queue with the job at `tick` queued, if no newer one is there, at every chunk position for
/// which `target` holds.
pub open spec fn targets_queued(
    queue: Map<ChunkPos, (u32, MeshBuilderJob)>,
    tick: u64,
    priority: u32,
    target: spec_fn(ChunkPos) -> bool,
) -> Map<ChunkPos, (u32, MeshBuilderJob)> {
    Map::new(
        |p: ChunkPos| if target(p) {
            queued_if_newer(queue, MeshBuilderJob { chunk_pos: p, tick }, priority).contains_key(p)
        } else {
            queue.contains_key(p)
        },
        |p: ChunkPos| if target(p) {
            queued_if_newer(queue, MeshBuilderJob { chunk_pos: p, tick }, priority)[p]
        } else {
            queue[p]
        },
    )
}

/// A queue with the job at `tick` queued at the chunks of the given offsets that have a mesh.
pub open spec fn offsets_queued(
    queue: Map<ChunkPos, (u32, MeshBuilderJob)>,
    chunk_pos: ChunkPos,
    tick: u64,
    priority: u32,
    offsets: Seq<IVec3>,
    meshed: NeighborSelection,
) -> Map<ChunkPos, (u32, MeshBuilderJob)> {
    targets_queued(queue, tick, priority, |p: ChunkPos| offset_target(chunk_pos, offsets, meshed, p))
}

/// A queue with the job at `tick` queued at every selected neighbor chunk that has a mesh.
pub open spec fn neighbors_queued(
    queue: Map<ChunkPos, (u32, MeshBuilderJob)>,
    chunk_pos: ChunkPos,
    tick: u64,
    priority: u32,
    neighbors: NeighborSelection,
    meshed: NeighborSelection,
) -> Map<ChunkPos, (u32, MeshBuilderJob)> {
    targets_queued(queue, tick, priority, |p: ChunkPos| neighbor_target(chunk_pos, neighbors, meshed, p))
}

/// Queueing never replaces a job with an older one, and never lowers the priority of a job that
/// stays: after queueing, the job at the chunk is at least as new as before, with at least the
/// same priority.
pub proof fn lemma_queue_if_newer_monotone(queue: Map<ChunkPos, (u32, MeshBuilderJob)>, job: MeshBuilderJob, priority: u32)
    requires
        queue.contains_key(job.chunk_pos),
    ensures
        queued_if_newer(queue, job, priority).contains_key(job.chunk_pos),
        queued_if_newer(queue, job, priority)[job.chunk_pos].1.tick >= queue[job.chunk_pos].1.tick,
        queued_if_newer(queue, job, priority)[job.chunk_pos].0 >= queue[job.chunk_pos].0,
        forall|p: ChunkPos| p != job.chunk_pos ==> #[trigger] queued_if_newer(queue, job, priority).contains_key(p) == queue.contains_key(p),
{
}

/// What queueing a mesh building job does to the queue. A chunk without a job gets the job at
/// the given priority. A chunk whose job is not newer gets the new job, at the higher of the
/// old and the given priorities: so a job never loses priority by being replaced, and queueing
/// with a higher priority raises it. A chunk whose job is newer keeps it. Other chunks keep
/// their jobs.
pub proof fn lemma_queue_if_newer_keeps_highest_priority(
    queue: Map<ChunkPos, (u32, MeshBuilderJob)>,
    job: MeshBuilderJob,
    priority: u32,
)
    ensures
        ({
            let after = queued_if_newer(queue, job, priority);
            let pos = job.chunk_pos;
            &&& !queue.contains_key(pos) ==> after.contains_key(pos) && after[pos] == (priority, job)
            &&& queue.contains_key(pos) && queue[pos].1.tick <= job.tick ==> {
                &&& after.contains_key(pos)
                &&& after[pos].1 == job
                &&& after[pos].0 >= priority
                &&& after[pos].0 >= queue[pos].0
                &&& (after[pos].0 == priority || after[pos].0 == queue[pos].0)
            }
            &&& queue.contains_key(pos) && queue[pos].1.tick > job.tick ==> after == queue
            &&& forall|p: ChunkPos|
                p != pos ==> (#[trigger] after.contains_key(p) == queue.contains_key(p) && (queue.contains_key(p)
                    ==> after[p] == queue[p]))
        }),
{
}

/// What a mesh builder worker finds out about the chunk of a job before meshing it.
#[derive(Copy, Clone, Debug, PartialEq, Eq, Structural)]
pub enum JobChunkState {
    /// The chunk is not loaded (any more).
    NotLoaded,
    /// The chunk is loaded, but its data has not been generated yet.
    Primordial,
    /// The chunk is loaded and flagged transparent: it holds nothing to mesh.
    Transparent,
    /// The chunk is loaded and has data to mesh.
    Meshable,
}

/// What a mesh builder worker does with a job once it knows the state of its chunk.
#[derive(Copy, Clone, Debug, PartialEq, Eq, Structural)]
pub enum JobStart {
    /// Drop the job.
    Ignore,
    /// Send an empty mesh for the job right away, and clear the chunk's remeshing flags.
    FinishEmpty,
    /// Mesh the chunk together with its neighbors.
    Build,
}

/// The first decision of a mesh builder worker: a job for a chunk that is not loaded, or not
/// generated yet (such a job was sent by mistake, or the chunk was reloaded since), is dropped;
/// a transparent chunk holds no data, so its mesh is empty; any other chunk is meshed.
pub fn start_mesh_job(state: JobChunkState) -> (r: JobStart)
    ensures
        r == (match state {
            JobChunkState::NotLoaded => JobStart::Ignore,
            JobChunkState::Primordial => JobStart::Ignore,
            JobChunkState::Transparent => JobStart::FinishEmpty,
            JobChunkState::Meshable => JobStart::Build,
        }),
{
    match state {
        JobChunkState::NotLoaded => JobStart::Ignore,
        JobChunkState::Primordial => JobStart::Ignore,
        JobChunkState::Transparent => JobStart::FinishEmpty,
        JobChunkState::Meshable => JobStart::Build,
    }
}

/// The last decision of a mesh builder worker, from how meshing went: `None` when a neighbor
/// could not be read right away (it is being written to, and a new job will come once that is
/// done), else the mesher's result. Returns the mesh to send, if any, and whether to clear the
/// chunk's remeshing flags: a built mesh is sent, a failure sends nothing, and both clear the
/// flags; a busy neighbor leaves everything as it is.
pub fn finish_mesh_job(attempt: Option<Result<ChunkMeshData, MesherError>>) -> (r: (Option<ChunkMeshData>, bool))
    ensures
        r == (match attempt {
            None => (None, false),
            Some(Ok(mesh)) => (Some(mesh), true),
            Some(Err(_)) => (None, true),
        }),
{
    match attempt {
        None => (None, false),
        Some(Ok(mesh)) => (Some(mesh), true),
        Some(Err(_)) => (None, true),
    }
}

} // verus!
