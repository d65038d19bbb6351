//! Decisions of the world controller's systems: which chunk border events actors cause, when
//! the chunk loading handler works through its backlogs, and which chunks the meshing system
//! queues.
use vstd::prelude::*;
use crate::bounding_box::ChunkPos;

verus! {

/// What the chunk loading handler does in a cycle.
#[derive(Copy, Clone, Debug, PartialEq, Eq, Structural)]
pub enum LoadCycleAction {
    /// Nothing to process: return early.
    Skip,
    /// Process both backlogs, forcing the global lock if `force` is set.
    Process { force: bool },
}

/// The action of a chunk loading cycle. `stalled_for` is the time since the last processed
/// cycle, `None` if there was none; `max_stall` the longest allowed stall, in the same unit.
/// Nothing is processed while either backlog is empty. Otherwise the global lock is forced if
/// either backlog holds more than `threshold` events, or the handler stalled too long.
pub fn load_cycle_action(
    load_backlog: usize,
    unload_backlog: usize,
    threshold: usize,
    stalled_for: Option<u64>,
    max_stall: u64,
) -> (r: LoadCycleAction)
    ensures
        r == (if load_backlog == 0 || unload_backlog == 0 {
            LoadCycleAction::Skip
        } else {
            LoadCycleAction::Process {
                force: load_backlog > threshold || unload_backlog > threshold || (stalled_for matches Some(
                    s,
                ) && s > max_stall),
            }
        }),
{
    let overtime = match stalled_for {
        Some(s) => s > max_stall,
        None => false,
    };
    if load_backlog == 0 || unload_backlog == 0 {
        return LoadCycleAction::Skip;
    }
    LoadCycleAction::Process { force: load_backlog > threshold || unload_backlog > threshold || overtime }
}

/// An actor crossed a chunk border, or its chunk was recorded for the first time (`new`, with
/// the old and the new chunk the same).
#[derive(Copy, Clone, Debug, PartialEq, Eq, Structural)]
pub struct CrossChunkBorder {
    pub new: bool,
    pub old_chunk: ChunkPos,
    pub new_chunk: ChunkPos,
}

/// The border event of an actor whose position is first recorded in `chunk_pos`: it is new,
/// and its old chunk is its new chunk.
pub fn first_chunk_event(chunk_pos: ChunkPos) -> (r: CrossChunkBorder)
    ensures
        r == (CrossChunkBorder { new: true, old_chunk: chunk_pos, new_chunk: chunk_pos }),
{
    CrossChunkBorder { new: true, old_chunk: chunk_pos, new_chunk: chunk_pos }
}

/// The border event of an actor now in `current`, that was last recorded in `previous` (`None`
/// if its position was never recorded): the first recording, a crossing from the previous chunk,
/// or none if it stayed in its chunk. The actor's recorded chunk becomes `current` in every case.
pub fn chunk_border_event(previous: Option<ChunkPos>, current: ChunkPos) -> (r: Option<CrossChunkBorder>)
    ensures
        r == match previous {
            None => Some(CrossChunkBorder { new: true, old_chunk: current, new_chunk: current }),
            Some(p) => if p == current {
                None
            } else {
                Some(CrossChunkBorder { new: false, old_chunk: p, new_chunk: current })
            },
        },
{
    match previous {
        None => Some(first_chunk_event(current)),
        Some(p) => {
            if p == current {
                None
            } else {
                Some(CrossChunkBorder { new: false, old_chunk: p, new_chunk: current })
            }
        },
    }
}

/// Freshly generated chunks are meshed in bulk: when more than 100 of them wait, or when more
/// than 500 milliseconds passed since they were last queued.
pub fn should_queue_fresh(num_fresh_chunks: usize, millis_since_last_fresh: u128) -> (r: bool)
    ensures
        r == (num_fresh_chunks > 100 || millis_since_last_fresh > 500),
{
    num_fresh_chunks > 100 || millis_since_last_fresh > 500
}

/// A chunk reported as changed since the last meshing pass, with its flags.
#[derive(Copy, Clone, Debug, PartialEq, Eq, Structural)]
pub struct ChangedChunk {
    pub pos: ChunkPos,
    /// The chunk was freshly generated.
    pub fresh: bool,
    /// A block on the chunk's edge changed, so its neighbors' meshes may need updating too.
    pub edge_updated: bool,
}

/// The chunks to mesh: the changed chunks, and the neighbors that edge updates call for.
pub struct MeshingPlan {
    pub queued: Vec<ChunkPos>,
    pub extra: Vec<ChunkPos>,
}

/// A fresh chunk waits while fresh chunks are not being queued.
pub open spec fn is_skipped(c: ChangedChunk, queue_fresh: bool) -> bool {
    c.fresh && !queue_fresh
}

/// The positions of the first `n` changed chunks that are not skipped, each once, in the order
/// in which they first appear.
pub open spec fn queued_positions(changed: Seq<ChangedChunk>, queue_fresh: bool, n: nat) -> Seq<ChunkPos>
    decreases n,
{
    if n == 0 {
        Seq::empty()
    } else {
        let prev = queued_positions(changed, queue_fresh, (n - 1) as nat);
        let c = changed[n - 1];
        if !is_skipped(c, queue_fresh) && !prev.contains(c.pos) {
            prev.push(c.pos)
        } else {
            prev
        }
    }
}

/// `p` is one of the 26 chunks around `c`.
pub open spec fn is_neighbor(c: ChunkPos, p: ChunkPos) -> bool {
    &&& p != c
    &&& -1 <= p.0.x - c.0.x <= 1
    &&& -1 <= p.0.y - c.0.y <= 1
    &&& -1 <= p.0.z - c.0.z <= 1
}

/// Changed chunk `i` asks for its neighbor `p` to be meshed too: the chunk is not skipped, its
/// edge was updated, and `p` is not queued by a changed chunk up to `i`.
pub open spec fn neighbor_request(changed: Seq<ChangedChunk>, queue_fresh: bool, i: int, p: ChunkPos) -> bool {
    &&& 0 <= i < changed.len()
    &&& !is_skipped(changed[i], queue_fresh)
    &&& changed[i].edge_updated
    &&& is_neighbor(changed[i].pos, p)
    &&& !queued_positions(changed, queue_fresh, (i + 1) as nat).contains(p)
}

/// Every coordinate of a chunk position is strictly between the limits of `i32`, so that its
/// neighbors' positions fit.
pub open spec fn has_room_around(p: ChunkPos) -> bool {
    &&& i32::MIN < p.0.x < i32::MAX
    &&& i32::MIN < p.0.y < i32::MAX
    &&& i32::MIN < p.0.z < i32::MAX
}

/// The index of neighbor `p` of `c` among the 27 offsets `-1..=1` in x, then y, then z.
pub open spec fn offset_rank(c: ChunkPos, p: ChunkPos) -> int {
    (p.0.x - c.0.x + 1) * 9 + (p.0.y - c.0.y + 1) * 3 + (p.0.z - c.0.z + 1)
}

proof fn lemma_queued_positions(changed: Seq<ChangedChunk>, queue_fresh: bool, n: nat)
    requires
        n <= changed.len(),
    ensures
        queued_positions(changed, queue_fresh, n).no_duplicates(),
        forall|p: ChunkPos|
            #[trigger] queued_positions(changed, queue_fresh, n).contains(p) ==> exists|j: int|
                0 <= j < n && !is_skipped(changed[j], queue_fresh) && changed[j].pos == p,
    decreases n,
{
    if n > 0 {
        lemma_queued_positions(changed, queue_fresh, (n - 1) as nat);
        let prev = queued_positions(changed, queue_fresh, (n - 1) as nat);
        assert forall|p: ChunkPos| #[trigger] queued_positions(changed, queue_fresh, n).contains(p) implies exists|j: int|
            0 <= j < n && !is_skipped(changed[j], queue_fresh) && changed[j].pos == p by {
            if prev.contains(p) {
                let j = choose|j: int| 0 <= j < n - 1 && !is_skipped(changed[j], queue_fresh) && changed[j].pos == p;
                assert(0 <= j < n);
            } else {
                let q = queued_positions(changed, queue_fresh, n);
                let k = choose|k: int| 0 <= k < q.len() && q[k] == p;
                assert(k == prev.len());
            }
        }
    }
}

proof fn lemma_push_keeps(s: Seq<ChunkPos>, x: ChunkPos)
    ensures
        forall|p: ChunkPos| s.contains(p) ==> #[trigger] s.push(x).contains(p),
        s.push(x).contains(x),
{
    assert forall|p: ChunkPos| s.contains(p) implies #[trigger] s.push(x).contains(p) by {
        let k = choose|k: int| 0 <= k < s.len() && s[k] == p;
        assert(s.push(x)[k] == p);
    }
    assert(s.push(x)[s.len() as int] == x);
}

/// `true` if `v` holds `p`.
fn holds_pos(v: &Vec<ChunkPos>, p: ChunkPos) -> (r: bool)
    ensures
        r == v@.contains(p),
{
    let mut i: usize = 0;
    while i < v.len()
        invariant
            0 <= i <= v@.len(),
            forall|k: int| 0 <= k < i ==> v@[k] != p,
        decreases v@.len() - i,
    {
        if v[i] == p {
            assert(v@[i as int] == p);
            return true;
        }
        i = i + 1;
    }
    false
}

/// Plan a meshing pass over the changed chunks, in order. Each chunk that is not skipped (see
/// [`is_skipped`]) is queued once. Each queued chunk whose edge was updated also asks for its 26
/// neighbors; `ready` tells whether a neighbor is loaded and not being generated. A neighbor is
/// added to `extra` if it is ready and not queued yet, nor already in `extra`.
pub fn plan_meshing_jobs<F: Fn(ChunkPos) -> bool>(changed: &Vec<ChangedChunk>, queue_fresh: bool, ready: F) -> (r:
    MeshingPlan)
    requires
        forall|p: ChunkPos| call_requires(ready, (p,)),
        forall|i: int|
            0 <= i < changed@.len() && (#[trigger] changed@[i]).edge_updated ==> has_room_around(changed@[i].pos),
    ensures
        r.queued@ == queued_positions(changed@, queue_fresh, changed@.len()),
        r.queued@.no_duplicates(),
        r.extra@.no_duplicates(),
        forall|p: ChunkPos|
            #[trigger] r.extra@.contains(p) ==> call_ensures(ready, (p,), true) && exists|i: int|
                neighbor_request(changed@, queue_fresh, i, p),
        forall|i: int, p: ChunkPos|
            #[trigger] neighbor_request(changed@, queue_fresh, i, p) ==> r.extra@.contains(p) || call_ensures(
                ready,
                (p,),
                false,
            ),
{
    let mut queued: Vec<ChunkPos> = Vec::new();
    let mut extra: Vec<ChunkPos> = Vec::new();
    let mut i: usize = 0;
    while i < changed.len()
        invariant
            0 <= i <= changed@.len(),
            forall|p: ChunkPos| call_requires(ready, (p,)),
            forall|i: int|
                0 <= i < changed@.len() && (#[trigger] changed@[i]).edge_updated ==> has_room_around(changed@[i].pos),
            queued@ == queued_positions(changed@, queue_fresh, i as nat),
            extra@.no_duplicates(),
            forall|p: ChunkPos|
                #[trigger] extra@.contains(p) ==> call_ensures(ready, (p,), true) && exists|j: int|
                    0 <= j < i && neighbor_request(changed@, queue_fresh, j, p),
            forall|j: int, p: ChunkPos|
                0 <= j < i && #[trigger] neighbor_request(changed@, queue_fresh, j, p) ==> extra@.contains(p)
                    || call_ensures(ready, (p,), false),
        decreases changed@.len() - i,
    {
        let c = changed[i];
        let ghost before_extra = extra@;
        if !(c.fresh && !queue_fresh) {
            if !holds_pos(&queued, c.pos) {
                queued.push(c.pos);
            }
            assert(queued@ == queued_positions(changed@, queue_fresh, (i + 1) as nat));
            if c.edge_updated {
                assert(has_room_around(changed@[i as int].pos));
                let mut k: i32 = 0;
                while k < 27
                    invariant
                        0 <= k <= 27,
                        i < changed@.len(),
                        c == changed@[i as int],
                        !is_skipped(c, queue_fresh),
                        c.edge_updated,
                        has_room_around(c.pos),
                        forall|p: ChunkPos| call_requires(ready, (p,)),
                        queued@ == queued_positions(changed@, queue_fresh, (i + 1) as nat),
                        extra@.no_duplicates(),
                        forall|p: ChunkPos| before_extra.contains(p) ==> #[trigger] extra@.contains(p),
                        forall|p: ChunkPos|
                            #[trigger] extra@.contains(p) ==> call_ensures(ready, (p,), true) && exists|j: int|
                                0 <= j <= i && neighbor_request(changed@, queue_fresh, j, p),
                        forall|p: ChunkPos|
                            #[trigger] neighbor_request(changed@, queue_fresh, i as int, p) && offset_rank(c.pos, p) < k
                                ==> extra@.contains(p) || call_ensures(ready, (p,), false),
                    decreases 27 - k,
                {
                    let dx = k / 9 - 1;
                    let dy = (k / 3) % 3 - 1;
                    let dz = k % 3 - 1;
                    let nb = ChunkPos::new(c.pos.0.x + dx, c.pos.0.y + dy, c.pos.0.z + dz);
                    proof {
                        assert(offset_rank(c.pos, nb) == k) by (nonlinear_arith)
                            requires
                                nb.0.x == c.pos.0.x + dx,
                                nb.0.y == c.pos.0.y + dy,
                                nb.0.z == c.pos.0.z + dz,
                                dx == k / 9 - 1,
                                dy == (k / 3) % 3 - 1,
                                dz == k % 3 - 1,
                                0 <= k < 27,
                        ;
                    }
                    let ghost extra_before_k = extra@;
                    if !(dx == 0 && dy == 0 && dz == 0) {
                        if !holds_pos(&queued, nb) && !holds_pos(&extra, nb) && ready(nb) {
                            extra.push(nb);
                            proof {
                                lemma_push_keeps(extra_before_k, nb);
                                assert(neighbor_request(changed@, queue_fresh, i as int, nb));
                                assert forall|p: ChunkPos| #[trigger] extra@.contains(p) implies call_ensures(ready, (p,), true)
                                    && exists|j: int| 0 <= j <= i && neighbor_request(changed@, queue_fresh, j, p) by {
                                    if p != nb {
                                        assert(extra_before_k.contains(p));
                                    }
                                }
                                assert forall|p: ChunkPos| before_extra.contains(p) implies #[trigger] extra@.contains(p) by {
                                    assert(extra_before_k.contains(p));
                                }
                            }
                        }
                    }
                    proof {
                        assert forall|p: ChunkPos|
                            #[trigger] neighbor_request(changed@, queue_fresh, i as int, p) && offset_rank(c.pos, p) < k + 1
                                implies extra@.contains(p) || call_ensures(ready, (p,), false) by {
                            if offset_rank(c.pos, p) == k {
                                assert(p == nb) by (nonlinear_arith)
                                    requires
                                        offset_rank(c.pos, p) == offset_rank(c.pos, nb),
                                        -1 <= p.0.x - c.pos.0.x <= 1,
                                        -1 <= p.0.y - c.pos.0.y <= 1,
                                        -1 <= p.0.z - c.pos.0.z <= 1,
                                        -1 <= nb.0.x - c.pos.0.x <= 1,
                                        -1 <= nb.0.y - c.pos.0.y <= 1,
                                        -1 <= nb.0.z - c.pos.0.z <= 1,
                                ;
                            } else {
                                assert(extra_before_k.contains(p) ==> extra@.contains(p));
                            }
                        }
                    }
                    k = k + 1;
                }
                proof {
                    assert forall|p: ChunkPos| #[trigger] neighbor_request(changed@, queue_fresh, i as int, p) implies offset_rank(
                        c.pos,
                        p,
                    ) < 27 by {}
                }
            }
        } else {
            assert(queued@ == queued_positions(changed@, queue_fresh, (i + 1) as nat));
        }
        proof {
            assert forall|j: int, p: ChunkPos|
                0 <= j < i + 1 && #[trigger] neighbor_request(changed@, queue_fresh, j, p) implies extra@.contains(p)
                    || call_ensures(ready, (p,), false) by {
                if j < i {
                    assert(before_extra.contains(p) || call_ensures(ready, (p,), false));
                }
            }
            assert forall|p: ChunkPos| #[trigger] extra@.contains(p) implies call_ensures(ready, (p,), true) && exists|j: int|
                0 <= j < i + 1 && neighbor_request(changed@, queue_fresh, j, p) by {
                if before_extra.contains(p) && extra@ == before_extra {
                }
            }
        }
        i = i + 1;
    }
    proof {
        lemma_queued_positions(changed@, queue_fresh, changed@.len());
    }
    MeshingPlan { queued, extra }
}

} // verus!
