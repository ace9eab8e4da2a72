use crate::cuboid_cache::{
    apply_plan, culled, extraction_plan, is_extracted, is_visible, lemma_apply_plan_entries,
    lemma_apply_plan_values, lemma_extraction_plan, plan_touches, CachedCuboidsView,
    CuboidBufferCache, CuboidsSnapshot,
};
use vstd::prelude::*;

verus! {

broadcast use vstd::std_specs::hash::group_hash_axioms;

/// One cuboids entity to add to a view's opaque render phase.
pub struct QueuedCuboids<Id> {
    /// Position of the entity in the view's list of visible entities.
    pub visible_index: usize,
    /// The render pipeline to draw it with.
    pub pipeline: Id,
    /// The change tick to add it with; every added entity gets a new one so
    /// that its bin is rebuilt.
    pub change_tick: u32,
}

/// A visible entity is drawn when the cache has an enabled entry for it.
pub open spec fn is_queued<C, P>(cache: Map<u64, CachedCuboidsView<C, P>>, entity: u64) -> bool {
    cache.contains_key(entity) && cache[entity].enabled
}

/// The pipeline a view draws cuboids with: the HDR one for HDR views.
pub open spec fn view_pipeline<Id>(hdr: bool, hdr_pipeline: Id, pipeline: Id) -> Id {
    if hdr {
        hdr_pipeline
    } else {
        pipeline
    }
}

/// How many of the visible entities are drawn.
pub open spec fn queued_count<C, P>(cache: Map<u64, CachedCuboidsView<C, P>>, visible: Seq<u64>) -> nat
    decreases visible.len(),
{
    if visible.len() == 0 {
        0
    } else {
        queued_count(cache, visible.drop_last()) + if is_queued(cache, visible.last()) {
            1nat
        } else {
            0nat
        }
    }
}

/// The phase items of a view, in the order of its visible entities; the
/// `j`-th item added gets change tick `next_tick + j + 1`.
pub open spec fn queued_items<C, P, Id>(
    cache: Map<u64, CachedCuboidsView<C, P>>,
    visible: Seq<u64>,
    pipeline: Id,
    next_tick: u32,
) -> Seq<QueuedCuboids<Id>>
    decreases visible.len(),
{
    if visible.len() == 0 {
        seq![]
    } else {
        let prev = queued_items(cache, visible.drop_last(), pipeline, next_tick);
        if is_queued(cache, visible.last()) {
            prev.push(
                QueuedCuboids {
                    visible_index: (visible.len() - 1) as usize,
                    pipeline,
                    change_tick: (next_tick + prev.len() + 1) as u32,
                },
            )
        } else {
            prev
        }
    }
}

/// No more entities are drawn than are visible.
pub proof fn lemma_queued_count_bounded<C, P>(
    cache: Map<u64, CachedCuboidsView<C, P>>,
    visible: Seq<u64>,
)
    ensures
        queued_count(cache, visible) <= visible.len(),
    decreases visible.len(),
{
    if visible.len() > 0 {
        lemma_queued_count_bounded(cache, visible.drop_last());
    }
}

/// There are as many items as entities drawn.
pub proof fn lemma_queued_items_len<C, P, Id>(
    cache: Map<u64, CachedCuboidsView<C, P>>,
    visible: Seq<u64>,
    pipeline: Id,
    next_tick: u32,
)
    ensures
        queued_items(cache, visible, pipeline, next_tick).len() == queued_count(cache, visible),
    decreases visible.len(),
{
    if visible.len() > 0 {
        lemma_queued_items_len(cache, visible.drop_last(), pipeline, next_tick);
    }
}

/// A prefix of the visible entities draws no more entities than all of them.
pub proof fn lemma_queued_count_prefix<C, P>(
    cache: Map<u64, CachedCuboidsView<C, P>>,
    visible: Seq<u64>,
    i: int,
)
    requires
        0 <= i <= visible.len(),
    ensures
        queued_count(cache, visible.take(i)) <= queued_count(cache, visible),
    decreases visible.len(),
{
    if i < visible.len() {
        assert(visible.drop_last().take(i) =~= visible.take(i));
        lemma_queued_count_prefix(cache, visible.drop_last(), i);
    } else {
        assert(visible.take(i) =~= visible);
    }
}

/// What a view draws: an item for exactly the visible entities that have an
/// enabled cache entry, in the order they are visible, all with the view's
/// pipeline, and with consecutive change ticks starting right after
/// `next_tick`.
pub proof fn lemma_queued_items_contents<C, P, Id>(
    cache: Map<u64, CachedCuboidsView<C, P>>,
    visible: Seq<u64>,
    pipeline: Id,
    next_tick: u32,
)
    requires
        next_tick + queued_count(cache, visible) <= u32::MAX,
        visible.len() <= usize::MAX,
    ensures
        ({
            let items = queued_items(cache, visible, pipeline, next_tick);
            &&& items.len() == queued_count(cache, visible)
            &&& forall|j: int|
                0 <= j < items.len() ==> {
                    &&& #[trigger] items[j].visible_index < visible.len()
                    &&& cache.contains_key(visible[items[j].visible_index as int])
                    &&& cache[visible[items[j].visible_index as int]].enabled
                    &&& items[j].pipeline == pipeline
                    &&& items[j].change_tick == next_tick + j + 1
                }
            &&& forall|j1: int, j2: int|
                0 <= j1 < j2 < items.len() ==> #[trigger] items[j1].visible_index
                    < #[trigger] items[j2].visible_index
            &&& forall|i: int|
                0 <= i < visible.len() && cache.contains_key(#[trigger] visible[i])
                    && cache[visible[i]].enabled ==> exists|j: int|
                    0 <= j < items.len() && #[trigger] items[j].visible_index == i
        }),
    decreases visible.len(),
{
    lemma_queued_items_len(cache, visible, pipeline, next_tick);
    if visible.len() > 0 {
        let rest = visible.drop_last();
        assert(rest =~= visible.take(visible.len() - 1));
        lemma_queued_count_prefix(cache, visible, visible.len() - 1);
        lemma_queued_items_contents(cache, rest, pipeline, next_tick);
        lemma_queued_items_len(cache, rest, pipeline, next_tick);
        let prev = queued_items(cache, rest, pipeline, next_tick);
        let items = queued_items(cache, visible, pipeline, next_tick);
        let last = QueuedCuboids {
            visible_index: (visible.len() - 1) as usize,
            pipeline,
            change_tick: (next_tick + prev.len() + 1) as u32,
        };
        if is_queued(cache, visible.last()) {
            assert(items == prev.push(last));
            assert(items[prev.len() as int] == last);
        } else {
            assert(items == prev);
        }
        assert forall|j: int| 0 <= j < items.len() implies {
            &&& #[trigger] items[j].visible_index < visible.len()
            &&& cache.contains_key(visible[items[j].visible_index as int])
            &&& cache[visible[items[j].visible_index as int]].enabled
            &&& items[j].pipeline == pipeline
            &&& items[j].change_tick == next_tick + j + 1
        } by {
            if j < prev.len() {
                assert(items[j] == prev[j]);
                assert(visible[prev[j].visible_index as int] == rest[prev[j].visible_index as int]);
            } else {
                assert(is_queued(cache, visible.last()));
                assert(visible.last() == visible[visible.len() - 1]);
                assert(prev.len() + 1 <= queued_count(cache, visible));
            }
        }
        assert forall|i: int|
            0 <= i < visible.len() && cache.contains_key(#[trigger] visible[i])
                && cache[visible[i]].enabled implies exists|j: int|
                0 <= j < items.len() && #[trigger] items[j].visible_index == i by {
            if i < visible.len() - 1 {
                assert(rest[i] == visible[i]);
                let j = choose|j: int| 0 <= j < prev.len() && #[trigger] prev[j].visible_index == i;
                assert(items[j] == prev[j]);
            } else {
                assert(visible.last() == visible[i]);
                assert(items[prev.len() as int].visible_index == i);
            }
        }
        assert forall|j1: int, j2: int|
            0 <= j1 < j2 < items.len() implies #[trigger] items[j1].visible_index
                < #[trigger] items[j2].visible_index by {
            assert(items[j1] == prev[j1]);
            if j2 < prev.len() {
                assert(items[j2] == prev[j2]);
            }
        }
    }
}

/// From extraction to drawing: after a frame's extraction and culling, an
/// entity that has instances and is visible, and that a view lists among its
/// visible entities, is drawn by that view. (The snapshots are of distinct
/// entities, as one query gives them.)
pub proof fn lemma_extracted_visible_entity_is_drawn<C, P, Id>(
    cache: Map<u64, CachedCuboidsView<C, P>>,
    snapshots: Seq<CuboidsSnapshot<C, P>>,
    material_indices: Seq<u32>,
    transform_indices: Seq<u32>,
    j: int,
    visible: Seq<u64>,
    i: int,
    pipeline: Id,
    next_tick: u32,
)
    requires
        snapshots.len() <= usize::MAX,
        forall|j1: int, j2: int|
            0 <= j1 < snapshots.len() && 0 <= j2 < snapshots.len() && j1 != j2 ==> (
            #[trigger] snapshots[j1]).entity != (#[trigger] snapshots[j2]).entity,
        0 <= j < snapshots.len(),
        is_extracted(snapshots[j]),
        is_visible(snapshots[j].visibility),
        visible.len() <= usize::MAX,
        0 <= i < visible.len(),
        visible[i] == snapshots[j].entity,
        next_tick + queued_count(
            culled(
                apply_plan(
                    cache,
                    snapshots,
                    extraction_plan(snapshots),
                    material_indices,
                    transform_indices,
                ),
            ),
            visible,
        ) <= u32::MAX,
    ensures
        ({
            let after = culled(
                apply_plan(
                    cache,
                    snapshots,
                    extraction_plan(snapshots),
                    material_indices,
                    transform_indices,
                ),
            );
            let items = queued_items(after, visible, pipeline, next_tick);
            exists|k: int| 0 <= k < items.len() && #[trigger] items[k].visible_index == i
        }),
{
    let plan = extraction_plan(snapshots);
    lemma_extraction_plan(snapshots);
    assert forall|k1: int, k2: int|
        0 <= k1 < plan.len() && 0 <= k2 < plan.len() && k1 != k2 implies (
        #[trigger] snapshots[plan[k1] as int]).entity != (#[trigger] snapshots[plan[k2] as int]).entity by {
        if k1 < k2 {
            assert(plan[k1] < plan[k2]);
        } else {
            assert(plan[k2] < plan[k1]);
        }
    }
    lemma_apply_plan_values(cache, snapshots, plan, material_indices, transform_indices);
    lemma_apply_plan_entries(cache, snapshots, plan, material_indices, transform_indices);
    let k = choose|k: int| 0 <= k < plan.len() && #[trigger] plan[k] == j;
    let s = snapshots[plan[k] as int];
    let applied = apply_plan(cache, snapshots, plan, material_indices, transform_indices);
    assert(plan_touches(snapshots, plan, s.entity));
    assert(applied.contains_key(s.entity));
    assert(applied[s.entity].enabled);
    assert(applied[s.entity].keep_alive);
    let after = culled(applied);
    assert(after.contains_key(visible[i]));
    assert(after[visible[i]].enabled);
    lemma_queued_items_contents(after, visible, pipeline, next_tick);
}

impl<C, P> CuboidBufferCache<C, P> {
    /// The opaque phase items of one view: for each visible entity, in order,
    /// whose cache entry is enabled, an item with the view's pipeline (the
    /// HDR one for an HDR view) and the next change tick. Also returns the
    /// last change tick handed out. Gives `None` when the change tick would
    /// pass `u32::MAX`.
    pub fn queue_view<Id: Copy>(
        &self,
        visible: &Vec<u64>,
        hdr: bool,
        hdr_pipeline: Id,
        pipeline: Id,
        next_tick: u32,
    ) -> (r: Option<(Vec<QueuedCuboids<Id>>, u32)>)
        ensures
            r is Some <==> next_tick + queued_count(self@, visible@) <= u32::MAX,
            r matches Some((items, last_tick)) ==> {
                &&& items@ == queued_items(
                    self@,
                    visible@,
                    view_pipeline(hdr, hdr_pipeline, pipeline),
                    next_tick,
                )
                &&& last_tick == next_tick + queued_count(self@, visible@)
                &&& last_tick == next_tick + items@.len()
                &&& forall|j: int|
                    0 <= j < items@.len() ==> {
                        &&& #[trigger] items@[j].visible_index < visible@.len()
                        &&& self@.contains_key(visible@[items@[j].visible_index as int])
                        &&& self@[visible@[items@[j].visible_index as int]].enabled
                        &&& items@[j].pipeline == (if hdr {
                            hdr_pipeline
                        } else {
                            pipeline
                        })
                        &&& items@[j].change_tick == next_tick + j + 1
                    }
                &&& forall|j1: int, j2: int|
                    0 <= j1 < j2 < items@.len() ==> #[trigger] items@[j1].visible_index
                        < #[trigger] items@[j2].visible_index
                &&& forall|i: int|
                    0 <= i < visible@.len() && self@.contains_key(#[trigger] visible@[i])
                        && self@[visible@[i]].enabled ==> exists|j: int|
                        0 <= j < items@.len() && #[trigger] items@[j].visible_index == i
            },
    {
        let ghost chosen = view_pipeline(hdr, hdr_pipeline, pipeline);
        let mut items: Vec<QueuedCuboids<Id>> = Vec::new();
        let mut tick = next_tick;
        let n = visible.len();
        let mut i: usize = 0;
        while i < n
            invariant
                n == visible@.len(),
                i <= n,
                items@ == queued_items(self@, visible@.take(i as int), chosen, next_tick),
                tick == next_tick + queued_count(self@, visible@.take(i as int)),
                chosen == view_pipeline(hdr, hdr_pipeline, pipeline),
            decreases n - i,
        {
            assert(visible@.take(i as int + 1).drop_last() =~= visible@.take(i as int));
            proof {
                lemma_queued_count_prefix(self@, visible@, i as int + 1);
                lemma_queued_items_len(self@, visible@.take(i as int), chosen, next_tick);
            }
            let entity = visible[i];
            match self.entries.get(&entity) {
                Some(entry) => {
                    if entry.enabled {
                        if tick == u32::MAX {
                            return None;
                        }
                        let pipeline_id = if hdr {
                            hdr_pipeline
                        } else {
                            pipeline
                        };
                        tick = tick + 1;
                        items.push(
                            QueuedCuboids { visible_index: i, pipeline: pipeline_id, change_tick: tick },
                        );
                    }
                },
                None => {},
            }
            i = i + 1;
        }
        assert(visible@.take(n as int) =~= visible@);
        proof {
            lemma_queued_items_contents(self@, visible@, chosen, next_tick);
        }
        Some((items, tick))
    }
}

} // verus!
