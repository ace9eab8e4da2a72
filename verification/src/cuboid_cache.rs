use std::collections::HashMap;
use vstd::prelude::*;
use vstd::std_specs::hash::spec_keys_iter;
use vstd::std_specs::iter::IteratorSpec;

verus! {

broadcast use vstd::std_specs::hash::group_hash_axioms;

/// What the render world keeps of one cuboids entity from frame to frame.
///
/// `C` is the type of one cuboid instance and `P` the type of a position;
/// the logic here only copies values of them around.
pub struct CachedCuboids<C, P> {
    /// The instances last uploaded for the entity.
    pub instance_buffer: Vec<C>,
    /// Dynamic uniform index of the entity's material.
    pub material_index: u32,
    /// The instances changed this frame and must be uploaded again.
    pub dirty: bool,
    /// The entity is visible and is to be drawn.
    pub enabled: bool,
    /// The entity was extracted this frame; cleared by culling.
    pub keep_alive: bool,
    /// Position of the entity's transform.
    pub position: P,
    /// Dynamic uniform index of the entity's transform.
    pub transform_index: u32,
}

/// The mathematical value of a [`CachedCuboids`].
pub struct CachedCuboidsView<C, P> {
    pub instance_buffer: Seq<C>,
    pub material_index: u32,
    pub dirty: bool,
    pub enabled: bool,
    pub keep_alive: bool,
    pub position: P,
    pub transform_index: u32,
}

impl<C, P> View for CachedCuboids<C, P> {
    type V = CachedCuboidsView<C, P>;

    open spec fn view(&self) -> CachedCuboidsView<C, P> {
        CachedCuboidsView {
            instance_buffer: self.instance_buffer@,
            material_index: self.material_index,
            dirty: self.dirty,
            enabled: self.enabled,
            keep_alive: self.keep_alive,
            position: self.position,
            transform_index: self.transform_index,
        }
    }
}

/// The per-entity buffers of all cuboids entities, keyed by entity (as its
/// 64-bit id).
pub struct CuboidBufferCache<C, P> {
    pub entries: HashMap<u64, CachedCuboids<C, P>>,
}

impl<C, P> View for CuboidBufferCache<C, P> {
    type V = Map<u64, CachedCuboidsView<C, P>>;

    open spec fn view(&self) -> Map<u64, CachedCuboidsView<C, P>> {
        self.entries@.map_values(|e: CachedCuboids<C, P>| e@)
    }
}

/// What extraction reads of one cuboids entity in the main world.
pub struct CuboidsSnapshot<'a, C, P> {
    /// The entity's 64-bit id.
    pub entity: u64,
    /// The entity's cuboid instances.
    pub instances: &'a Vec<C>,
    /// The cuboids component was added since extraction last ran.
    pub added: bool,
    /// The cuboids component was changed since extraction last ran.
    pub changed: bool,
    /// The entity's view visibility, where it has one.
    pub visibility: Option<bool>,
    /// Index of the entity's material in the material map.
    pub material_id: usize,
    /// Position of the entity's transform.
    pub position: P,
}

/// An entity is extracted only when it has at least one instance.
pub open spec fn is_extracted<C, P>(s: CuboidsSnapshot<C, P>) -> bool {
    s.instances@.len() > 0
}

/// An entity without a visibility component counts as visible.
pub open spec fn is_visible(visibility: Option<bool>) -> bool {
    match visibility {
        Some(v) => v,
        None => true,
    }
}

/// The instances must be uploaded again when the component was added or
/// changed.
pub open spec fn needs_upload<C, P>(s: CuboidsSnapshot<C, P>) -> bool {
    s.added || s.changed
}

/// The indices of the extracted snapshots, in order.
pub open spec fn extraction_plan<C, P>(snapshots: Seq<CuboidsSnapshot<C, P>>) -> Seq<usize>
    decreases snapshots.len(),
{
    if snapshots.len() == 0 {
        seq![]
    } else {
        let prev = extraction_plan(snapshots.drop_last());
        if is_extracted(snapshots.last()) {
            prev.push((snapshots.len() - 1) as usize)
        } else {
            prev
        }
    }
}

/// The cache entry of an extracted entity, given its previous entry.
pub open spec fn extracted_entry<C, P>(
    prev: Option<CachedCuboidsView<C, P>>,
    s: CuboidsSnapshot<C, P>,
    material_index: u32,
    transform_index: u32,
) -> CachedCuboidsView<C, P> {
    CachedCuboidsView {
        instance_buffer: if needs_upload(s) {
            s.instances@
        } else {
            match prev {
                Some(e) => e.instance_buffer,
                None => seq![],
            }
        },
        material_index,
        dirty: needs_upload(s),
        enabled: is_visible(s.visibility),
        keep_alive: true,
        position: s.position,
        transform_index,
    }
}

/// The cache after extracting the snapshots named by `plan`, in order; the
/// `k`-th extracted entity gets transform index `transform_indices[k]`.
pub open spec fn apply_plan<C, P>(
    cache: Map<u64, CachedCuboidsView<C, P>>,
    snapshots: Seq<CuboidsSnapshot<C, P>>,
    plan: Seq<usize>,
    material_indices: Seq<u32>,
    transform_indices: Seq<u32>,
) -> Map<u64, CachedCuboidsView<C, P>>
    decreases plan.len(),
{
    if plan.len() == 0 {
        cache
    } else {
        let k = plan.len() - 1;
        let before = apply_plan(cache, snapshots, plan.drop_last(), material_indices, transform_indices);
        let s = snapshots[plan[k] as int];
        before.insert(
            s.entity,
            extracted_entry(
                before.get(s.entity),
                s,
                material_indices[s.material_id as int],
                transform_indices[k],
            ),
        )
    }
}

/// An entry with its keep-alive flag set to `keep_alive`.
pub open spec fn with_keep_alive<C, P>(e: CachedCuboidsView<C, P>, keep_alive: bool) -> CachedCuboidsView<
    C,
    P,
> {
    CachedCuboidsView {
        instance_buffer: e.instance_buffer,
        material_index: e.material_index,
        dirty: e.dirty,
        enabled: e.enabled,
        keep_alive,
        position: e.position,
        transform_index: e.transform_index,
    }
}

/// The cache after culling: the entries that were kept alive, with their
/// keep-alive flag cleared for the next frame.
pub open spec fn culled<C, P>(cache: Map<u64, CachedCuboidsView<C, P>>) -> Map<
    u64,
    CachedCuboidsView<C, P>,
> {
    Map::new(
        |k: u64| cache.contains_key(k) && cache[k].keep_alive,
        |k: u64| with_keep_alive(cache[k], false),
    )
}

/// Some snapshot named by `plan` is of entity `e`.
pub open spec fn plan_touches<C, P>(
    snapshots: Seq<CuboidsSnapshot<C, P>>,
    plan: Seq<usize>,
    e: u64,
) -> bool {
    exists|k: int| 0 <= k < plan.len() && (#[trigger] snapshots[plan[k] as int]).entity == e
}

/// Some snapshot with instances is of entity `e`.
pub open spec fn has_extracted_snapshot<C, P>(snapshots: Seq<CuboidsSnapshot<C, P>>, e: u64) -> bool {
    exists|i: int|
        0 <= i < snapshots.len() && is_extracted(#[trigger] snapshots[i]) && snapshots[i].entity == e
}

/// The extraction plan names, in increasing order, exactly the snapshots
/// that have instances.
pub proof fn lemma_extraction_plan<C, P>(snapshots: Seq<CuboidsSnapshot<C, P>>)
    requires
        snapshots.len() <= usize::MAX,
    ensures
        ({
            let plan = extraction_plan(snapshots);
            &&& forall|k: int|
                0 <= k < plan.len() ==> #[trigger] plan[k] < snapshots.len()
                    && snapshots[plan[k] as int].instances@.len() > 0
            &&& forall|k1: int, k2: int|
                0 <= k1 < k2 < plan.len() ==> #[trigger] plan[k1] < #[trigger] plan[k2]
            &&& forall|i: int|
                0 <= i < snapshots.len() && (#[trigger] snapshots[i]).instances@.len() > 0
                    ==> exists|k: int| 0 <= k < plan.len() && #[trigger] plan[k] == i
        }),
    decreases snapshots.len(),
{
    if snapshots.len() > 0 {
        let rest = snapshots.drop_last();
        lemma_extraction_plan(rest);
        let prev = extraction_plan(rest);
        let plan = extraction_plan(snapshots);
        let n = snapshots.len() - 1;
        assert forall|k: int| 0 <= k < plan.len() implies #[trigger] plan[k] < snapshots.len()
            && is_extracted(snapshots[plan[k] as int]) by {
            if k < prev.len() {
                assert(plan[k] == prev[k]);
                assert(rest[prev[k] as int] == snapshots[prev[k] as int]);
            } else {
                assert(snapshots.last() == snapshots[n]);
            }
        }
        assert forall|k1: int, k2: int| 0 <= k1 < k2 < plan.len() implies #[trigger] plan[k1]
            < #[trigger] plan[k2] by {
            assert(plan[k1] == prev[k1]);
            if k2 < prev.len() {
                assert(plan[k2] == prev[k2]);
            }
        }
        assert forall|i: int|
            0 <= i < snapshots.len() && is_extracted(#[trigger] snapshots[i]) implies exists|k: int|
                0 <= k < plan.len() && #[trigger] plan[k] == i by {
            if i < n {
                assert(rest[i] == snapshots[i]);
                let k = choose|k: int| 0 <= k < prev.len() && #[trigger] prev[k] == i;
                assert(plan[k] == prev[k]);
            } else {
                assert(snapshots.last() == snapshots[i]);
                assert(plan[prev.len() as int] == i);
            }
        }
    }
}

/// Extraction adds or replaces the entries of the entities it touches, all
/// kept alive, and leaves every other entry as it was.
pub proof fn lemma_apply_plan_entries<C, P>(
    cache: Map<u64, CachedCuboidsView<C, P>>,
    snapshots: Seq<CuboidsSnapshot<C, P>>,
    plan: Seq<usize>,
    material_indices: Seq<u32>,
    transform_indices: Seq<u32>,
)
    ensures
        ({
            let after = apply_plan(cache, snapshots, plan, material_indices, transform_indices);
            &&& forall|e: u64|
                #[trigger] after.contains_key(e) <==> cache.contains_key(e) || plan_touches(
                    snapshots,
                    plan,
                    e,
                )
            &&& forall|e: u64| plan_touches(snapshots, plan, e) ==> #[trigger] after[e].keep_alive
            &&& forall|e: u64|
                !plan_touches(snapshots, plan, e) && cache.contains_key(e) ==> #[trigger] after[e]
                    == cache[e]
        }),
    decreases plan.len(),
{
    if plan.len() > 0 {
        let prev_plan = plan.drop_last();
        lemma_apply_plan_entries(cache, snapshots, prev_plan, material_indices, transform_indices);
        let k = plan.len() - 1;
        let s = snapshots[plan[k] as int];
        let before = apply_plan(cache, snapshots, prev_plan, material_indices, transform_indices);
        let entry = extracted_entry(
            before.get(s.entity),
            s,
            material_indices[s.material_id as int],
            transform_indices[k],
        );
        assert(apply_plan(cache, snapshots, plan, material_indices, transform_indices)
            == before.insert(s.entity, entry));
        assert(entry.keep_alive);
        assert forall|e: u64| plan_touches(snapshots, plan, e) <==> plan_touches(
            snapshots,
            prev_plan,
            e,
        ) || e == s.entity by {
            if plan_touches(snapshots, plan, e) {
                let j = choose|j: int|
                    0 <= j < plan.len() && (#[trigger] snapshots[plan[j] as int]).entity == e;
                if j < k {
                    assert(prev_plan[j] == plan[j]);
                }
            }
            if plan_touches(snapshots, prev_plan, e) {
                let j = choose|j: int|
                    0 <= j < prev_plan.len() && (#[trigger] snapshots[prev_plan[j] as int]).entity
                        == e;
                assert(prev_plan[j] == plan[j]);
            }
            if e == s.entity {
                assert(snapshots[plan[k] as int].entity == e);
            }
        }
    }
}

/// When no entity has two snapshots in the plan (as when they come from one
/// query), each extracted entity ends with the entry its snapshot gives,
/// built on the entry the cache held for it before.
pub proof fn lemma_apply_plan_values<C, P>(
    cache: Map<u64, CachedCuboidsView<C, P>>,
    snapshots: Seq<CuboidsSnapshot<C, P>>,
    plan: Seq<usize>,
    material_indices: Seq<u32>,
    transform_indices: Seq<u32>,
)
    requires
        forall|k1: int, k2: int|
            0 <= k1 < plan.len() && 0 <= k2 < plan.len() && k1 != k2 ==> (#[trigger] snapshots[plan[k1] as int]).entity
                != (#[trigger] snapshots[plan[k2] as int]).entity,
    ensures
        forall|k: int|
            0 <= k < plan.len() ==> {
                let s = #[trigger] snapshots[plan[k] as int];
                apply_plan(cache, snapshots, plan, material_indices, transform_indices)[s.entity]
                    == extracted_entry(
                    cache.get(s.entity),
                    s,
                    material_indices[s.material_id as int],
                    transform_indices[k],
                )
            },
    decreases plan.len(),
{
    if plan.len() > 0 {
        let prev_plan = plan.drop_last();
        let last = plan.len() - 1;
        assert forall|k1: int, k2: int|
            0 <= k1 < prev_plan.len() && 0 <= k2 < prev_plan.len() && k1 != k2 implies (
            #[trigger] snapshots[prev_plan[k1] as int]).entity != (#[trigger] snapshots[prev_plan[k2] as int]).entity by {
            assert(prev_plan[k1] == plan[k1] && prev_plan[k2] == plan[k2]);
            assert(snapshots[plan[k1] as int].entity != snapshots[plan[k2] as int].entity);
        }
        lemma_apply_plan_values(cache, snapshots, prev_plan, material_indices, transform_indices);
        lemma_apply_plan_entries(cache, snapshots, prev_plan, material_indices, transform_indices);
        let before = apply_plan(cache, snapshots, prev_plan, material_indices, transform_indices);
        let s = snapshots[plan[last] as int];
        let entry = extracted_entry(
            before.get(s.entity),
            s,
            material_indices[s.material_id as int],
            transform_indices[last],
        );
        assert(apply_plan(cache, snapshots, plan, material_indices, transform_indices)
            == before.insert(s.entity, entry));
        assert(!plan_touches(snapshots, prev_plan, s.entity)) by {
            if plan_touches(snapshots, prev_plan, s.entity) {
                let j = choose|j: int|
                    0 <= j < prev_plan.len() && (#[trigger] snapshots[prev_plan[j] as int]).entity
                        == s.entity;
                assert(prev_plan[j] == plan[j]);
                assert(snapshots[plan[j] as int].entity != snapshots[plan[last] as int].entity);
            }
        }
        assert(before.get(s.entity) == cache.get(s.entity)) by {
            if cache.contains_key(s.entity) {
                assert(before.contains_key(s.entity));
                assert(before[s.entity] == cache[s.entity]);
            } else {
                assert(!before.contains_key(s.entity));
            }
        }
        assert forall|k: int| 0 <= k < plan.len() implies {
            let t = #[trigger] snapshots[plan[k] as int];
            apply_plan(cache, snapshots, plan, material_indices, transform_indices)[t.entity]
                == extracted_entry(
                cache.get(t.entity),
                t,
                material_indices[t.material_id as int],
                transform_indices[k],
            )
        } by {
            if k < last {
                assert(prev_plan[k] == plan[k]);
                let t = snapshots[prev_plan[k] as int];
                assert(t.entity != s.entity);
            }
        }
    }
}

/// What extraction stores for each extracted entity (when no entity has two
/// snapshots in the plan): the snapshot's instances, marked dirty, when the
/// component was added or changed, and otherwise the instances the cache
/// already held (none for a new entry), not dirty; the material index looked
/// up for its material; the transform index of its place in the plan; enabled
/// exactly when visible (no visibility counts as visible); kept alive; and the
/// snapshot's position.
pub proof fn lemma_apply_plan_extracted_fields<C, P>(
    cache: Map<u64, CachedCuboidsView<C, P>>,
    snapshots: Seq<CuboidsSnapshot<C, P>>,
    plan: Seq<usize>,
    material_indices: Seq<u32>,
    transform_indices: Seq<u32>,
)
    requires
        forall|k1: int, k2: int|
            0 <= k1 < plan.len() && 0 <= k2 < plan.len() && k1 != k2 ==> (#[trigger] snapshots[plan[k1] as int]).entity
                != (#[trigger] snapshots[plan[k2] as int]).entity,
    ensures
        forall|k: int|
            0 <= k < plan.len() ==> {
                let s = #[trigger] snapshots[plan[k] as int];
                let after = apply_plan(cache, snapshots, plan, material_indices, transform_indices);
                let e = after[s.entity];
                &&& after.contains_key(s.entity)
                &&& (s.added || s.changed) ==> e.instance_buffer == s.instances@ && e.dirty
                &&& !(s.added || s.changed) ==> !e.dirty && e.instance_buffer == (if cache.contains_key(
                    s.entity,
                ) {
                    cache[s.entity].instance_buffer
                } else {
                    Seq::<C>::empty()
                })
                &&& e.material_index == material_indices[s.material_id as int]
                &&& e.transform_index == transform_indices[k]
                &&& e.enabled == (match s.visibility {
                    Some(v) => v,
                    None => true,
                })
                &&& e.keep_alive
                &&& e.position == s.position
            },
{
    lemma_apply_plan_values(cache, snapshots, plan, material_indices, transform_indices);
    lemma_apply_plan_entries(cache, snapshots, plan, material_indices, transform_indices);
    assert forall|k: int| 0 <= k < plan.len() implies #[trigger] plan_touches(
        snapshots,
        plan,
        snapshots[plan[k] as int].entity,
    ) by {
        assert(snapshots[plan[k] as int].entity == snapshots[plan[k] as int].entity);
    }
}

/// Culling keeps exactly the entries that were kept alive, and of each it
/// changes only the keep-alive flag, which it clears.
pub proof fn lemma_culled_fields<C, P>(cache: Map<u64, CachedCuboidsView<C, P>>)
    ensures
        forall|k: u64|
            #[trigger] culled(cache).contains_key(k) <==> cache.contains_key(k) && cache[k].keep_alive,
        forall|k: u64|
            #[trigger] culled(cache).contains_key(k) ==> {
                let e = culled(cache)[k];
                &&& e.instance_buffer == cache[k].instance_buffer
                &&& e.material_index == cache[k].material_index
                &&& e.dirty == cache[k].dirty
                &&& e.enabled == cache[k].enabled
                &&& e.position == cache[k].position
                &&& e.transform_index == cache[k].transform_index
                &&& !e.keep_alive
            },
{
}

/// The law of a frame: starting from a cache in which no entry is kept
/// alive (as after any culling), extraction followed by culling leaves the
/// cache holding exactly the entities that have instances this frame, none
/// of them kept alive; an entity whose instances became empty is dropped.
pub proof fn lemma_frame_keeps_exactly_extracted<C, P>(
    cache: Map<u64, CachedCuboidsView<C, P>>,
    snapshots: Seq<CuboidsSnapshot<C, P>>,
    material_indices: Seq<u32>,
    transform_indices: Seq<u32>,
)
    requires
        snapshots.len() <= usize::MAX,
        forall|e: u64| #[trigger] cache.contains_key(e) ==> !cache[e].keep_alive,
    ensures
        ({
            let after = culled(
                apply_plan(
                    cache,
                    snapshots,
                    extraction_plan(snapshots),
                    material_indices,
                    transform_indices,
                ),
            );
            &&& forall|e: u64| #[trigger]
                after.contains_key(e) <==> has_extracted_snapshot(snapshots, e)
            &&& forall|e: u64| #[trigger] after.contains_key(e) ==> !after[e].keep_alive
        }),
{
    let plan = extraction_plan(snapshots);
    lemma_extraction_plan(snapshots);
    lemma_apply_plan_entries(cache, snapshots, plan, material_indices, transform_indices);
    let applied = apply_plan(cache, snapshots, plan, material_indices, transform_indices);
    assert forall|e: u64| plan_touches(snapshots, plan, e) <==> has_extracted_snapshot(
        snapshots,
        e,
    ) by {
        if plan_touches(snapshots, plan, e) {
            let k = choose|k: int|
                0 <= k < plan.len() && (#[trigger] snapshots[plan[k] as int]).entity == e;
            assert(is_extracted(snapshots[plan[k] as int]));
        }
        if has_extracted_snapshot(snapshots, e) {
            let i = choose|i: int|
                0 <= i < snapshots.len() && is_extracted(#[trigger] snapshots[i])
                    && snapshots[i].entity == e;
            let k = choose|k: int| 0 <= k < plan.len() && #[trigger] plan[k] == i;
            assert(snapshots[plan[k] as int].entity == e);
        }
    }
    assert forall|e: u64| #[trigger] culled(applied).contains_key(e) <==> has_extracted_snapshot(
        snapshots,
        e,
    ) by {
        if applied.contains_key(e) && !plan_touches(snapshots, plan, e) {
            assert(applied[e] == cache[e]);
        }
    }
}

/// Culling leaves no entry kept alive, and culling again changes nothing.
pub proof fn lemma_cull_clears_keep_alive<C, P>(cache: Map<u64, CachedCuboidsView<C, P>>)
    ensures
        forall|e: u64| #[trigger] culled(cache).contains_key(e) ==> !culled(cache)[e].keep_alive,
        culled(culled(cache)) == Map::<u64, CachedCuboidsView<C, P>>::empty(),
{
    assert(culled(culled(cache)) =~= Map::<u64, CachedCuboidsView<C, P>>::empty());
}

/// Copies the instances one by one.
fn copy_instances<C: Copy>(instances: &Vec<C>) -> (copy: Vec<C>)
    ensures
        copy@ == instances@,
{
    let mut copy: Vec<C> = Vec::new();
    let n = instances.len();
    let mut i: usize = 0;
    while i < n
        invariant
            n == instances@.len(),
            i <= n,
            copy@ =~= instances@.take(i as int),
        decreases n - i,
    {
        copy.push(instances[i]);
        i = i + 1;
    }
    assert(instances@.take(n as int) =~= instances@);
    copy
}

/// The indices of the snapshots that extraction takes, in order: those of the
/// entities that have at least one instance. Entities without instances are
/// not extracted, and culling then drops them from the cache.
pub fn plan_extraction<C, P>(snapshots: &Vec<CuboidsSnapshot<C, P>>) -> (plan: Vec<usize>)
    ensures
        plan@ == extraction_plan(snapshots@),
        forall|k: int|
            0 <= k < plan@.len() ==> #[trigger] plan@[k] < snapshots@.len()
                && snapshots@[plan@[k] as int].instances@.len() > 0,
        forall|k1: int, k2: int|
            0 <= k1 < k2 < plan@.len() ==> #[trigger] plan@[k1] < #[trigger] plan@[k2],
        forall|i: int|
            0 <= i < snapshots@.len() && (#[trigger] snapshots@[i]).instances@.len() > 0
                ==> exists|k: int| 0 <= k < plan@.len() && #[trigger] plan@[k] == i,
{
    let mut plan: Vec<usize> = Vec::new();
    let n = snapshots.len();
    let mut i: usize = 0;
    while i < n
        invariant
            n == snapshots@.len(),
            i <= n,
            plan@ == extraction_plan(snapshots@.take(i as int)),
        decreases n - i,
    {
        assert(snapshots@.take(i as int + 1).drop_last() =~= snapshots@.take(i as int));
        if snapshots[i].instances.len() > 0 {
            plan.push(i);
        }
        i = i + 1;
    }
    assert(snapshots@.take(n as int) =~= snapshots@);
    proof {
        lemma_extraction_plan(snapshots@);
    }
    plan
}

/// Plans a frame of extraction. With an empty material map nothing can be
/// drawn and the frame is skipped altogether, without extraction or culling:
/// `None`. Else the indices of the snapshots to extract, as
/// [`plan_extraction`] gives them.
pub fn plan_frame<C, P>(material_map_empty: bool, snapshots: &Vec<CuboidsSnapshot<C, P>>) -> (plan:
    Option<Vec<usize>>)
    ensures
        plan is None <==> material_map_empty,
        plan matches Some(p) ==> p@ == extraction_plan(snapshots@),
{
    if material_map_empty {
        None
    } else {
        Some(plan_extraction(snapshots))
    }
}

impl<C: Copy, P: Copy> CuboidBufferCache<C, P> {
    /// An empty cache.
    pub fn new() -> (cache: Self)
        ensures
            cache@ == Map::<u64, CachedCuboidsView<C, P>>::empty(),
    {
        let cache = CuboidBufferCache { entries: HashMap::new() };
        assert(cache@ =~= Map::<u64, CachedCuboidsView<C, P>>::empty());
        cache
    }

    /// Stores the entities extracted this frame: for each index in `plan`, in
    /// order, the entity's entry is created or updated. Its instances are
    /// copied when the component was added or changed (and it is then marked
    /// dirty), else kept; its material index is looked up in
    /// `material_indices`; it takes the next transform index, is enabled when
    /// visible, and is kept alive.
    pub fn apply_extraction(
        &mut self,
        snapshots: &Vec<CuboidsSnapshot<C, P>>,
        plan: &Vec<usize>,
        material_indices: &Vec<u32>,
        transform_indices: &Vec<u32>,
    )
        requires
            transform_indices@.len() == plan@.len(),
            forall|k: int| 0 <= k < plan@.len() ==> #[trigger] plan@[k] < snapshots@.len(),
            forall|k: int|
                0 <= k < plan@.len() ==> #[trigger] snapshots@[plan@[k] as int].material_id
                    < material_indices@.len(),
        ensures
            final(self)@ == apply_plan(
                old(self)@,
                snapshots@,
                plan@,
                material_indices@,
                transform_indices@,
            ),
            forall|e: u64|
                #[trigger] final(self)@.contains_key(e) <==> old(self)@.contains_key(e) || exists|
                    k: int,
                | 0 <= k < plan@.len() && (#[trigger] snapshots@[plan@[k] as int]).entity == e,
            forall|e: u64|
                old(self)@.contains_key(e) && !(exists|k: int|
                    0 <= k < plan@.len() && (#[trigger] snapshots@[plan@[k] as int]).entity == e)
                    ==> #[trigger] final(self)@[e] == old(self)@[e],
            (forall|k1: int, k2: int|
                0 <= k1 < plan@.len() && 0 <= k2 < plan@.len() && k1 != k2 ==> (
                #[trigger] snapshots@[plan@[k1] as int]).entity != (
                #[trigger] snapshots@[plan@[k2] as int]).entity) ==> forall|k: int|
                0 <= k < plan@.len() ==> {
                    let s = #[trigger] snapshots@[plan@[k] as int];
                    let e = final(self)@[s.entity];
                    &&& final(self)@.contains_key(s.entity)
                    &&& (s.added || s.changed) ==> e.instance_buffer == s.instances@ && e.dirty
                    &&& !(s.added || s.changed) ==> !e.dirty && e.instance_buffer == (
                    if old(self)@.contains_key(s.entity) {
                        old(self)@[s.entity].instance_buffer
                    } else {
                        Seq::<C>::empty()
                    })
                    &&& e.material_index == material_indices@[s.material_id as int]
                    &&& e.transform_index == transform_indices@[k]
                    &&& e.enabled == (match s.visibility {
                        Some(v) => v,
                        None => true,
                    })
                    &&& e.keep_alive
                    &&& e.position == s.position
                },
    {
        let ghost start = self@;
        let n = plan.len();
        let mut k: usize = 0;
        while k < n
            invariant
                n == plan@.len(),
                k <= n,
                transform_indices@.len() == n,
                forall|j: int| 0 <= j < plan@.len() ==> #[trigger] plan@[j] < snapshots@.len(),
                forall|j: int|
                    0 <= j < plan@.len() ==> #[trigger] snapshots@[plan@[j] as int].material_id
                        < material_indices@.len(),
                self@ == apply_plan(
                    old(self)@,
                    snapshots@,
                    plan@.take(k as int),
                    material_indices@,
                    transform_indices@,
                ),
            decreases n - k,
        {
            let ghost before = self@;
            assert(plan@.take(k as int + 1).drop_last() =~= plan@.take(k as int));
            let s = &snapshots[plan[k]];
            let upload = s.added || s.changed;
            let prev = self.entries.remove(&s.entity);
            let instance_buffer = if upload {
                copy_instances(s.instances)
            } else {
                match prev {
                    Some(e) => e.instance_buffer,
                    None => Vec::new(),
                }
            };
            let enabled = match s.visibility {
                Some(v) => v,
                None => true,
            };
            let entry = CachedCuboids {
                instance_buffer,
                material_index: material_indices[s.material_id],
                dirty: upload,
                enabled,
                keep_alive: true,
                position: s.position,
                transform_index: transform_indices[k],
            };
            self.entries.insert(s.entity, entry);
            k = k + 1;
            assert(self@ =~= before.insert(
                s.entity,
                extracted_entry(
                    before.get(s.entity),
                    *s,
                    material_indices@[s.material_id as int],
                    transform_indices@[k - 1],
                ),
            ));
        }
        assert(plan@.take(n as int) =~= plan@);
        proof {
            lemma_apply_plan_entries(start, snapshots@, plan@, material_indices@, transform_indices@);
            if forall|k1: int, k2: int|
                0 <= k1 < plan@.len() && 0 <= k2 < plan@.len() && k1 != k2 ==> (
                #[trigger] snapshots@[plan@[k1] as int]).entity != (
                #[trigger] snapshots@[plan@[k2] as int]).entity {
                lemma_apply_plan_extracted_fields(
                    start,
                    snapshots@,
                    plan@,
                    material_indices@,
                    transform_indices@,
                );
            }
        }
    }

    /// Ends a frame of extraction: stores the extracted entities as
    /// [`Self::apply_extraction`] does, then culls the entities that were not
    /// extracted, as [`Self::cull_entities`] does.
    pub fn finish_frame(
        &mut self,
        snapshots: &Vec<CuboidsSnapshot<C, P>>,
        plan: &Vec<usize>,
        material_indices: &Vec<u32>,
        transform_indices: &Vec<u32>,
    )
        requires
            transform_indices@.len() == plan@.len(),
            forall|k: int| 0 <= k < plan@.len() ==> #[trigger] plan@[k] < snapshots@.len(),
            forall|k: int|
                0 <= k < plan@.len() ==> #[trigger] snapshots@[plan@[k] as int].material_id
                    < material_indices@.len(),
        ensures
            final(self)@ == culled(
                apply_plan(old(self)@, snapshots@, plan@, material_indices@, transform_indices@),
            ),
    {
        self.apply_extraction(snapshots, plan, material_indices, transform_indices);
        self.cull_entities();
    }

    /// Drops the entries that were not kept alive this frame and clears the
    /// keep-alive flag of the others, so that an entity that is not extracted
    /// in the next frame is dropped then.
    pub fn cull_entities(&mut self)
        ensures
            final(self)@ == culled(old(self)@),
            forall|k: u64|
                #[trigger] final(self)@.contains_key(k) <==> old(self)@.contains_key(k)
                    && old(self)@[k].keep_alive,
            forall|k: u64|
                #[trigger] final(self)@.contains_key(k) ==> {
                    let e = final(self)@[k];
                    &&& e.instance_buffer == old(self)@[k].instance_buffer
                    &&& e.material_index == old(self)@[k].material_index
                    &&& e.dirty == old(self)@[k].dirty
                    &&& e.enabled == old(self)@[k].enabled
                    &&& e.position == old(self)@[k].position
                    &&& e.transform_index == old(self)@[k].transform_index
                    &&& !e.keep_alive
                },
    {
        proof {
            lemma_culled_fields(self@);
        }
        let mut keys: Vec<u64> = Vec::new();
        for key in it: self.entries.keys()
            invariant
                keys@ == it.seq().take(it.index() as int).unref(),
                it.seq() == spec_keys_iter(&self.entries).remaining(),
        {
            keys.push(*key);
        }
        assert(keys@ =~= spec_keys_iter(&self.entries).remaining().unref());
        let ghost start = self@;
        let n = keys.len();
        let mut i: usize = 0;
        while i < n
            invariant
                n == keys@.len(),
                i <= n,
                keys@.no_duplicates(),
                keys@.to_set() == start.dom(),
                forall|k: u64|
                    #![trigger self@.contains_key(k)]
                    (keys@.take(i as int).contains(k) ==> (self@.contains_key(k) <==> (
                    start.contains_key(k) && start[k].keep_alive))),
                forall|k: u64|
                    keys@.take(i as int).contains(k) && self@.contains_key(k) ==> self@[k]
                        == with_keep_alive(start[k], false),
                forall|k: u64|
                    !keys@.take(i as int).contains(k) ==> (self@.contains_key(k)
                        <==> start.contains_key(k)),
                forall|k: u64|
                    !keys@.take(i as int).contains(k) && self@.contains_key(k) ==> self@[k]
                        == start[k],
            decreases n - i,
        {
            let key = keys[i];
            assert(keys@.take(i as int + 1) =~= keys@.take(i as int).push(key));
            assert(!keys@.take(i as int).contains(key)) by {
                if keys@.take(i as int).contains(key) {
                    let j = choose|j: int| 0 <= j < i && keys@.take(i as int)[j] == key;
                    assert(keys@[j] == keys@[i as int]);
                }
            }
            assert(keys@.contains(key));
            let ghost before = self@;
            match self.entries.remove(&key) {
                Some(mut entry) => {
                    if entry.keep_alive {
                        entry.keep_alive = false;
                        self.entries.insert(key, entry);
                        assert(self@ =~= before.insert(key, with_keep_alive(start[key], false)));
                    } else {
                        assert(self@ =~= before.remove(key));
                    }
                },
                None => {
                    assert(self@ =~= before);
                },
            }
            proof {
                let prefix = keys@.take(i as int);
                let longer = keys@.take(i as int + 1);
                assert forall|k: u64| !longer.contains(k) implies !prefix.contains(k) && k != key by {
                    if prefix.contains(k) {
                        let j = choose|j: int| 0 <= j < prefix.len() && prefix[j] == k;
                        assert(longer[j] == k);
                    }
                    assert(longer[i as int] == key);
                }
                assert forall|k: u64| longer.contains(k) implies prefix.contains(k) || k == key by {
                    let j = choose|j: int| 0 <= j < longer.len() && longer[j] == k;
                    if j < i {
                        assert(prefix[j] == k);
                    }
                }
            }
            i = i + 1;
        }
        assert(keys@.take(n as int) =~= keys@);
        assert forall|k: u64| #[trigger] start.contains_key(k) implies keys@.contains(k) by {
            assert(keys@.to_set().contains(k));
        }
        assert forall|k: u64| keys@.contains(k) implies #[trigger] start.contains_key(k) by {
            assert(keys@.to_set().contains(k));
        }
        assert(self@ =~= culled(start));
    }
}

} // verus!
