use aabb_vertex_pulling::{
    cube_index_bytes, cube_index_bytes_for_probe, pack_clipping_planes, plan_extraction, plan_frame, u32s_to_bytes,
    AabbOpaquePass3dLabel, AabbOpaquePass3dNode, CuboidBufferCache, CuboidsSnapshot,
    TooManyClippingPlanes, VertexPullingRenderPlugin, CUBE_INDICES, MAX_CLIPPING_PLANES,
    NUM_CUBE_INDICES,
};

#[derive(Clone, Copy, Debug, PartialEq)]
struct Cuboid {
    minimum: [f32; 3],
    maximum: [f32; 3],
    color: u32,
}

fn cuboid(color: u32) -> Cuboid {
    Cuboid { minimum: [0.0, 0.0, 0.0], maximum: [1.0, 2.0, 3.0], color }
}

fn snapshot<'a>(
    entity: u64,
    instances: &'a Vec<Cuboid>,
    added: bool,
    changed: bool,
    visibility: Option<bool>,
    material_id: usize,
    position: [f32; 3],
) -> CuboidsSnapshot<'a, Cuboid, [f32; 3]> {
    CuboidsSnapshot { entity, instances, added, changed, visibility, material_id, position }
}

// ---------------------------------------------------------------- index table

#[test]
fn cube_indices_encode_face_and_corner() {
    assert_eq!(NUM_CUBE_INDICES, 18);
    for (i, &index) in CUBE_INDICES.iter().enumerate() {
        assert!(index < 32);
        let face = (index >> 3) as usize;
        let corner = index & 0b111;
        assert_eq!(face, i / 6);
        // the corner lies on the drawn face: z = 0 for XY, y = 0 for XZ, x = 0 for YZ
        let normal_bit = [0b100, 0b010, 0b001][face];
        assert_eq!(corner & normal_bit, 0);
    }
}

#[test]
fn cube_indices_triangles_are_not_degenerate_and_cover_faces() {
    for t in 0..6 {
        let a = CUBE_INDICES[3 * t] & 7;
        let b = CUBE_INDICES[3 * t + 1] & 7;
        let c = CUBE_INDICES[3 * t + 2] & 7;
        assert!(a != b && a != c && b != c);
    }
    for face in 0..3 {
        let mut corners: Vec<u32> = CUBE_INDICES[6 * face..6 * face + 6].iter().map(|i| i & 7).collect();
        corners.sort();
        corners.dedup();
        assert_eq!(corners.len(), 4);
    }
}

#[test]
fn cube_index_bytes_are_native_endian_indices() {
    let bytes = cube_index_bytes();
    assert_eq!(bytes.len(), 4 * NUM_CUBE_INDICES);
    for i in 0..NUM_CUBE_INDICES {
        assert_eq!(&bytes[4 * i..4 * i + 4], &CUBE_INDICES[i].to_ne_bytes());
        let word = u32::from_ne_bytes([bytes[4 * i], bytes[4 * i + 1], bytes[4 * i + 2], bytes[4 * i + 3]]);
        assert_eq!(word, CUBE_INDICES[i]);
    }
    // face XZ, corner 0b101
    assert_eq!(&bytes[24..28], &13u32.to_ne_bytes());
}

#[test]
fn cube_index_bytes_follow_the_probe() {
    let little = cube_index_bytes_for_probe([1, 0, 0, 0]);
    let big = cube_index_bytes_for_probe([0, 0, 0, 1]);
    for i in 0..NUM_CUBE_INDICES {
        assert_eq!(&little[4 * i..4 * i + 4], &CUBE_INDICES[i].to_le_bytes());
        assert_eq!(&big[4 * i..4 * i + 4], &CUBE_INDICES[i].to_be_bytes());
    }
    assert_eq!(cube_index_bytes_for_probe(1u32.to_ne_bytes()), cube_index_bytes());
}

#[test]
fn u32s_to_bytes_exact_value() {
    assert_eq!(
        u32s_to_bytes(&[0x0102_0304, 0xdead_beef], true),
        vec![0x04, 0x03, 0x02, 0x01, 0xef, 0xbe, 0xad, 0xde]
    );
    assert_eq!(
        u32s_to_bytes(&[0x0102_0304, 0xdead_beef], false),
        vec![0x01, 0x02, 0x03, 0x04, 0xde, 0xad, 0xbe, 0xef]
    );
    assert_eq!(u32s_to_bytes(&[], true), Vec::<u8>::new());
}

// ---------------------------------------------------------- clipping planes

#[test]
fn clipping_planes_none() {
    let packed = pack_clipping_planes::<(f32, f32)>(&[], (0.0, 0.0)).unwrap();
    assert_eq!(packed.num_ranges, 0);
    assert_eq!(packed.ranges, vec![(0.0, 0.0); MAX_CLIPPING_PLANES]);
}

#[test]
fn clipping_planes_keep_order_and_fill_rest() {
    let planes = [(1.0f32, 2.0f32), (3.0, 4.0), (-1.0, 0.5)];
    let packed = pack_clipping_planes(&planes, (0.0, 0.0)).unwrap();
    assert_eq!(packed.num_ranges, 3);
    assert_eq!(packed.ranges.len(), MAX_CLIPPING_PLANES);
    assert_eq!(&packed.ranges[..3], &planes);
    assert!(packed.ranges[3..].iter().all(|r| *r == (0.0, 0.0)));
}

#[test]
fn clipping_planes_exactly_full() {
    let planes: Vec<u32> = (0..MAX_CLIPPING_PLANES as u32).collect();
    let packed = pack_clipping_planes(&planes, 999).unwrap();
    assert_eq!(packed.num_ranges as usize, MAX_CLIPPING_PLANES);
    assert_eq!(packed.ranges, planes);
}

#[test]
fn clipping_planes_too_many() {
    let planes: Vec<u32> = (0..MAX_CLIPPING_PLANES as u32 + 1).collect();
    assert_eq!(pack_clipping_planes(&planes, 0).err(), Some(TooManyClippingPlanes));
}

// ------------------------------------------------------------------ extraction

#[test]
fn plan_skips_entities_without_instances() {
    let some = vec![cuboid(1)];
    let none: Vec<Cuboid> = vec![];
    let snaps = vec![
        snapshot(1, &none, true, false, None, 0, [0.0; 3]),
        snapshot(2, &some, true, false, None, 0, [0.0; 3]),
        snapshot(3, &none, false, false, None, 0, [0.0; 3]),
        snapshot(4, &some, false, true, None, 0, [0.0; 3]),
    ];
    assert_eq!(plan_extraction(&snaps), vec![1, 3]);
}

#[test]
fn empty_material_map_skips_the_frame() {
    let some = vec![cuboid(1)];
    let snaps = vec![snapshot(2, &some, true, false, None, 0, [0.0; 3])];
    assert_eq!(plan_frame(true, &snaps), None);
    assert_eq!(plan_frame(false, &snaps), Some(vec![0]));
}

#[test]
fn finish_frame_extracts_then_culls() {
    let mut cache: CuboidBufferCache<Cuboid, [f32; 3]> = CuboidBufferCache::new();
    let inst = vec![cuboid(1)];
    let none: Vec<Cuboid> = vec![];
    let snaps = vec![
        snapshot(1, &inst, true, false, None, 0, [0.0; 3]),
        snapshot(2, &inst, true, false, None, 0, [0.0; 3]),
    ];
    let plan = plan_frame(false, &snaps).unwrap();
    cache.finish_frame(&snaps, &plan, &vec![5], &vec![0, 256]);
    assert_eq!(cache.entries.len(), 2);
    assert!(cache.entries.values().all(|e| !e.keep_alive && e.material_index == 5));

    let snaps = vec![
        snapshot(1, &none, false, true, None, 0, [0.0; 3]),
        snapshot(2, &inst, false, false, None, 0, [0.0; 3]),
    ];
    let plan = plan_frame(false, &snaps).unwrap();
    assert_eq!(plan, vec![1]);
    cache.finish_frame(&snaps, &plan, &vec![5], &vec![0]);
    assert_eq!(cache.entries.len(), 1);
    assert!(cache.entries.contains_key(&2));
}

#[test]
fn extraction_creates_entries() {
    let mut cache: CuboidBufferCache<Cuboid, [f32; 3]> = CuboidBufferCache::new();
    assert!(cache.entries.is_empty());
    let a = vec![cuboid(1), cuboid(2)];
    let b = vec![cuboid(3)];
    let snaps = vec![
        snapshot(10, &a, true, false, None, 1, [1.0, 2.0, 3.0]),
        snapshot(20, &b, false, true, Some(false), 0, [4.0, 5.0, 6.0]),
    ];
    let plan = plan_extraction(&snaps);
    cache.apply_extraction(&snaps, &plan, &vec![7, 8], &vec![0, 256]);
    let e10 = &cache.entries[&10];
    assert_eq!(e10.instance_buffer, a);
    assert_eq!(e10.material_index, 8);
    assert!(e10.dirty && e10.enabled && e10.keep_alive);
    assert_eq!(e10.position, [1.0, 2.0, 3.0]);
    assert_eq!(e10.transform_index, 0);
    let e20 = &cache.entries[&20];
    assert_eq!(e20.instance_buffer, b);
    assert_eq!(e20.material_index, 7);
    assert!(e20.dirty && !e20.enabled && e20.keep_alive);
    assert_eq!(e20.transform_index, 256);
}

#[test]
fn unchanged_entity_keeps_its_buffer() {
    let mut cache: CuboidBufferCache<Cuboid, [f32; 3]> = CuboidBufferCache::new();
    let first = vec![cuboid(1)];
    let snaps = vec![snapshot(5, &first, true, false, None, 0, [0.0; 3])];
    cache.apply_extraction(&snaps, &plan_extraction(&snaps), &vec![3], &vec![0]);
    cache.cull_entities();

    // Same entity, not changed: the snapshot's instances are not copied.
    let other = vec![cuboid(9), cuboid(9)];
    let snaps = vec![snapshot(5, &other, false, false, Some(true), 0, [2.0; 3])];
    cache.apply_extraction(&snaps, &plan_extraction(&snaps), &vec![4], &vec![512]);
    let e = &cache.entries[&5];
    assert_eq!(e.instance_buffer, first);
    assert!(!e.dirty);
    assert_eq!(e.material_index, 4);
    assert_eq!(e.transform_index, 512);
    assert_eq!(e.position, [2.0; 3]);
}

#[test]
fn new_unchanged_entity_gets_empty_buffer() {
    let mut cache: CuboidBufferCache<Cuboid, [f32; 3]> = CuboidBufferCache::new();
    let inst = vec![cuboid(1)];
    let snaps = vec![snapshot(5, &inst, false, false, None, 0, [0.0; 3])];
    cache.apply_extraction(&snaps, &plan_extraction(&snaps), &vec![0], &vec![0]);
    assert!(cache.entries[&5].instance_buffer.is_empty());
    assert!(!cache.entries[&5].dirty);
}

#[test]
fn cull_drops_entities_not_extracted_this_frame() {
    let mut cache: CuboidBufferCache<Cuboid, [f32; 3]> = CuboidBufferCache::new();
    let inst = vec![cuboid(1)];
    let none: Vec<Cuboid> = vec![];

    // frame 1: both entities have instances
    let snaps = vec![
        snapshot(1, &inst, true, false, None, 0, [0.0; 3]),
        snapshot(2, &inst, true, false, None, 0, [0.0; 3]),
    ];
    cache.apply_extraction(&snaps, &plan_extraction(&snaps), &vec![0], &vec![0, 256]);
    cache.cull_entities();
    assert_eq!(cache.entries.len(), 2);
    assert!(cache.entries.values().all(|e| !e.keep_alive));

    // frame 2: entity 2 went empty, so it is culled
    let snaps = vec![
        snapshot(1, &inst, false, false, None, 0, [0.0; 3]),
        snapshot(2, &none, false, true, None, 0, [0.0; 3]),
    ];
    cache.apply_extraction(&snaps, &plan_extraction(&snaps), &vec![0], &vec![0]);
    cache.cull_entities();
    assert_eq!(cache.entries.len(), 1);
    assert!(cache.entries.contains_key(&1));
    assert!(!cache.entries.contains_key(&2));

    // frame 3: nothing at all
    let snaps: Vec<CuboidsSnapshot<Cuboid, [f32; 3]>> = vec![];
    cache.apply_extraction(&snaps, &plan_extraction(&snaps), &vec![0], &vec![]);
    cache.cull_entities();
    assert!(cache.entries.is_empty());
}

// ---------------------------------------------------------------------- queue

#[test]
fn queue_draws_enabled_cached_entities_in_order() {
    let mut cache: CuboidBufferCache<Cuboid, [f32; 3]> = CuboidBufferCache::new();
    let inst = vec![cuboid(1)];
    let snaps = vec![
        snapshot(1, &inst, true, false, None, 0, [0.0; 3]),
        snapshot(2, &inst, true, false, Some(false), 0, [0.0; 3]),
        snapshot(3, &inst, true, false, Some(true), 0, [0.0; 3]),
    ];
    cache.apply_extraction(&snaps, &plan_extraction(&snaps), &vec![0], &vec![0, 1, 2]);

    // 4 is not cached, 2 is hidden
    let visible = vec![3, 4, 2, 1];
    let (items, tick) = cache.queue_view(&visible, false, "hdr", "ldr", 41).unwrap();
    assert_eq!(items.len(), 2);
    assert_eq!(items[0].visible_index, 0);
    assert_eq!(items[0].pipeline, "ldr");
    assert_eq!(items[0].change_tick, 42);
    assert_eq!(items[1].visible_index, 3);
    assert_eq!(items[1].change_tick, 43);
    assert_eq!(tick, 43);

    let (items, tick) = cache.queue_view(&visible, true, "hdr", "ldr", tick).unwrap();
    assert!(items.iter().all(|i| i.pipeline == "hdr"));
    assert_eq!(items[0].change_tick, 44);
    assert_eq!(tick, 45);
}

#[test]
fn extracted_visible_entity_is_drawn_next() {
    let mut cache: CuboidBufferCache<Cuboid, [f32; 3]> = CuboidBufferCache::new();
    let inst = vec![cuboid(1)];
    let none: Vec<Cuboid> = vec![];
    let snaps = vec![
        snapshot(7, &inst, true, false, Some(true), 0, [0.0; 3]),
        snapshot(8, &none, true, false, Some(true), 0, [0.0; 3]),
        snapshot(9, &inst, true, false, Some(false), 0, [0.0; 3]),
    ];
    let plan = plan_frame(false, &snaps).unwrap();
    cache.finish_frame(&snaps, &plan, &vec![0], &vec![0, 256]);
    let (items, _) = cache.queue_view(&vec![9, 8, 7], false, 0u8, 1u8, 0).unwrap();
    assert_eq!(items.len(), 1);
    assert_eq!(items[0].visible_index, 2);
}

#[test]
fn queue_with_nothing_visible() {
    let cache: CuboidBufferCache<Cuboid, [f32; 3]> = CuboidBufferCache::new();
    let (items, tick) = cache.queue_view(&vec![1, 2], false, 0usize, 1usize, 7).unwrap();
    assert!(items.is_empty());
    assert_eq!(tick, 7);
}

#[test]
fn queue_tick_overflow() {
    let mut cache: CuboidBufferCache<Cuboid, [f32; 3]> = CuboidBufferCache::new();
    let inst = vec![cuboid(1)];
    let snaps = vec![
        snapshot(1, &inst, true, false, None, 0, [0.0; 3]),
        snapshot(2, &inst, true, false, Some(false), 0, [0.0; 3]),
    ];
    cache.apply_extraction(&snaps, &plan_extraction(&snaps), &vec![0], &vec![0, 1]);
    // one entity drawn: u32::MAX - 1 still fits, u32::MAX does not
    let (items, tick) = cache.queue_view(&vec![2, 1], false, 0u8, 1u8, u32::MAX - 1).unwrap();
    assert_eq!(items.len(), 1);
    assert_eq!(tick, u32::MAX);
    assert!(cache.queue_view(&vec![2, 1], false, 0u8, 1u8, u32::MAX).is_none());
    // nothing drawn: no tick is taken
    assert!(cache.queue_view(&vec![2, 3], false, 0u8, 1u8, u32::MAX).is_some());
}

// --------------------------------------------------------------- plain types

#[test]
fn label_node_and_plugin() {
    assert_eq!(AabbOpaquePass3dLabel, AabbOpaquePass3dLabel.clone());
    let _node: AabbOpaquePass3dNode = Default::default();
    assert!(!VertexPullingRenderPlugin::default().outlines);
    assert!(VertexPullingRenderPlugin { outlines: true }.outlines);
}
