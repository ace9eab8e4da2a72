use vstd::prelude::*;

verus! {

/// Most clipping plane ranges the GPU uniform holds.
pub const MAX_CLIPPING_PLANES: usize = 16;

/// There are more clipping plane range entities than the GPU uniform holds.
#[derive(Debug, PartialEq, Eq, Clone, Copy, Structural)]
pub struct TooManyClippingPlanes;

/// The clipping plane ranges as laid out for the GPU: a fixed table of
/// `MAX_CLIPPING_PLANES` slots of which the first `num_ranges` are in use.
pub struct PackedClippingPlanes<T> {
    pub ranges: Vec<T>,
    pub num_ranges: u32,
}

/// The slot table for `planes`: the planes in order, then `unused` in every
/// remaining slot.
pub open spec fn packed_slots<T>(planes: Seq<T>, unused: T) -> Seq<T> {
    planes + Seq::new((MAX_CLIPPING_PLANES - planes.len()) as nat, |i: int| unused)
}

/// The slot table holds the planes in their order in the first slots, one
/// per slot, and `unused` in every slot after them.
pub proof fn lemma_packed_slots<T>(planes: Seq<T>, unused: T)
    requires
        planes.len() <= MAX_CLIPPING_PLANES,
    ensures
        packed_slots(planes, unused).len() == MAX_CLIPPING_PLANES,
        forall|i: int| 0 <= i < planes.len() ==> #[trigger] packed_slots(planes, unused)[i] == planes[i],
        forall|i: int|
            planes.len() <= i < MAX_CLIPPING_PLANES ==> #[trigger] packed_slots(planes, unused)[i]
                == unused,
{
}

/// Packs the clipping plane ranges into the GPU table, in the order given.
/// Fails when there are more than `MAX_CLIPPING_PLANES` of them.
pub fn pack_clipping_planes<T: Copy>(planes: &[T], unused: T) -> (r: Result<
    PackedClippingPlanes<T>,
    TooManyClippingPlanes,
>)
    ensures
        r is Ok <==> planes@.len() <= MAX_CLIPPING_PLANES,
        r matches Ok(p) ==> {
            &&& p.num_ranges == planes@.len()
            &&& p.ranges@ == packed_slots(planes@, unused)
            &&& p.ranges@.len() == MAX_CLIPPING_PLANES
            &&& forall|i: int| 0 <= i < planes@.len() ==> #[trigger] p.ranges@[i] == planes@[i]
            &&& forall|i: int|
                planes@.len() <= i < MAX_CLIPPING_PLANES ==> #[trigger] p.ranges@[i] == unused
        },
{
    let n = planes.len();
    let mut ranges: Vec<T> = Vec::new();
    let mut num_ranges: u32 = 0;
    while (num_ranges as usize) < n && (num_ranges as usize) < MAX_CLIPPING_PLANES
        invariant
            n == planes@.len(),
            num_ranges as int <= n,
            num_ranges as int <= MAX_CLIPPING_PLANES,
            ranges@ =~= planes@.take(num_ranges as int),
        decreases MAX_CLIPPING_PLANES - num_ranges,
    {
        ranges.push(planes[num_ranges as usize]);
        num_ranges = num_ranges + 1;
    }
    if n > num_ranges as usize {
        return Err(TooManyClippingPlanes);
    }
    assert(planes@.take(num_ranges as int) =~= planes@);
    let ghost filled = ranges@;
    while ranges.len() < MAX_CLIPPING_PLANES
        invariant
            n == planes@.len(),
            n <= MAX_CLIPPING_PLANES,
            ranges@.len() <= MAX_CLIPPING_PLANES,
            filled == planes@,
            ranges@.len() >= n,
            forall|i: int| 0 <= i < n ==> ranges@[i] == planes@[i],
            forall|i: int| n <= i < ranges@.len() ==> ranges@[i] == unused,
        decreases MAX_CLIPPING_PLANES - ranges@.len(),
    {
        ranges.push(unused);
    }
    assert(ranges@ =~= packed_slots(planes@, unused));
    proof {
        lemma_packed_slots(planes@, unused);
    }
    Ok(PackedClippingPlanes { ranges, num_ranges })
}

} // verus!
