use vstd::prelude::*;

verus! {

/// Number of indices drawn for one cuboid: only three faces are drawn, each as
/// two triangles of three vertices.
pub const NUM_CUBE_INDICES: usize = 3 * 3 * 2;

/// The indices for all triangles in a cuboid mesh (given 8 corner vertices).
///
/// The low three bits are the cube corner index (bit 0: x, bit 1: y, bit 2: z);
/// the two bits above them say which of the three drawn faces is being
/// rendered (0: face XY, 1: face XZ, 2: face YZ).
pub const CUBE_INDICES: [u32; NUM_CUBE_INDICES] = [
    0b00_000, 0b00_010, 0b00_001, 0b00_010, 0b00_011, 0b00_001,
    0b01_101, 0b01_100, 0b01_001, 0b01_001, 0b01_100, 0b01_000,
    0b10_000, 0b10_100, 0b10_110, 0b10_000, 0b10_110, 0b10_010,
];

/// The face an encoded index belongs to (its bits above the corner bits).
pub open spec fn face_of(index: u32) -> int {
    index as int / 8
}

/// The cube corner an encoded index names (its three low bits).
pub open spec fn corner_of(index: u32) -> int {
    index as int % 8
}

/// The corner bit that is the same for every corner of a drawn face: the
/// z bit for face XY, the y bit for face XZ and the x bit for face YZ.
pub open spec fn normal_axis_bit(face: int) -> int {
    if face == 0 {
        4
    } else if face == 1 {
        2
    } else {
        1
    }
}

/// Whether a corner lies on the drawn face `face` (the face through corner 0).
pub open spec fn corner_on_face(corner: int, face: int) -> bool {
    (corner / normal_axis_bit(face)) % 2 == 0
}

/// The value of four little-endian bytes.
pub open spec fn le_u32_value(b0: u8, b1: u8, b2: u8, b3: u8) -> int {
    b0 as int + 256 * (b1 as int) + 65536 * (b2 as int) + 16777216 * (b3 as int)
}

/// Byte `k` (0 is the least significant) of a 32-bit word.
pub open spec fn le_byte(word: u32, k: int) -> u8 {
    if k == 0 {
        (word % 256) as u8
    } else if k == 1 {
        ((word / 256) % 256) as u8
    } else if k == 2 {
        ((word / 65536) % 256) as u8
    } else {
        ((word / 16777216) % 256) as u8
    }
}

/// Byte `k` of a word as it stands in memory: in little-endian order byte 0
/// is the least significant, in big-endian order the most significant.
pub open spec fn word_byte(word: u32, k: int, little_endian: bool) -> u8 {
    if little_endian {
        le_byte(word, k)
    } else {
        le_byte(word, 3 - k)
    }
}

/// The four bytes of a word in the given byte order.
pub open spec fn word_bytes(word: u32, little_endian: bool) -> Seq<u8> {
    Seq::new(4, |k: int| word_byte(word, k, little_endian))
}

/// The byte image of a sequence of words in the given byte order.
pub open spec fn bytes_of(words: Seq<u32>, little_endian: bool) -> Seq<u8> {
    Seq::new(4 * words.len(), |j: int| word_byte(words[j / 4], j % 4, little_endian))
}

/// The four little-endian bytes of a word read back give the word.
pub proof fn lemma_le_bytes_round_trip(word: u32)
    ensures
        le_u32_value(le_byte(word, 0), le_byte(word, 1), le_byte(word, 2), le_byte(word, 3))
            == word,
{
    assert((word % 256) + 256 * ((word / 256) % 256) + 65536 * ((word / 65536) % 256) + 16777216
        * ((word / 16777216) % 256) == word) by (bit_vector);
}

/// Reading the bytes of `bytes_of(words, little_endian)` back four at a time,
/// in the same byte order, gives the words back.
pub proof fn lemma_bytes_decode(words: Seq<u32>, little_endian: bool)
    ensures
        forall|i: int|
            0 <= i < words.len() ==> (if little_endian {
                le_u32_value(
                    #[trigger] bytes_of(words, little_endian)[4 * i],
                    bytes_of(words, little_endian)[4 * i + 1],
                    bytes_of(words, little_endian)[4 * i + 2],
                    bytes_of(words, little_endian)[4 * i + 3],
                )
            } else {
                le_u32_value(
                    bytes_of(words, little_endian)[4 * i + 3],
                    bytes_of(words, little_endian)[4 * i + 2],
                    bytes_of(words, little_endian)[4 * i + 1],
                    bytes_of(words, little_endian)[4 * i],
                )
            }) == words[i],
{
    let b = bytes_of(words, little_endian);
    assert forall|i: int| 0 <= i < words.len() implies (if little_endian {
        le_u32_value(#[trigger] b[4 * i], b[4 * i + 1], b[4 * i + 2], b[4 * i + 3])
    } else {
        le_u32_value(b[4 * i + 3], b[4 * i + 2], b[4 * i + 1], b[4 * i])
    }) == words[i] by {
        assert((4 * i) / 4 == i && (4 * i) % 4 == 0);
        assert((4 * i + 1) / 4 == i && (4 * i + 1) % 4 == 1);
        assert((4 * i + 2) / 4 == i && (4 * i + 2) % 4 == 2);
        assert((4 * i + 3) / 4 == i && (4 * i + 3) % 4 == 3);
        lemma_le_bytes_round_trip(words[i]);
    }
}

/// The layout of the index table: every index fits in five bits; indices
/// `6f .. 6f + 6` draw face `f`; every corner they name lies on that face;
/// each of the six triangles has three distinct corners; and the two
/// triangles of a face together reach all four corners of the face.
pub proof fn lemma_cube_indices_layout()
    ensures
        CUBE_INDICES@.len() == NUM_CUBE_INDICES,
        forall|i: int| 0 <= i < NUM_CUBE_INDICES ==> #[trigger] CUBE_INDICES@[i] < 32,
        forall|i: int|
            0 <= i < NUM_CUBE_INDICES ==> face_of(#[trigger] CUBE_INDICES@[i]) == i / 6,
        forall|i: int|
            0 <= i < NUM_CUBE_INDICES ==> corner_on_face(
                corner_of(#[trigger] CUBE_INDICES@[i]),
                i / 6,
            ),
        forall|t: int|
            0 <= t < 6 ==> {
                &&& corner_of(#[trigger] CUBE_INDICES@[3 * t]) != corner_of(
                    CUBE_INDICES@[3 * t + 1],
                )
                &&& corner_of(CUBE_INDICES@[3 * t]) != corner_of(CUBE_INDICES@[3 * t + 2])
                &&& corner_of(CUBE_INDICES@[3 * t + 1]) != corner_of(CUBE_INDICES@[3 * t + 2])
            },
        forall|f: int, c: int|
            0 <= f < 3 && 0 <= c < 8 && #[trigger] corner_on_face(c, f) ==> exists|i: int|
                6 * f <= i < 6 * f + 6 && corner_of(#[trigger] CUBE_INDICES@[i]) == c,
{
    let s = CUBE_INDICES@;
    assert(s =~= seq![
        0u32, 2, 1, 2, 3, 1,
        13, 12, 9, 9, 12, 8,
        16, 20, 22, 16, 22, 18,
    ]);
    assert forall|f: int, c: int|
        0 <= f < 3 && 0 <= c < 8 && #[trigger] corner_on_face(c, f) implies exists|i: int|
            6 * f <= i < 6 * f + 6 && corner_of(#[trigger] CUBE_INDICES@[i]) == c by {
        if f == 0 {
            if c == 0 {
                assert(corner_of(s[0]) == c);
            } else if c == 1 {
                assert(corner_of(s[2]) == c);
            } else if c == 2 {
                assert(corner_of(s[1]) == c);
            } else {
                assert(corner_of(s[4]) == c);
            }
        } else if f == 1 {
            if c == 0 {
                assert(corner_of(s[11]) == c);
            } else if c == 1 {
                assert(corner_of(s[8]) == c);
            } else if c == 4 {
                assert(corner_of(s[7]) == c);
            } else {
                assert(corner_of(s[6]) == c);
            }
        } else {
            if c == 0 {
                assert(corner_of(s[12]) == c);
            } else if c == 2 {
                assert(corner_of(s[17]) == c);
            } else if c == 4 {
                assert(corner_of(s[13]) == c);
            } else {
                assert(corner_of(s[14]) == c);
            }
        }
    }
}

/// Writes each word as four bytes in the given byte order, word after word.
pub fn u32s_to_bytes(words: &[u32], little_endian: bool) -> (bytes: Vec<u8>)
    requires
        4 * words@.len() <= usize::MAX,
    ensures
        bytes@ == bytes_of(words@, little_endian),
{
    let mut bytes: Vec<u8> = Vec::new();
    let n = words.len();
    let mut i: usize = 0;
    while i < n
        invariant
            n == words@.len(),
            4 * n <= usize::MAX,
            i <= n,
            bytes@ =~= bytes_of(words@.take(i as int), little_endian),
        decreases n - i,
    {
        let w = words[i];
        assert((w & 0xff) == w % 256 && ((w >> 8u32) & 0xff) == (w / 256) % 256 && ((w >> 16u32)
            & 0xff) == (w / 65536) % 256 && ((w >> 24u32) & 0xff) == (w / 16777216) % 256)
            by (bit_vector);
        let b0 = (w & 0xff) as u8;
        let b1 = ((w >> 8u32) & 0xff) as u8;
        let b2 = ((w >> 16u32) & 0xff) as u8;
        let b3 = ((w >> 24u32) & 0xff) as u8;
        if little_endian {
            bytes.push(b0);
            bytes.push(b1);
            bytes.push(b2);
            bytes.push(b3);
        } else {
            bytes.push(b3);
            bytes.push(b2);
            bytes.push(b1);
            bytes.push(b0);
        }
        i = i + 1;
        assert(bytes@ =~= bytes_of(words@.take(i as int), little_endian));
    }
    assert(words@.take(n as int) =~= words@);
    bytes
}

/// Calls `u32::to_ne_bytes`, which gives the memory representation of the
/// word in the target's native byte order. Claimed: the result is the four
/// bytes of the word least significant first (little-endian target) or most
/// significant first (big-endian target). Which of the two it is depends on
/// the target and is not stated.
#[verifier::external_body]
fn u32_native_bytes(word: u32) -> (bytes: [u8; 4])
    ensures
        bytes@ == word_bytes(word, true) || bytes@ == word_bytes(word, false),
{
    word.to_ne_bytes()
}

/// The contents of the cuboid index buffer for a target whose native bytes
/// of the word 1 are `probe`: `CUBE_INDICES` in little-endian order when
/// `probe` is the little-endian image of 1, in big-endian order when it is the
/// big-endian image.
pub fn cube_index_bytes_for_probe(probe: [u8; 4]) -> (bytes: Vec<u8>)
    ensures
        forall|little_endian: bool|
            probe@ == word_bytes(1, little_endian) ==> bytes@ == bytes_of(
                CUBE_INDICES@,
                little_endian,
            ),
        bytes@.len() == 4 * NUM_CUBE_INDICES,
{
    proof {
        assert(word_bytes(1, true)[0] == 1);
        assert(word_bytes(1, false)[0] == 0);
    }
    let little_endian = probe[0] == 1;
    let indices = CUBE_INDICES;
    assert(indices@.len() == NUM_CUBE_INDICES);
    u32s_to_bytes(indices.as_slice(), little_endian)
}

/// The contents of the cuboid index buffer: `CUBE_INDICES` as they stand in
/// memory, in the target's native byte order, found from the native bytes of
/// the word 1.
pub fn cube_index_bytes() -> (bytes: Vec<u8>)
    ensures
        bytes@ == bytes_of(CUBE_INDICES@, true) || bytes@ == bytes_of(CUBE_INDICES@, false),
        bytes@.len() == 4 * NUM_CUBE_INDICES,
{
    cube_index_bytes_for_probe(u32_native_bytes(1))
}

} // verus!
