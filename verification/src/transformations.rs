//! Transformations of positions between the engine's "spaces": worldspace, chunkspace, and
//! (full-block or microblock) localspace. All of them are translations and/or scalings by
//! powers of two, applied to every component of an integer vector.
use vstd::prelude::*;
use vstd::arithmetic::div_mod::lemma_fundamental_div_mod_converse;
use crate::math::{IVec2, IVec3, IVec4, ivec2, ivec3};
use crate::face::{Face, Axis3D};

verus! {

/// Describes an integer vector like `IVec3` or `IVec2`: something with `SIZE` `i32` components.
pub trait IntegerVector<const SIZE: usize>: Sized {
    /// The components of the vector, in order.
    spec fn components(&self) -> Seq<i32>;

    fn to_array(self) -> (r: [i32; SIZE])
        ensures
            r@ == self.components(),
    ;

    fn from_array(arr: [i32; SIZE]) -> (r: Self)
        ensures
            r.components() == arr@,
    ;
}

impl IntegerVector<4> for IVec4 {
    open spec fn components(&self) -> Seq<i32> {
        seq![self.x, self.y, self.z, self.w]
    }

    fn to_array(self) -> (r: [i32; 4]) {
        let r = [self.x, self.y, self.z, self.w];
        assert(r@ =~= self.components());
        r
    }

    fn from_array(arr: [i32; 4]) -> (r: Self) {
        let r = IVec4 { x: arr[0], y: arr[1], z: arr[2], w: arr[3] };
        assert(r.components() =~= arr@);
        r
    }
}

impl IntegerVector<3> for IVec3 {
    open spec fn components(&self) -> Seq<i32> {
        seq![self.x, self.y, self.z]
    }

    fn to_array(self) -> (r: [i32; 3]) {
        let r = [self.x, self.y, self.z];
        assert(r@ =~= self.components());
        r
    }

    fn from_array(arr: [i32; 3]) -> (r: Self) {
        let r = IVec3 { x: arr[0], y: arr[1], z: arr[2] };
        assert(r.components() =~= arr@);
        r
    }
}

impl IntegerVector<2> for IVec2 {
    open spec fn components(&self) -> Seq<i32> {
        seq![self.x, self.y]
    }

    fn to_array(self) -> (r: [i32; 2]) {
        let r = [self.x, self.y];
        assert(r@ =~= self.components());
        r
    }

    fn from_array(arr: [i32; 2]) -> (r: Self) {
        let r = IVec2 { x: arr[0], y: arr[1] };
        assert(r.components() =~= arr@);
        r
    }
}

/// `2^n` as an integer, for the shift amounts used here.
pub open spec fn pow2i(n: u32) -> int
    decreases n,
{
    if n == 0 {
        1
    } else {
        2 * pow2i((n - 1) as u32)
    }
}

proof fn lemma_shift_is_pow2(n: u32)
    requires
        n < 31,
    ensures
        (1i32 << n) as int == pow2i(n),
        pow2i(n) >= 1,
    decreases n,
{
    if n == 0 {
        assert((1i32 << 0u32) == 1i32) by (bit_vector);
    } else {
        lemma_shift_is_pow2((n - 1) as u32);
        assert((1i32 << n) as int == 2 * ((1i32 << ((n - 1) as u32)) as int)) by (bit_vector)
            requires 0 < n < 31;
    }
}

proof fn lemma_shift_div_mod(x: i32, n: u32)
    requires
        n < 31,
    ensures
        (x >> n) as int == x as int / pow2i(n),
        (x & (((1i32 << n) - 1) as i32)) as int == x as int % pow2i(n),
{
    assert((x & (((1i32 << n) - 1) as i32)) + ((x >> n) as int) * ((1i32 << n) as int) == x as int) by (bit_vector)
        requires n < 31;
    assert(0 <= (x & (((1i32 << n) - 1) as i32)) < (1i32 << n)) by (bit_vector)
        requires n < 31;
    lemma_shift_is_pow2(n);
    lemma_fundamental_div_mod_converse(x as int, pow2i(n), (x >> n) as int, (x & (((1i32 << n) - 1) as i32)) as int);
}

/// Calculate the remainder of `x / 2^n`, always in `0..2^n` (euclidean remainder).
pub(crate) fn rem_2_pow_n(x: i32, n: u32) -> (r: i32)
    requires
        n < 31,
    ensures
        r as int == x as int % pow2i(n),
        0 <= r < pow2i(n),
{
    proof {
        lemma_shift_div_mod(x, n);
        lemma_shift_is_pow2(n);
    }
    let pow: i32 = 0b1 << n;
    x & ((pow - 1) as i32)
}

/// Calculate the floor of `x / 2^n`.
pub(crate) fn div_2_pow_n(x: i32, n: u32) -> (r: i32)
    requires
        n < 31,
    ensures
        r as int == x as int / pow2i(n),
{
    proof {
        lemma_shift_div_mod(x, n);
    }
    x >> n
}

/// The full-block dimensions of a chunk. The number of blocks in a chunk will be
/// `CHUNK_FULL_BLOCK_DIMS ^ 3`.
pub const CHUNK_FULL_BLOCK_DIMS: u32 = 16u32;
pub const CHUNK_FULL_BLOCK_DIMS_LOG2: u32 = 4u32;

/// The microblock dimensions of a full-block. The number of microblocks in a
/// full-block will be `FULL_BLOCK_MICROBLOCK_DIMS ^ 3`.
pub const FULL_BLOCK_MICROBLOCK_DIMS: u32 = 4u32;
pub const FULL_BLOCK_MICROBLOCK_DIMS_LOG2: u32 = 2u32;

/// The microblock dimensions of a chunk. The number of microblocks in a chunk
/// will be `CHUNK_MICROBLOCK_DIMS ^ 3`.
pub const CHUNK_MICROBLOCK_DIMS: u32 = 64u32;
pub const CHUNK_MICROBLOCK_DIMS_LOG2: u32 = 6u32;

/// The dimension constants are powers of two whose logarithms are the `_LOG2` constants,
/// and the microblock dimensions of a chunk are the product of the two others.
pub proof fn lemma_dimension_constants()
    ensures
        pow2i(CHUNK_FULL_BLOCK_DIMS_LOG2) == CHUNK_FULL_BLOCK_DIMS,
        pow2i(FULL_BLOCK_MICROBLOCK_DIMS_LOG2) == FULL_BLOCK_MICROBLOCK_DIMS,
        pow2i(CHUNK_MICROBLOCK_DIMS_LOG2) == CHUNK_MICROBLOCK_DIMS,
        CHUNK_MICROBLOCK_DIMS == CHUNK_FULL_BLOCK_DIMS * FULL_BLOCK_MICROBLOCK_DIMS,
        CHUNK_FULL_BLOCK_DIMS <= i32::MAX,
{
    reveal_with_fuel(pow2i, 7);
}

/// `true` if `out` holds `f` applied to every component of `input`.
pub open spec fn maps_components(input: Seq<i32>, out: Seq<i32>, f: spec_fn(i32) -> int) -> bool {
    &&& out.len() == input.len()
    &&& forall|i: int| 0 <= i < input.len() ==> out[i] as int == f(#[trigger] input[i])
}

/// Multiply every component by `k`.
fn scale_components<const SIZE: usize, T: IntegerVector<SIZE>>(input: T, k: i32) -> (r: T)
    requires
        forall|i: int| 0 <= i < SIZE ==> i32::MIN <= #[trigger] input.components()[i] * k <= i32::MAX,
    ensures
        maps_components(input.components(), r.components(), |e: i32| e * k),
{
    let mut arr = input.to_array();
    let ghost orig = arr@;
    let mut i: usize = 0;
    while i < SIZE
        invariant
            0 <= i <= SIZE,
            orig == input.components(),
            arr@.len() == SIZE,
            orig.len() == SIZE,
            forall|j: int| 0 <= j < SIZE ==> i32::MIN <= #[trigger] orig[j] * k <= i32::MAX,
            forall|j: int| 0 <= j < i ==> arr@[j] == orig[j] * k,
            forall|j: int| i <= j < SIZE ==> arr@[j] == orig[j],
        decreases SIZE - i,
    {
        let e = arr[i];
        assert(e == orig[i as int]);
        arr[i] = e * k;
        i = i + 1;
    }
    T::from_array(arr)
}

/// Floor-divide every component by `2^n`.
fn div_components<const SIZE: usize, T: IntegerVector<SIZE>>(input: T, n: u32) -> (r: T)
    requires
        n < 31,
    ensures
        maps_components(input.components(), r.components(), |e: i32| e as int / pow2i(n)),
{
    let mut arr = input.to_array();
    let ghost orig = arr@;
    let mut i: usize = 0;
    while i < SIZE
        invariant
            0 <= i <= SIZE,
            n < 31,
            orig == input.components(),
            arr@.len() == SIZE,
            orig.len() == SIZE,
            forall|j: int| 0 <= j < i ==> arr@[j] as int == orig[j] as int / pow2i(n),
            forall|j: int| i <= j < SIZE ==> arr@[j] == orig[j],
        decreases SIZE - i,
    {
        let e = arr[i];
        arr[i] = div_2_pow_n(e, n);
        i = i + 1;
    }
    T::from_array(arr)
}

/// Take the euclidean remainder of every component by `2^n`.
fn rem_components<const SIZE: usize, T: IntegerVector<SIZE>>(input: T, n: u32) -> (r: T)
    requires
        n < 31,
    ensures
        maps_components(input.components(), r.components(), |e: i32| e as int % pow2i(n)),
{
    let mut arr = input.to_array();
    let ghost orig = arr@;
    let mut i: usize = 0;
    while i < SIZE
        invariant
            0 <= i <= SIZE,
            n < 31,
            orig == input.components(),
            arr@.len() == SIZE,
            orig.len() == SIZE,
            forall|j: int| 0 <= j < i ==> arr@[j] as int == orig[j] as int % pow2i(n),
            forall|j: int| i <= j < SIZE ==> arr@[j] == orig[j],
        decreases SIZE - i,
    {
        let e = arr[i];
        arr[i] = rem_2_pow_n(e, n);
        i = i + 1;
    }
    T::from_array(arr)
}

/// `true` if every component of `v` times `k` fits in an `i32`.
pub open spec fn scalable_by(v: Seq<i32>, k: int) -> bool {
    forall|i: int| 0 <= i < v.len() ==> i32::MIN <= #[trigger] v[i] * k <= i32::MAX
}

/// World full-block position of a chunk's minimum corner from chunk position.
pub fn chunkspace_to_worldspace_min<const SIZE: usize, T: IntegerVector<SIZE>>(input: T) -> (r: T)
    requires
        input.components().len() == SIZE,
        scalable_by(input.components(), 16),
    ensures
        maps_components(input.components(), r.components(), |e: i32| e * 16),
{
    scale_components(input, CHUNK_FULL_BLOCK_DIMS as i32)
}

/// World microblock position of a chunk's minimum corner from chunk position.
pub fn chunkspace_to_mb_worldspace_min<const SIZE: usize, T: IntegerVector<SIZE>>(input: T) -> (r: T)
    requires
        input.components().len() == SIZE,
        scalable_by(input.components(), 64),
    ensures
        maps_components(input.components(), r.components(), |e: i32| e * 64),
{
    scale_components(input, CHUNK_MICROBLOCK_DIMS as i32)
}

/// Chunk position from world full-block position.
pub fn fb_worldspace_to_chunkspace<const SIZE: usize, T: IntegerVector<SIZE>>(input: T) -> (r: T)
    ensures
        maps_components(input.components(), r.components(), |e: i32| e as int / 16),
{
    proof {
        lemma_dimension_constants();
    }
    div_components(input, CHUNK_FULL_BLOCK_DIMS_LOG2)
}

/// Chunk position from world microblock position.
pub fn mb_worldspace_to_chunkspace<const SIZE: usize, T: IntegerVector<SIZE>>(input: T) -> (r: T)
    ensures
        maps_components(input.components(), r.components(), |e: i32| e as int / 64),
{
    proof {
        lemma_dimension_constants();
    }
    div_components(input, CHUNK_MICROBLOCK_DIMS_LOG2)
}

/// Local chunk position from local full-block position. In local chunkspace the chunk we're
/// localized to is at `[0, 0, 0]`.
pub fn fb_localspace_to_local_chunkspace<const SIZE: usize, T: IntegerVector<SIZE>>(input: T) -> (r: T)
    ensures
        maps_components(input.components(), r.components(), |e: i32| e as int / 16),
{
    proof {
        lemma_dimension_constants();
    }
    div_components(input, CHUNK_FULL_BLOCK_DIMS_LOG2)
}

/// Local chunk position from local microblock position.
pub fn mb_localspace_to_local_chunkspace<const SIZE: usize, T: IntegerVector<SIZE>>(input: T) -> (r: T)
    ensures
        maps_components(input.components(), r.components(), |e: i32| e as int / 64),
{
    proof {
        lemma_dimension_constants();
    }
    div_components(input, CHUNK_MICROBLOCK_DIMS_LOG2)
}

/// Local full-block position from world full-block position.
pub fn fb_worldspace_to_fb_localspace<const SIZE: usize, T: IntegerVector<SIZE>>(input: T) -> (r: T)
    ensures
        maps_components(input.components(), r.components(), |e: i32| e as int % 16),
{
    proof {
        lemma_dimension_constants();
    }
    rem_components(input, CHUNK_FULL_BLOCK_DIMS_LOG2)
}

/// Wrap a local full-block position (possibly outside of chunk bounds) around into chunk bounds.
pub fn fb_localspace_wrap<const SIZE: usize, T: IntegerVector<SIZE>>(input: T) -> (r: T)
    ensures
        maps_components(input.components(), r.components(), |e: i32| e as int % 16),
{
    proof {
        lemma_dimension_constants();
    }
    rem_components(input, CHUNK_FULL_BLOCK_DIMS_LOG2)
}

/// Local microblock position from world microblock position.
pub fn mb_worldspace_to_mb_localspace<const SIZE: usize, T: IntegerVector<SIZE>>(input: T) -> (r: T)
    ensures
        maps_components(input.components(), r.components(), |e: i32| e as int % 64),
{
    proof {
        lemma_dimension_constants();
    }
    rem_components(input, CHUNK_MICROBLOCK_DIMS_LOG2)
}

/// Wrap a local microblock position (possibly outside of chunk bounds) around into chunk bounds.
pub fn mb_localspace_wrap<const SIZE: usize, T: IntegerVector<SIZE>>(input: T) -> (r: T)
    ensures
        maps_components(input.components(), r.components(), |e: i32| e as int % 64),
{
    proof {
        lemma_dimension_constants();
    }
    rem_components(input, CHUNK_MICROBLOCK_DIMS_LOG2)
}

/// Local full-block position from local microblock position.
pub fn mb_localspace_to_fb_localspace<const SIZE: usize, T: IntegerVector<SIZE>>(input: T) -> (r: T)
    ensures
        maps_components(input.components(), r.components(), |e: i32| e as int / 4),
{
    proof {
        lemma_dimension_constants();
    }
    div_components(input, FULL_BLOCK_MICROBLOCK_DIMS_LOG2)
}

/// Wrapping a local position and adding back the chunk offset gives the position back:
/// every component `e` is `16 * (e / 16) + e % 16`, and the wrapped part lies in `0..16`.
/// The same holds at microblock resolution with `64`.
pub proof fn lemma_chunk_split(e: int)
    ensures
        e == 16 * (e / 16) + e % 16,
        0 <= e % 16 < 16,
        e == 64 * (e / 64) + e % 64,
        0 <= e % 64 < 64,
        (e * 16) / 16 == e,
        (e * 64) / 64 == e,
{
    vstd::arithmetic::div_mod::lemma_fundamental_div_mod(e, 16);
    vstd::arithmetic::div_mod::lemma_fundamental_div_mod(e, 64);
    vstd::arithmetic::div_mod::lemma_div_multiples_vanish(e, 16);
    vstd::arithmetic::div_mod::lemma_div_multiples_vanish(e, 64);
    assert(e * 16 == 16 * e) by (nonlinear_arith);
    assert(e * 64 == 64 * e) by (nonlinear_arith);
}

/// Project a 2D position on a face onto 3D space, with the given magnitude along the face's axis.
pub fn ivec_project_to_3d(pos: IVec2, face: Face, mag: i32) -> (r: IVec3)
    ensures
        r == spec_project_to_3d(pos, face, mag),
{
    match face.axis() {
        Axis3D::X => ivec3(mag, pos.y, pos.x),
        Axis3D::Y => ivec3(pos.x, mag, pos.y),
        Axis3D::Z => ivec3(pos.x, pos.y, mag),
    }
}

pub open spec fn spec_project_to_3d(pos: IVec2, face: Face, mag: i32) -> IVec3 {
    match face.spec_axis() {
        Axis3D::X => IVec3 { x: mag, y: pos.y, z: pos.x },
        Axis3D::Y => IVec3 { x: pos.x, y: mag, z: pos.y },
        Axis3D::Z => IVec3 { x: pos.x, y: pos.y, z: mag },
    }
}

pub open spec fn spec_project_to_2d(pos: IVec3, face: Face) -> IVec2 {
    match face.spec_axis() {
        Axis3D::X => IVec2 { x: pos.z, y: pos.y },
        Axis3D::Y => IVec2 { x: pos.x, y: pos.z },
        Axis3D::Z => IVec2 { x: pos.x, y: pos.y },
    }
}

/// Project a 3D position onto the plane of a face.
pub fn ivec_project_to_2d(pos: IVec3, face: Face) -> (r: IVec2)
    ensures
        r == spec_project_to_2d(pos, face),
{
    match face.axis() {
        Axis3D::X => ivec2(pos.z, pos.y),
        Axis3D::Y => ivec2(pos.x, pos.z),
        Axis3D::Z => ivec2(pos.x, pos.y),
    }
}

/// Projecting to 3D and back to 2D gives the 2D position back.
pub proof fn lemma_project_roundtrip(pos: IVec2, face: Face, mag: i32)
    ensures
        spec_project_to_2d(spec_project_to_3d(pos, face, mag), face) == pos,
{
}

} // verus!
